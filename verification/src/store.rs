//! The store: an index over a log, and the rule that keeps the log short.
//!
//! The store never touches a file. `open` takes the bytes of the log, and
//! each change of the index comes back with a [`LogUpdate`] that says what to
//! write. A caller that carries every update out has, at every moment, a file
//! that `open` reads as the index that the store holds.

use crate::command::{
    encoded, index_of, lemma_storable_reads_back, storable, write_command, Command, LogCommand,
};
use crate::error::{KeyNotFoundOnRemove, KvError};
use crate::frame::{frame, frame_of};
use crate::index::{lookup, text_of, Index};
use crate::log::{
    all_storable, apply_command, is_compact_log, lemma_index_of_puts, lemma_replay_append, replay,
    replay_log, rewrite_log,
};
use vstd::prelude::*;

verus! {

/// The log is rewritten once it holds this many records for each live key.
pub const COMPACTION_FACTOR: u128 = 3;

/// The counter of records stays below this: a log holds fewer than three
/// records for each live key once the rule has been applied, and a log that
/// was just opened fewer than it has bytes.
pub const RECORDS_MAX: u128 = 3 * (usize::MAX as u128) + 1;

/// Whether a log of `records` records is due for a rewrite when `live` keys
/// are live.
pub open spec fn compaction_due(records: nat, live: nat) -> bool {
    records >= COMPACTION_FACTOR * live
}

/// Whether a log of `records` records is due for a rewrite when `live` keys
/// are live.
pub fn is_compaction_due(records: u128, live: usize) -> (due: bool)
    ensures
        due == compaction_due(records as nat, live as nat),
{
    records >= COMPACTION_FACTOR * live as u128
}

/// What an operation asks of the log file.
#[derive(Debug, PartialEq, Eq)]
pub enum LogUpdate {
    /// Write the bytes behind the end of the file.
    Append(Vec<u8>),
    /// Cut the file down to nothing, then write the bytes.
    Rewrite(Vec<u8>),
}

impl LogUpdate {
    /// The log after the update.
    pub open spec fn applied_to(self, log: Seq<u8>) -> Seq<u8> {
        match self {
            LogUpdate::Append(bytes) => log + bytes@,
            LogUpdate::Rewrite(bytes) => bytes@,
        }
    }

    /// Whether the update appends exactly `bytes`.
    pub open spec fn appends(self, bytes: Seq<u8>) -> bool {
        self matches LogUpdate::Append(own) && own@ == bytes
    }

    /// Carries the update out on a log held in memory.
    pub fn apply(&self, log: &mut Vec<u8>)
        ensures
            final(log)@ == self.applied_to(old(log)@),
    {
        match self {
            LogUpdate::Append(bytes) => {
                log.extend_from_slice(bytes.as_slice());
            },
            LogUpdate::Rewrite(bytes) => {
                log.clear();
                log.extend_from_slice(bytes.as_slice());
            },
        }
    }
}

/// A key-value store whose keys and values are strings.
pub struct KvStore {
    /// The live keys and their values.
    index: Index,
    /// The number of records in the log.
    recs: u128,
    /// The log, as the updates handed out so far leave it.
    log: Ghost<Seq<u8>>,
}

impl View for KvStore {
    type V = Map<Seq<char>, Seq<char>>;

    closed spec fn view(&self) -> Map<Seq<char>, Seq<char>> {
        self.index@
    }
}

impl KvStore {
    /// The bytes of the log.
    pub closed spec fn log(&self) -> Seq<u8> {
        self.log@
    }

    /// The number of records in the log.
    pub closed spec fn records(&self) -> nat {
        self.recs as nat
    }

    /// The parts of the index agree with each other.
    pub closed spec fn index_wf(&self) -> bool {
        self.index.wf()
    }

    /// The store agrees with its log: the log replays without fault, the index
    /// is what its commands build, and the counter is their number. Each live
    /// binding can be written again.
    pub open spec fn wf(&self) -> bool {
        &&& self.index_wf()
        &&& all_storable(self@)
        &&& replay(self.log()) is Ok
        &&& self@ == index_of(replay(self.log())->Ok_0)
        &&& self.records() == replay(self.log())->Ok_0.len()
        &&& self.records() < RECORDS_MAX
    }

    /// What recording `command` makes of a store: the command is applied, and
    /// the log is either longer by the command's frame or, where that makes it
    /// due for a rewrite, rewritten.
    pub open spec fn recorded(self, command: Command, update: LogUpdate, after: KvStore) -> bool {
        &&& storable(command)
        &&& after@ == command.apply(self@)
        &&& after.log() == update.applied_to(self.log())
        &&& if compaction_due(self.records() + 1, after@.len()) {
            &&& update is Rewrite
            &&& is_compact_log(after.log(), after@)
            &&& after.records() == after@.len()
        } else {
            &&& update.appends(frame_of(encoded(command)->Some_0))
            &&& after.records() == self.records() + 1
        }
    }

    /// A store over an empty log.
    pub fn new() -> (store: KvStore)
        ensures
            store.wf(),
            store@ == Map::<Seq<char>, Seq<char>>::empty(),
            store.log() == Seq::<u8>::empty(),
            store.records() == 0,
    {
        KvStore { index: Index::new(), recs: 0, log: Ghost(Seq::empty()) }
    }

    /// Opens the store over the bytes of its log file: replays the log from
    /// its start. It fails with the first fault of the log.
    pub fn open(log: &[u8]) -> (res: Result<KvStore, KvError>)
        ensures
            match res {
                Ok(store) => store.wf() && store.log() == log@,
                Err(e) => replay(log@) == Err::<Seq<Command>, KvError>(e),
            },
    {
        match replay_log(log) {
            Ok((index, recs)) => {
                assert(log@.len() == log.len());
                Ok(KvStore { index, recs, log: Ghost(log@) })
            },
            Err(e) => Err(e),
        }
    }

    /// The number of records in the log.
    pub fn record_count(&self) -> (n: u128)
        ensures
            n == self.records(),
    {
        self.recs
    }

    /// The number of live keys.
    pub fn len(&self) -> (n: usize)
        requires
            self.wf(),
        ensures
            n == self@.len(),
    {
        self.index.len()
    }

    /// Gets the value of a key, or `None` where the key is not live.
    pub fn get(&self, k: String) -> (res: Result<Option<String>, KvError>)
        requires
            self.wf(),
        ensures
            res is Ok,
            text_of(res->Ok_0) == lookup(self@, k@),
    {
        match self.index.get(k.as_str()) {
            Some(value) => Ok(Some(value.clone())),
            None => Ok(None),
        }
    }

    /// Binds a key to a value, whatever the key was bound to, and says what to
    /// write to the log. It fails, and changes nothing, where the command cannot
    /// be stored.
    pub fn set(&mut self, k: String, v: String) -> (res: Result<LogUpdate, KvError>)
        requires
            old(self).wf(),
        ensures
            final(self).wf(),
            match res {
                Ok(update) => old(self).recorded(Command::Put(k@, v@), update, *final(self)),
                Err(e) => {
                    &&& e == KvError::Serialization
                    &&& !storable(Command::Put(k@, v@))
                    &&& *final(self) == *old(self)
                },
            },
    {
        let command = LogCommand::Put(k, v);
        match write_command(&command) {
            Ok(payload) => Ok(self.record(command, payload).1),
            Err(e) => Err(e),
        }
    }

    /// Unbinds a key, returns the value that it was bound to and says what to
    /// write to the log. It fails, and changes nothing, where the key is not
    /// live or the command cannot be stored.
    pub fn remove(&mut self, k: String) -> (res: Result<(Option<String>, LogUpdate), KvError>)
        requires
            old(self).wf(),
        ensures
            final(self).wf(),
            match res {
                Ok((value, update)) => {
                    &&& value is Some
                    &&& text_of(value) == lookup(old(self)@, k@)
                    &&& old(self).recorded(Command::Rm(k@), update, *final(self))
                },
                Err(e) => {
                    &&& *final(self) == *old(self)
                    &&& if old(self)@.contains_key(k@) {
                        e == KvError::Serialization && !storable(Command::Rm(k@))
                    } else {
                        e == KvError::KeyNotFound(KeyNotFoundOnRemove)
                    }
                },
            },
    {
        if self.index.get(k.as_str()).is_none() {
            return Err(KvError::KeyNotFound(KeyNotFoundOnRemove));
        }
        let command = LogCommand::Rm(k);
        match write_command(&command) {
            Ok(payload) => Ok(self.record(command, payload)),
            Err(e) => Err(e),
        }
    }

    /// Records a command whose payload is at hand: applies it to the index,
    /// counts its frame, and rewrites the log where that makes it due. Returns
    /// the value that an `Rm` unbound, and what to write to the log.
    pub fn record(&mut self, command: LogCommand, payload: Vec<u8>) -> (res: (
        Option<String>,
        LogUpdate,
    ))
        requires
            old(self).wf(),
            storable(command@),
            encoded(command@) == Some(payload@),
        ensures
            final(self).wf(),
            old(self).recorded(command@, res.1, *final(self)),
            text_of(res.0) == match command@ {
                Command::Put(_, _) => None,
                Command::Rm(key) => lookup(old(self)@, key),
            },
    {
        proof {
            lemma_storable_reads_back(command@);
            assert(payload@.len() == payload.len());
            lemma_replay_append(self.log@, payload@);
            let done = replay(self.log@)->Ok_0;
            assert(done.push(command@).drop_last() =~= done);
        }
        let appended = frame(payload.as_slice());
        let gone = apply_command(&mut self.index, command);
        self.recs = self.recs + 1;
        self.log = Ghost(self.log@ + appended@);
        let update = self.maybe_compact_(appended);
        (gone, update)
    }

    /// Rewrites the log where it is due, and hands the appended bytes on where
    /// it is not.
    fn maybe_compact_(&mut self, appended: Vec<u8>) -> (update: LogUpdate)
        requires
            old(self).index.wf(),
            all_storable(old(self)@),
            replay(old(self).log()) is Ok,
            old(self)@ == index_of(replay(old(self).log())->Ok_0),
            old(self).records() == replay(old(self).log())->Ok_0.len(),
            old(self).records() <= RECORDS_MAX,
        ensures
            final(self).wf(),
            final(self)@ == old(self)@,
            if compaction_due(old(self).records(), old(self)@.len()) {
                &&& update matches LogUpdate::Rewrite(bytes) && final(self).log() == bytes@
                &&& is_compact_log(final(self).log(), final(self)@)
                &&& final(self).records() == final(self)@.len()
            } else {
                &&& update == LogUpdate::Append(appended)
                &&& final(self).log() == old(self).log()
                &&& final(self).records() == old(self).records()
            },
    {
        let live: usize = self.index.len();
        if !is_compaction_due(self.recs, live) {
            return LogUpdate::Append(appended);
        }
        let bytes = rewrite_log(&self.index);
        proof {
            self.index.lemma_listing();
            lemma_index_of_puts(self.index.listing(), self.index@);
        }
        self.recs = live as u128;
        self.log = Ghost(bytes@);
        LogUpdate::Rewrite(bytes)
    }
}

} // verus!
