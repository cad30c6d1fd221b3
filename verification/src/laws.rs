//! What holds of every store, whatever was done to it.

use crate::command::{encoded, index_of, lemma_storable_reads_back, Command};
use crate::index::lookup;
use crate::log::{lemma_compact_log, lemma_index_of_len, lemma_replay_append, replay};
use crate::store::{compaction_due, KvStore, LogUpdate, COMPACTION_FACTOR};
use vstd::prelude::*;

verus! {

/// Replay equivalence. A store agrees with its log, and every operation
/// keeps it so. Hence the log of a store replays without fault, and a store
/// opened over that log holds the same bindings and counts the same records.
pub proof fn lemma_replay_equivalence(store: KvStore, reopened: KvStore)
    requires
        store.wf(),
        reopened.wf(),
        reopened.log() == store.log(),
    ensures
        replay(store.log()) is Ok,
        reopened@ == store@,
        reopened.records() == store.records(),
{
}

/// The log holds at least one record for each live key.
pub proof fn lemma_records_cover_keys(store: KvStore)
    requires
        store.wf(),
    ensures
        store@.dom().finite(),
        store@.len() <= store.records(),
{
    lemma_index_of_len(replay(store.log())->Ok_0);
}

/// Last write wins. After two `set`s of one key the key is bound to the
/// second value.
pub proof fn lemma_last_write_wins(
    before: KvStore,
    between: KvStore,
    after: KvStore,
    key: Seq<char>,
    first: Seq<char>,
    second: Seq<char>,
    update1: LogUpdate,
    update2: LogUpdate,
)
    requires
        before.recorded(Command::Put(key, first), update1, between),
        between.recorded(Command::Put(key, second), update2, after),
    ensures
        lookup(after@, key) == Some(second),
{
}

/// A `set` changes what no other key is bound to.
pub proof fn lemma_set_leaves_other_keys(
    before: KvStore,
    after: KvStore,
    key: Seq<char>,
    value: Seq<char>,
    update: LogUpdate,
    other: Seq<char>,
)
    requires
        before.recorded(Command::Put(key, value), update, after),
        other != key,
    ensures
        lookup(after@, key) == Some(value),
        lookup(after@, other) == lookup(before@, other),
{
}

/// A `remove` that succeeds unbinds its key and changes what no other key
/// is bound to. (One that fails leaves the whole store as it was: `remove`
/// says so itself.)
pub proof fn lemma_remove_leaves_other_keys(
    before: KvStore,
    after: KvStore,
    key: Seq<char>,
    update: LogUpdate,
    other: Seq<char>,
)
    requires
        before.recorded(Command::Rm(key), update, after),
        other != key,
    ensures
        lookup(after@, key) is None,
        lookup(after@, other) == lookup(before@, other),
{
}

/// Compaction bound. After a `set` or a `remove` the log holds at most three
/// records for each live key: fewer where it was appended to, one for each
/// where it was rewritten.
pub proof fn lemma_compaction_bound(
    before: KvStore,
    command: Command,
    update: LogUpdate,
    after: KvStore,
)
    requires
        before.recorded(command, update, after),
    ensures
        after.records() <= COMPACTION_FACTOR * after@.len(),
        update is Append ==> after.records() < COMPACTION_FACTOR * after@.len(),
        update is Rewrite ==> after.records() == after@.len(),
{
}

/// One step of replay equivalence. What recording a command leaves behind
/// agrees with its log again: the log that the update leaves replays without
/// fault, to the bindings that the command decides, from as many records as
/// the store counts.
pub proof fn lemma_recorded_agrees(
    before: KvStore,
    command: Command,
    update: LogUpdate,
    after: KvStore,
)
    requires
        before.wf(),
        before.recorded(command, update, after),
    ensures
        after.log() == update.applied_to(before.log()),
        replay(after.log()) is Ok,
        index_of(replay(after.log())->Ok_0) == after@,
        replay(after.log())->Ok_0.len() == after.records(),
{
    if compaction_due(before.records() + 1, after@.len()) {
        lemma_compact_log(after.log(), after@);
    } else {
        let payload = encoded(command)->Some_0;
        let appended = update->Append_0;
        assert(appended@.len() == appended.len());
        lemma_storable_reads_back(command);
        lemma_replay_append(before.log(), payload);
        let done = replay(before.log())->Ok_0;
        assert(done.push(command).drop_last() =~= done);
    }
}

/// Compaction transparency. Whether an operation appends to the log or
/// rewrites it, every key is bound as the command alone decides, in the store
/// and in what its log replays to.
pub proof fn lemma_compaction_transparency(
    before: KvStore,
    command: Command,
    update: LogUpdate,
    after: KvStore,
    key: Seq<char>,
)
    requires
        before.wf(),
        before.recorded(command, update, after),
    ensures
        lookup(after@, key) == lookup(command.apply(before@), key),
        replay(after.log()) is Ok,
        lookup(index_of(replay(after.log())->Ok_0), key) == lookup(command.apply(before@), key),
{
    lemma_recorded_agrees(before, command, update, after);
}

} // verus!
