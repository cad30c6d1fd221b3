//! The log: the frames of command payloads, one after another.

use crate::command::{
    encode_put, index_of, lemma_payload_command_storable, payload_command, read_command, storable,
    Command, LogCommand,
};
use crate::error::KvError;
use crate::frame::{
    after_first, first_payload, frame_end, frame_of, lemma_frame_first, push_frame,
    starts_with_frame, PREFIX_LEN,
};
use crate::index::{lemma_lists_len, lists, lookup, text_of, Index};
use vstd::prelude::*;
use vstd::slice::slice_subrange;

verus! {

/// What reading a log from its start gives: the commands of its frames in
/// their order, or the first fault. An empty rest ends the log; a rest that
/// is no whole frame is a corrupt log; a payload that is no command is a
/// serialization fault.
pub open spec fn replay(log: Seq<u8>) -> Result<Seq<Command>, KvError>
    decreases log.len(),
{
    if log.len() == 0 {
        Ok(Seq::empty())
    } else if !starts_with_frame(log) {
        Err(KvError::CorruptLog)
    } else {
        match payload_command(first_payload(log)) {
            None => Err(KvError::Serialization),
            Some(command) => match replay(after_first(log)) {
                Ok(rest) => Ok(seq![command] + rest),
                Err(e) => Err(e),
            },
        }
    }
}

/// The commands that bind each key of a sequence of pairs to its value.
pub open spec fn puts_of(pairs: Seq<(Seq<char>, Seq<char>)>) -> Seq<Command> {
    pairs.map_values(|pair: (Seq<char>, Seq<char>)| Command::Put(pair.0, pair.1))
}

/// Whether a log holds the bindings of an index and nothing else: one frame
/// for each binding, a `Put` of its key and value, in some order.
pub open spec fn is_compact_log(log: Seq<u8>, index: Map<Seq<char>, Seq<char>>) -> bool {
    exists|pairs: Seq<(Seq<char>, Seq<char>)>| #[trigger]
        lists(pairs, index) && replay(log) == Ok::<Seq<Command>, KvError>(puts_of(pairs))
}

/// Whether each binding of an index can go into the log as a command.
pub open spec fn all_storable(index: Map<Seq<char>, Seq<char>>) -> bool {
    forall|key: Seq<char>| #[trigger]
        index.contains_key(key) ==> storable(Command::Put(key, index[key]))
}

/// What replaying two logs one after the other gives, where the first one
/// replays without fault.
pub open spec fn replay_after(done: Seq<Command>, rest: Seq<u8>) -> Result<Seq<Command>, KvError> {
    match replay(rest) {
        Ok(commands) => Ok(done + commands),
        Err(e) => Err(e),
    }
}

/// A log behind a log that replays without fault replays as the commands of
/// the first followed by what the second replays as.
pub proof fn lemma_replay_concat(first: Seq<u8>, second: Seq<u8>)
    requires
        replay(first) is Ok,
    ensures
        replay(first + second) == replay_after(replay(first)->Ok_0, second),
    decreases first.len(),
{
    let whole = first + second;
    if first.len() > 0 {
        assert(first_payload(whole) =~= first_payload(first));
        assert(after_first(whole) =~= after_first(first) + second);
        let command = payload_command(first_payload(first))->Some_0;
        lemma_replay_concat(after_first(first), second);
        let tail = replay(after_first(first))->Ok_0;
        match replay(second) {
            Ok(commands) => {
                assert(seq![command] + (tail + commands) =~= (seq![command] + tail) + commands);
            },
            Err(_) => {},
        }
    }
}

/// One frame replays as the command of its payload.
pub proof fn lemma_replay_frame(payload: Seq<u8>)
    requires
        payload.len() <= u64::MAX,
    ensures
        replay(frame_of(payload)) == match payload_command(payload) {
            Some(command) => Ok::<Seq<Command>, KvError>(seq![command]),
            None => Err(KvError::Serialization),
        },
{
    lemma_frame_first(payload, Seq::empty());
    assert(replay(Seq::<u8>::empty()) == Ok::<Seq<Command>, KvError>(Seq::empty()));
}

/// Appending the frame of a command's payload to a log that replays without
/// fault appends the command to what it replays as.
pub proof fn lemma_replay_append(log: Seq<u8>, payload: Seq<u8>)
    requires
        replay(log) is Ok,
        payload.len() <= u64::MAX,
        payload_command(payload) is Some,
    ensures
        replay(log + frame_of(payload)) == Ok::<Seq<Command>, KvError>(
            replay(log)->Ok_0.push(payload_command(payload)->Some_0),
        ),
{
    lemma_replay_concat(log, frame_of(payload));
    lemma_replay_frame(payload);
    let done = replay(log)->Ok_0;
    let command = payload_command(payload)->Some_0;
    assert(done + seq![command] =~= done.push(command));
}

/// The commands that bind the pairs of a listing build the index that the
/// listing lists.
pub proof fn lemma_index_of_puts(pairs: Seq<(Seq<char>, Seq<char>)>, index: Map<Seq<char>, Seq<char>>)
    requires
        lists(pairs, index),
    ensures
        index_of(puts_of(pairs)) == index,
{
    lemma_index_of_puts_prefix(pairs, pairs.len());
    assert(pairs.take(pairs.len() as int) =~= pairs);
    let built = index_of(puts_of(pairs));
    assert(built =~= index) by {
        assert forall|key: Seq<char>| built.contains_key(key) implies index.contains_key(key)
            && built[key] == index[key] by {
            let i = choose|i: int| 0 <= i < pairs.len() && pairs[i].0 == key;
            assert(index.contains_key(pairs[i].0));
        }
    }
}

/// The index that the first `n` pairs of a sequence with distinct keys build:
/// its keys are theirs, each with the value of its pair.
proof fn lemma_index_of_puts_prefix(pairs: Seq<(Seq<char>, Seq<char>)>, n: nat)
    requires
        n <= pairs.len(),
        forall|i: int, j: int|
            0 <= i < j < pairs.len() ==> (#[trigger] pairs[i]).0 != (#[trigger] pairs[j]).0,
    ensures
        forall|key: Seq<char>|
            index_of(puts_of(pairs.take(n as int))).contains_key(key) <==> exists|i: int|
                0 <= i < n && pairs[i].0 == key,
        forall|i: int|
            0 <= i < n ==> index_of(puts_of(pairs.take(n as int)))[(#[trigger] pairs[i]).0]
                == pairs[i].1,
    decreases n,
{
    let commands = puts_of(pairs.take(n as int));
    if n > 0 {
        let before = puts_of(pairs.take(n - 1));
        lemma_index_of_puts_prefix(pairs, (n - 1) as nat);
        assert(commands.drop_last() =~= before);
        let built = index_of(commands);
        assert forall|key: Seq<char>| built.contains_key(key) implies exists|i: int|
            0 <= i < n && pairs[i].0 == key by {
            if key != pairs[n - 1].0 {
                assert(index_of(before).contains_key(key));
                let i = choose|i: int| 0 <= i < n - 1 && pairs[i].0 == key;
                assert(0 <= i < n && pairs[i].0 == key);
            }
        }
        assert forall|key: Seq<char>| (exists|i: int| 0 <= i < n && pairs[i].0 == key) implies built.contains_key(
            key,
        ) by {
            let i = choose|i: int| 0 <= i < n && pairs[i].0 == key;
            if i < n - 1 {
                assert(index_of(before).contains_key(key));
            }
        }
        assert forall|i: int| 0 <= i < n implies built[(#[trigger] pairs[i]).0] == pairs[i].1 by {
            if i < n - 1 {
                assert(pairs[i].0 != pairs[n - 1].0);
            }
        }
    }
}

/// A log that holds the bindings of an index and nothing else replays as
/// that index, from as many records as the index has keys.
pub proof fn lemma_compact_log(log: Seq<u8>, index: Map<Seq<char>, Seq<char>>)
    requires
        is_compact_log(log, index),
    ensures
        replay(log) is Ok,
        index_of(replay(log)->Ok_0) == index,
        index.dom().finite(),
        replay(log)->Ok_0.len() == index.len(),
{
    let pairs = choose|pairs: Seq<(Seq<char>, Seq<char>)>| #[trigger]
        lists(pairs, index) && replay(log) == Ok::<Seq<Command>, KvError>(puts_of(pairs));
    lemma_index_of_puts(pairs, index);
    lemma_lists_len(pairs, index);
}

/// An index built from commands is finite and has no more keys than there
/// are commands.
pub proof fn lemma_index_of_len(commands: Seq<Command>)
    ensures
        index_of(commands).dom().finite(),
        index_of(commands).len() <= commands.len(),
    decreases commands.len(),
{
    if commands.len() > 0 {
        lemma_index_of_len(commands.drop_last());
    }
}

/// Applies a command to the index: a `Put` binds its key, an `Rm` unbinds
/// its key if the key is live. Returns the value that an `Rm` unbound.
pub fn apply_command(index: &mut Index, command: LogCommand) -> (gone: Option<String>)
    requires
        old(index).wf(),
    ensures
        final(index).wf(),
        final(index)@ == command@.apply(old(index)@),
        text_of(gone) == match command@ {
            Command::Put(_, _) => None,
            Command::Rm(key) => lookup(old(index)@, key),
        },
{
    match command {
        LogCommand::Put(key, value) => {
            index.insert(key, value);
            None
        },
        LogCommand::Rm(key) => {
            let gone = index.remove(key.as_str());
            gone
        },
    }
}

/// Reads a log from its start: the index that its commands build and the
/// number of its frames, or the first fault.
pub fn replay_log(log: &[u8]) -> (res: Result<(Index, u128), KvError>)
    ensures
        match res {
            Ok((index, records)) => {
                &&& replay(log@) is Ok
                &&& index.wf()
                &&& index@ == index_of(replay(log@)->Ok_0)
                &&& records == replay(log@)->Ok_0.len()
                &&& records * 8 <= log@.len()
                &&& all_storable(index@)
            },
            Err(e) => replay(log@) == Err::<Seq<Command>, KvError>(e),
        },
{
    let mut index = Index::new();
    let mut records: u128 = 0;
    let mut pos: usize = 0;
    let ghost mut done: Seq<Command> = Seq::empty();
    proof {
        assert(log@.skip(0) =~= log@);
    }
    while pos < log.len()
        invariant
            pos <= log@.len(),
            index.wf(),
            index@ == index_of(done),
            records == done.len(),
            records * 8 <= pos,
            all_storable(index@),
            replay(log@) == replay_after(done, log@.skip(pos as int)),
        decreases log@.len() - pos,
    {
        let end: usize = match frame_end(log, pos) {
            Some(end) => end,
            None => {
                return Err(KvError::CorruptLog);
            },
        };
        let payload = slice_subrange(log, pos + PREFIX_LEN, end);
        let command = match read_command(payload) {
            Ok(command) => command,
            Err(e) => {
                return Err(e);
            },
        };
        proof {
            let next = done.push(command@);
            lemma_payload_command_storable(payload@);
            assert(next.drop_last() =~= done);
            match replay(log@.skip(end as int)) {
                Ok(commands) => {
                    assert(done + (seq![command@] + commands) =~= next + commands);
                },
                Err(_) => {},
            }
            done = next;
        }
        let _ = apply_command(&mut index, command);
        records += 1;
        pos = end;
    }
    Ok((index, records))
}

/// The log that holds the bindings of an index and nothing else: one frame
/// for each pair, in the order of the listing.
pub fn rewrite_log(index: &Index) -> (out: Vec<u8>)
    requires
        index.wf(),
        all_storable(index@),
    ensures
        replay(out@) == Ok::<Seq<Command>, KvError>(puts_of(index.listing())),
        is_compact_log(out@, index@),
{
    let mut out: Vec<u8> = Vec::new();
    let n: usize = index.len();
    let mut i: usize = 0;
    proof {
        index.lemma_listing();
        assert(puts_of(index.listing().take(0)) =~= Seq::<Command>::empty());
    }
    while i < n
        invariant
            i <= n,
            n == index.listing().len(),
            index.wf(),
            all_storable(index@),
            lists(index.listing(), index@),
            replay(out@) == Ok::<Seq<Command>, KvError>(puts_of(index.listing().take(i as int))),
        decreases n - i,
    {
        let pair = index.entry(i);
        let ghost command = Command::Put(pair.0@, pair.1@);
        assert(index@.contains_key(index.listing()[i as int].0));
        match encode_put(pair.0.as_str(), pair.1.as_str()) {
            Ok(payload) => {
                proof {
                    assert(payload@.len() == payload.len());
                    lemma_replay_append(out@, payload@);
                    assert(puts_of(index.listing().take(i + 1)) =~= puts_of(
                        index.listing().take(i as int),
                    ).push(command));
                }
                push_frame(&mut out, payload.as_slice());
            },
            // No such outcome: each binding of the index has a payload.
            Err(_) => {},
        }
        i += 1;
    }
    proof {
        assert(index.listing().take(n as int) =~= index.listing());
    }
    out
}

} // verus!
