//! Frames: a payload behind the eight bytes of its length, most significant
//! byte first.

use vstd::prelude::*;

verus! {

/// The number of bytes of a length prefix.
pub const PREFIX_LEN: usize = 8;

/// The number that eight bytes spell, most significant byte first.
pub open spec fn be_value(s: Seq<u8>) -> int
    recommends
        s.len() == 8,
{
    ((((((s[0] * 0x100 + s[1]) * 0x100 + s[2]) * 0x100 + s[3]) * 0x100 + s[4]) * 0x100 + s[5])
        * 0x100 + s[6]) * 0x100 + s[7]
}

/// The eight bytes that spell `n`, most significant byte first.
pub open spec fn be_bytes(n: u64) -> Seq<u8> {
    let n1 = n / 0x100;
    let n2 = n1 / 0x100;
    let n3 = n2 / 0x100;
    let n4 = n3 / 0x100;
    let n5 = n4 / 0x100;
    let n6 = n5 / 0x100;
    let n7 = n6 / 0x100;
    seq![
        n7 as u8,
        (n6 % 0x100) as u8,
        (n5 % 0x100) as u8,
        (n4 % 0x100) as u8,
        (n3 % 0x100) as u8,
        (n2 % 0x100) as u8,
        (n1 % 0x100) as u8,
        (n % 0x100) as u8,
    ]
}

/// A payload as the log holds it: its length in eight bytes, then the payload.
pub open spec fn frame_of(payload: Seq<u8>) -> Seq<u8> {
    be_bytes(payload.len() as u64) + payload
}

/// Whether `log` begins with a whole frame: eight bytes of length and at
/// least as many bytes behind them as they announce.
pub open spec fn starts_with_frame(log: Seq<u8>) -> bool {
    log.len() >= 8 && be_value(log.subrange(0, 8)) <= log.len() - 8
}

/// The payload of the frame that `log` begins with.
pub open spec fn first_payload(log: Seq<u8>) -> Seq<u8>
    recommends
        starts_with_frame(log),
{
    log.subrange(8, 8 + be_value(log.subrange(0, 8)))
}

/// What follows the frame that `log` begins with.
pub open spec fn after_first(log: Seq<u8>) -> Seq<u8>
    recommends
        starts_with_frame(log),
{
    log.skip(8 + be_value(log.subrange(0, 8)))
}

/// Reading the eight bytes of a number gives the number back.
pub proof fn lemma_be_value_of_bytes(n: u64)
    ensures
        be_bytes(n).len() == 8,
        be_value(be_bytes(n)) == n,
{
}

/// A frame followed by anything parses as that frame and what follows.
pub proof fn lemma_frame_first(payload: Seq<u8>, rest: Seq<u8>)
    requires
        payload.len() <= u64::MAX,
    ensures
        starts_with_frame(frame_of(payload) + rest),
        first_payload(frame_of(payload) + rest) == payload,
        after_first(frame_of(payload) + rest) == rest,
{
    lemma_be_value_of_bytes(payload.len() as u64);
}

/// Appends the eight bytes of `n` to `out`.
pub fn push_length(out: &mut Vec<u8>, n: u64)
    ensures
        final(out)@ == old(out)@ + be_bytes(n),
{
    let n1: u64 = n / 0x100;
    let n2: u64 = n1 / 0x100;
    let n3: u64 = n2 / 0x100;
    let n4: u64 = n3 / 0x100;
    let n5: u64 = n4 / 0x100;
    let n6: u64 = n5 / 0x100;
    let n7: u64 = n6 / 0x100;
    out.push(n7 as u8);
    out.push((n6 % 0x100) as u8);
    out.push((n5 % 0x100) as u8);
    out.push((n4 % 0x100) as u8);
    out.push((n3 % 0x100) as u8);
    out.push((n2 % 0x100) as u8);
    out.push((n1 % 0x100) as u8);
    out.push((n % 0x100) as u8);
}

/// Reads the number that the eight bytes of `log` from `pos` on spell.
pub fn read_length(log: &[u8], pos: usize) -> (n: u64)
    requires
        pos + 8 <= log@.len(),
    ensures
        n == be_value(log@.subrange(pos as int, pos + 8)),
{
    let mut n: u64 = log[pos] as u64;
    n = n * 0x100 + log[pos + 1] as u64;
    n = n * 0x100 + log[pos + 2] as u64;
    n = n * 0x100 + log[pos + 3] as u64;
    n = n * 0x100 + log[pos + 4] as u64;
    n = n * 0x100 + log[pos + 5] as u64;
    n = n * 0x100 + log[pos + 6] as u64;
    n = n * 0x100 + log[pos + 7] as u64;
    n
}

/// Appends the frame of `payload` to `out`.
pub fn push_frame(out: &mut Vec<u8>, payload: &[u8])
    ensures
        final(out)@ == old(out)@ + frame_of(payload@),
{
    push_length(out, payload.len() as u64);
    out.extend_from_slice(payload);
}

/// The frame of `payload`.
pub fn frame(payload: &[u8]) -> (out: Vec<u8>)
    ensures
        out@ == frame_of(payload@),
{
    let mut out: Vec<u8> = Vec::new();
    push_frame(&mut out, payload);
    out
}

/// Looks for a whole frame at `pos`: the end of its payload, which begins at
/// `pos + 8`, or `None` where the log ends before that.
pub fn frame_end(log: &[u8], pos: usize) -> (res: Option<usize>)
    requires
        pos <= log@.len(),
    ensures
        match res {
            Some(end) => {
                &&& starts_with_frame(log@.skip(pos as int))
                &&& pos + 8 <= end <= log@.len()
                &&& log@.subrange(pos + 8, end as int) == first_payload(log@.skip(pos as int))
                &&& log@.skip(end as int) == after_first(log@.skip(pos as int))
            },
            None => !starts_with_frame(log@.skip(pos as int)),
        },
{
    let left: usize = log.len() - pos;
    if left < PREFIX_LEN {
        return None;
    }
    let n: u64 = read_length(log, pos);
    let room: usize = left - PREFIX_LEN;
    if n > room as u64 {
        return None;
    }
    Some(pos + PREFIX_LEN + n as usize)
}

} // verus!
