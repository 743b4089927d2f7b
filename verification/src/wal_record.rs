//! Records of the log: a length and a payload, one behind the other.

use crate::bytes::extend;
use crate::wal_index;
use vstd::prelude::*;
use vstd::slice::*;

verus! {

/// The four bytes of a length, the lowest first.
#[verifier::opaque]
pub open spec fn length_bytes(n: u32) -> Seq<u8> {
    seq![(n % 256) as u8, (n / 256 % 256) as u8, (n / 256 / 256 % 256) as u8, (n / 256 / 256 / 256) as u8]
}

/// The length that four bytes stand for.
#[verifier::opaque]
pub open spec fn length_value(b: Seq<u8>) -> int {
    b[0] + 256 * b[1] + 65_536 * b[2] + 16_777_216 * b[3]
}

/// A payload as the log holds it: its length in four bytes and its own bytes.
pub open spec fn record(payload: Seq<u8>) -> Seq<u8> {
    length_bytes(payload.len() as u32) + payload
}

/// The payloads as the log holds them.
pub open spec fn log_bytes(payloads: Seq<Seq<u8>>) -> Seq<u8>
    decreases payloads.len(),
{
    if payloads.len() == 0 {
        Seq::empty()
    } else {
        log_bytes(payloads.drop_last()) + record(payloads.last())
    }
}

/// The payloads that are read from these bytes, record by record, up to a record that is empty,
/// longer than `limit` or cut off.
pub open spec fn records_in(data: Seq<u8>, limit: nat) -> Seq<Seq<u8>>
    decreases data.len(),
{
    if data.len() < 4 {
        Seq::empty()
    } else {
        let size = length_value(data.take(4));
        if size <= 0 || size > limit || 4 + size > data.len() {
            Seq::empty()
        } else {
            seq![data.subrange(4, 4 + size)] + records_in(data.skip(4 + size), limit)
        }
    }
}

/// The payload can be told from the end of the log and is not too long.
pub open spec fn storable(payload: Seq<u8>, limit: nat) -> bool {
    0 < payload.len() <= limit && payload.len() <= u32::MAX
}

/// The payloads of a list of byte vectors.
pub open spec fn views(payloads: Seq<Vec<u8>>) -> Seq<Seq<u8>> {
    payloads.map_values(|p: Vec<u8>| p@)
}

/// The four bytes of a length, the lowest first.
fn push_length(out: &mut Vec<u8>, n: u32)
    ensures
        final(out)@ == old(out)@ + length_bytes(n),
{
    reveal(length_bytes);
    out.push((n % 256) as u8);
    out.push((n / 256 % 256) as u8);
    out.push((n / 256 / 256 % 256) as u8);
    out.push((n / 256 / 256 / 256) as u8);
    assert(out@ =~= old(out)@ + length_bytes(n));
}

/// The length that four bytes stand for.
pub fn read_length(b: &[u8]) -> (r: u32)
    requires
        b@.len() == 4,
    ensures
        r == length_value(b@),
{
    reveal(length_value);
    b[0] as u32 + 256 * (b[1] as u32) + 65_536 * (b[2] as u32) + 16_777_216 * (b[3] as u32)
}

/// A length is read back from its four bytes.
pub proof fn length_back(n: u32)
    ensures
        length_bytes(n).len() == 4,
        length_value(length_bytes(n)) == n,
{
    reveal(length_bytes);
    reveal(length_value);
    let q1 = n as int / 256;
    let q2 = q1 / 256;
    let q3 = q2 / 256;
    assert(n == 256 * q1 + n as int % 256);
    assert(q1 == 256 * q2 + q1 % 256);
    assert(q2 == 256 * q3 + q2 % 256);
    assert(q3 < 256);
}

/// Appends a record.
pub fn push_record(out: &mut Vec<u8>, payload: &[u8])
    ensures
        final(out)@ == old(out)@ + record(payload@),
{
    push_length(out, payload.len() as u32);
    extend(out, payload);
    assert(out@ =~= old(out)@ + record(payload@));
}

/// A payload as the log holds it.
pub fn encode_record(payload: &[u8]) -> (r: Vec<u8>)
    ensures
        r@ == record(payload@),
{
    let mut out: Vec<u8> = Vec::new();
    push_record(&mut out, payload);
    assert(out@ =~= record(payload@));
    out
}

/// The payloads as the log holds them.
pub fn encode_records(payloads: &Vec<Vec<u8>>) -> (r: Vec<u8>)
    ensures
        r@ == log_bytes(views(payloads@)),
{
    let ghost all = views(payloads@);
    let mut out: Vec<u8> = Vec::new();
    let mut i: usize = 0;
    assert(all.take(0) =~= Seq::empty());
    while i < payloads.len()
        invariant
            i <= payloads@.len(),
            all == views(payloads@),
            out@ == log_bytes(all.take(i as int)),
        decreases payloads@.len() - i,
    {
        push_record(&mut out, payloads[i].as_slice());
        proof {
            let next = all.take(i + 1);
            assert(next.drop_last() =~= all.take(i as int));
            assert(next.last() == payloads@[i as int]@);
        }
        i = i + 1;
    }
    assert(all.take(i as int) =~= all);
    out
}

/// The payloads in these bytes, up to an empty or cut-off record.
pub fn decode_frames(data: &[u8]) -> (r: Vec<Vec<u8>>)
    ensures
        views(r@) == records_in(data@, u32::MAX as nat),
{
    let mut out: Vec<Vec<u8>> = Vec::new();
    let mut pos: usize = 0;
    let n: usize = data.len();
    let ghost whole = records_in(data@, u32::MAX as nat);
    assert(data@.skip(0) =~= data@);
    assert(views(out@) + records_in(data@.skip(0), u32::MAX as nat) =~= whole);
    while n - pos >= 4
        invariant_except_break
            pos <= n,
            n == data@.len(),
            views(out@) + records_in(data@.skip(pos as int), u32::MAX as nat) == whole,
        ensures
            views(out@) == whole,
        decreases n - pos,
    {
        let ghost rest = data@.skip(pos as int);
        let size: usize = read_length(slice_subrange(data, pos, pos + 4)) as usize;
        reveal(length_value);
        assert(data@.subrange(pos as int, pos + 4) =~= rest.take(4));
        if size == 0 || size > n - pos - 4 {
            assert(views(out@) + Seq::<Seq<u8>>::empty() =~= views(out@));
            break;
        }
        let payload = slice_to_vec(slice_subrange(data, pos + 4, pos + 4 + size));
        proof {
            assert(rest.subrange(4, 4 + size) =~= payload@);
            assert(rest.skip(4 + size) =~= data@.skip(pos + 4 + size));
            assert(views(out@.push(payload)) =~= views(out@).push(payload@));
            assert(views(out@).push(payload@) + records_in(
                data@.skip(pos + 4 + size),
                u32::MAX as nat,
            ) =~= views(out@) + (seq![payload@] + records_in(
                data@.skip(pos + 4 + size),
                u32::MAX as nat,
            )));
        }
        out.push(payload);
        pos = pos + 4 + size;
        proof {
            if n - pos < 4 {
                assert(views(out@) + Seq::<Seq<u8>>::empty() =~= views(out@));
            }
        }
    }
    out
}

proof fn log_bytes_first(payloads: Seq<Seq<u8>>)
    requires
        payloads.len() > 0,
    ensures
        log_bytes(payloads) == record(payloads[0]) + log_bytes(payloads.drop_first()),
    decreases payloads.len(),
{
    let rest = payloads.drop_first();
    if payloads.len() == 1 {
        assert(payloads.drop_last() =~= Seq::empty());
        assert(rest =~= Seq::empty());
        assert(log_bytes(payloads) =~= record(payloads[0]) + log_bytes(rest));
    } else {
        log_bytes_first(payloads.drop_last());
        assert(payloads.drop_last().drop_first() =~= rest.drop_last());
        assert(log_bytes(payloads) =~= record(payloads[0]) + log_bytes(rest));
    }
}

/// Appending to the log keeps what it holds and puts the new records behind it.
pub proof fn log_bytes_append(first: Seq<Seq<u8>>, more: Seq<Seq<u8>>)
    ensures
        log_bytes(first + more) == log_bytes(first) + log_bytes(more),
    decreases more.len(),
{
    if more.len() == 0 {
        assert(first + more =~= first);
        assert(log_bytes(first) + log_bytes(more) =~= log_bytes(first));
    } else {
        log_bytes_append(first, more.drop_last());
        assert((first + more).drop_last() =~= first + more.drop_last());
        assert(log_bytes(first + more) =~= log_bytes(first) + log_bytes(more));
    }
}

/// Records are read back in the order in which they were written, whatever unreadable bytes stand
/// behind them.
pub proof fn log_round_trip(payloads: Seq<Seq<u8>>, tail: Seq<u8>, limit: nat)
    requires
        forall|i: int| 0 <= i < payloads.len() ==> storable(#[trigger] payloads[i], limit),
        records_in(tail, limit).len() == 0,
    ensures
        records_in(log_bytes(payloads) + tail, limit) == payloads,
    decreases payloads.len(),
{
    if payloads.len() == 0 {
        assert(log_bytes(payloads) + tail =~= tail);
        assert(records_in(tail, limit) =~= payloads);
    } else {
        let p = payloads[0];
        let rest = payloads.drop_first();
        assert(storable(p, limit));
        assert forall|i: int| 0 <= i < rest.len() implies storable(#[trigger] rest[i], limit) by {
            assert(rest[i] == payloads[i + 1]);
        }
        log_bytes_first(payloads);
        log_round_trip(rest, tail, limit);
        length_back(p.len() as u32);
        let data = log_bytes(payloads) + tail;
        assert(data.take(4) =~= length_bytes(p.len() as u32));
        assert(data.subrange(4, 4 + p.len() as int) =~= p);
        assert(data.skip(4 + p.len() as int) =~= log_bytes(rest) + tail);
        assert(seq![p] + rest =~= payloads);
    }
}

/// A record whose last bytes are missing is not read.
pub proof fn torn_record_is_not_read(payload: Seq<u8>, kept: int, limit: nat)
    requires
        storable(payload, limit),
        0 <= kept < record(payload).len(),
    ensures
        records_in(record(payload).take(kept), limit).len() == 0,
{
    length_back(payload.len() as u32);
    let tail = record(payload).take(kept);
    if kept >= 4 {
        assert(tail.take(4) =~= length_bytes(payload.len() as u32));
    }
}

/// Nothing is read from zeros.
pub proof fn zeros_hold_no_record(n: nat, limit: nat)
    ensures
        records_in(wal_index::zero_bytes(n), limit).len() == 0,
{
    let tail = wal_index::zero_bytes(n);
    if n >= 4 {
        reveal(length_value);
        assert(tail.take(4) =~= seq![0u8, 0u8, 0u8, 0u8]);
    }
}

/// A crash while a record is appended keeps every record that was complete before it.
pub proof fn torn_append_keeps_log(
    payloads: Seq<Seq<u8>>,
    last: Seq<u8>,
    kept: int,
    limit: nat,
)
    requires
        forall|i: int| 0 <= i < payloads.len() ==> storable(#[trigger] payloads[i], limit),
        storable(last, limit),
        0 <= kept < record(last).len(),
    ensures
        records_in(log_bytes(payloads) + record(last).take(kept), limit) == payloads,
{
    torn_record_is_not_read(last, kept, limit);
    log_round_trip(payloads, record(last).take(kept), limit);
}

} // verus!
