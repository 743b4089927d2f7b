//! What the operations of the logs come to, taken together: what is written is read back, names are
//! told apart, and segments are rotated, removed and recovered in their order.

use crate::duration::Duration;
use crate::error::LsmError;
use crate::seqs;
use crate::stable_sort::{self, Stamped};
use crate::text;
use crate::wal::{
    self, BatchReply, BatchWrite, EntryReply, EntryWrite, Rotation, RotationReply, WALManager,
};
use crate::wal_entry::WALEntry;
use crate::wal_frame::{self, FrameWalSegment};
use crate::wal_frame_manager::FrameWalManager;
use crate::wal_index::{self, SlotWrite, WalIndexFile, WalIndexHeader};
use crate::wal_indexed;
use crate::wal_indexed_manager::IndexedWalManager;
use crate::wal_record;
use crate::wal_recovery::{
    self, CollectedEntries, Recovery, SegmentAge, SegmentFile, ShutdownStep,
};
use crate::wal_segment::{self, AppendPlan, HeaderWrite, SyncAction, WALSegment};
use crate::wal_truncation::{self, Truncation, TruncationReply};
use vstd::prelude::*;
use vstd::string::*;

verus! {

/// Payloads that are not empty, and whose lengths can be told, are read back from the bytes that were
/// written of them, in their order.
pub proof fn encoded_records_are_decoded(
    payloads: Vec<Vec<u8>>,
    written: Vec<u8>,
    data: &[u8],
    read: Vec<Vec<u8>>,
)
    requires
        forall|i: int|
            0 <= i < payloads@.len() ==> 0 < (#[trigger] payloads@[i])@.len() <= u32::MAX,
        call_ensures(wal_record::encode_records, (&payloads,), written),
        data@ == written@,
        call_ensures(wal_record::decode_frames, (data,), read),
    ensures
        read@.len() == payloads@.len(),
        forall|i: int| 0 <= i < payloads@.len() ==> (#[trigger] read@[i])@ == payloads@[i]@,
{
    let all = wal_record::views(payloads@);
    assert forall|i: int| 0 <= i < all.len() implies wal_record::storable(
        #[trigger] all[i],
        u32::MAX as nat,
    ) by {
        assert(all[i] == payloads@[i]@);
    }
    wal_record::log_round_trip(all, Seq::empty(), u32::MAX as nat);
    assert(data@ + Seq::<u8>::empty() =~= data@);
    let shown = wal_record::views(read@);
    assert(shown == all);
    assert(shown.len() == read@.len() && all.len() == payloads@.len());
    assert forall|i: int| 0 <= i < payloads@.len() implies (#[trigger] read@[i])@
        == payloads@[i]@ by {
        assert(shown[i] == read@[i]@ && all[i] == payloads@[i]@);
    }
}

/// An entry is taken by a segment exactly if it fits behind what the file holds, and what is appended
/// for it is read back behind the entries that were there.
pub proof fn appended_entry_is_read_back(
    segment: WALSegment,
    h: wal_segment::WALSegmentHeader,
    held: Seq<Seq<u8>>,
    file: Seq<u8>,
    payload: Vec<u8>,
    r: Option<AppendPlan>,
)
    requires
        forall|i: int|
            0 <= i < held.len() ==> 0 < (#[trigger] held[i]).len() <= segment.max_size && held[i].len()
                <= u32::MAX,
        file == wal_segment::header_bytes(h) + wal_record::log_bytes(held),
        file.len() + payload@.len() + 4 <= u64::MAX,
        0 < payload@.len() <= u32::MAX,
        call_ensures(WALSegment::write_entry, (&segment, file.len() as u64, &payload), r),
    ensures
        r is Some <==> file.len() + 4 + payload@.len() <= segment.max_size,
        r matches Some(plan) ==> plan.bytes@.len() == 4 + payload@.len()
            && wal_segment::segment_records(file + plan.bytes@, segment.max_size as nat)
            == held.push(payload@),
{
    if let Some(plan) = r {
        let all = held.push(payload@);
        let limit = segment.max_size as nat;
        wal_record::length_back(payload@.len() as u32);
        assert(all.drop_last() =~= held);
        assert(wal_record::log_bytes(all) == wal_record::log_bytes(held) + plan.bytes@);
        assert forall|i: int| 0 <= i < all.len() implies wal_record::storable(
            #[trigger] all[i],
            limit,
        ) by {
            if i < held.len() {
                assert(all[i] == held[i]);
            }
        }
        wal_segment::segment_holds_what_was_written(h, all, Seq::empty(), limit);
        assert(file + plan.bytes@ =~= wal_segment::header_bytes(h) + wal_record::log_bytes(all)
            + Seq::<u8>::empty());
    }
}

/// The header that a flush writes tells how many entries the segment has when it is opened again.
pub proof fn flushed_header_is_opened(
    s: WALSegment,
    w: Result<HeaderWrite, LsmError>,
    path: String,
    data: Vec<u8>,
    r: Result<WALSegment, LsmError>,
)
    requires
        s.header.magic@ == seq![87u8, 65u8, 76u8, 49u8],
        call_ensures(WALSegment::flush, (&s,), w),
        w matches Ok(write) ==> data@ == write.header@,
        call_ensures(
            WALSegment::open_for_reading,
            (path, s.max_size, s.sync_mode, Some(data)),
            r,
        ),
    ensures
        w is Ok,
        r matches Ok(back) && back.entry_count == s.header.entry_count && back.header.created_at
            == s.header.created_at && back.header.version == s.header.version && back.path@
            == path@,
{
    wal_segment::header_round_trip(s.header, Seq::empty());
    assert(data@ + Seq::<u8>::empty() =~= data@);
}

/// Entries that were written are counted in the segment and in the header that is written next.
pub proof fn written_entries_are_counted(
    s: &mut WALSegment,
    count: u32,
    f: &mut FrameWalSegment,
)
    requires
        old(s).entry_count + count <= u32::MAX,
        call_ensures(WALSegment::entries_written, (s, count), ()),
        old(f).entry_count + count <= u32::MAX,
        call_ensures(FrameWalSegment::entries_written, (f, count), ()),
    ensures
        final(s).entry_count == old(s).entry_count + count,
        final(s).header.entry_count == final(s).entry_count,
        final(s).path == old(s).path,
        final(f).entry_count == old(f).entry_count + count,
        final(f).header.entry_count == final(f).entry_count,
        final(f).path == old(f).path,
{
}

/// What was appended is synced before it is acknowledged exactly if the log syncs each write, in the
/// background exactly if it syncs there, and not at all otherwise.
pub proof fn appends_are_synced_as_configured(
    s: WALSegment,
    f: FrameWalSegment,
    of_segment: SyncAction,
    of_frame: SyncAction,
)
    requires
        call_ensures(WALSegment::sync_after_flush, (&s,), of_segment),
        call_ensures(FrameWalSegment::sync_after_flush, (&f,), of_frame),
    ensures
        of_segment == SyncAction::All <==> s.sync_mode is Fsync,
        of_segment == SyncAction::AllInBackground <==> s.sync_mode is FsyncAsync,
        of_segment == SyncAction::Nothing <==> s.sync_mode is Never || s.sync_mode is Flush,
        of_frame == SyncAction::Data <==> f.sync_mode is Fsync,
        of_frame == SyncAction::DataInBackground <==> f.sync_mode is FsyncAsync,
        of_frame == SyncAction::Nothing <==> f.sync_mode is Never || f.sync_mode is Flush,
{
}

/// The name of a segment file is known as one, and its number is read back from it; so two segments
/// never have one name.
pub proof fn segment_names_are_read_back(
    id: u64,
    name: String,
    shown: &str,
    yes: bool,
    back: Option<u64>,
    other: u64,
    others: String,
)
    requires
        call_ensures(wal_segment::segment_file_name, (id,), name),
        shown@ == name@,
        call_ensures(wal_segment::is_segment_file, (shown,), yes),
        call_ensures(wal_segment::parse_segment_id, (shown,), back),
        call_ensures(wal_segment::segment_file_name, (other,), others),
    ensures
        yes,
        back == Some(id),
        others@ == name@ ==> other == id,
{
    wal_segment::segment_number_back(id);
    wal_segment::segment_number_back(other);
}

/// The name of a file of the frame log is known as one, and its number is read back from it.
pub proof fn frame_names_are_read_back(
    id: u64,
    name: String,
    shown: &str,
    yes: bool,
    back: Option<u64>,
)
    requires
        call_ensures(wal_frame::frame_file_name, (id,), name),
        shown@ == name@,
        call_ensures(wal_frame::is_frame_file, (shown,), yes),
        call_ensures(wal_frame::parse_frame_id, (shown,), back),
    ensures
        yes,
        back == Some(id),
{
    wal_frame::frame_number_back(id);
}

/// A log that has looked at its directory names its next segment as no file there is named.
pub proof fn next_segment_is_new(
    m: &mut WALManager,
    names: Vec<String>,
    next: String,
    f: &mut FrameWalManager,
    frames: Vec<String>,
    next_frame: String,
)
    requires
        wal::highest_segment(names@) < u64::MAX,
        call_ensures(WALManager::scan_existing_segments, (m, &names), ()),
        call_ensures(WALManager::next_segment_name, (&*final(m),), next),
        crate::wal_frame_manager::highest_frame(frames@) < u64::MAX,
        call_ensures(FrameWalManager::scan_existing_segments, (f, &frames), ()),
        call_ensures(FrameWalManager::next_segment_name, (&*final(f),), next_frame),
    ensures
        forall|i: int| 0 <= i < names@.len() ==> (#[trigger] names@[i])@ != next@,
        forall|i: int| 0 <= i < frames@.len() ==> (#[trigger] frames@[i])@ != next_frame@,
        final(m).current_segment == old(m).current_segment,
        final(f).current_segment == old(f).current_segment,
{
    wal_segment::segment_number_back(final(m).segment_counter);
    wal_frame::frame_number_back(final(f).segment_counter);
    assert forall|i: int| 0 <= i < names@.len() implies (#[trigger] names@[i])@ != next@ by {
        assert(wal_segment::segment_number(names@[i]@) matches Some(n) ==> n < final(m).segment_counter);
    }
    assert forall|i: int| 0 <= i < frames@.len() implies (#[trigger] frames@[i])@ != next_frame@ by {
        assert(wal_frame::frame_number(frames@[i]@) matches Some(n) ==> n < final(f).segment_counter);
    }
}

/// A rotation that goes well closes the segment, remembers its file among the completed ones, and
/// makes the new segment the current one; the completed ones from before stay known.
pub proof fn rotation_completes_the_segment(
    a: &mut WALManager,
    b: &mut WALManager,
    c: &mut WALManager,
    first: Rotation,
    second: Rotation,
    third: Rotation,
    closed: WALSegment,
    made: WALSegment,
    id: u64,
)
    requires
        old(a).current_segment == Some(closed),
        call_ensures(WALManager::begin_rotation, (a,), first),
        *old(b) == *final(a),
        call_ensures(WALManager::rotate_segment, (b, first, RotationReply::Closed), second),
        *old(c) == *final(b),
        call_ensures(WALManager::rotate_segment, (c, second, RotationReply::Created(made)), third),
        old(a).segment_counter < u64::MAX,
    ensures
        first == Rotation::Close(closed),
        third == Rotation::Done(Ok(())),
        final(c).current_segment == Some(made),
        final(c).segments@.contains_key(old(a).segment_counter),
        final(c).segments@[old(a).segment_counter]@ == closed.path@,
        id != old(a).segment_counter && old(a).segments@.contains_key(id) ==> final(c).segments@.contains_key(id) && final(c).segments@[id] == old(a).segments@[id],
        final(c).segment_counter == old(a).segment_counter + 1,
{
}

/// An entry is acknowledged only when a segment has taken it: first the current one, and a new one
/// after a rotation; an entry that a new segment does not take either is refused.
pub proof fn entry_is_acknowledged_when_taken(
    m: WALManager,
    st: EntryWrite,
    reply: EntryReply,
    next: EntryWrite,
)
    requires
        st is Try || st is Retry ==> !(reply is Rotated),
        st is Rotate ==> !(reply is Written),
        !(st is Done),
        call_ensures(WALManager::write_entry, (&m, st, reply), next),
    ensures
        next == EntryWrite::Done(Ok(())) <==> reply == EntryReply::Written(true),
        st is Try && reply == EntryReply::Written(false) ==> next is Rotate,
        st is Retry && reply == EntryReply::Written(false) ==> (next matches EntryWrite::Done(
            Err(e),
        ) && e is Wal),
        st is Rotate && reply is Rotated && m.current_segment is Some ==> next is Retry,
        reply matches EntryReply::Failed(e) ==> next == EntryWrite::Done(Err(e)),
{
}

/// The same holds of the frame log.
pub proof fn frame_entry_is_acknowledged_when_taken(
    m: FrameWalManager,
    st: EntryWrite,
    reply: EntryReply,
    next: EntryWrite,
)
    requires
        st is Try || st is Retry ==> !(reply is Rotated),
        st is Rotate ==> !(reply is Written),
        !(st is Done),
        call_ensures(FrameWalManager::write_entry, (&m, st, reply), next),
    ensures
        next == EntryWrite::Done(Ok(())) <==> reply == EntryReply::Written(true),
        st is Try && reply == EntryReply::Written(false) ==> next is Rotate,
        st is Retry && reply == EntryReply::Written(false) ==> (next matches EntryWrite::Done(
            Err(e),
        ) && e is Wal),
        st is Rotate && reply is Rotated && m.current_segment is Some ==> next is Retry,
        reply matches EntryReply::Failed(e) ==> next == EntryWrite::Done(Err(e)),
{
}

/// A batch is taken up exactly if there is a segment and each of its entries is one that a segment
/// reads back: not empty, and no longer than a segment. One without entries is done at once.
pub proof fn readable_batch_is_taken_up(
    m: WALManager,
    payloads: Vec<Vec<u8>>,
    r: (Vec<u8>, BatchWrite),
)
    requires
        call_ensures(WALManager::begin_batch, (&m, &payloads), r),
    ensures
        payloads@.len() == 0 <==> r.1 == BatchWrite::Done(Ok(())),
        r.1 is Capacity || r.1 is Done,
        r.1 is Capacity <==> payloads@.len() > 0 && m.current_segment is Some && forall|i: int|
            0 <= i < payloads@.len() ==> 0 < (#[trigger] payloads@[i])@.len() <= u32::MAX
                && payloads@[i]@.len() <= m.current_segment->Some_0.max_size && payloads@[i]@.len()
                <= m.config.segment_size,
{
    let all = wal_record::views(payloads@);
    assert(all.len() == payloads@.len());
    if m.current_segment is Some {
        if forall|i: int|
            0 <= i < payloads@.len() ==> 0 < (#[trigger] payloads@[i])@.len() <= u32::MAX
                && payloads@[i]@.len() <= m.current_segment->Some_0.max_size && payloads@[i]@.len()
                <= m.config.segment_size {
            assert forall|i: int| 0 <= i < all.len() implies wal_record::storable(
                #[trigger] all[i],
                m.entry_limit(),
            ) by {
                assert(all[i] == payloads@[i]@);
            }
        }
        if m.batch_storable(all) {
            assert forall|i: int| 0 <= i < payloads@.len() implies 0 < (#[trigger] payloads@[i])@.len()
                <= u32::MAX && payloads@[i]@.len() <= m.current_segment->Some_0.max_size
                && payloads@[i]@.len() <= m.config.segment_size by {
                assert(all[i] == payloads@[i]@);
                assert(wal_record::storable(all[i], m.entry_limit()));
            }
        }
    }
}

/// A batch that fits the segment is appended to it, its entries are counted, and it is acknowledged
/// once the header is written.
pub proof fn fitting_batch_is_appended(
    a: &mut WALManager,
    b: &mut WALManager,
    c: &mut WALManager,
    d: &mut WALManager,
    segment: WALSegment,
    data_len: u64,
    count: u32,
    size: u64,
    s1: BatchWrite,
    s2: BatchWrite,
    s3: BatchWrite,
    s4: BatchWrite,
)
    requires
        old(a).current_segment == Some(segment),
        size < segment.max_size,
        size + data_len <= segment.max_size,
        call_ensures(
            WALManager::batch_write_entries,
            (a, BatchWrite::Capacity, data_len, count, BatchReply::Size(size)),
            s1,
        ),
        *old(b) == *final(a),
        call_ensures(
            WALManager::batch_write_entries,
            (b, s1, data_len, count, BatchReply::Size(size)),
            s2,
        ),
        *old(c) == *final(b),
        call_ensures(WALManager::batch_write_entries, (c, s2, data_len, count, BatchReply::Done), s3),
        *old(d) == *final(c),
        call_ensures(WALManager::batch_write_entries, (d, s3, data_len, count, BatchReply::Done), s4),
    ensures
        s1 is Room,
        s2 is Append,
        s3 is Persist,
        s4 == BatchWrite::Done(Ok(())),
        final(d).current_segment matches Some(after) && after.entry_count == segment.entry_count
            + count && after.path == segment.path,
{
}

/// A batch for which the segment has no room is appended to a new one: a full segment, and one that
/// the batch would fill over, is rotated first.
pub proof fn batch_without_room_rotates(
    a: &mut WALManager,
    segment: WALSegment,
    data_len: u64,
    count: u32,
    size: u64,
    full: BatchWrite,
    b: &mut WALManager,
    narrow: BatchWrite,
)
    requires
        old(a).current_segment == Some(segment),
        size >= segment.max_size,
        call_ensures(
            WALManager::batch_write_entries,
            (a, BatchWrite::Capacity, data_len, count, BatchReply::Size(size)),
            full,
        ),
        old(b).current_segment == Some(segment),
        size + data_len > segment.max_size,
        call_ensures(
            WALManager::batch_write_entries,
            (b, BatchWrite::Room, data_len, count, BatchReply::Size(size)),
            narrow,
        ),
    ensures
        full is RotateFull,
        narrow is RotateForRoom,
        *final(a) == *old(a),
        *final(b) == *old(b),
{
}

/// A batch of the frame log that fits the segment is appended to it, its entries are counted, and it
/// is acknowledged once the header is written.
pub proof fn fitting_frame_batch_is_appended(
    a: &mut FrameWalManager,
    b: &mut FrameWalManager,
    c: &mut FrameWalManager,
    d: &mut FrameWalManager,
    segment: FrameWalSegment,
    data_len: u64,
    count: u32,
    size: u64,
    s1: BatchWrite,
    s2: BatchWrite,
    s3: BatchWrite,
    s4: BatchWrite,
)
    requires
        old(a).current_segment == Some(segment),
        size < segment.max_size,
        size + data_len <= segment.max_size,
        call_ensures(
            FrameWalManager::batch_write_entries,
            (a, BatchWrite::Capacity, data_len, count, BatchReply::Size(size)),
            s1,
        ),
        *old(b) == *final(a),
        call_ensures(
            FrameWalManager::batch_write_entries,
            (b, s1, data_len, count, BatchReply::Size(size)),
            s2,
        ),
        *old(c) == *final(b),
        call_ensures(
            FrameWalManager::batch_write_entries,
            (c, s2, data_len, count, BatchReply::Done),
            s3,
        ),
        *old(d) == *final(c),
        call_ensures(
            FrameWalManager::batch_write_entries,
            (d, s3, data_len, count, BatchReply::Done),
            s4,
        ),
    ensures
        s1 is Room,
        s2 is Append,
        s3 is Persist,
        s4 == BatchWrite::Done(Ok(())),
        final(d).current_segment matches Some(after) && after.entry_count == segment.entry_count
            + count && after.path == segment.path,
{
}

/// The bytes of a batch are those of its records, one behind the other, so that it is read back
/// wherever it stands behind the header.
pub proof fn batch_bytes_are_read_back(
    m: WALManager,
    f: FrameWalManager,
    payloads: Vec<Vec<u8>>,
    r: (Vec<u8>, BatchWrite),
    s: (Vec<u8>, BatchWrite),
    data: &[u8],
    read: Vec<Vec<u8>>,
)
    requires
        forall|i: int|
            0 <= i < payloads@.len() ==> 0 < (#[trigger] payloads@[i])@.len() <= u32::MAX,
        call_ensures(WALManager::begin_batch, (&m, &payloads), r),
        call_ensures(FrameWalManager::begin_batch, (&f, &payloads), s),
        data@ == r.0@,
        call_ensures(wal_record::decode_frames, (data,), read),
    ensures
        s.0@ == r.0@,
        read@.len() == payloads@.len(),
        forall|i: int| 0 <= i < payloads@.len() ==> (#[trigger] read@[i])@ == payloads@[i]@,
{
    let all = wal_record::views(payloads@);
    assert forall|i: int| 0 <= i < all.len() implies wal_record::storable(
        #[trigger] all[i],
        u32::MAX as nat,
    ) by {
        assert(all[i] == payloads@[i]@);
    }
    wal_record::log_round_trip(all, Seq::empty(), u32::MAX as nat);
    assert(data@ + Seq::<u8>::empty() =~= data@);
    let shown = wal_record::views(read@);
    assert(shown == all);
    assert(shown.len() == read@.len() && all.len() == payloads@.len());
    assert forall|i: int| 0 <= i < payloads@.len() implies (#[trigger] read@[i])@
        == payloads@[i]@ by {
        assert(shown[i] == read@[i]@ && all[i] == payloads@[i]@);
    }
}

proof fn expired_places(ages: Seq<SegmentAge>, cutoff: int, ids: Seq<u64>) -> (at: Seq<int>)
    requires
        ids == wal_recovery::expired(ages, cutoff),
    ensures
        at.len() == ids.len(),
        forall|k: int|
            0 <= k < at.len() ==> 0 <= #[trigger] at[k] < ages.len() && ages[at[k]].id == ids[k]
                && (ages[at[k]].created_at matches Some(t) && t < cutoff),
        forall|k: int, l: int| 0 <= k < l < at.len() ==> #[trigger] at[k] < #[trigger] at[l],
        forall|i: int|
            0 <= i < ages.len() && ((#[trigger] ages[i]).created_at matches Some(t) && t < cutoff)
                ==> at.contains(i),
{
    let keep = |a: SegmentAge| wal_recovery::created_before(a, cutoff);
    let at = seqs::filter_places(ages, keep);
    let kept = ages.filter(keep);
    assert(ids.len() == kept.len());
    assert forall|k: int| 0 <= k < at.len() implies 0 <= #[trigger] at[k] < ages.len()
        && ages[at[k]].id == ids[k] && (ages[at[k]].created_at matches Some(t) && t < cutoff) by {
        assert(ages[at[k]] == kept[k]);
        assert(keep(ages[at[k]]));
    }
    assert forall|i: int|
        0 <= i < ages.len() && ((#[trigger] ages[i]).created_at matches Some(t) && t < cutoff) implies at.contains(
        i,
    ) by {
        assert(keep(ages[i]));
    }
    at
}

/// The segments that are cleaned up are exactly those whose files were created longer ago than the
/// period, in their order; one of which that is not known is kept.
pub proof fn only_old_segments_are_cleaned_up(
    m: WALManager,
    f: FrameWalManager,
    ages: Vec<SegmentAge>,
    now: u64,
    period: Duration,
    r: Vec<u64>,
    s: Vec<u64>,
    flushed: Vec<u64>,
    flushed_frames: Vec<u64>,
)
    requires
        period.secs <= now,
        call_ensures(WALManager::cleanup_old_segments, (&m, &ages, now, period), r),
        call_ensures(FrameWalManager::cleanup_old_segments, (&f, &ages, now, period), s),
        call_ensures(WALManager::cleanup_flushed_segments, (&m, &ages, now, period), flushed),
        call_ensures(
            FrameWalManager::cleanup_flushed_segments,
            (&f, &ages, now, period),
            flushed_frames,
        ),
    ensures
        exists|at: Seq<int>|
            {
                &&& #[trigger] at.len() == r@.len()
                &&& forall|k: int|
                    0 <= k < at.len() ==> 0 <= #[trigger] at[k] < ages@.len() && ages@[at[k]].id
                        == r@[k] && (ages@[at[k]].created_at matches Some(t) && t + period.secs
                        < now)
                &&& forall|k: int, l: int|
                    0 <= k < l < at.len() ==> #[trigger] at[k] < #[trigger] at[l]
                &&& forall|i: int|
                    0 <= i < ages@.len() && ((#[trigger] ages@[i]).created_at matches Some(t) && t
                        + period.secs < now) ==> at.contains(i)
            },
        s@ == r@,
        flushed@ == r@,
        flushed_frames@ == r@,
{
    let at = expired_places(ages@, now - period.secs, r@);
    assert(at.len() == r@.len());
}

/// A log that is younger than the period keeps all of its segments.
pub proof fn young_segments_are_kept(
    m: IndexedWalManager,
    ages: Vec<SegmentAge>,
    now: u64,
    period: Duration,
    r: Vec<u64>,
)
    requires
        period.secs >= now,
        call_ensures(IndexedWalManager::cleanup_old_segments, (&m, &ages, now, period), r),
    ensures
        r@.len() == 0,
{
    let at = expired_places(ages@, 0, r@);
    if r@.len() > 0 {
        assert(0 <= at[0] < ages@.len());
    }
}

/// A clean shutdown ends with the truncation of the log, and comes to it only once; with a segment it
/// writes a checkpoint and flushes the log before, and what waits in a group before that.
pub proof fn shutdown_flushes_before_it_truncates(
    m: WALManager,
    f: FrameWalManager,
    r: Vec<ShutdownStep>,
    s: Vec<ShutdownStep>,
)
    requires
        call_ensures(WALManager::mark_clean_shutdown, (&m,), r),
        call_ensures(FrameWalManager::mark_clean_shutdown, (&f,), s),
    ensures
        r@.len() > 0,
        r@.last() == ShutdownStep::Truncate,
        s@.len() > 0,
        s@.last() == ShutdownStep::Truncate,
        m.current_segment is Some ==> r@.len() >= 3 && r@[r@.len() - 2] == ShutdownStep::Flush
            && r@[r@.len() - 3] == ShutdownStep::Checkpoint,
        m.current_segment is Some && m.config.group_commit_enabled ==> r@[0]
            == ShutdownStep::CommitGroup,
        f.current_segment is Some ==> s@.len() >= 3 && s@[s@.len() - 2] == ShutdownStep::Flush
            && s@[s@.len() - 3] == ShutdownStep::Checkpoint,
        f.current_segment is Some && f.config.group_commit_enabled ==> s@[0]
            == ShutdownStep::CommitGroup,
        forall|i: int| 0 <= i < r@.len() - 1 ==> #[trigger] r@[i] != ShutdownStep::Truncate,
        r@.len() == (if m.current_segment is None {
            1int
        } else if m.config.group_commit_enabled {
            4
        } else {
            3
        }),
{
}

/// A log is told to be truncated exactly if it has a segment, has completed none, and no file but
/// that of the segment is there.
pub proof fn truncated_log_has_one_file(m: WALManager, on_disk: Vec<String>, r: bool)
    requires
        call_ensures(WALManager::verify_truncated, (&m, &on_disk), r),
    ensures
        r ==> m.current_segment is Some && m.segments@.len() == 0,
        r ==> forall|i: int|
            0 <= i < on_disk@.len() ==> (#[trigger] on_disk@[i])@ == m.current_segment->Some_0.path@,
        m.current_segment is Some && m.segments@.len() == 0 && on_disk@.len() == 0 ==> r,
        m.current_segment is Some && m.segments@.len() == 0 && on_disk@.len() == 1 && on_disk@[0]@
            == m.current_segment->Some_0.path@ ==> r,
        on_disk@.len() > 1 ==> !r,
{
}

/// A truncation is done only when no segment file is left. It removes each segment file that is
/// there, tries a removal that fails three times, and fails where a file stays.
pub proof fn truncation_removes_every_segment(
    st: Truncation,
    reply: TruncationReply,
    to: Truncation,
)
    requires
        st.wf(),
        st.answered_by(reply),
        !(st is Done),
        call_ensures(wal_truncation::truncate_after_flush, (st, reply), to),
    ensures
        to == Truncation::Done(Ok(())) ==> st is Rotate && reply is Done,
        st is Rotate && reply is Done ==> to == Truncation::Done(Ok(())),
        st is ListAgain ==> (reply matches TruncationReply::Names(names) && (to is Rotate
            <==> forall|i: int|
            0 <= i < names@.len() ==> !wal_segment::is_segment_name((#[trigger] names@[i])@))),
        st is ListAgain && !(to is Rotate) ==> (to matches Truncation::Done(Err(_))),
        st is List ==> (reply matches TruncationReply::Names(names) && match to {
            Truncation::Remove { files, next, failures } => next == 0 && failures == 0 && forall|
                i: int,
            |
                0 <= i < names@.len() && wal_segment::is_segment_name((#[trigger] names@[i])@)
                    ==> exists|j: int|
                    0 <= j < files@.len() && (#[trigger] files@[j]).name@ == names@[i]@,
            Truncation::ListAgain => forall|i: int|
                0 <= i < names@.len() ==> !wal_segment::is_segment_name((#[trigger] names@[i])@),
            _ => false,
        }),
        st matches Truncation::Remove { files, next, failures } ==> match reply {
            TruncationReply::Failed(e) => if failures >= 2 {
                to == Truncation::Done(Err(e))
            } else {
                to matches Truncation::Retry { files: f, next: n, failures: k } && f == files && n
                    == next && k == failures + 1
            },
            _ => to matches Truncation::Look { files: f, next: n } && f == files && n == next,
        },
        st matches Truncation::Look { files, next } ==> (reply matches TruncationReply::There {
            still,
            ..
        } && if still {
            to matches Truncation::Done(Err(_))
        } else if next + 1 < files@.len() {
            to matches Truncation::Remove { files: f, next: n, failures: k } && f == files && n
                == next + 1 && k == 0
        } else {
            to is ListAgain
        }),
{
    if let TruncationReply::Names(names) = reply {
        if st is List {
            let files = choose|files: Vec<SegmentFile>| #[trigger]
                wal_recovery::lists_segments(names@, files@) && wal_truncation::removed_up_to(
                    files,
                    0,
                    to,
                );
            let keep = |n: String| wal_recovery::names_segment(n);
            let at = seqs::filter_places(names@, keep);
            let kept = names@.filter(keep);
            assert forall|i: int|
                0 <= i < names@.len() && wal_segment::is_segment_name(
                    (#[trigger] names@[i])@,
                ) implies exists|j: int|
                0 <= j < files@.len() && (#[trigger] files@[j]).name@ == names@[i]@ by {
                assert(keep(names@[i]));
                assert(at.contains(i));
                let j = choose|j: int| 0 <= j < at.len() && at[j] == i;
                assert(names@[at[j]] == kept[j]);
                assert(files@[j].name@ == names@[i]@);
            }
        }
        if st is ListAgain {
            assert(wal_truncation::no_segment(names@) <==> forall|i: int|
                0 <= i < names@.len() ==> !wal_segment::is_segment_name(
                    (#[trigger] names@[i])@,
                )) by {
                if wal_truncation::no_segment(names@) {
                    assert forall|i: int| 0 <= i < names@.len() implies !wal_segment::is_segment_name(
                        (#[trigger] names@[i])@,
                    ) by {
                        assert(!wal_recovery::names_segment(names@[i]));
                    }
                }
            }
        }
    }
}

proof fn listed_file_is_there(names: Seq<String>, files: Seq<SegmentFile>, p: int) -> (k: int)
    requires
        wal_recovery::lists_segments(names, files),
        0 <= p < files.len(),
    ensures
        0 <= k < names.len(),
        names[k]@ == files[p].name@,
        wal_segment::is_segment_name(files[p].name@),
        files[p].id == wal_recovery::order_number(files[p].name@),
{
    let keep = |n: String| wal_recovery::names_segment(n);
    let at = seqs::filter_places(names, keep);
    let kept = names.filter(keep);
    assert(files[p].name@ == kept[p]@);
    assert(names[at[p]] == kept[p]);
    assert(keep(names[at[p]]));
    at[p]
}

proof fn segment_file_is_listed(names: Seq<String>, files: Seq<SegmentFile>, k: int) -> (p: int)
    requires
        wal_recovery::lists_segments(names, files),
        0 <= k < names.len(),
        wal_segment::is_segment_name(names[k]@),
    ensures
        0 <= p < files.len(),
        files[p].name@ == names[k]@,
{
    let keep = |n: String| wal_recovery::names_segment(n);
    let at = seqs::filter_places(names, keep);
    let kept = names.filter(keep);
    assert(keep(names[k]));
    assert(at.contains(k));
    let p = choose|p: int| 0 <= p < at.len() && at[p] == k;
    assert(names[at[p]] == kept[p]);
    assert(files[p].name@ == kept[p]@);
    p
}

/// Recovery reads every segment file of the directory, and no other file.
pub proof fn every_segment_is_read(names: Vec<String>, r: Vec<SegmentFile>, k: int, l: int)
    requires
        call_ensures(wal_recovery::recovery_order, (&names,), r),
    ensures
        0 <= k < names@.len() && wal_segment::is_segment_name(names@[k]@) ==> exists|i: int|
            0 <= i < r@.len() && (#[trigger] r@[i]).name@ == names@[k]@,
        0 <= l < r@.len() ==> wal_segment::is_segment_name(r@[l].name@) && exists|i: int|
            0 <= i < names@.len() && (#[trigger] names@[i])@ == r@[l].name@,
        r@.len() <= names@.len(),
{
    let files = choose|files: Seq<SegmentFile>| #[trigger]
        wal_recovery::lists_segments(names@, files) && stable_sort::stably_sorted(files, r@);
    if 0 <= k < names@.len() && wal_segment::is_segment_name(names@[k]@) {
        let p = segment_file_is_listed(names@, files, k);
        stable_sort::item_is_kept(files, r@, p);
        let i = choose|i: int| 0 <= i < r@.len() && r@[i] == files[p];
        assert(r@[i].name@ == names@[k]@);
    }
    if 0 <= l < r@.len() {
        stable_sort::sorted_item_was_there(files, r@, l);
        let p = choose|p: int| 0 <= p < files.len() && files[p] == r@[l];
        let i = listed_file_is_there(names@, files, p);
        assert(names@[i]@ == r@[l].name@);
    }
    shorter(names@);
}

proof fn shorter(names: Seq<String>)
    ensures
        names.filter(|n: String| wal_recovery::names_segment(n)).len() <= names.len(),
    decreases names.len(),
{
    reveal(Seq::filter);
    if names.len() > 0 {
        shorter(names.drop_last());
    }
}

/// Recovery reads segments in the order of their numbers.
pub proof fn segments_are_read_in_order(
    names: Vec<String>,
    r: Vec<SegmentFile>,
    low: u64,
    high: u64,
    low_name: String,
    high_name: String,
    i: int,
    j: int,
)
    requires
        call_ensures(wal_recovery::recovery_order, (&names,), r),
        call_ensures(wal_segment::segment_file_name, (low,), low_name),
        call_ensures(wal_segment::segment_file_name, (high,), high_name),
        low < high,
        0 <= i < r@.len(),
        0 <= j < r@.len(),
        r@[i].name@ == low_name@,
        r@[j].name@ == high_name@,
    ensures
        i < j,
{
    let files = choose|files: Seq<SegmentFile>| #[trigger]
        wal_recovery::lists_segments(names@, files) && stable_sort::stably_sorted(files, r@);
    stable_sort::sorted_item_was_there(files, r@, i);
    let p = choose|p: int| 0 <= p < files.len() && files[p] == r@[i];
    let first = listed_file_is_there(names@, files, p);
    stable_sort::sorted_item_was_there(files, r@, j);
    let q = choose|q: int| 0 <= q < files.len() && files[q] == r@[j];
    let second = listed_file_is_there(names@, files, q);
    wal_segment::segment_number_back(low);
    wal_segment::segment_number_back(high);
    assert(r@[i].id == low && r@[j].id == high);
    assert(r@[i].stamp_of() == low && r@[j].stamp_of() == high);
}

proof fn decodable_places(decoded: Seq<Result<WALEntry, String>>) -> (at: Seq<int>)
    ensures
        at.len() == wal_recovery::decodable(decoded).len(),
        forall|k: int|
            0 <= k < at.len() ==> 0 <= #[trigger] at[k] < decoded.len() && decoded[at[k]] == Ok::<
                WALEntry,
                String,
            >(wal_recovery::decodable(decoded)[k]),
        forall|k: int, l: int| 0 <= k < l < at.len() ==> #[trigger] at[k] < #[trigger] at[l],
        forall|i: int| 0 <= i < decoded.len() && (#[trigger] decoded[i]) is Ok ==> at.contains(i),
    decreases decoded.len(),
{
    if decoded.len() == 0 {
        Seq::empty()
    } else {
        let less = decoded.drop_last();
        let before = decodable_places(less);
        let n = decoded.len() - 1;
        let at = if decoded[n] is Ok {
            before.push(n)
        } else {
            before
        };
        assert forall|k: int| 0 <= k < at.len() implies 0 <= #[trigger] at[k] < decoded.len()
            && decoded[at[k]] == Ok::<WALEntry, String>(wal_recovery::decodable(decoded)[k]) by {
            if k < before.len() {
                assert(less[before[k]] == decoded[before[k]]);
                assert(wal_recovery::decodable(decoded)[k] == wal_recovery::decodable(less)[k]);
            }
        }
        assert forall|i: int| 0 <= i < decoded.len() && (#[trigger] decoded[i]) is Ok implies at.contains(
            i,
        ) by {
            if i < n {
                assert(less[i] == decoded[i]);
                let k = choose|k: int| 0 <= k < before.len() && before[k] == i;
                assert(at[k] == i);
            } else {
                assert(at[before.len() as int] == n);
            }
        }
        at
    }
}

/// The entries of a segment are all those that could be decoded, in their order.
pub proof fn decoded_entries_are_all_kept(
    decoded: Vec<Result<WALEntry, String>>,
    r: Vec<WALEntry>,
)
    requires
        call_ensures(wal_recovery::decoded_entries, (decoded,), r),
    ensures
        exists|at: Seq<int>|
            {
                &&& #[trigger] at.len() == r@.len()
                &&& forall|k: int|
                    0 <= k < at.len() ==> 0 <= #[trigger] at[k] < decoded@.len() && decoded@[at[k]]
                        == Ok::<WALEntry, String>(r@[k])
                &&& forall|k: int, l: int|
                    0 <= k < l < at.len() ==> #[trigger] at[k] < #[trigger] at[l]
                &&& forall|i: int|
                    0 <= i < decoded@.len() && (#[trigger] decoded@[i]) is Ok ==> at.contains(i)
            },
{
    let at = decodable_places(decoded@);
    assert(at.len() == r@.len());
}

/// Recovery gives the entries of each segment file that could be read, whether or not others could;
/// a file that could not be read is told by its name.
pub proof fn readable_segments_are_recovered(
    rec: &mut Recovery,
    file_name: &str,
    outcome: Result<Vec<WALEntry>, LsmError>,
)
    requires
        old(rec).segments_read + old(rec).errors@.len() < old(rec).segments_found,
        call_ensures(Recovery::accept, (rec, file_name, outcome), ()),
    ensures
        outcome matches Ok(more) ==> final(rec).entries@ == old(rec).entries@ + more@ && final(rec).segments_read == old(rec).segments_read + 1 && final(rec).errors@.len() == old(rec).errors@.len(),
        outcome is Err ==> final(rec).entries@ == old(rec).entries@ && final(rec).segments_read
            == old(rec).segments_read && final(rec).errors@.len() == old(rec).errors@.len() + 1
            && file_name@.is_prefix_of(final(rec).errors@.last()@),
        final(rec).segments_found == old(rec).segments_found,
{
    if let Err(e) = outcome {
        let m = final(rec).errors@.last()@;
        assert(m.subrange(0, file_name@.len() as int) =~= file_name@);
    }
}

/// The current segment has to be readable; a completed one that is not is left out.
pub proof fn completed_segments_may_fail(
    c: &mut CollectedEntries,
    d: &mut CollectedEntries,
    outcome: Result<Vec<WALEntry>, LsmError>,
    r: Result<(), LsmError>,
)
    requires
        call_ensures(CollectedEntries::accept_current, (c, outcome), r),
        call_ensures(CollectedEntries::accept_completed, (d, outcome), ()),
    ensures
        r is Ok <==> outcome is Ok,
        outcome matches Ok(more) ==> final(c).entries@ == old(c).entries@ + more@ && final(d).entries@ == old(d).entries@ + more@,
        outcome is Err ==> final(c).entries@ == old(c).entries@ && final(d).entries@ == old(d).entries@,
{
}

/// A commit of the index is read back as its newest state: with the frame, the offset and the count
/// that were committed, and a generation one higher than before.
pub proof fn committed_state_is_read_back(
    index: WalIndexFile,
    header: WalIndexHeader,
    write: SlotWrite,
    slots: Seq<Seq<u8>>,
    a: &[u8],
    b: &[u8],
    r: Result<WalIndexHeader, LsmError>,
)
    requires
        wal_index::slots_hold(slots, index.latest),
        index.latest.generation < u64::MAX,
        call_ensures(WalIndexFile::commit, (&index, header), write),
        write.offset == 0 ==> a@ == write.bytes@ && b@ == slots[1],
        write.offset == wal_index::WAL_INDEX_SLOT_SIZE ==> a@ == slots[0] && b@ == write.bytes@,
        call_ensures(WalIndexFile::read_latest, (a, b), r),
    ensures
        write.durable,
        write.bytes@.len() == wal_index::WAL_INDEX_SLOT_SIZE,
        write.offset == 0 || write.offset == wal_index::WAL_INDEX_SLOT_SIZE,
        r matches Ok(back) && back.generation == index.latest.generation + 1
            && back.committed_frame == header.committed_frame && back.committed_offset
            == header.committed_offset && back.entry_count == header.entry_count && back.segment_id
            == header.segment_id && back.frame_size == header.frame_size,
{
    wal_index::commit_is_read_back(slots, index.latest, header);
    let next = wal_index::restamped(header, index.latest);
    assert(next.is_valid()) by {
        let bare = WalIndexHeader { generation: next.generation, ..header };
        assert(wal_index::index_covered(next) =~= wal_index::index_covered(bare));
    }
    wal_index::slot_round_trip(next);
    let n = wal_index::slot_number(next.generation) as int;
    assert(n == 0 || n == 1);
    let after = slots.update(n, wal_index::slot_of(next));
    assert(a@ == after[0] && b@ == after[1]);
}

/// What writing a frame commits is that frame, the bytes that it uses, and its entries added to those
/// that were committed.
pub proof fn frame_commit_adds_its_entries(
    w: wal_indexed::FrameWrite,
    state: WalIndexHeader,
    r: WalIndexHeader,
)
    requires
        state.entry_count + w.entries <= u64::MAX,
        call_ensures(wal_indexed::FrameWrite::index_state, (&w, state), r),
    ensures
        r.committed_frame == w.frame_id,
        r.committed_offset == w.used,
        r.entry_count == state.entry_count + w.entries,
        r.segment_id == state.segment_id,
{
}

proof fn highest_file_is_there(names: Seq<String>)
    ensures
        forall|i: int|
            0 <= i < names.len() ==> (wal_indexed::frame_id_of((#[trigger] names[i])@) matches Some(
                n,
            ) ==> n <= wal_indexed::highest_frame_file(names)),
        wal_indexed::highest_frame_file(names) > 0 ==> exists|i: int|
            0 <= i < names.len() && wal_indexed::frame_id_of((#[trigger] names[i])@) == Some(
                wal_indexed::highest_frame_file(names),
            ),
    decreases names.len(),
{
    if names.len() > 0 {
        let less = names.drop_last();
        let n = names.len() - 1;
        highest_file_is_there(less);
        assert forall|i: int| 0 <= i < names.len() implies (wal_indexed::frame_id_of(
            (#[trigger] names[i])@,
        ) matches Some(k) ==> k <= wal_indexed::highest_frame_file(names)) by {
            if i < n {
                assert(less[i] == names[i]);
            }
        }
        if wal_indexed::highest_frame_file(names) > 0 {
            if wal_indexed::frame_id_of(names[n]@) == Some(wal_indexed::highest_frame_file(names)) {
                assert(wal_indexed::frame_id_of(names[n]@) == Some(
                    wal_indexed::highest_frame_file(names),
                ));
            } else {
                let i = choose|i: int|
                    0 <= i < less.len() && wal_indexed::frame_id_of((#[trigger] less[i])@) == Some(
                        wal_indexed::highest_frame_file(less),
                    );
                assert(names[i] == less[i]);
            }
        }
    }
}

/// The frames that are read reach to the last one that was committed or whose file is there,
/// whichever is later.
pub proof fn last_frame_is_the_last_one_there(
    names: Vec<String>,
    state: WalIndexHeader,
    r: u32,
    id: u32,
    name: String,
)
    requires
        call_ensures(wal_indexed::last_committed_frame, (&names, state), r),
        call_ensures(wal_indexed::frame_path, (id,), name),
    ensures
        r >= state.committed_frame,
        forall|i: int| 0 <= i < names@.len() && (#[trigger] names@[i])@ == name@ ==> id <= r,
        r == state.committed_frame || exists|i: int|
            0 <= i < names@.len() && wal_indexed::frame_id_of((#[trigger] names@[i])@) == Some(
                r as nat,
            ),
{
    highest_file_is_there(names@);
    wal_indexed::frame_id_back(id);
}

/// What is read of a frame's file are the payloads of the records in it: of all of the file, or, of
/// the last frame, of what was committed.
pub proof fn frame_entries_are_read_back(
    payloads: Vec<Vec<u8>>,
    written: Vec<u8>,
    zeros: nat,
    frame: &[u8],
    id: u32,
    last: u32,
    state: WalIndexHeader,
    r: Vec<Vec<u8>>,
)
    requires
        forall|i: int|
            0 <= i < payloads@.len() ==> 0 < (#[trigger] payloads@[i])@.len() <= u32::MAX,
        call_ensures(wal_record::encode_records, (&payloads,), written),
        frame@ == written@ + Seq::new(zeros, |i: int| 0u8),
        id == last && state.committed_frame == last ==> state.committed_offset == written@.len(),
        call_ensures(
            wal_indexed::read_committed_entries,
            (frame, frame@.len() as usize, id, last, state),
            r,
        ),
        frame@.len() <= usize::MAX,
    ensures
        r@.len() == payloads@.len(),
        forall|i: int| 0 <= i < payloads@.len() ==> (#[trigger] r@[i])@ == payloads@[i]@,
{
    let all = wal_record::views(payloads@);
    let l = u32::MAX as nat;
    assert forall|i: int| 0 <= i < all.len() implies wal_record::storable(#[trigger] all[i], l) by {
        assert(all[i] == payloads@[i]@);
    }
    wal_record::log_round_trip(all, Seq::empty(), l);
    wal_record::zeros_hold_no_record(zeros, l);
    wal_record::log_round_trip(all, wal_index::zero_bytes(zeros), l);
    assert(written@ + Seq::<u8>::empty() =~= written@);
    assert(frame@ =~= written@ + wal_index::zero_bytes(zeros));
    assert(frame@.take(written@.len() as int) =~= written@);
    assert(frame@.take(frame@.len() as int) =~= frame@);
    let shown = wal_record::views(r@);
    assert(shown == all);
    assert(shown.len() == r@.len() && all.len() == payloads@.len());
    assert forall|i: int| 0 <= i < payloads@.len() implies (#[trigger] r@[i])@ == payloads@[i]@ by {
        assert(shown[i] == r@[i]@ && all[i] == payloads@[i]@);
    }
}

/// What recovery could not read is told in full: the failure holds what was said of each file.
pub proof fn failure_tells_every_file(
    rec: Recovery,
    r: Result<Vec<WALEntry>, LsmError>,
    i: int,
)
    requires
        call_ensures(Recovery::finish, (rec,), r),
        0 <= i < rec.errors@.len(),
    ensures
        r matches Err(e) ==> (e matches LsmError::Wal(m) && text::contains(
            m@,
            rec.errors@[i]@,
        )),
{
    if let Err(e) = r {
        let tail = wal_recovery::joined(rec.errors@, "; "@);
        let at = joined_holds(rec.errors@, "; "@, i);
        if let LsmError::Wal(m) = e {
            let n = m@.len() - tail.len();
            let part = rec.errors@[i]@;
            assert(m@.subrange(n, m@.len() as int) =~= tail);
            assert(m@.subrange(n + at, n + at + part.len()) =~= tail.subrange(at, at + part.len()));
            assert(text::part_at(m@, part, n + at));
        }
    }
}

proof fn joined_holds(texts: Seq<String>, between: Seq<char>, i: int) -> (at: int)
    requires
        0 <= i < texts.len(),
    ensures
        text::part_at(wal_recovery::joined(texts, between), texts[i]@, at),
    decreases texts.len(),
{
    let all = wal_recovery::joined(texts, between);
    let part = texts[i]@;
    if texts.len() == 1 {
        assert(all.subrange(0, part.len() as int) =~= part);
        0
    } else if i == texts.len() - 1 {
        let at = all.len() - part.len();
        assert(all.subrange(at, all.len() as int) =~= part);
        at
    } else {
        let less = wal_recovery::joined(texts.drop_last(), between);
        let at = joined_holds(texts.drop_last(), between, i);
        assert(texts.drop_last()[i] == texts[i]);
        assert(all.subrange(at, at + part.len()) =~= less.subrange(at, at + part.len()));
        at
    }
}

} // verus!
