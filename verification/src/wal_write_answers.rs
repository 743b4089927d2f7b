//! What writing to the logs comes to: from an entry to what is on disk, and from a file to its entries.

use crate::duration::Duration;
use crate::engine_config::{WalConfig, WalSyncMode};
use crate::error::LsmError;
use crate::sst_open::FileRequest;
use crate::stable_sort::Stamped;
use crate::text;
use crate::value::Value;
use crate::wal::{BatchReply, BatchWrite, EntryWrite, Rotation, RotationReply, WALManager};
use crate::wal_answers::{self, LogReadRun};
use crate::wal_entry::{self, WALEntry, WALEntryView};
use crate::wal_frame::{self, FrameWalSegment};
use crate::wal_frame_manager::{FrameRotation, FrameRotationReply, FrameWalManager};
use crate::wal_group_commit::{self, GroupCommitQueue, GroupCommitTiming};
use crate::wal_indexed::FrameWrite;
use crate::wal_indexed_append::{AppendReply, FrameUse, IndexedAppend};
use crate::wal_indexed_manager::IndexedWalManager;
use crate::wal_record;
use crate::wal_recovery::{self, CollectedEntries, Recovery, SegmentFile};
use crate::wal_segment::{self, HeaderWrite, LogRead, SyncAction, WALSegment, WALSegmentHeader};
use crate::wal_truncation::{self, Truncation, TruncationReply};
use vstd::prelude::*;

verus! {

/// An indexed log without a segment, or without an index, takes no entry.
pub proof fn log_that_is_not_ready_takes_nothing(
    m: &mut IndexedWalManager,
    payload: Vec<u8>,
    batch: bool,
    next: IndexedAppend,
    flushed: IndexedAppend,
)
    requires
        old(m).current_segment is None || old(m).index is None,
        call_ensures(IndexedWalManager::write_entry, (m, &payload, batch), next),
        call_ensures(IndexedWalManager::flush, (&*old(m),), flushed),
    ensures
        next matches IndexedAppend::Done(Err(_)),
        *final(m) == *old(m),
        flushed == IndexedAppend::Done(Ok(())),
{
}

/// An entry of a log that syncs each write, which fits beside what is staged, is acknowledged once
/// its frame is written and the index tells of it: of the frame, of the bytes in it and of one entry
/// more. What is staged next goes to the frame behind.
pub proof fn synced_entry_is_acknowledged_when_indexed(
    a: &mut IndexedWalManager,
    b: &mut IndexedWalManager,
    c: &mut IndexedWalManager,
    payload: Vec<u8>,
    s1: IndexedAppend,
    s2: IndexedAppend,
    s3: IndexedAppend,
)
    requires
        old(a).current_segment is Some,
        old(a).index is Some,
        old(a).current_segment->Some_0.sync_mode is Fsync || old(a).current_segment->Some_0.sync_mode is FsyncAsync,
        old(a).current_segment->Some_0.staging@.len() + 4 + payload@.len() <= old(a).current_segment->Some_0.frame_size,
        old(a).current_segment->Some_0.frame_size <= u32::MAX,
        old(a).current_segment->Some_0.staging_frame <= old(a).current_segment->Some_0.data_frame_count,
        old(a).current_segment->Some_0.staging_frame < u32::MAX,
        old(a).index->Some_0.latest.entry_count + old(a).current_segment->Some_0.entries_in_staging
            < u64::MAX,
        old(a).index->Some_0.latest.generation < u64::MAX,
        call_ensures(IndexedWalManager::write_entry, (a, &payload, false), s1),
        *old(b) == *final(a),
        call_ensures(
            IndexedWalManager::continue_write,
            (b, &payload, false, s1, AppendReply::Written),
            s2,
        ),
        *old(c) == *final(b),
        call_ensures(
            IndexedWalManager::continue_write,
            (c, &payload, false, s2, AppendReply::Written),
            s3,
        ),
    ensures
        s1 is Frame,
        s2 is Slot,
        s3 == IndexedAppend::Done(Ok(())),
        final(c).index is Some,
        final(c).current_segment is Some,
        final(c).index->Some_0.latest.committed_frame == old(a).current_segment->Some_0.staging_frame,
        final(c).index->Some_0.latest.committed_offset == old(a).current_segment->Some_0.staging@.len() + 4 + payload@.len(),
        final(c).index->Some_0.latest.entry_count == old(a).index->Some_0.latest.entry_count + old(a).current_segment->Some_0.entries_in_staging + 1,
        final(c).index->Some_0.latest.generation == old(a).index->Some_0.latest.generation + 1,
        final(c).current_segment->Some_0.staging@.len() == 0,
        final(c).current_segment->Some_0.entries_in_staging == 0,
        final(c).current_segment->Some_0.staging_frame == old(a).current_segment->Some_0.staging_frame + 1,
{
    wal_record::length_back(payload@.len() as u32);
}

/// An entry of a log that does not sync each write, which leaves room beside what is staged, is
/// acknowledged at once; it is staged behind the others.
pub proof fn unsynced_entry_is_staged(
    m: &mut IndexedWalManager,
    payload: Vec<u8>,
    batch: bool,
    next: IndexedAppend,
)
    requires
        old(m).current_segment is Some,
        old(m).index is Some,
        batch || old(m).current_segment->Some_0.sync_mode is Never || old(m).current_segment->Some_0.sync_mode is Flush,
        old(m).current_segment->Some_0.staging@.len() + 4 + payload@.len() < old(m).current_segment->Some_0.frame_size,
        payload@.len() <= u32::MAX,
        call_ensures(IndexedWalManager::write_entry, (m, &payload, batch), next),
    ensures
        next == IndexedAppend::Done(Ok(())),
        final(m).index == old(m).index,
        final(m).current_segment is Some,
        final(m).current_segment->Some_0.staging@ == old(m).current_segment->Some_0.staging@
            + wal_record::record(payload@),
        final(m).current_segment->Some_0.entries_in_staging == old(m).current_segment->Some_0.entries_in_staging + 1,
{
    wal_record::length_back(payload@.len() as u32);
}

/// What is staged is flushed as one frame, and is no longer staged once the index tells of it.
pub proof fn flushed_entries_are_indexed(
    m: IndexedWalManager,
    b: &mut IndexedWalManager,
    c: &mut IndexedWalManager,
    payload: Vec<u8>,
    s1: IndexedAppend,
    s2: IndexedAppend,
    s3: IndexedAppend,
)
    requires
        m.current_segment is Some,
        m.index is Some,
        0 < m.current_segment->Some_0.staging@.len() <= u32::MAX,
        m.current_segment->Some_0.staging_frame <= m.current_segment->Some_0.data_frame_count,
        m.current_segment->Some_0.staging_frame < u32::MAX,
        m.index->Some_0.latest.entry_count + m.current_segment->Some_0.entries_in_staging <= u64::MAX,
        call_ensures(IndexedWalManager::flush, (&m,), s1),
        *old(b) == m,
        call_ensures(
            IndexedWalManager::continue_write,
            (b, &payload, false, s1, AppendReply::Written),
            s2,
        ),
        *old(c) == *final(b),
        call_ensures(
            IndexedWalManager::continue_write,
            (c, &payload, false, s2, AppendReply::Written),
            s3,
        ),
    ensures
        s1 matches IndexedAppend::Frame { write, .. } && write.frame_id
            == m.current_segment->Some_0.staging_frame && m.current_segment->Some_0.staging@.is_prefix_of(
            write.bytes@,
        ),
        s3 == IndexedAppend::Done(Ok(())),
        final(c).index is Some,
        final(c).current_segment is Some,
        final(c).index->Some_0.latest.committed_frame == m.current_segment->Some_0.staging_frame,
        final(c).index->Some_0.latest.committed_offset == m.current_segment->Some_0.staging@.len(),
        final(c).index->Some_0.latest.entry_count == m.index->Some_0.latest.entry_count
            + m.current_segment->Some_0.entries_in_staging,
        final(c).current_segment->Some_0.staging@.len() == 0,
        final(c).current_segment->Some_0.staging_frame == m.current_segment->Some_0.staging_frame + 1,
{
    if let IndexedAppend::Frame { write, .. } = s1 {
        let staged = m.current_segment->Some_0.staging@;
        assert(write.bytes@.subrange(0, staged.len() as int) =~= staged);
    }
}

/// Where nothing is staged, there is nothing to flush.
pub proof fn nothing_staged_is_flushed(m: IndexedWalManager, next: IndexedAppend)
    requires
        m.current_segment matches Some(s) ==> s.staging@.len() == 0,
        call_ensures(IndexedWalManager::flush, (&m,), next),
    ensures
        next == IndexedAppend::Done(Ok(())),
{
}

/// A write that fails is not acknowledged, and leaves what is staged as it is; a frame alone is not
/// enough for an entry to be acknowledged.
pub proof fn failed_write_is_not_acknowledged(
    m: &mut IndexedWalManager,
    payload: Vec<u8>,
    batch: bool,
    st: IndexedAppend,
    e: LsmError,
    next: IndexedAppend,
    n: &mut IndexedWalManager,
    write: FrameWrite,
    reason: FrameUse,
    half: IndexedAppend,
)
    requires
        !(st is Done),
        call_ensures(
            IndexedWalManager::continue_write,
            (m, &payload, batch, st, AppendReply::Failed(e)),
            next,
        ),
        call_ensures(
            IndexedWalManager::continue_write,
            (
                n,
                &payload,
                batch,
                IndexedAppend::Frame { write, reason },
                AppendReply::Written,
            ),
            half,
        ),
    ensures
        next == IndexedAppend::Done(Err(e)),
        *final(m) == *old(m),
        half is Slot,
        *final(n) == *old(n),
{
}

/// An entry for which the staged ones leave no room waits until they are committed, and is staged
/// behind them, in the next frame.
pub proof fn entry_is_staged_after_making_room(
    a: &mut IndexedWalManager,
    b: &mut IndexedWalManager,
    c: &mut IndexedWalManager,
    payload: Vec<u8>,
    s1: IndexedAppend,
    s2: IndexedAppend,
    s3: IndexedAppend,
)
    requires
        old(a).current_segment is Some,
        old(a).index is Some,
        old(a).current_segment->Some_0.staging@.len() > 0,
        old(a).current_segment->Some_0.staging@.len() + 4 + payload@.len() > old(a).current_segment->Some_0.frame_size,
        4 + payload@.len() <= old(a).current_segment->Some_0.frame_size <= u32::MAX,
        old(a).current_segment->Some_0.staging@.len() <= u32::MAX,
        old(a).current_segment->Some_0.staging_frame < old(a).current_segment->Some_0.data_frame_count,
        call_ensures(IndexedWalManager::write_entry, (a, &payload, true), s1),
        *old(b) == *final(a),
        call_ensures(
            IndexedWalManager::continue_write,
            (b, &payload, true, s1, AppendReply::Written),
            s2,
        ),
        *old(c) == *final(b),
        call_ensures(
            IndexedWalManager::continue_write,
            (c, &payload, true, s2, AppendReply::Written),
            s3,
        ),
    ensures
        *final(a) == *old(a),
        s3 == IndexedAppend::Done(Ok(())),
        final(c).index is Some,
        final(c).current_segment is Some,
        final(c).index->Some_0.latest.committed_frame == old(a).current_segment->Some_0.staging_frame,
        final(c).index->Some_0.latest.committed_offset == old(a).current_segment->Some_0.staging@.len(),
        final(c).current_segment->Some_0.staging@ == wal_record::record(payload@),
        final(c).current_segment->Some_0.entries_in_staging == 1,
        final(c).current_segment->Some_0.staging_frame == old(a).current_segment->Some_0.staging_frame + 1,
{
    wal_record::length_back(payload@.len() as u32);
    let none = Seq::<u8>::empty();
    assert(none + wal_record::record(payload@) =~= wal_record::record(payload@));
}

/// A record is its payload behind the length of it, in whichever way it is encoded.
pub proof fn record_is_length_and_payload(
    payload: &[u8],
    one: Vec<u8>,
    all: Vec<Vec<u8>>,
    many: Vec<u8>,
    head: &[u8],
    n: u32,
    out: &mut Vec<u8>,
)
    requires
        payload@.len() <= u32::MAX,
        call_ensures(wal_record::encode_record, (payload,), one),
        all@.len() == 1,
        all@[0]@ == payload@,
        call_ensures(wal_record::encode_records, (&all,), many),
        head@ == one@.subrange(0, 4),
        call_ensures(wal_record::read_length, (head,), n),
        call_ensures(wal_record::push_record, (out, payload), ()),
    ensures
        many@ == one@,
        n == payload@.len(),
        one@.len() == 4 + payload@.len(),
        one@.subrange(4, one@.len() as int) == payload@,
        final(out)@ == old(out)@ + one@,
{
    wal_record::length_back(payload@.len() as u32);
    let views = wal_record::views(all@);
    assert(views.len() == 1 && views[0] == payload@);
    assert(views.last() == payload@);
    assert(views.drop_last() =~= Seq::empty());
    assert(wal_record::log_bytes(views.drop_last()) == Seq::<u8>::empty());
    assert(wal_record::log_bytes(views) =~= wal_record::record(payload@));
    assert(one@.subrange(0, 4) =~= wal_record::length_bytes(payload@.len() as u32));
    assert(one@.subrange(4, one@.len() as int) =~= payload@);
}

/// One step of reading a segment file that does not change.
pub open spec fn segment_step_read(
    segment: WALSegment,
    file: Seq<u8>,
    run: LogReadRun,
    requests: Seq<FileRequest>,
    i: int,
) -> bool {
    &&& run.states[i] !is Done
    &&& call_ensures(LogRead::request, (&run.states[i],), requests[i])
    &&& wal_segment::file_answers(requests[i], file, run.replies[i])
    &&& call_ensures(
        WALSegment::read_entries,
        (&segment, run.states[i], run.replies[i]),
        run.states[i + 1],
    )
}

/// Reading a segment file gives the payloads that were written to it, in their order.
pub proof fn segment_file_is_read(
    segment: WALSegment,
    h: WALSegmentHeader,
    held: Seq<Seq<u8>>,
    file: Seq<u8>,
    run: LogReadRun,
    requests: Seq<FileRequest>,
)
    requires
        forall|i: int|
            0 <= i < held.len() ==> 0 < (#[trigger] held[i]).len() <= segment.max_size && held[i].len()
                <= u32::MAX,
        file == wal_segment::header_bytes(h) + wal_record::log_bytes(held),
        run.states.len() == run.replies.len() + 1,
        requests.len() == run.replies.len(),
        run.states[0] is Size,
        run.states.last() is Done,
        forall|i: int|
            0 <= i < run.replies.len() ==> #[trigger] segment_step_read(
                segment,
                file,
                run,
                requests,
                i,
            ),
    ensures
        run.states.last() matches LogRead::Done(Ok(payloads)) && wal_record::views(payloads@)
            == held,
{
    let limit = segment.max_size;
    assert forall|i: int| 0 <= i < run.replies.len() implies #[trigger] run.step_taken(
        file,
        limit,
        i,
    ) by {
        assert(segment_step_read(segment, file, run, requests, i));
    }
    wal_answers::segment_is_read_to_its_end(run, file, limit);
    assert forall|i: int| 0 <= i < held.len() implies wal_record::storable(
        #[trigger] held[i],
        limit as nat,
    ) by {}
    wal_segment::segment_holds_what_was_written(h, held, Seq::empty(), limit as nat);
    assert(file =~= wal_segment::header_bytes(h) + wal_record::log_bytes(held)
        + Seq::<u8>::empty());
}

/// A segment that the log makes is empty, holds as much as is configured, and is opened again as it
/// was made.
pub proof fn made_segment_is_opened(
    config: WalConfig,
    m: WALManager,
    path: String,
    now: u64,
    s: WALSegment,
    direct: WALSegment,
    made: Result<HeaderWrite, LsmError>,
    closed: Result<HeaderWrite, LsmError>,
    data: Vec<u8>,
    wanted: Option<u64>,
    count: u32,
    shown: &str,
    back: Result<WALSegment, LsmError>,
)
    requires
        call_ensures(WALManager::new, (&config,), m),
        call_ensures(WALManager::next_segment, (&m, path, now), s),
        call_ensures(WALSegment::new, (path, config.segment_size, config.sync_mode, now), direct),
        call_ensures(WALSegment::creation_write, (&s,), made),
        call_ensures(WALSegment::close, (&s,), closed),
        made matches Ok(w) ==> data@ == w.header@,
        call_ensures(WALSegment::header_to_read, (data@.len() as u64,), wanted),
        call_ensures(WALSegment::entry_count, (&s,), count),
        call_ensures(WALSegment::path, (&s,), shown),
        call_ensures(
            WALSegment::open_for_reading,
            (path, s.max_size, s.sync_mode, Some(data)),
            back,
        ),
    ensures
        m.current_segment is None,
        m.segments@.len() == 0,
        s.max_size == config.segment_size,
        s.sync_mode == config.sync_mode,
        direct.max_size == s.max_size && direct.sync_mode == s.sync_mode && direct.path@ == s.path@
            && direct.header.created_at == s.header.created_at && direct.entry_count
            == s.entry_count,
        made is Ok && closed is Ok,
        closed->Ok_0.header@ == data@,
        closed->Ok_0.sync == SyncAction::All,
        made->Ok_0.sync == SyncAction::Data,
        data@.len() == 17,
        wanted == Some(17u64),
        count == 0,
        shown@ == path@,
        back matches Ok(b) && b.header.created_at == now && b.entry_count == 0 && b.path@ == path@,
{
    wal_segment::header_round_trip(s.header, Seq::empty());
    assert(data@ + Seq::<u8>::empty() =~= data@);
    assert(data@.subrange(0, 4) =~= s.header.magic@);
}

/// A file that is too short for a header is taken as a segment without entries, and one with another
/// magic is not taken.
pub proof fn short_files_hold_no_entries(
    path: String,
    max_size: u64,
    mode: WalSyncMode,
    len: u64,
    wanted: Option<u64>,
    empty: Result<WALSegment, LsmError>,
    data: Vec<u8>,
    other: Result<WALSegment, LsmError>,
)
    requires
        call_ensures(WALSegment::header_to_read, (len,), wanted),
        call_ensures(WALSegment::open_for_reading, (path, max_size, mode, None), empty),
        data@.len() == 17,
        call_ensures(WALSegment::open_for_reading, (path, max_size, mode, Some(data)), other),
    ensures
        wanted is Some <==> len >= 17,
        empty matches Ok(s) && s.entry_count == 0,
        other is Ok <==> data@.subrange(0, 4) == seq![87u8, 65u8, 76u8, 49u8],
{
}

/// A segment is rotated exactly once its file has reached its size.
pub proof fn full_segment_rotates(s: WALSegment, a: u64, b: u64, ra: bool, rb: bool)
    requires
        call_ensures(WALSegment::should_rotate, (&s, a), ra),
        call_ensures(WALSegment::should_rotate, (&s, b), rb),
        a <= b,
    ensures
        ra ==> rb,
        a == s.max_size ==> ra,
        a < s.max_size ==> !ra,
{
}

/// An entry is tried on the current segment, and refused where there is none.
pub proof fn entries_need_a_segment(
    m: WALManager,
    f: FrameWalManager,
    r: EntryWrite,
    s: EntryWrite,
)
    requires
        call_ensures(WALManager::begin_entry, (&m,), r),
        call_ensures(FrameWalManager::begin_entry, (&f,), s),
    ensures
        m.current_segment is Some ==> r is Try,
        m.current_segment is None ==> (r matches EntryWrite::Done(Err(_))),
        f.current_segment is Some ==> s is Try,
        f.current_segment is None ==> (s matches EntryWrite::Done(Err(_))),
{
}

/// A segment that the frame log makes is empty, has the page size of the log, and is read from behind
/// its header.
pub proof fn made_frame_segment_is_empty(
    config: WalConfig,
    m: FrameWalManager,
    path: String,
    now: u64,
    page: u32,
    s: FrameWalSegment,
    direct: FrameWalSegment,
    made: Result<HeaderWrite, LsmError>,
    first: LogRead,
    synced: &mut FrameWalSegment,
    len: u64,
    shown: &str,
)
    requires
        config.frame_page_size <= u32::MAX,
        call_ensures(FrameWalManager::new, (&config,), m),
        call_ensures(FrameWalManager::page_size, (&m,), page),
        call_ensures(FrameWalManager::next_segment, (&m, path, now), s),
        call_ensures(
            FrameWalSegment::new,
            (path, config.segment_size, config.sync_mode, page, now),
            direct,
        ),
        call_ensures(FrameWalSegment::creation_write, (&s,), made),
        call_ensures(FrameWalSegment::begin_read, (), first),
        call_ensures(FrameWalSegment::synced_to, (synced, len), ()),
        call_ensures(FrameWalSegment::path, (&s,), shown),
    ensures
        m.current_segment is None,
        m.segments@.len() == 0,
        page >= 512,
        page >= config.frame_page_size,
        page == 512 || page == config.frame_page_size,
        s.header.page_size == page,
        s.entry_count == 0,
        s.header.created_at == now,
        s.max_size == config.segment_size,
        s.sync_mode == config.sync_mode,
        direct.header.page_size == page && direct.max_size == s.max_size && direct.sync_mode
            == s.sync_mode && direct.path@ == s.path@ && direct.entry_count == 0
            && direct.header.created_at == now,
        made matches Ok(w) && (first matches LogRead::Length { pos, payloads } && pos
            == w.header@.len() && payloads@.len() == 0),
        final(synced).synced_offset == len,
        final(synced).entry_count == old(synced).entry_count,
        shown@ == path@,
{
    wal_frame::frame_header_round_trip(s.header, Seq::empty());
}

/// A truncation of the frame log takes its segment and forgets the others; the log is truncated once
/// it has a new one.
pub proof fn frame_truncation_forgets_segments(
    a: &mut FrameWalManager,
    b: &mut FrameWalManager,
    taken: Option<FrameWalSegment>,
    before: bool,
    after: bool,
    with_new: FrameWalManager,
    done: bool,
)
    requires
        call_ensures(FrameWalManager::verify_truncated, (&*old(a),), before),
        call_ensures(FrameWalManager::begin_truncation, (a,), taken),
        *old(b) == *final(a),
        call_ensures(FrameWalManager::forget_segments, (b,), ()),
        call_ensures(FrameWalManager::verify_truncated, (&*final(b),), after),
        with_new.current_segment is Some,
        with_new.segments == final(b).segments,
        call_ensures(FrameWalManager::verify_truncated, (&with_new,), done),
    ensures
        taken == old(a).current_segment,
        final(b).current_segment is None,
        final(b).segment_counter == old(a).segment_counter,
        !after,
        done,
        before ==> old(a).segments@.len() == 0,
{
}

/// A truncation of the log takes its segment and forgets the others; the segment is closed first.
pub proof fn log_truncation_forgets_segments(
    a: &mut WALManager,
    taken: Option<WALSegment>,
    b: &mut WALManager,
    first: Truncation,
    c: &mut WALManager,
    id: u64,
    other: u64,
    gone: Option<String>,
)
    requires
        call_ensures(WALManager::begin_truncation, (a,), taken),
        call_ensures(WALManager::start_truncation, (b,), first),
        call_ensures(WALManager::forget_segment, (c, id), gone),
        other != id,
    ensures
        taken == old(a).current_segment,
        final(a).current_segment is None,
        final(a).segments@.len() == 0,
        final(a).segment_counter == old(a).segment_counter,
        final(b).current_segment is None,
        final(b).segments@.len() == 0,
        old(b).current_segment matches Some(s) ==> first == Truncation::Close(s),
        old(b).current_segment is None ==> first is Pause,
        gone is Some <==> old(c).segments@.contains_key(id),
        gone matches Some(path) ==> path == old(c).segments@[id],
        !final(c).segments@.contains_key(id),
        old(c).segments@.contains_key(other) ==> final(c).segments@.contains_key(other) && final(c).segments@[other] == old(c).segments@[other],
        final(c).current_segment == old(c).current_segment,
{
}

/// A removal that fails is tried three times in all; a file that is still there, or that is left, is
/// told.
pub proof fn removals_are_tried_and_tested(
    n: u32,
    again: bool,
    quoted: &str,
    there: bool,
    of_file: Result<(), LsmError>,
    left: usize,
    of_log: Result<(), LsmError>,
)
    requires
        call_ensures(wal_recovery::retry_removal, (n,), again),
        call_ensures(wal_recovery::check_removed, (quoted, there), of_file),
        call_ensures(wal_recovery::check_truncated, (left,), of_log),
    ensures
        again <==> n < 3,
        of_file is Ok <==> !there,
        of_log is Ok <==> left == 0,
        of_file matches Err(LsmError::Io(e)) ==> text::contains(e.message@, quoted@),
{
    if let Err(LsmError::Io(e)) = of_file {
        let n = e.message@.len() - quoted@.len();
        assert(e.message@.subrange(n, n + quoted@.len()) =~= quoted@);
        assert(text::part_at(e.message@, quoted@, n));
    }
}

/// Recovery begins with nothing read, and all segments are listed for it that it puts in order.
pub proof fn recovery_begins_with_nothing(
    n: usize,
    r: Recovery,
    c: CollectedEntries,
    names: Vec<String>,
    listed: Vec<SegmentFile>,
    ordered: Vec<SegmentFile>,
)
    requires
        call_ensures(Recovery::begin, (n,), r),
        call_ensures(CollectedEntries::begin, (), c),
        call_ensures(wal_recovery::list_segment_files, (&names,), listed),
        call_ensures(wal_recovery::recovery_order, (&names,), ordered),
    ensures
        r.segments_found == n,
        r.segments_read == 0,
        r.entries@.len() == 0,
        r.errors@.len() == 0,
        c.entries@.len() == 0,
        ordered@.len() == listed@.len(),
{
}

/// Texts are joined in their order, each but the first behind what stands between them.
pub proof fn texts_are_joined(
    one: Vec<String>,
    texts: Vec<String>,
    more: Vec<String>,
    between: &str,
    r1: String,
    r: String,
    s: String,
)
    requires
        one@.len() == 1,
        call_ensures(wal_recovery::join_texts, (&one, between), r1),
        texts@.len() > 0,
        call_ensures(wal_recovery::join_texts, (&texts, between), r),
        more@.len() == texts@.len() + 1,
        more@.drop_last() == texts@,
        call_ensures(wal_recovery::join_texts, (&more, between), s),
    ensures
        r1@ == one@[0]@,
        s@ == r@ + between@ + more@.last()@,
{
}

/// An entry of the log is of the time that it is given, and of the key and value.
pub proof fn entries_tell_what_was_done(
    key: &str,
    value: Value,
    time: u64,
    p: WALEntry,
    d: WALEntry,
    c: WALEntry,
    tp: u64,
    td: u64,
    tc: u64,
    items: Vec<(String, Value)>,
    all: Vec<WALEntry>,
    i: int,
)
    requires
        call_ensures(WALEntry::put, (key, &value, time), p),
        call_ensures(WALEntry::delete, (key, time), d),
        call_ensures(WALEntry::checkpoint, (time,), c),
        call_ensures(<WALEntry as Stamped>::stamp, (&p,), tp),
        call_ensures(<WALEntry as Stamped>::stamp, (&d,), td),
        call_ensures(<WALEntry as Stamped>::stamp, (&c,), tc),
        call_ensures(wal_entry::put_entries, (&items, time), all),
        0 <= i < items@.len(),
        items@[i].0@ == key@,
        items@[i].1@ == value@,
    ensures
        tp == time && td == time && tc == time,
        p@ matches WALEntryView::Put { key: k, value: v, .. } && k == key@ && v == value@,
        d@ matches WALEntryView::Delete { key: k, .. } && k == key@,
        c@ is Checkpoint,
        all@.len() == items@.len(),
        all@[i]@ == p@,
{
    assert(p@ == (WALEntryView::Put { key: key@, value: value@, timestamp: time }));
    assert(d@ == (WALEntryView::Delete { key: key@, timestamp: time }));
    assert(c@ == (WALEntryView::Checkpoint { timestamp: time }));
}

/// A queue is due when its entries are, and never while it is empty.
pub proof fn queue_is_due_with_its_entries<T>(
    q: GroupCommitQueue<T>,
    fresh: GroupCommitQueue<T>,
    wait: Duration,
    idle: Option<Duration>,
    now: Duration,
    r: Option<Duration>,
    s: Option<Duration>,
    n: Option<Duration>,
    count: usize,
)
    requires
        call_ensures(GroupCommitQueue::<T>::new, (), fresh),
        call_ensures(GroupCommitQueue::<T>::deadline, (&q, wait, idle, now), r),
        count == q.pending@.len(),
        call_ensures(
            wal_group_commit::next_flush_deadline,
            (&q.timing, count, wait, idle, now),
            s,
        ),
        call_ensures(GroupCommitQueue::<T>::deadline, (&fresh, wait, idle, now), n),
    ensures
        r == s,
        fresh.pending@.len() == 0,
        n is None,
{
}

/// The first entry that waits starts the time of all; each entry starts the time without entries
/// anew; and what is cleared does not wait.
pub proof fn arrivals_are_noted(
    a: &mut GroupCommitTiming,
    b: &mut GroupCommitTiming,
    c: &mut GroupCommitTiming,
    first: Duration,
    second: Duration,
)
    requires
        call_ensures(GroupCommitTiming::record_enqueue, (a, true, first), ()),
        *old(b) == *final(a),
        call_ensures(GroupCommitTiming::record_enqueue, (b, false, second), ()),
        *old(c) == *final(b),
        call_ensures(GroupCommitTiming::clear, (c,), ()),
    ensures
        final(b).first_pending_at == Some(first),
        final(a).last_enqueue_at == Some(first),
        final(b).last_enqueue_at == Some(second),
        final(c).first_pending_at is None,
        final(c).last_enqueue_at is None,
{
}

/// A batch that had to rotate goes on with the new segment, and is refused where there is none; a step
/// that fails ends it with that failure. It is acknowledged only once its header is written.
pub proof fn batch_goes_on_after_rotating(
    m: &mut WALManager,
    f: &mut FrameWalManager,
    st: BatchWrite,
    data_len: u64,
    count: u32,
    reply: BatchReply,
    next: BatchWrite,
    frame_next: BatchWrite,
)
    requires
        !(st is Done),
        st is Capacity || st is Room ==> !(reply is Done),
        !(st is Capacity || st is Room) ==> !(reply is Size),
        call_ensures(WALManager::batch_write_entries, (m, st, data_len, count, reply), next),
        call_ensures(FrameWalManager::batch_write_entries, (f, st, data_len, count, reply), frame_next),
    ensures
        reply matches BatchReply::Failed(e) ==> next == BatchWrite::Done(Err(e)) && frame_next
            == BatchWrite::Done(Err(e)) && *final(m) == *old(m) && *final(f) == *old(f),
        next == BatchWrite::Done(Ok(())) ==> st is Persist && reply is Done,
        frame_next == BatchWrite::Done(Ok(())) ==> st is Persist && reply is Done,
        st is RotateFull && reply is Done ==> if old(m).current_segment is Some {
            next is Room
        } else {
            next matches BatchWrite::Done(Err(_))
        },
        st is RotateForRoom && reply is Done ==> if old(m).current_segment is Some {
            next is Append
        } else {
            next matches BatchWrite::Done(Err(_))
        },
        st is RotateFull && reply is Done && old(f).current_segment is Some ==> frame_next is Room,
        st is RotateForRoom && reply is Done && old(f).current_segment is Some
            ==> frame_next is Append,
{
}

/// A batch of the frame log for which the segment has no room is appended to a new one.
pub proof fn frame_batch_without_room_rotates(
    a: &mut FrameWalManager,
    segment: FrameWalSegment,
    data_len: u64,
    count: u32,
    size: u64,
    full: BatchWrite,
    b: &mut FrameWalManager,
    narrow: BatchWrite,
)
    requires
        old(a).current_segment == Some(segment),
        size >= segment.max_size,
        call_ensures(
            FrameWalManager::batch_write_entries,
            (a, BatchWrite::Capacity, data_len, count, BatchReply::Size(size)),
            full,
        ),
        old(b).current_segment == Some(segment),
        size + data_len > segment.max_size,
        call_ensures(
            FrameWalManager::batch_write_entries,
            (b, BatchWrite::Room, data_len, count, BatchReply::Size(size)),
            narrow,
        ),
    ensures
        full is RotateFull,
        narrow is RotateForRoom,
        *final(a) == *old(a),
        *final(b) == *old(b),
{
}

/// A rotation that fails ends with that failure and changes nothing more; a log without a segment has
/// none to close.
pub proof fn failed_rotation_changes_nothing(
    m: &mut WALManager,
    st: Rotation,
    e: LsmError,
    next: Rotation,
    n: &mut WALManager,
    first: Rotation,
    f: &mut FrameWalManager,
    frame_st: FrameRotation,
    frame_next: FrameRotation,
)
    requires
        !(st is Done),
        call_ensures(WALManager::rotate_segment, (m, st, RotationReply::Failed(e)), next),
        old(n).current_segment is None,
        call_ensures(WALManager::begin_rotation, (n,), first),
        !(frame_st is Done),
        call_ensures(
            FrameWalManager::rotate_segment,
            (f, frame_st, FrameRotationReply::Failed(e)),
            frame_next,
        ),
    ensures
        next == Rotation::Done(Err(e)),
        *final(m) == *old(m),
        first == Rotation::Create,
        final(n).segments == old(n).segments,
        frame_next == FrameRotation::Done(Err(e)),
        *final(f) == *old(f),
{
}

/// A truncation pauses after the segment is closed, lists the files then, and tries a file again that
/// could not be removed.
pub proof fn truncation_goes_on(
    s: WALSegment,
    reply: TruncationReply,
    paused: Truncation,
    done: TruncationReply,
    listed: Truncation,
    files: Vec<SegmentFile>,
    next: usize,
    failures: u32,
    again: Truncation,
    e: LsmError,
    failed: Truncation,
)
    requires
        call_ensures(wal_truncation::truncate_after_flush, (Truncation::Close(s), reply), paused),
        call_ensures(wal_truncation::truncate_after_flush, (Truncation::Pause, done), listed),
        call_ensures(
            wal_truncation::truncate_after_flush,
            (Truncation::Retry { files, next, failures }, done),
            again,
        ),
        call_ensures(
            wal_truncation::truncate_after_flush,
            (Truncation::Rotate, TruncationReply::Failed(e)),
            failed,
        ),
    ensures
        paused is Pause,
        listed is List,
        again matches Truncation::Remove { files: f, next: n, failures: k } && f == files && n == next
            && k == failures,
        failed == Truncation::Done(Err(e)),
{
}

} // verus!
