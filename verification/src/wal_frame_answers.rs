//! What the operations of the frame log and of the indexed log come to, taken together.

use crate::error::LsmError;
use crate::sst_open::FileReply;
use crate::numerals;
use crate::text;
use crate::wal_frame::{self, FrameWalHeader, FrameWalSegment};
use crate::wal_frame_manager::{FrameRotation, FrameRotationReply, FrameWalManager};
use crate::wal_index::{self, SlotWrite, WalIndexFile, WalIndexHeader};
use crate::wal_indexed::{self, AppendAction, FrameWrite, IndexedWalSegment};
use crate::wal_indexed_manager::{self, IndexedReply, IndexedRotation, IndexedWalManager};
use crate::wal_record;
use crate::wal_recovery::{SegmentAge, ShutdownStep};
use crate::wal_segment::{AppendPlan, HeaderWrite, LogRead, SyncAction, WALSegment};
use crate::engine_config::{WalConfig, WalSyncMode};
use crate::duration::Duration;
use vstd::prelude::*;

verus! {

/// An entry is taken by a frame segment exactly if it fits behind what the file holds, and what is
/// appended for it is read back behind the entries that were there.
pub proof fn appended_frame_entry_is_read_back(
    segment: FrameWalSegment,
    h: FrameWalHeader,
    held: Seq<Seq<u8>>,
    file: Seq<u8>,
    payload: Vec<u8>,
    r: Option<AppendPlan>,
)
    requires
        forall|i: int| 0 <= i < held.len() ==> 0 < (#[trigger] held[i]).len() <= u32::MAX,
        file == wal_frame::frame_header_bytes(h) + wal_record::log_bytes(held),
        file.len() + payload@.len() + 4 <= u64::MAX,
        0 < payload@.len() <= u32::MAX,
        call_ensures(FrameWalSegment::write_entry, (&segment, file.len() as u64, &payload), r),
    ensures
        r is Some <==> file.len() + 4 + payload@.len() <= segment.max_size,
        r matches Some(plan) ==> plan.bytes@.len() == 4 + payload@.len()
            && wal_frame::frame_records(file + plan.bytes@) == held.push(payload@) && (plan.sync
            == SyncAction::Data <==> segment.sync_mode is Fsync) && (plan.sync
            == SyncAction::DataInBackground <==> segment.sync_mode is FsyncAsync),
{
    if let Some(plan) = r {
        let all = held.push(payload@);
        wal_record::length_back(payload@.len() as u32);
        assert(all.drop_last() =~= held);
        assert forall|i: int| 0 <= i < all.len() implies wal_record::storable(
            #[trigger] all[i],
            u32::MAX as nat,
        ) by {
            if i < held.len() {
                assert(all[i] == held[i]);
            }
        }
        wal_frame::frame_segment_holds_what_was_written(h, all);
        assert(file + plan.bytes@ =~= wal_frame::frame_header_bytes(h) + wal_record::log_bytes(all));
    }
}

/// The header that is written of a frame segment, when it is made, flushed or closed, is read back
/// when it is opened.
pub proof fn frame_header_is_opened(
    s: FrameWalSegment,
    made: Result<HeaderWrite, LsmError>,
    flushed: Result<HeaderWrite, LsmError>,
    closed: Result<HeaderWrite, LsmError>,
    path: String,
    data: Vec<u8>,
    file_len: u64,
    r: Result<FrameWalSegment, LsmError>,
)
    requires
        s.header.magic@ == seq![87u8, 65u8, 76u8, 70u8],
        call_ensures(FrameWalSegment::creation_write, (&s,), made),
        call_ensures(FrameWalSegment::flush, (&s,), flushed),
        call_ensures(FrameWalSegment::close, (&s,), closed),
        made matches Ok(w) ==> data@ == w.header@,
        call_ensures(
            FrameWalSegment::open_for_reading,
            (path, s.max_size, s.sync_mode, data, file_len),
            r,
        ),
    ensures
        made is Ok && flushed is Ok && closed is Ok,
        flushed->Ok_0.header@ == data@,
        closed->Ok_0.header@ == data@,
        closed->Ok_0.sync == SyncAction::Data,
        flushed->Ok_0.flush,
        r matches Ok(back) && back.entry_count == s.header.entry_count && back.header.created_at
            == s.header.created_at && back.header.page_size == s.header.page_size
            && back.synced_offset == file_len && back.max_size == s.max_size && back.path@
            == path@,
{
    wal_frame::frame_header_round_trip(s.header, Seq::empty());
    assert(data@ + Seq::<u8>::empty() =~= data@);
    let head = data@.subrange(0, 4);
    if let Ok(w) = made {
        assert(head =~= s.header.magic@);
    }
}

/// A record of a frame segment whose body is cut short fails the read; the length of the next record
/// that is cut short ends it with the records before it.
pub proof fn cut_frame_records(
    pos: u64,
    size: u32,
    payloads: Vec<Vec<u8>>,
    e: LsmError,
    of_length: LogRead,
    of_body: LogRead,
)
    requires
        call_ensures(
            FrameWalSegment::read_entries,
            (LogRead::Length { pos, payloads }, FileReply::Failed(e)),
            of_length,
        ),
        call_ensures(
            FrameWalSegment::read_entries,
            (LogRead::Body { pos, size, payloads }, FileReply::Failed(e)),
            of_body,
        ),
    ensures
        of_length matches LogRead::Done(Ok(all)) && all@ == payloads@,
        of_body == LogRead::Done(Err(e)),
{
}

/// A segment is rotated exactly once its file has reached its size.
pub proof fn full_frame_segment_rotates(s: FrameWalSegment, a: u64, b: u64, ra: bool, rb: bool)
    requires
        call_ensures(FrameWalSegment::should_rotate, (&s, a), ra),
        call_ensures(FrameWalSegment::should_rotate, (&s, b), rb),
        a <= b,
    ensures
        ra ==> rb,
        a == s.max_size ==> ra,
        a < s.max_size ==> !ra,
{
}

/// A rotation of the frame log that goes well remembers the file of the segment that it closes, and
/// makes the new segment the current one.
pub proof fn frame_rotation_completes_the_segment(
    a: &mut FrameWalManager,
    b: &mut FrameWalManager,
    c: &mut FrameWalManager,
    first: FrameRotation,
    second: FrameRotation,
    third: FrameRotation,
    closed: FrameWalSegment,
    made: FrameWalSegment,
    id: u64,
)
    requires
        old(a).current_segment == Some(closed),
        call_ensures(FrameWalManager::begin_rotation, (a,), first),
        *old(b) == *final(a),
        call_ensures(FrameWalManager::rotate_segment, (b, first, FrameRotationReply::Closed), second),
        *old(c) == *final(b),
        call_ensures(
            FrameWalManager::rotate_segment,
            (c, second, FrameRotationReply::Created(made)),
            third,
        ),
        old(a).segment_counter < u64::MAX,
    ensures
        first == FrameRotation::Close(closed),
        third == FrameRotation::Done(Ok(())),
        final(c).current_segment == Some(made),
        final(c).segments@.contains_key(old(a).segment_counter),
        final(c).segments@[old(a).segment_counter]@ == closed.path@,
        id != old(a).segment_counter && old(a).segments@.contains_key(id) ==> final(c).segments@.contains_key(id) && final(c).segments@[id] == old(a).segments@[id],
        final(c).segment_counter == old(a).segment_counter + 1,
{
}

/// What is staged is written as one frame, if there is room for a frame, and read back from it once
/// the index tells of it.
pub proof fn flushed_frame_is_read_back(
    s: IndexedWalSegment,
    staged: Seq<Seq<u8>>,
    r: Result<Option<FrameWrite>, LsmError>,
    state: WalIndexHeader,
    after: WalIndexHeader,
    write: FrameWrite,
    frame: &[u8],
    file_len: usize,
    read: Vec<Vec<u8>>,
)
    requires
        forall|i: int| 0 <= i < staged.len() ==> 0 < (#[trigger] staged[i]).len() <= u32::MAX,
        staged.len() > 0,
        s.staging@ == wal_record::log_bytes(staged),
        s.staging@.len() <= u32::MAX,
        s.entries_in_staging == staged.len(),
        call_ensures(IndexedWalSegment::flush_staging, (&s,), r),
        r matches Ok(Some(w)) ==> write == w,
        call_ensures(FrameWrite::index_state, (&write, state), after),
        frame@ == write.bytes@,
        file_len == frame@.len(),
        call_ensures(
            wal_indexed::read_committed_entries,
            (frame, file_len, write.frame_id, write.frame_id, after),
            read,
        ),
        state.entry_count + staged.len() <= u64::MAX,
    ensures
        s.staging_frame <= s.data_frame_count <==> r is Ok,
        r is Ok ==> r == Ok::<Option<FrameWrite>, LsmError>(Some(write)),
        r is Ok ==> write.frame_id == s.staging_frame && frame@.len() >= s.frame_size,
        r is Ok ==> after.entry_count == state.entry_count + staged.len() && after.committed_frame
            == s.staging_frame && after.committed_offset == s.staging@.len(),
        r is Ok ==> wal_record::views(read@) == staged,
{
    records_have_bytes(staged);
    if r is Ok {
        assert forall|i: int| 0 <= i < staged.len() implies wal_record::storable(
            #[trigger] staged[i],
            u32::MAX as nat,
        ) by {}
        wal_indexed::frame_is_read_back(write, s.staging_frame, staged, s.frame_size as nat);
        assert(frame@.take(frame@.len() as int) =~= frame@);
    }
}

proof fn records_have_bytes(payloads: Seq<Seq<u8>>)
    requires
        payloads.len() > 0,
    ensures
        wal_record::log_bytes(payloads).len() >= 4,
{
    wal_record::length_back(payloads.last().len() as u32);
}

/// Nothing to stage, nothing to write.
pub proof fn empty_staging_is_not_written(
    s: IndexedWalSegment,
    r: Result<Option<FrameWrite>, LsmError>,
)
    requires
        s.staging@.len() == 0,
        call_ensures(IndexedWalSegment::flush_staging, (&s,), r),
    ensures
        r == Ok::<Option<FrameWrite>, LsmError>(None),
{
}

/// An entry that fits beside what is staged is staged behind it. A log that syncs each write writes
/// the frame at once, and one that does not keeps it until it is full.
pub proof fn fitting_entry_is_staged(
    s: &mut IndexedWalSegment,
    payload: Vec<u8>,
    r: Result<AppendAction, LsmError>,
)
    requires
        old(s).staging@.len() + 4 + payload@.len() <= old(s).frame_size,
        payload@.len() <= u32::MAX,
        old(s).staging_frame <= old(s).data_frame_count,
        call_ensures(IndexedWalSegment::append_entry, (s, &payload), r),
    ensures
        final(s).staging@ == old(s).staging@ + wal_record::record(payload@),
        final(s).staging@.len() == old(s).staging@.len() + 4 + payload@.len(),
        final(s).entries_in_staging == old(s).entries_in_staging + 1,
        final(s).staging_frame == old(s).staging_frame,
        r is Ok,
        old(s).sync_mode is Fsync || old(s).sync_mode is FsyncAsync ==> (r matches Ok(
            AppendAction::StagedAndFlush(w),
        ) && w.frame_id == old(s).staging_frame && w.used == final(s).staging@.len() as u32
            && final(s).staging@.is_prefix_of(w.bytes@)),
        (old(s).sync_mode is Never || old(s).sync_mode is Flush) && old(s).staging@.len() > 0
            ==> r matches Ok(AppendAction::Staged),
{
    wal_record::length_back(payload@.len() as u32);
    if let Ok(AppendAction::StagedAndFlush(w)) = r {
        assert(w.bytes@.subrange(0, final(s).staging@.len() as int) =~= final(s).staging@);
    }
}

/// An entry that does not fit beside what is staged leaves it as it is: what is staged is written
/// first, or the entry in a frame of its own where nothing is staged.
pub proof fn entry_without_room_waits(
    s: &mut IndexedWalSegment,
    b: &mut IndexedWalSegment,
    payload: Vec<u8>,
    r: Result<AppendAction, LsmError>,
    of_batch: Result<AppendAction, LsmError>,
)
    requires
        old(s).staging@.len() + 4 + payload@.len() > old(s).frame_size,
        payload@.len() <= u32::MAX,
        call_ensures(IndexedWalSegment::append_entry, (s, &payload), r),
        *old(b) == *old(s),
        call_ensures(IndexedWalSegment::append_entries_batch, (b, &payload), of_batch),
    ensures
        *final(s) == *old(s),
        *final(b) == *old(b),
        r is Ok <==> old(s).staging_frame <= old(s).data_frame_count,
        of_batch is Ok <==> r is Ok,
        r is Ok && old(s).staging@.len() > 0 ==> (r matches Ok(AppendAction::FlushFirst(w))
            && w.frame_id == old(s).staging_frame && w.entries == old(s).entries_in_staging && old(s).staging@.is_prefix_of(w.bytes@)),
        r is Ok && old(s).staging@.len() == 0 ==> (r matches Ok(AppendAction::Alone(w))
            && w.frame_id == old(s).staging_frame && w.entries == 1 && w.bytes@
            == wal_record::record(payload@)),
{
    wal_record::length_back(payload@.len() as u32);
    if let Ok(AppendAction::FlushFirst(w)) = r {
        assert(w.bytes@.subrange(0, old(s).staging@.len() as int) =~= old(s).staging@);
    }
}

/// An entry of a batch that fits is only staged: its frame is written when the batch is flushed.
pub proof fn batch_entry_is_only_staged(
    s: &mut IndexedWalSegment,
    payload: Vec<u8>,
    r: Result<AppendAction, LsmError>,
)
    requires
        old(s).staging@.len() + 4 + payload@.len() <= old(s).frame_size,
        payload@.len() <= u32::MAX,
        call_ensures(IndexedWalSegment::append_entries_batch, (s, &payload), r),
    ensures
        r matches Ok(AppendAction::Staged),
        final(s).staging@ == old(s).staging@ + wal_record::record(payload@),
        final(s).entries_in_staging == old(s).entries_in_staging + 1,
        final(s).staging_frame == old(s).staging_frame,
{
    wal_record::length_back(payload@.len() as u32);
}

/// A frame that was written is not written again: what is staged next goes to the frame behind it.
pub proof fn next_frame_is_the_one_behind(
    a: &mut IndexedWalSegment,
    b: &mut IndexedWalSegment,
)
    requires
        old(a).staging_frame < u32::MAX,
        call_ensures(IndexedWalSegment::staging_flushed, (a,), ()),
        old(b).staging_frame < u32::MAX,
        call_ensures(IndexedWalSegment::frame_committed, (b,), ()),
    ensures
        final(a).staging_frame == old(a).staging_frame + 1,
        final(a).staging@.len() == 0,
        final(a).entries_in_staging == 0,
        final(a).frames_dir == old(a).frames_dir,
        final(a).segment_id == old(a).segment_id,
        final(b).staging_frame == old(b).staging_frame + 1,
        final(b).staging@ == old(b).staging@,
        final(b).entries_in_staging == old(b).entries_in_staging,
{
}

/// A log that finds a readable index, and something written of its segment, goes on in the frame
/// behind the last one that was committed; any other starts afresh.
pub proof fn log_resumes_behind_what_was_committed(
    m: &mut IndexedWalManager,
    index: WalIndexFile,
    state: Result<WalIndexHeader, LsmError>,
    dir: String,
    dir_exists: bool,
    has_frames: bool,
    resumed: bool,
)
    requires
        call_ensures(
            IndexedWalManager::resume,
            (m, index, &state, dir, dir_exists, has_frames),
            resumed,
        ),
        state matches Ok(h) ==> h.committed_frame < u32::MAX,
    ensures
        resumed ==> state is Ok && dir_exists,
        state is Ok && dir_exists && has_frames ==> resumed,
        state is Ok && dir_exists && state->Ok_0.entry_count > 0 ==> resumed,
        state is Ok && !has_frames && state->Ok_0.entry_count == 0 ==> !resumed,
        resumed ==> final(m).current_segment is Some && final(m).index == Some(index),
        resumed ==> final(m).current_segment->Some_0.staging_frame
            == state->Ok_0.committed_frame + 1,
        resumed ==> final(m).current_segment->Some_0.segment_id == state->Ok_0.segment_id,
        resumed ==> final(m).current_segment->Some_0.staging@.len() == 0,
        resumed ==> final(m).current_segment->Some_0.frames_dir@ == dir@,
        !resumed ==> *final(m) == *old(m),
{
}

/// The frame at which a log resumes is the one at which `resume` lets its segment go on.
pub proof fn resumed_frame_is_agreed(
    m: IndexedWalManager,
    state: WalIndexHeader,
    dir_exists: bool,
    has_frames: bool,
    r: Option<u32>,
    n: &mut IndexedWalManager,
    index: WalIndexFile,
    dir: String,
    resumed: bool,
)
    requires
        call_ensures(IndexedWalManager::resume_frame, (&m, state, dir_exists, has_frames), r),
        call_ensures(
            IndexedWalManager::resume,
            (n, index, &Ok::<WalIndexHeader, LsmError>(state), dir, dir_exists, has_frames),
            resumed,
        ),
    ensures
        resumed <==> r is Some,
        resumed ==> r == Some(final(n).current_segment->Some_0.staging_frame),
{
}

/// The frames of a log are no smaller, and no fewer, than the least size and number, nor than is
/// configured; and no larger and no more than one of the two.
pub proof fn frames_are_large_and_many(config: WalConfig, m: IndexedWalManager)
    requires
        call_ensures(IndexedWalManager::new, (&config,), m),
    ensures
        m.frame_size >= 8192,
        m.frame_size >= config.frame_page_size,
        m.frame_size == 8192 || m.frame_size == config.frame_page_size,
        m.data_frame_count >= 64,
        m.data_frame_count >= config.indexed_frame_count,
        m.data_frame_count == 64 || m.data_frame_count == config.indexed_frame_count,
        m.current_segment is None,
        m.index is None,
        m.segments@.len() == 0,
{
}

/// A rotation of the indexed log that goes well makes a segment without frames the current one,
/// remembers the directory of the last one, and commits the new segment to the index.
pub proof fn indexed_rotation_starts_a_segment(
    a: &mut IndexedWalManager,
    b: &mut IndexedWalManager,
    c: &mut IndexedWalManager,
    d: &mut IndexedWalManager,
    first: IndexedRotation,
    second: IndexedRotation,
    third: IndexedRotation,
    fourth: IndexedRotation,
    dir: String,
    index: WalIndexFile,
)
    requires
        call_ensures(IndexedWalManager::begin_rotation, (a,), first),
        *old(b) == *final(a),
        call_ensures(IndexedWalManager::rotate_segment, (b, first, IndexedReply::Made(dir)), second),
        *old(c) == *final(b),
        call_ensures(
            IndexedWalManager::rotate_segment,
            (c, second, IndexedReply::Opened(index)),
            third,
        ),
        *old(d) == *final(c),
        call_ensures(IndexedWalManager::rotate_segment, (d, third, IndexedReply::Committed), fourth),
        old(a).segment_counter < u32::MAX,
        old(a).frame_size <= u32::MAX,
        index.latest.generation < u64::MAX,
    ensures
        fourth == IndexedRotation::Done(Ok(())),
        final(d).current_segment matches Some(s) && s.segment_id == old(a).segment_counter
            && s.frames_dir@ == dir@ && s.staging_frame == 1 && s.staging@.len() == 0 && s.frame_size
            == old(a).frame_size && s.data_frame_count == old(a).data_frame_count && s.sync_mode
            == old(a).config.sync_mode,
        final(d).segment_counter == old(a).segment_counter + 1,
        old(a).current_segment matches Some(s) ==> final(d).segments@.contains_key(
            s.segment_id as u64,
        ) && final(d).segments@[s.segment_id as u64] == s.frames_dir,
        final(d).index matches Some(i) && i.path == index.path && i.latest.segment_id == old(a).segment_counter && i.latest.frame_size == old(a).frame_size && i.latest.generation
            == index.latest.generation + 1 && i.latest.entry_count == index.latest.entry_count,
        third matches IndexedRotation::Commit { write, .. } && write.durable,
{
}

/// A rotation that fails at any step ends with that failure, and leaves the log as it was.
pub proof fn failed_rotation_tells_why(
    m: &mut IndexedWalManager,
    st: IndexedRotation,
    e: LsmError,
    next: IndexedRotation,
)
    requires
        !(st is Done),
        call_ensures(IndexedWalManager::rotate_segment, (m, st, IndexedReply::Failed(e)), next),
    ensures
        next == IndexedRotation::Done(Err(e)),
        *final(m) == *old(m),
{
}

proof fn dir_number_back(id: u32)
    ensures
        wal_indexed_manager::dir_number(wal_indexed::frames_dir_name(id)) == id,
        wal_indexed_manager::completed_number(wal_indexed::frames_dir_name(id)) == id,
{
    let digits = text::hex(id as nat);
    numerals::hex_stands_for(id as nat);
    numerals::padded_back(digits, 16, 16, u64::MAX as nat);
    numerals::padded_back(digits, 16, 16, u32::MAX as nat);
}

proof fn highest_dir_is_highest(names: Seq<String>, i: int)
    requires
        0 <= i < names.len(),
    ensures
        wal_indexed_manager::dir_number(names[i]@) <= wal_indexed_manager::highest_dir(names),
    decreases names.len(),
{
    if i < names.len() - 1 {
        assert(names.drop_last()[i] == names[i]);
        highest_dir_is_highest(names.drop_last(), i);
    }
}

/// The number of a segment is read back from the name of its directory, and a log that has looked at
/// the directories gives its next segment a number whose directory is not there.
pub proof fn next_indexed_segment_is_new(
    m: &mut IndexedWalManager,
    n: &mut IndexedWalManager,
    names: Vec<String>,
    id: u32,
    dir: String,
    shown: &str,
    back: u32,
    i: int,
)
    requires
        wal_indexed_manager::highest_dir(names@) < u32::MAX,
        call_ensures(IndexedWalManager::scan_existing_segments, (m, &names), ()),
        *old(n) == *final(m),
        call_ensures(IndexedWalManager::next_segment_id, (n,), id),
        call_ensures(wal_indexed::segment_frames_dir, (id,), dir),
        shown@ == dir@,
        call_ensures(wal_indexed_manager::completed_segment_id, (shown,), back),
        0 <= i < names@.len(),
    ensures
        back == id,
        names@[i]@ != dir@,
        final(n).segment_counter == id + 1,
{
    dir_number_back(id);
    highest_dir_is_highest(names@, i);
}

/// A log is ready exactly if it has a segment and an index.
pub proof fn log_is_ready(m: IndexedWalManager, r: Result<(), LsmError>)
    requires
        call_ensures(IndexedWalManager::check_ready, (&m,), r),
    ensures
        r is Ok <==> m.current_segment is Some && m.index is Some,
{
}

/// A truncation gives the current segment away and forgets the others; then none is left.
pub proof fn truncation_forgets_segments(
    a: &mut IndexedWalManager,
    b: &mut IndexedWalManager,
    c: &mut IndexedWalManager,
    taken: Option<IndexedWalSegment>,
    done: bool,
    before: bool,
)
    requires
        call_ensures(IndexedWalManager::verify_truncated, (&*old(a),), before),
        call_ensures(IndexedWalManager::begin_truncation, (a,), taken),
        *old(b) == *final(a),
        call_ensures(IndexedWalManager::forget_segments, (b,), ()),
        *old(c) == *final(b),
        call_ensures(IndexedWalManager::forget_index, (c,), ()),
        call_ensures(IndexedWalManager::verify_truncated, (&*final(c),), done),
    ensures
        taken == old(a).current_segment,
        final(c).current_segment is None,
        final(c).index is None,
        final(c).segment_counter == old(a).segment_counter,
        done,
        before <==> old(a).segments@.len() == 0,
{
}

/// A segment that is forgotten gives its directory back, and the others are kept.
pub proof fn forgotten_segment_is_gone(
    m: &mut IndexedWalManager,
    id: u64,
    other: u64,
    r: Option<String>,
)
    requires
        call_ensures(IndexedWalManager::forget_segment, (m, id), r),
        other != id,
    ensures
        r is Some <==> old(m).segments@.contains_key(id),
        r matches Some(dir) ==> dir == old(m).segments@[id],
        !final(m).segments@.contains_key(id),
        final(m).segments@.contains_key(other) <==> old(m).segments@.contains_key(other),
        old(m).segments@.contains_key(other) ==> final(m).segments@[other] == old(m).segments@[other],
        final(m).current_segment == old(m).current_segment,
{
}

/// A clean shutdown of the indexed log writes a checkpoint, then flushes, and truncates at last.
pub proof fn indexed_shutdown_truncates_at_last(m: IndexedWalManager, r: Vec<ShutdownStep>)
    requires
        call_ensures(IndexedWalManager::mark_clean_shutdown, (&m,), r),
    ensures
        r@.len() == 3,
        r@.last() == ShutdownStep::Truncate,
        r@[1] == ShutdownStep::Flush,
        r@[0] == ShutdownStep::Checkpoint,
{
}

/// Which segments are old does not depend on the kind of the log.
pub proof fn logs_agree_on_old_segments(
    m: IndexedWalManager,
    f: FrameWalManager,
    ages: Vec<SegmentAge>,
    now: u64,
    period: Duration,
    r: Vec<u64>,
    s: Vec<u64>,
)
    requires
        period.secs <= now,
        call_ensures(IndexedWalManager::cleanup_old_segments, (&m, &ages, now, period), r),
        call_ensures(FrameWalManager::cleanup_old_segments, (&f, &ages, now, period), s),
    ensures
        r@ == s@,
{
}

/// A fresh index state is read back from its slot, and its numbers with it.
pub proof fn slot_is_read_back(
    segment_id: u32,
    frame_size: u32,
    h: WalIndexHeader,
    slot: Vec<u8>,
    data: &[u8],
    r: Result<WalIndexHeader, LsmError>,
    good: bool,
)
    requires
        call_ensures(WalIndexHeader::new, (segment_id, frame_size), h),
        call_ensures(WalIndexHeader::to_slot_bytes, (&h,), slot),
        data@ == slot@,
        call_ensures(WalIndexHeader::from_slot_bytes, (data,), r),
        call_ensures(WalIndexHeader::verify, (&h,), good),
    ensures
        r == Ok::<WalIndexHeader, LsmError>(h),
        good,
        h.segment_id == segment_id,
        h.frame_size == frame_size,
        h.generation == 0,
        h.committed_frame == 0,
        h.entry_count == 0,
        slot@.len() == 4096,
{
    wal_index::slot_round_trip(h);
}

/// The newest state is read of two slots: the one of the higher generation where both can be read,
/// the second one where they are of one, and the one that can be read where one can.
pub proof fn newest_slot_is_read(
    a: &[u8],
    b: &[u8],
    in_a: Result<WalIndexHeader, LsmError>,
    in_b: Result<WalIndexHeader, LsmError>,
    r: Result<WalIndexHeader, LsmError>,
)
    requires
        call_ensures(WalIndexHeader::from_slot_bytes, (a,), in_a),
        call_ensures(WalIndexHeader::from_slot_bytes, (b,), in_b),
        call_ensures(WalIndexFile::read_latest, (a, b), r),
    ensures
        r is Ok <==> in_a is Ok || in_b is Ok,
        r is Ok ==> r == in_a || r == in_b,
        in_a is Ok && in_b is Ok && in_a->Ok_0.generation == in_b->Ok_0.generation ==> r == in_b,
        r is Ok && in_a is Ok ==> r->Ok_0.generation >= in_a->Ok_0.generation,
        r is Ok && in_b is Ok ==> r->Ok_0.generation >= in_b->Ok_0.generation,
{
}

/// Commits take turns between the two slots, each with a generation one higher than the last; the
/// state that was committed is the one that the index file knows.
pub proof fn commits_take_turns(
    index: &mut WalIndexFile,
    header: WalIndexHeader,
    first: SlotWrite,
    other: WalIndexHeader,
    second: SlotWrite,
    third: SlotWrite,
)
    requires
        old(index).latest.generation < u64::MAX - 1,
        call_ensures(WalIndexFile::commit, (&*old(index), header), first),
        call_ensures(WalIndexFile::slot_written, (index, &first), ()),
        call_ensures(WalIndexFile::commit_volatile, (&*final(index), other), second),
        call_ensures(WalIndexFile::commit, (&*final(index), other), third),
    ensures
        first.durable,
        !second.durable,
        third.durable,
        second.bytes@ == third.bytes@,
        second.offset == third.offset,
        first.offset != second.offset,
        first.offset == 0 || first.offset == 4096,
        second.offset == 0 || second.offset == 4096,
        first.header.generation == old(index).latest.generation + 1,
        second.header.generation == old(index).latest.generation + 2,
        final(index).latest == first.header,
        final(index).latest.committed_frame == header.committed_frame,
        final(index).latest.committed_offset == header.committed_offset,
        final(index).latest.entry_count == header.entry_count,
        final(index).path == old(index).path,
{
}

/// An index that can be read is taken as it is, and one that cannot starts afresh.
pub proof fn unreadable_index_starts_afresh(
    path: String,
    segment_id: u32,
    frame_size: u32,
    stored: Result<WalIndexHeader, LsmError>,
    r: WalIndexFile,
    good: bool,
    len: u64,
    grown: Option<u64>,
)
    requires
        call_ensures(WalIndexFile::open, (path, segment_id, frame_size, stored), r),
        call_ensures(WalIndexHeader::verify, (&r.latest,), good),
        call_ensures(WalIndexFile::grown_length, (len,), grown),
    ensures
        stored matches Ok(h) ==> r.latest == h,
        stored is Err ==> good && r.latest.entry_count == 0 && r.latest.committed_frame == 0
            && r.latest.segment_id == segment_id && r.latest.frame_size == frame_size
            && r.latest.generation == 0,
        r.path@ == path@,
        grown is Some <==> len < 8192,
        grown matches Some(n) ==> n == 8192,
{
}

/// An entry that can be decoded is kept behind those before it; one that cannot fails the read.
pub proof fn undecodable_entry_fails_the_read(
    entries: &mut Vec<crate::wal_entry::WALEntry>,
    decoded: Result<crate::wal_entry::WALEntry, String>,
    r: Result<(), LsmError>,
)
    requires
        call_ensures(wal_indexed::accept_decoded, (entries, decoded), r),
    ensures
        r is Ok <==> decoded is Ok,
        decoded matches Ok(entry) ==> final(entries)@ == old(entries)@.push(entry),
        decoded is Err ==> final(entries)@ == old(entries)@,
{
}

/// A segment is opened exactly if its directory is there, with nothing staged, and never before the
/// first frame.
pub proof fn segment_opens_with_its_directory(
    dir: String,
    quoted: &str,
    there: bool,
    id: u32,
    size: usize,
    count: u32,
    mode: WalSyncMode,
    resume: u32,
    r: Result<IndexedWalSegment, LsmError>,
    fresh: IndexedWalSegment,
    read_len: usize,
    file_len: usize,
)
    requires
        call_ensures(
            IndexedWalSegment::open_existing,
            (dir, quoted, there, id, size, count, mode, resume),
            r,
        ),
        call_ensures(IndexedWalSegment::create, (dir, id, size, count, mode), fresh),
        call_ensures(wal_indexed::frame_read_length, (file_len, size), read_len),
    ensures
        r is Ok <==> there,
        r matches Ok(s) ==> s.staging_frame >= 1 && s.staging_frame >= resume && (s.staging_frame
            == 1 || s.staging_frame == resume) && s.staging@.len() == 0 && s.segment_id == id
            && s.frames_dir@ == dir@ && s.frame_size == size && s.data_frame_count == count
            && s.sync_mode == mode,
        fresh.staging_frame == 1,
        fresh.staging@.len() == 0,
        fresh.segment_id == id,
        fresh.frame_size == size,
        fresh.data_frame_count == count,
        fresh.sync_mode == mode,
        read_len >= file_len && read_len >= size,
        read_len == file_len || read_len == size,
{
}

/// An entry is taken exactly if its record fits behind what is there, whatever that is.
pub proof fn entries_are_taken_if_they_fit(
    s: WALSegment,
    f: FrameWalSegment,
    size: u64,
    payload: Vec<u8>,
    r: Option<AppendPlan>,
    t: Option<AppendPlan>,
    of_segment: SyncAction,
    of_frame: SyncAction,
)
    requires
        size + payload@.len() + 4 <= u64::MAX,
        call_ensures(WALSegment::write_entry, (&s, size, &payload), r),
        call_ensures(FrameWalSegment::write_entry, (&f, size, &payload), t),
        call_ensures(WALSegment::sync_after_flush, (&s,), of_segment),
        call_ensures(FrameWalSegment::sync_after_flush, (&f,), of_frame),
    ensures
        r is Some <==> size + 4 + payload@.len() <= s.max_size,
        t is Some <==> size + 4 + payload@.len() <= f.max_size,
        r matches Some(plan) ==> plan.sync == of_segment,
        t matches Some(plan) ==> plan.sync == of_frame,
        r is Some && t is Some ==> r->Some_0.bytes@ == t->Some_0.bytes@,
{
}

/// Numbers that have reached their end stay there: the count of entries, the number of the frame and
/// the generation of the index.
pub proof fn numbers_stay_at_their_end(
    w: FrameWrite,
    state: WalIndexHeader,
    r: WalIndexHeader,
    s: &mut IndexedWalSegment,
    t: &mut IndexedWalSegment,
    index: WalIndexFile,
    header: WalIndexHeader,
    write: SlotWrite,
)
    requires
        state.entry_count + w.entries > u64::MAX,
        call_ensures(FrameWrite::index_state, (&w, state), r),
        old(s).staging_frame == u32::MAX,
        call_ensures(IndexedWalSegment::staging_flushed, (s,), ()),
        old(t).staging_frame == u32::MAX,
        call_ensures(IndexedWalSegment::frame_committed, (t,), ()),
        index.latest.generation == u64::MAX,
        call_ensures(WalIndexFile::commit, (&index, header), write),
    ensures
        r.entry_count == u64::MAX,
        final(s).staging_frame == u32::MAX,
        final(t).staging_frame == u32::MAX,
        write.header.generation == u64::MAX,
{
}

} // verus!
