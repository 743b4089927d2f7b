//! The frame log manager: which frame segment is written and when segments change.

use crate::engine_config::WalConfig;
use crate::duration::Duration;
use crate::error::LsmError;
use crate::wal_record::{self, encode_records};
use crate::wal::{BatchReply, BatchWrite, EntryReply, EntryWrite};
use crate::wal_frame::{self, frame_file_name, parse_frame_id, FrameWalSegment};
use crate::wal_recovery::{self, expired_segments, plan_shutdown, SegmentAge, ShutdownStep};
use std::collections::HashMap;
use vstd::prelude::*;
use vstd::string::*;

verus! {

/// The frame log manager.
#[derive(Debug)]
pub struct FrameWalManager {
    /// Configuration.
    pub config: WalConfig,
    /// The segment that is written.
    pub current_segment: Option<FrameWalSegment>,
    /// Paths of the completed segments.
    pub segments: HashMap<u64, String>,
    /// The number of the next segment.
    pub segment_counter: u64,
}

/// The number of a segment name, 0 where it has none.
pub open spec fn frame_number_or_zero(name: Seq<char>) -> nat {
    match wal_frame::frame_number(name) {
        Some(n) => n,
        None => 0,
    }
}

/// The highest segment number among the names, 0 where there is none.
pub open spec fn highest_frame(names: Seq<String>) -> nat
    decreases names.len(),
{
    if names.len() == 0 {
        0
    } else {
        let before = highest_frame(names.drop_last());
        let last = frame_number_or_zero(names.last()@);
        if last > before {
            last
        } else {
            before
        }
    }
}

/// No name holds a number above the highest one.
pub proof fn highest_frame_is_highest(names: Seq<String>)
    ensures
        forall|i: int|
            0 <= i < names.len() ==> frame_number_or_zero((#[trigger] names[i])@) <= highest_frame(
                names,
            ),
    decreases names.len(),
{
    if names.len() > 0 {
        highest_frame_is_highest(names.drop_last());
        assert forall|i: int| 0 <= i < names.len() implies frame_number_or_zero((#[trigger] names[i])@)
            <= highest_frame(names) by {
            if i < names.len() - 1 {
                assert(names.drop_last()[i] == names[i]);
            }
        }
    }
}

/// How far the change to a new segment has come.
#[derive(Debug)]
pub enum FrameRotation {
    /// The last segment is to be closed.
    Close(FrameWalSegment),
    /// A new segment is to be created.
    Create,
    /// The change has ended.
    Done(Result<(), LsmError>),
}

/// What came of a step of the change to a new segment.
#[derive(Debug)]
pub enum FrameRotationReply {
    /// The segment was closed.
    Closed,
    /// The segment was created.
    Created(FrameWalSegment),
    /// The step failed.
    Failed(LsmError),
}

/// There is no segment to write to.
pub open spec fn no_frame_segment(r: Result<(), LsmError>, text: Seq<char>) -> bool {
    r matches Err(e) && e.is_internal(text)
}

impl FrameWalManager {
    /// Only the current segment, the completed ones and the counter may differ.
    pub open spec fn same_config(self, other: FrameWalManager) -> bool {
        self.config == other.config
    }

    /// A frame log manager without segments.
    pub fn new(config: &WalConfig) -> (r: Self)
        ensures
            r.config.same_as(*config),
            r.current_segment is None,
            r.segments@ == Map::<u64, String>::empty(),
            r.segment_counter == 0,
    {
        FrameWalManager {
            config: config.clone(),
            current_segment: None,
            segments: HashMap::new(),
            segment_counter: 0,
        }
    }

    /// Sets the counter behind the numbers of the files that are there already.
    pub fn scan_existing_segments(&mut self, names: &Vec<String>)
        requires
            highest_frame(names@) < u64::MAX,
        ensures
            final(self).segment_counter == highest_frame(names@) + 1,
            final(self).same_config(*old(self)),
            final(self).current_segment == old(self).current_segment,
            final(self).segments == old(self).segments,
            forall|i: int|
                0 <= i < names@.len() ==> (wal_frame::frame_number(
                    (#[trigger] names@[i])@,
                ) matches Some(n) ==> n < final(self).segment_counter),
    {
        let mut highest: u64 = 0;
        let mut i: usize = 0;
        assert(names@.take(0) =~= Seq::empty());
        while i < names.len()
            invariant
                i <= names@.len(),
                highest == highest_frame(names@.take(i as int)),
                highest_frame(names@) < u64::MAX,
            decreases names@.len() - i,
        {
            proof {
                let next = names@.take(i + 1);
                assert(next.drop_last() =~= names@.take(i as int));
                assert(next.last() == names@[i as int]);
            }
            if let Some(id) = parse_frame_id(names[i].as_str()) {
                if id > highest {
                    highest = id;
                }
            }
            i = i + 1;
        }
        proof {
            assert(names@.take(i as int) =~= names@);
            highest_frame_is_highest(names@);
            assert forall|k: int| 0 <= k < names@.len() implies (wal_frame::frame_number(
                (#[trigger] names@[k])@,
            ) matches Some(n) ==> n < highest + 1) by {
                assert(frame_number_or_zero(names@[k]@) <= highest);
            }
        }
        self.segment_counter = highest + 1;
    }

    /// Begins the change to a new segment: the current one, if any, is taken to be closed.
    pub fn begin_rotation(&mut self) -> (r: FrameRotation)
        ensures
            match old(self).current_segment {
                Some(s) => r == FrameRotation::Close(s),
                None => r == FrameRotation::Create,
            },
            final(self).current_segment is None,
            final(self).segments == old(self).segments,
            final(self).segment_counter == old(self).segment_counter,
            final(self).same_config(*old(self)),
    {
        match self.current_segment.take() {
            Some(segment) => FrameRotation::Close(segment),
            None => FrameRotation::Create,
        }
    }

    /// The file name of the next segment.
    pub fn next_segment_name(&self) -> (r: String)
        ensures
            r@ == wal_frame::frame_name(self.segment_counter),
    {
        frame_file_name(self.segment_counter)
    }

    /// The page size: the configured one, at least 512 bytes.
    pub open spec fn page_size_due(self) -> u32 {
        (if self.config.frame_page_size < 512 {
            512
        } else {
            self.config.frame_page_size
        }) as u32
    }

    /// The page size.
    pub fn page_size(&self) -> (r: u32)
        ensures
            r == self.page_size_due(),
    {
        if self.config.frame_page_size < 512 {
            512
        } else {
            self.config.frame_page_size as u32
        }
    }

    /// The next segment, at this path.
    pub fn next_segment(&self, path: String, now: u64) -> (r: FrameWalSegment)
        ensures
            r.path@ == path@,
            r.header.magic@ == wal_frame::frame_magic(),
            r.header.version == wal_frame::FRAME_VERSION,
            r.header.created_at == now,
            r.header.entry_count == 0,
            r.header.page_size == self.page_size_due(),
            r.entry_count == 0,
            r.synced_offset == 0,
            r.max_size == self.config.segment_size,
            r.sync_mode == self.config.sync_mode,
    {
        FrameWalSegment::new(
            path,
            self.config.segment_size,
            self.config.sync_mode,
            self.page_size(),
            now,
        )
    }

    /// One step of the change to a new segment. A closed segment is kept among the completed ones;
    /// a created one becomes the current segment and the counter moves on. A failure leaves the
    /// manager without a current segment.
    pub fn rotate_segment(&mut self, st: FrameRotation, reply: FrameRotationReply) -> (
        next: FrameRotation)
        requires
            st is Close ==> !(reply is Created),
            st is Create ==> !(reply is Closed),
        ensures
            final(self).same_config(*old(self)),
            match (st, reply) {
                (FrameRotation::Close(s), FrameRotationReply::Closed) => {
                    &&& next is Create
                    &&& final(self).segments@.dom() == old(self).segments@.dom().insert(
                        old(self).segment_counter,
                    )
                    &&& final(self).segments@[old(self).segment_counter]@ == s.path@
                    &&& forall|id: u64|
                        id != old(self).segment_counter && old(self).segments@.contains_key(id)
                            ==> #[trigger] final(self).segments@[id] == old(self).segments@[id]
                    &&& final(self).current_segment == old(self).current_segment
                    &&& final(self).segment_counter == old(self).segment_counter
                },
                (FrameRotation::Create, FrameRotationReply::Created(s)) => {
                    &&& next == FrameRotation::Done(Ok(()))
                    &&& final(self).current_segment == Some(s)
                    &&& final(self).segment_counter == (if old(self).segment_counter == u64::MAX {
                        0
                    } else {
                        old(self).segment_counter + 1
                    })
                    &&& final(self).segments == old(self).segments
                },
                (FrameRotation::Done(r), _) => next == FrameRotation::Done(r) && *final(self) == *old(self),
                (_, FrameRotationReply::Failed(e)) => next == FrameRotation::Done(Err(e)) && *final(self)
                    == *old(self),
                _ => true,
            },
    {
        broadcast use vstd::std_specs::hash::group_hash_axioms;

        match st {
            FrameRotation::Close(segment) => match reply {
                FrameRotationReply::Failed(e) => FrameRotation::Done(Err(e)),
                _ => {
                    self.segments.insert(self.segment_counter, segment.path);
                    FrameRotation::Create
                },
            },
            FrameRotation::Create => match reply {
                FrameRotationReply::Created(segment) => {
                    self.current_segment = Some(segment);
                    self.segment_counter = self.segment_counter.wrapping_add(1);
                    FrameRotation::Done(Ok(()))
                },
                FrameRotationReply::Failed(e) => FrameRotation::Done(Err(e)),
                FrameRotationReply::Closed => FrameRotation::Create,
            },
            FrameRotation::Done(r) => FrameRotation::Done(r),
        }
    }

    /// Begins the write of one entry.
    pub fn begin_entry(&self) -> (r: EntryWrite)
        ensures
            match r {
                EntryWrite::Try => self.current_segment is Some,
                EntryWrite::Done(o) => self.current_segment is None && no_frame_segment(
                    o,
                    "No current frame WAL segment"@,
                ),
                _ => false,
            },
    {
        match self.current_segment {
            Some(_) => EntryWrite::Try,
            None => EntryWrite::Done(
                Err(LsmError::Internal("No current frame WAL segment".to_owned())),
            ),
        }
    }

    /// One step of the write of one entry. An entry that has no room goes to a new segment; one
    /// that has no room in an empty segment either is refused. Success is told only of an entry
    /// that was written.
    pub fn write_entry(&self, st: EntryWrite, reply: EntryReply) -> (next: EntryWrite)
        requires
            st is Try || st is Retry ==> !(reply is Rotated),
            st is Rotate ==> !(reply is Written),
        ensures
            match (st, reply) {
                (EntryWrite::Try, EntryReply::Written(took)) => if took {
                    next == EntryWrite::Done(Ok(()))
                } else {
                    next is Rotate
                },
                (EntryWrite::Rotate, EntryReply::Rotated) => if self.current_segment is Some {
                    next is Retry
                } else {
                    next matches EntryWrite::Done(Err(e)) && e.is_internal(
                        "Failed to create frame WAL segment"@,
                    )
                },
                (EntryWrite::Retry, EntryReply::Written(took)) => if took {
                    next == EntryWrite::Done(Ok(()))
                } else {
                    next matches EntryWrite::Done(Err(e)) && e.is_wal(
                        "WAL entry does not fit a frame segment"@,
                    )
                },
                (EntryWrite::Done(r), _) => next == EntryWrite::Done(r),
                (_, EntryReply::Failed(e)) => next == EntryWrite::Done(Err(e)),
                _ => true,
            },
    {
        match (st, reply) {
            (EntryWrite::Done(r), _) => EntryWrite::Done(r),
            (_, EntryReply::Failed(e)) => EntryWrite::Done(Err(e)),
            (EntryWrite::Try, EntryReply::Written(took)) => if took {
                EntryWrite::Done(Ok(()))
            } else {
                EntryWrite::Rotate
            },
            (EntryWrite::Rotate, EntryReply::Rotated) => match self.current_segment {
                Some(_) => EntryWrite::Retry,
                None => EntryWrite::Done(
                    Err(LsmError::Internal("Failed to create frame WAL segment".to_owned())),
                ),
            },
            (EntryWrite::Retry, EntryReply::Written(took)) => if took {
                EntryWrite::Done(Ok(()))
            } else {
                EntryWrite::Done(Err(LsmError::Wal("WAL entry does not fit a frame segment".to_owned())))
            },
            (st, _) => st,
        }
    }

    /// The state in which the room for a batch is looked at.
    pub open spec fn room_state(self, next: BatchWrite) -> bool {
        match next {
            BatchWrite::Room => self.current_segment is Some,
            BatchWrite::Done(r) => self.current_segment is None && no_frame_segment(
                r,
                "No current frame WAL segment for batch"@,
            ),
            _ => false,
        }
    }

    fn look_for_room(&self) -> (r: BatchWrite)
        ensures
            self.room_state(r),
    {
        match self.current_segment {
            Some(_) => BatchWrite::Room,
            None => BatchWrite::Done(
                Err(LsmError::Internal("No current frame WAL segment for batch".to_owned())),
            ),
        }
    }

    /// Begins the write of several entries: the bytes that are to be appended, and the first step.
    pub fn begin_batch(&self, payloads: &Vec<Vec<u8>>) -> (r: (Vec<u8>, BatchWrite))
        ensures
            r.0@ == wal_record::log_bytes(wal_record::views(payloads@)),
            if payloads@.len() == 0 {
                r.1 == BatchWrite::Done(Ok(()))
            } else if self.current_segment is Some {
                r.1 == BatchWrite::Capacity
            } else {
                r.1 matches BatchWrite::Done(o) && no_frame_segment(
                    o,
                    "No current frame WAL segment for batch"@,
                )
            },
    {
        let data = encode_records(payloads);
        let st = if payloads.len() == 0 {
            BatchWrite::Done(Ok(()))
        } else {
            match self.current_segment {
                Some(_) => BatchWrite::Capacity,
                None => self.look_for_room(),
            }
        };
        (data, st)
    }

    /// What a step of the write of `count` entries in `data_len` bytes leads to: a segment that is
    /// full, or has no room for them, is changed before anything is appended; the header is
    /// written behind the entries.
    pub open spec fn batch_step(
        self,
        after: FrameWalManager,
        st: BatchWrite,
        data_len: u64,
        count: u32,
        reply: BatchReply,
        next: BatchWrite,
    ) -> bool {
        match (st, reply) {
            (BatchWrite::Done(r), _) => next == BatchWrite::Done(r) && after == self,
            (_, BatchReply::Failed(e)) => next == BatchWrite::Done(Err(e)) && after == self,
            (BatchWrite::Capacity, BatchReply::Size(n)) => {
                &&& after == self
                &&& self.current_segment matches Some(s)
                &&& if n >= s.max_size {
                    next is RotateFull
                } else {
                    next is Room
                }
            },
            (BatchWrite::RotateFull, BatchReply::Done) => after == self && self.room_state(next),
            (BatchWrite::Room, BatchReply::Size(n)) => {
                &&& after == self
                &&& self.current_segment matches Some(s)
                &&& if n + data_len > s.max_size {
                    next is RotateForRoom
                } else {
                    next is Append
                }
            },
            (BatchWrite::RotateForRoom, BatchReply::Done) => {
                &&& after == self
                &&& match next {
                    BatchWrite::Append => self.current_segment is Some,
                    BatchWrite::Done(r) => self.current_segment is None && no_frame_segment(
                        r,
                        "Failed frame WAL segment after rotation"@,
                    ),
                    _ => false,
                }
            },
            (BatchWrite::Append, BatchReply::Done) => {
                &&& next is Persist
                &&& after.same_config(self)
                &&& after.segments == self.segments
                &&& after.segment_counter == self.segment_counter
                &&& self.current_segment matches Some(s)
                &&& after.current_segment matches Some(t)
                &&& t.entry_count == s.entry_count + count
                &&& t.header == (wal_frame::FrameWalHeader {
                    entry_count: t.entry_count,
                    ..s.header
                })
                &&& t == (FrameWalSegment { entry_count: t.entry_count, header: t.header, ..s })
            },
            (BatchWrite::Persist, BatchReply::Done) => next == BatchWrite::Done(Ok(())) && after
                == self,
            _ => false,
        }
    }

    /// The reply answers what the state asks for.
    pub open spec fn batch_answered(st: BatchWrite, reply: BatchReply) -> bool {
        match st {
            BatchWrite::Capacity | BatchWrite::Room => !(reply is Done),
            BatchWrite::Done(_) => true,
            _ => !(reply is Size),
        }
    }

    /// One step of the write of several entries.
    pub fn batch_write_entries(
        &mut self,
        st: BatchWrite,
        data_len: u64,
        count: u32,
        reply: BatchReply,
    ) -> (next: BatchWrite)
        requires
            Self::batch_answered(st, reply),
            st is Capacity || st is Room || st is Append ==> old(self).current_segment is Some,
            reply matches BatchReply::Size(n) ==> n + data_len <= u64::MAX,
            st is Append ==> old(self).current_segment->Some_0.entry_count + count <= u32::MAX,
        ensures
            old(self).batch_step(*final(self), st, data_len, count, reply, next),
    {
        match (st, reply) {
            (BatchWrite::Done(r), _) => BatchWrite::Done(r),
            (_, BatchReply::Failed(e)) => BatchWrite::Done(Err(e)),
            (BatchWrite::Capacity, BatchReply::Size(n)) => match &self.current_segment {
                Some(segment) => if segment.should_rotate(n) {
                    BatchWrite::RotateFull
                } else {
                    BatchWrite::Room
                },
                None => BatchWrite::Capacity,
            },
            (BatchWrite::RotateFull, _) => self.look_for_room(),
            (BatchWrite::Room, BatchReply::Size(n)) => match &self.current_segment {
                Some(segment) => if n + data_len > segment.max_size {
                    BatchWrite::RotateForRoom
                } else {
                    BatchWrite::Append
                },
                None => BatchWrite::Room,
            },
            (BatchWrite::RotateForRoom, _) => match self.current_segment {
                Some(_) => BatchWrite::Append,
                None => BatchWrite::Done(
                    Err(LsmError::Internal("Failed frame WAL segment after rotation".to_owned())),
                ),
            },
            (BatchWrite::Append, _) => {
                if let Some(segment) = self.current_segment.take() {
                    let mut segment = segment;
                    segment.entries_written(count);
                    self.current_segment = Some(segment);
                }
                BatchWrite::Persist
            },
            (BatchWrite::Persist, _) => BatchWrite::Done(Ok(())),
            (st, _) => st,
        }
    }
}

impl FrameWalManager {
    /// Begins a truncation: the current segment is taken to be closed and removed.
    pub fn begin_truncation(&mut self) -> (r: Option<FrameWalSegment>)
        ensures
            r == old(self).current_segment,
            final(self).current_segment is None,
            final(self).segments == old(self).segments,
            final(self).segment_counter == old(self).segment_counter,
            final(self).same_config(*old(self)),
    {
        self.current_segment.take()
    }

    /// Forgets the completed segments, whose files were removed.
    pub fn forget_segments(&mut self)
        ensures
            final(self).segments@ == Map::<u64, String>::empty(),
            final(self).current_segment == old(self).current_segment,
            final(self).segment_counter == old(self).segment_counter,
            final(self).same_config(*old(self)),
    {
        self.segments.clear();
    }

    /// Whether the log is truncated: there is a current segment and no completed one.
    pub fn verify_truncated(&self) -> (r: bool)
        ensures
            r == (self.current_segment is Some && self.segments@.len() == 0),
    {
        match self.current_segment {
            Some(_) => self.segments.len() == 0,
            None => false,
        }
    }

    /// The completed segments that are older than the retention period.
    pub fn cleanup_old_segments(
        &self,
        ages: &Vec<SegmentAge>,
        now: u64,
        retention_period: Duration,
    ) -> (r: Vec<u64>)
        requires
            retention_period.secs <= now,
        ensures
            r@ == wal_recovery::expired(ages@, now - retention_period.secs),
    {
        expired_segments(ages, now - retention_period.as_secs())
    }

    /// The completed segments that are older than the grace period, and so were flushed.
    pub fn cleanup_flushed_segments(
        &self,
        ages: &Vec<SegmentAge>,
        now: u64,
        grace_period: Duration,
    ) -> (r: Vec<u64>)
        requires
            grace_period.secs <= now,
        ensures
            r@ == wal_recovery::expired(ages@, now - grace_period.secs),
    {
        self.cleanup_old_segments(ages, now, grace_period)
    }

    /// The steps of a clean shutdown.
    pub fn mark_clean_shutdown(&self) -> (r: Vec<ShutdownStep>)
        ensures
            r@ == wal_recovery::shutdown_plan(
                self.current_segment is Some,
                self.config.group_commit_enabled,
            ),
    {
        plan_shutdown(self.current_segment.is_some(), self.config.group_commit_enabled)
    }
}

} // verus!
