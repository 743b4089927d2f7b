//! The log manager: which segment is written, when segments change, and what recovery reads.

use crate::engine_config::WalConfig;
use crate::error::LsmError;
use crate::wal_record::{self, encode_records};
use crate::wal_segment::{self, parse_segment_id, segment_file_name, WALSegment};
use std::collections::HashMap;
use vstd::prelude::*;
use vstd::string::*;

verus! {

/// The log manager.
#[derive(Debug)]
pub struct WALManager {
    /// Configuration.
    pub config: WalConfig,
    /// The segment that is written.
    pub current_segment: Option<WALSegment>,
    /// Paths of the completed segments.
    pub segments: HashMap<u64, String>,
    /// The number of the next segment.
    pub segment_counter: u64,
}

/// The number of a segment name, 0 where it has none.
pub open spec fn number_or_zero(name: Seq<char>) -> nat {
    match wal_segment::segment_number(name) {
        Some(n) => n,
        None => 0,
    }
}

/// The highest segment number among the names, 0 where there is none.
pub open spec fn highest_segment(names: Seq<String>) -> nat
    decreases names.len(),
{
    if names.len() == 0 {
        0
    } else {
        let before = highest_segment(names.drop_last());
        let last = number_or_zero(names.last()@);
        if last > before {
            last
        } else {
            before
        }
    }
}

/// No name holds a number above the highest one.
pub proof fn highest_is_highest(names: Seq<String>)
    ensures
        forall|i: int|
            0 <= i < names.len() ==> number_or_zero((#[trigger] names[i])@) <= highest_segment(
                names,
            ),
    decreases names.len(),
{
    if names.len() > 0 {
        highest_is_highest(names.drop_last());
        assert forall|i: int| 0 <= i < names.len() implies number_or_zero((#[trigger] names[i])@)
            <= highest_segment(names) by {
            if i < names.len() - 1 {
                assert(names.drop_last()[i] == names[i]);
            }
        }
    }
}

/// How far the change to a new segment has come.
#[derive(Debug)]
pub enum Rotation {
    /// The last segment is to be closed.
    Close(WALSegment),
    /// A new segment is to be created.
    Create,
    /// The change has ended.
    Done(Result<(), LsmError>),
}

/// What came of a step of the change to a new segment.
#[derive(Debug)]
pub enum RotationReply {
    /// The segment was closed.
    Closed,
    /// The segment was created.
    Created(WALSegment),
    /// The step failed.
    Failed(LsmError),
}

/// How far the write of one entry has come.
#[derive(Debug)]
pub enum EntryWrite {
    /// The entry is to be written to the current segment.
    Try,
    /// The segment has no room; a new one is needed.
    Rotate,
    /// The entry is to be written to the new segment.
    Retry,
    /// The write has ended.
    Done(Result<(), LsmError>),
}

/// What came of a step of the write of one entry.
#[derive(Debug)]
pub enum EntryReply {
    /// The segment took the entry, or had no room for it.
    Written(bool),
    /// There is a new segment.
    Rotated,
    /// The step failed.
    Failed(LsmError),
}

/// How far the write of several entries has come.
#[derive(Debug)]
pub enum BatchWrite {
    /// The size of the current segment is asked for, to see whether it is full.
    Capacity,
    /// The segment is full; a new one is needed.
    RotateFull,
    /// The size of the current segment is asked for, to see whether the entries have room.
    Room,
    /// The entries have no room; a new segment is needed.
    RotateForRoom,
    /// The entries are to be appended to the current segment.
    Append,
    /// The header is to be written and the segment to be flushed.
    Persist,
    /// The write has ended.
    Done(Result<(), LsmError>),
}

/// What came of a step of the write of several entries.
#[derive(Debug)]
pub enum BatchReply {
    /// The size of the current segment.
    Size(u64),
    /// The step was done.
    Done,
    /// The step failed.
    Failed(LsmError),
}

/// There is no segment to write to.
pub open spec fn no_segment(r: Result<(), LsmError>) -> bool {
    r matches Err(e) && e.is_internal("No current WAL segment"@)
}

impl WALManager {
    /// Only the current segment, the completed ones and the counter may differ.
    pub open spec fn same_config(self, other: WALManager) -> bool {
        self.config == other.config
    }

    /// A manager without segments.
    pub fn new(config: &WalConfig) -> (r: Self)
        ensures
            r.config.same_as(*config),
            r.current_segment is None,
            r.segments@ == Map::<u64, String>::empty(),
            r.segment_counter == 0,
    {
        WALManager {
            config: config.clone(),
            current_segment: None,
            segments: HashMap::new(),
            segment_counter: 0,
        }
    }

    /// Sets the counter behind the numbers of the files that are there already.
    pub fn scan_existing_segments(&mut self, names: &Vec<String>)
        requires
            highest_segment(names@) < u64::MAX,
        ensures
            final(self).segment_counter == highest_segment(names@) + 1,
            final(self).same_config(*old(self)),
            final(self).current_segment == old(self).current_segment,
            final(self).segments == old(self).segments,
            forall|i: int|
                0 <= i < names@.len() ==> (wal_segment::segment_number(
                    (#[trigger] names@[i])@,
                ) matches Some(n) ==> n < final(self).segment_counter),
    {
        let mut highest: u64 = 0;
        let mut i: usize = 0;
        assert(names@.take(0) =~= Seq::empty());
        while i < names.len()
            invariant
                i <= names@.len(),
                highest == highest_segment(names@.take(i as int)),
                highest_segment(names@) < u64::MAX,
            decreases names@.len() - i,
        {
            proof {
                let next = names@.take(i + 1);
                assert(next.drop_last() =~= names@.take(i as int));
                assert(next.last() == names@[i as int]);
            }
            if let Some(id) = parse_segment_id(names[i].as_str()) {
                if id > highest {
                    highest = id;
                }
            }
            i = i + 1;
        }
        proof {
            assert(names@.take(i as int) =~= names@);
            highest_is_highest(names@);
            assert forall|k: int| 0 <= k < names@.len() implies (wal_segment::segment_number(
                (#[trigger] names@[k])@,
            ) matches Some(n) ==> n < highest + 1) by {
                assert(number_or_zero(names@[k]@) <= highest);
            }
        }
        self.segment_counter = highest + 1;
    }

    /// Begins the change to a new segment: the current one, if any, is taken to be closed.
    pub fn begin_rotation(&mut self) -> (r: Rotation)
        ensures
            match old(self).current_segment {
                Some(s) => r == Rotation::Close(s),
                None => r == Rotation::Create,
            },
            final(self).current_segment is None,
            final(self).segments == old(self).segments,
            final(self).segment_counter == old(self).segment_counter,
            final(self).same_config(*old(self)),
    {
        match self.current_segment.take() {
            Some(segment) => Rotation::Close(segment),
            None => Rotation::Create,
        }
    }

    /// The file name of the next segment.
    pub fn next_segment_name(&self) -> (r: String)
        ensures
            r@ == wal_segment::segment_name(self.segment_counter),
    {
        segment_file_name(self.segment_counter)
    }

    /// The next segment, at this path.
    pub fn next_segment(&self, path: String, now: u64) -> (r: WALSegment)
        ensures
            r.path@ == path@,
            r.header.magic@ == wal_segment::segment_magic(),
            r.header.version == wal_segment::SEGMENT_VERSION,
            r.header.created_at == now,
            r.header.entry_count == 0,
            r.entry_count == 0,
            r.max_size == self.config.segment_size,
            r.sync_mode == self.config.sync_mode,
    {
        WALSegment::new(path, self.config.segment_size, self.config.sync_mode, now)
    }

    /// One step of the change to a new segment. A closed segment is kept among the completed ones;
    /// a created one becomes the current segment and the counter moves on. A failure leaves the
    /// manager without a current segment.
    pub fn rotate_segment(&mut self, st: Rotation, reply: RotationReply) -> (next: Rotation)
        requires
            st is Close ==> !(reply is Created),
            st is Create ==> !(reply is Closed),
        ensures
            final(self).same_config(*old(self)),
            match (st, reply) {
                (Rotation::Close(s), RotationReply::Closed) => {
                    &&& next is Create
                    &&& final(self).segments@.dom() == old(self).segments@.dom().insert(
                        old(self).segment_counter,
                    )
                    &&& final(self).segments@[old(self).segment_counter]@ == s.path@
                    &&& forall|id: u64|
                        id != old(self).segment_counter && old(self).segments@.contains_key(id)
                            ==> #[trigger] final(self).segments@[id] == old(self).segments@[id]
                    &&& final(self).current_segment == old(self).current_segment
                    &&& final(self).segment_counter == old(self).segment_counter
                },
                (Rotation::Create, RotationReply::Created(s)) => {
                    &&& next == Rotation::Done(Ok(()))
                    &&& final(self).current_segment == Some(s)
                    &&& final(self).segment_counter == (if old(self).segment_counter == u64::MAX {
                        0
                    } else {
                        old(self).segment_counter + 1
                    })
                    &&& final(self).segments == old(self).segments
                },
                (Rotation::Done(r), _) => next == Rotation::Done(r) && *final(self) == *old(self),
                (_, RotationReply::Failed(e)) => next == Rotation::Done(Err(e)) && *final(self)
                    == *old(self),
                _ => true,
            },
    {
        broadcast use vstd::std_specs::hash::group_hash_axioms;

        match st {
            Rotation::Close(segment) => match reply {
                RotationReply::Failed(e) => Rotation::Done(Err(e)),
                _ => {
                    self.segments.insert(self.segment_counter, segment.path);
                    Rotation::Create
                },
            },
            Rotation::Create => match reply {
                RotationReply::Created(segment) => {
                    self.current_segment = Some(segment);
                    self.segment_counter = self.segment_counter.wrapping_add(1);
                    Rotation::Done(Ok(()))
                },
                RotationReply::Failed(e) => Rotation::Done(Err(e)),
                RotationReply::Closed => Rotation::Create,
            },
            Rotation::Done(r) => Rotation::Done(r),
        }
    }

    /// Begins the write of one entry.
    pub fn begin_entry(&self) -> (r: EntryWrite)
        ensures
            match r {
                EntryWrite::Try => self.current_segment is Some,
                EntryWrite::Done(o) => self.current_segment is None && no_segment(o),
                _ => false,
            },
    {
        match self.current_segment {
            Some(_) => EntryWrite::Try,
            None => EntryWrite::Done(
                Err(LsmError::Internal("No current WAL segment".to_owned())),
            ),
        }
    }

    /// One step of the write of one entry. An entry that has no room goes to a new segment; one
    /// that has no room in an empty segment either is refused. Success is told only of an entry
    /// that was written.
    pub fn write_entry(&self, st: EntryWrite, reply: EntryReply) -> (next: EntryWrite)
        requires
            st is Try || st is Retry ==> !(reply is Rotated),
            st is Rotate ==> !(reply is Written),
        ensures
            match (st, reply) {
                (EntryWrite::Try, EntryReply::Written(took)) => if took {
                    next == EntryWrite::Done(Ok(()))
                } else {
                    next is Rotate
                },
                (EntryWrite::Rotate, EntryReply::Rotated) => if self.current_segment is Some {
                    next is Retry
                } else {
                    next matches EntryWrite::Done(Err(e)) && e.is_internal(
                        "Failed to create new WAL segment"@,
                    )
                },
                (EntryWrite::Retry, EntryReply::Written(took)) => if took {
                    next == EntryWrite::Done(Ok(()))
                } else {
                    next matches EntryWrite::Done(Err(e)) && e.is_wal(
                        "WAL entry does not fit a segment"@,
                    )
                },
                (EntryWrite::Done(r), _) => next == EntryWrite::Done(r),
                (_, EntryReply::Failed(e)) => next == EntryWrite::Done(Err(e)),
                _ => true,
            },
    {
        match (st, reply) {
            (EntryWrite::Done(r), _) => EntryWrite::Done(r),
            (_, EntryReply::Failed(e)) => EntryWrite::Done(Err(e)),
            (EntryWrite::Try, EntryReply::Written(took)) => if took {
                EntryWrite::Done(Ok(()))
            } else {
                EntryWrite::Rotate
            },
            (EntryWrite::Rotate, EntryReply::Rotated) => match self.current_segment {
                Some(_) => EntryWrite::Retry,
                None => EntryWrite::Done(
                    Err(LsmError::Internal("Failed to create new WAL segment".to_owned())),
                ),
            },
            (EntryWrite::Retry, EntryReply::Written(took)) => if took {
                EntryWrite::Done(Ok(()))
            } else {
                EntryWrite::Done(Err(LsmError::Wal("WAL entry does not fit a segment".to_owned())))
            },
            (st, _) => st,
        }
    }

    /// The state in which the room for a batch is looked at.
    pub open spec fn room_state(self, next: BatchWrite) -> bool {
        match next {
            BatchWrite::Room => self.current_segment is Some,
            BatchWrite::Done(r) => self.current_segment is None && no_segment(r),
            _ => false,
        }
    }

    fn look_for_room(&self) -> (r: BatchWrite)
        ensures
            self.room_state(r),
    {
        match self.current_segment {
            Some(_) => BatchWrite::Room,
            None => BatchWrite::Done(
                Err(LsmError::Internal("No current WAL segment".to_owned())),
            ),
        }
    }

    /// The longest payload that is read back from the current segment and from the next one.
    pub open spec fn entry_limit(self) -> nat {
        let here = self.current_segment->Some_0.max_size;
        (if here < self.config.segment_size {
            here
        } else {
            self.config.segment_size
        }) as nat
    }

    /// Every payload can be read back from the segment that it is appended to.
    pub open spec fn batch_storable(self, payloads: Seq<Seq<u8>>) -> bool {
        forall|i: int|
            0 <= i < payloads.len() ==> wal_record::storable(
                #[trigger] payloads[i],
                self.entry_limit(),
            )
    }

    /// How the write of several entries begins. It is refused where an entry could not be read
    /// back, because it is empty or longer than a segment may be.
    pub open spec fn batch_begins(self, payloads: Seq<Seq<u8>>, next: BatchWrite) -> bool {
        if payloads.len() == 0 {
            next == BatchWrite::Done(Ok(()))
        } else if self.current_segment is None {
            next matches BatchWrite::Done(o) && no_segment(o)
        } else if self.batch_storable(payloads) {
            next == BatchWrite::Capacity
        } else {
            next matches BatchWrite::Done(Err(e)) && e.is_wal(
                "WAL batch holds an entry that does not fit a segment"@,
            )
        }
    }

    fn all_storable(&self, segment: &WALSegment, payloads: &Vec<Vec<u8>>) -> (r: bool)
        requires
            self.current_segment == Some(*segment),
        ensures
            r == self.batch_storable(wal_record::views(payloads@)),
    {
        let limit: u64 = if segment.max_size < self.config.segment_size {
            segment.max_size
        } else {
            self.config.segment_size
        };
        let ghost all = wal_record::views(payloads@);
        let mut i: usize = 0;
        while i < payloads.len()
            invariant
                i <= payloads@.len(),
                all == wal_record::views(payloads@),
                limit == self.entry_limit(),
                forall|k: int|
                    0 <= k < i ==> wal_record::storable(#[trigger] all[k], self.entry_limit()),
            decreases payloads@.len() - i,
        {
            assert(all[i as int] == payloads@[i as int]@);
            let n: u64 = payloads[i].len() as u64;
            if n == 0 || n > limit || n > u32::MAX as u64 {
                return false;
            }
            i = i + 1;
        }
        true
    }

    /// Begins the write of several entries: the bytes that are to be appended, and the first step.
    pub fn begin_batch(&self, payloads: &Vec<Vec<u8>>) -> (r: (Vec<u8>, BatchWrite))
        ensures
            r.0@ == wal_record::log_bytes(wal_record::views(payloads@)),
            self.batch_begins(wal_record::views(payloads@), r.1),
    {
        let data = encode_records(payloads);
        let st = if payloads.len() == 0 {
            BatchWrite::Done(Ok(()))
        } else {
            match &self.current_segment {
                Some(segment) => if self.all_storable(segment, payloads) {
                    BatchWrite::Capacity
                } else {
                    BatchWrite::Done(
                        Err(
                            LsmError::Wal(
                                "WAL batch holds an entry that does not fit a segment".to_owned(),
                            ),
                        ),
                    )
                },
                None => self.look_for_room(),
            }
        };
        (data, st)
    }

    /// What a step of the write of `count` entries in `data_len` bytes leads to: a segment that is
    /// full, or has no room for them, is changed before anything is appended; the header is
    /// written behind the entries.
    pub open spec fn batch_step(
        self,
        after: WALManager,
        st: BatchWrite,
        data_len: u64,
        count: u32,
        reply: BatchReply,
        next: BatchWrite,
    ) -> bool {
        match (st, reply) {
            (BatchWrite::Done(r), _) => next == BatchWrite::Done(r) && after == self,
            (_, BatchReply::Failed(e)) => next == BatchWrite::Done(Err(e)) && after == self,
            (BatchWrite::Capacity, BatchReply::Size(n)) => {
                &&& after == self
                &&& self.current_segment matches Some(s)
                &&& if n >= s.max_size {
                    next is RotateFull
                } else {
                    next is Room
                }
            },
            (BatchWrite::RotateFull, BatchReply::Done) => after == self && self.room_state(next),
            (BatchWrite::Room, BatchReply::Size(n)) => {
                &&& after == self
                &&& self.current_segment matches Some(s)
                &&& if n + data_len > s.max_size {
                    next is RotateForRoom
                } else {
                    next is Append
                }
            },
            (BatchWrite::RotateForRoom, BatchReply::Done) => {
                &&& after == self
                &&& match next {
                    BatchWrite::Append => self.current_segment is Some,
                    BatchWrite::Done(r) => self.current_segment is None && no_segment(r),
                    _ => false,
                }
            },
            (BatchWrite::Append, BatchReply::Done) => {
                &&& next is Persist
                &&& after.same_config(self)
                &&& after.segments == self.segments
                &&& after.segment_counter == self.segment_counter
                &&& self.current_segment matches Some(s)
                &&& after.current_segment matches Some(t)
                &&& t.entry_count == s.entry_count + count
                &&& t.header == (wal_segment::WALSegmentHeader {
                    entry_count: t.entry_count,
                    ..s.header
                })
                &&& t.path == s.path && t.max_size == s.max_size && t.sync_mode == s.sync_mode
            },
            (BatchWrite::Persist, BatchReply::Done) => next == BatchWrite::Done(Ok(())) && after
                == self,
            _ => false,
        }
    }

    /// The reply answers what the state asks for.
    pub open spec fn batch_answered(st: BatchWrite, reply: BatchReply) -> bool {
        match st {
            BatchWrite::Capacity | BatchWrite::Room => !(reply is Done),
            BatchWrite::Done(_) => true,
            _ => !(reply is Size),
        }
    }

    /// One step of the write of several entries.
    pub fn batch_write_entries(
        &mut self,
        st: BatchWrite,
        data_len: u64,
        count: u32,
        reply: BatchReply,
    ) -> (next: BatchWrite)
        requires
            Self::batch_answered(st, reply),
            st is Capacity || st is Room || st is Append ==> old(self).current_segment is Some,
            reply matches BatchReply::Size(n) ==> n + data_len <= u64::MAX,
            st is Append ==> old(self).current_segment->Some_0.entry_count + count <= u32::MAX,
        ensures
            old(self).batch_step(*final(self), st, data_len, count, reply, next),
    {
        match (st, reply) {
            (BatchWrite::Done(r), _) => BatchWrite::Done(r),
            (_, BatchReply::Failed(e)) => BatchWrite::Done(Err(e)),
            (BatchWrite::Capacity, BatchReply::Size(n)) => match &self.current_segment {
                Some(segment) => if segment.should_rotate(n) {
                    BatchWrite::RotateFull
                } else {
                    BatchWrite::Room
                },
                None => BatchWrite::Capacity,
            },
            (BatchWrite::RotateFull, _) => self.look_for_room(),
            (BatchWrite::Room, BatchReply::Size(n)) => match &self.current_segment {
                Some(segment) => if n + data_len > segment.max_size {
                    BatchWrite::RotateForRoom
                } else {
                    BatchWrite::Append
                },
                None => BatchWrite::Room,
            },
            (BatchWrite::RotateForRoom, _) => match self.look_for_room() {
                BatchWrite::Done(r) => BatchWrite::Done(r),
                _ => BatchWrite::Append,
            },
            (BatchWrite::Append, _) => {
                if let Some(segment) = self.current_segment.take() {
                    let mut segment = segment;
                    segment.entries_written(count);
                    self.current_segment = Some(segment);
                }
                BatchWrite::Persist
            },
            (BatchWrite::Persist, _) => BatchWrite::Done(Ok(())),
            (st, _) => st,
        }
    }
}

} // verus!
