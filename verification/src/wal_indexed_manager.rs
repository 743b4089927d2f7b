//! The manager of the indexed log: its start, rotation, recovery and truncation.

use crate::duration::Duration;
use crate::engine_config::WalConfig;
use crate::error::LsmError;
use crate::numerals::{self, parse_number};
use crate::text::chars_of;
use crate::wal_index::{SlotWrite, WalIndexFile, WalIndexHeader};
use crate::wal_indexed::{IndexedWalSegment, INDEXED_MIN_FRAME_COUNT, INDEXED_MIN_FRAME_SIZE};
use crate::wal_recovery::{self, expired_segments, SegmentAge, ShutdownStep};
use std::collections::HashMap;
use vstd::prelude::*;
use vstd::string::*;

verus! {

/// The manager of the indexed log.
#[derive(Debug)]
pub struct IndexedWalManager {
    /// Configuration.
    pub config: WalConfig,
    /// Size of a frame in bytes.
    pub frame_size: usize,
    /// The number of the last frame of a segment.
    pub data_frame_count: u32,
    /// The segment that is written.
    pub current_segment: Option<IndexedWalSegment>,
    /// The index file.
    pub index: Option<WalIndexFile>,
    /// Directories of the completed segments.
    pub segments: HashMap<u64, String>,
    /// The number of the next segment.
    pub segment_counter: u64,
}

/// How far a rotation of the indexed log has come, and what is done next.
#[derive(Debug)]
pub enum IndexedRotation {
    /// The directory of the new segment is made.
    MakeDirectory {
        /// The number of the segment.
        segment_id: u32,
    },
    /// The index file is opened for the new segment.
    OpenIndex(IndexedWalSegment),
    /// The index tells of the new segment.
    Commit {
        /// The segment.
        segment: IndexedWalSegment,
        /// The index file.
        index: WalIndexFile,
        /// What is written to it.
        write: SlotWrite,
    },
    /// It is over.
    Done(Result<(), LsmError>),
}

/// What came of the last step of a rotation of the indexed log.
#[derive(Debug)]
pub enum IndexedReply {
    /// The directory was made; its path.
    Made(String),
    /// The index file was opened.
    Opened(WalIndexFile),
    /// The index was written.
    Committed,
    /// It failed.
    Failed(LsmError),
}

/// The number in the name of a segment's directory, 0 where it has none.
pub open spec fn dir_number(name: Seq<char>) -> nat {
    match numerals::parsed(name, 16, u64::MAX as nat) {
        Some(n) => n,
        None => 0,
    }
}

/// The highest number of a segment's directory among the names, 0 where there is none.
pub open spec fn highest_dir(names: Seq<String>) -> nat
    decreases names.len(),
{
    if names.len() == 0 {
        0
    } else {
        let before = highest_dir(names.drop_last());
        let last = dir_number(names.last()@);
        if last > before {
            last
        } else {
            before
        }
    }
}

impl IndexedWalManager {
    /// A manager without a segment.
    pub fn new(config: &WalConfig) -> (r: Self)
        ensures
            r.config.same_as(*config),
            r.frame_size == (if config.frame_page_size < INDEXED_MIN_FRAME_SIZE {
                INDEXED_MIN_FRAME_SIZE
            } else {
                config.frame_page_size
            }),
            r.data_frame_count == (if config.indexed_frame_count < INDEXED_MIN_FRAME_COUNT {
                INDEXED_MIN_FRAME_COUNT
            } else {
                config.indexed_frame_count
            }),
            r.current_segment is None,
            r.index is None,
            r.segments@ == Map::<u64, String>::empty(),
            r.segment_counter == 0,
    {
        broadcast use vstd::std_specs::hash::group_hash_axioms;

        let frame_size = if config.frame_page_size < INDEXED_MIN_FRAME_SIZE {
            INDEXED_MIN_FRAME_SIZE
        } else {
            config.frame_page_size
        };
        let data_frame_count = if config.indexed_frame_count < INDEXED_MIN_FRAME_COUNT {
            INDEXED_MIN_FRAME_COUNT
        } else {
            config.indexed_frame_count
        };
        IndexedWalManager {
            config: config.clone(),
            frame_size,
            data_frame_count,
            current_segment: None,
            index: None,
            segments: HashMap::new(),
            segment_counter: 0,
        }
    }

    /// Whether a start goes on with the segment that the index tells of, and at which frame:
    /// only if its directory is there and it holds entries or frames.
    pub fn resume_frame(
        &self,
        state: WalIndexHeader,
        dir_exists: bool,
        has_frames: bool,
    ) -> (r: Option<u32>)
        ensures
            r == (if dir_exists && (state.entry_count > 0 || has_frames) {
                Some(
                    if state.committed_frame == u32::MAX {
                        u32::MAX
                    } else {
                        (state.committed_frame + 1) as u32
                    },
                )
            } else {
                None
            }),
    {
        if dir_exists && (state.entry_count > 0 || has_frames) {
            Some(state.committed_frame.saturating_add(1))
        } else {
            None
        }
    }

    /// Sets the counter behind the numbers of the directories that are there already.
    pub fn scan_existing_segments(&mut self, names: &Vec<String>)
        requires
            highest_dir(names@) < u64::MAX,
        ensures
            *final(self) == (IndexedWalManager {
                segment_counter: (highest_dir(names@) + 1) as u64,
                ..*old(self)
            }),
    {
        let mut highest: u64 = 0;
        let mut i: usize = 0;
        assert(names@.take(0) =~= Seq::empty());
        while i < names.len()
            invariant
                i <= names@.len(),
                highest == highest_dir(names@.take(i as int)),
            decreases names@.len() - i,
        {
            proof {
                let next = names@.take(i + 1);
                assert(next.drop_last() =~= names@.take(i as int));
                assert(next.last() == names@[i as int]);
            }
            if let Some(id) = parse_number(&chars_of(names[i].as_str()), 16, u64::MAX) {
                if id > highest {
                    highest = id;
                }
            }
            i = i + 1;
        }
        assert(names@.take(i as int) =~= names@);
        self.segment_counter = highest + 1;
    }

    /// Takes the number of the next segment.
    pub fn next_segment_id(&mut self) -> (r: u32)
        ensures
            r == old(self).segment_counter as u32,
            *final(self) == (IndexedWalManager {
                segment_counter: if old(self).segment_counter == u64::MAX {
                    0
                } else {
                    (old(self).segment_counter + 1) as u64
                },
                ..*old(self)
            }),
    {
        let id = self.segment_counter as u32;
        self.segment_counter = self.segment_counter.wrapping_add(1);
        id
    }

    /// The index header with which a new segment begins.
    pub fn fresh_index_state(&self, latest: WalIndexHeader, segment_id: u32) -> (r: WalIndexHeader)
        ensures
            r == (WalIndexHeader { segment_id, frame_size: self.frame_size as u32, ..latest }),
    {
        let mut header = latest;
        header.segment_id = segment_id;
        header.frame_size = self.frame_size as u32;
        header
    }

    /// Everything but the segments, the index and the counter is the same.
    pub open spec fn same_config(self, other: Self) -> bool {
        &&& self.config == other.config
        &&& self.frame_size == other.frame_size
        &&& self.data_frame_count == other.data_frame_count
    }

    /// Goes on with the segment that the index tells of, if there is something to go on with.
    pub fn resume(
        &mut self,
        index: WalIndexFile,
        state: &Result<WalIndexHeader, LsmError>,
        frames_dir: String,
        dir_exists: bool,
        has_frames: bool,
    ) -> (resumed: bool)
        ensures
            resumed == (match *state {
                Ok(s) => dir_exists && (s.entry_count > 0 || has_frames),
                Err(_) => false,
            }),
            final(self).same_config(*old(self)),
            final(self).segments == old(self).segments,
            final(self).segment_counter == old(self).segment_counter,
            !resumed ==> *final(self) == *old(self),
            resumed ==> {
                &&& final(self).index == Some(index)
                &&& final(self).current_segment matches Some(s)
                &&& s.wf()
                &&& s.frames_dir@ == frames_dir@
                &&& s.segment_id == state->Ok_0.segment_id
                &&& s.frame_size == old(self).frame_size
                &&& s.data_frame_count == old(self).data_frame_count
                &&& s.sync_mode == old(self).config.sync_mode
                &&& s.staging_frame == (if state->Ok_0.committed_frame == u32::MAX {
                    u32::MAX as int
                } else {
                    state->Ok_0.committed_frame + 1
                })
                &&& s.staging@.len() == 0
                &&& s.entries_in_staging == 0
            },
    {
        match state {
            Err(_) => false,
            Ok(state) => match self.resume_frame(*state, dir_exists, has_frames) {
                None => false,
                Some(frame) => {
                    match IndexedWalSegment::open_existing(
                        frames_dir,
                        "",
                        true,
                        state.segment_id,
                        self.frame_size,
                        self.data_frame_count,
                        self.config.sync_mode,
                        frame,
                    ) {
                        Ok(segment) => {
                            self.index = Some(index);
                            self.current_segment = Some(segment);
                            true
                        },
                        Err(_) => false,
                    }
                },
            },
        }
    }

    /// Begins a rotation: the current segment counts as completed, and a new one gets the next
    /// number.
    pub fn begin_rotation(&mut self) -> (r: IndexedRotation)
        ensures
            r == (IndexedRotation::MakeDirectory { segment_id: old(self).segment_counter as u32 }),
            final(self).same_config(*old(self)),
            final(self).current_segment is None,
            final(self).index == old(self).index,
            final(self).segment_counter == (if old(self).segment_counter == u64::MAX {
                0
            } else {
                old(self).segment_counter + 1
            }),
            match old(self).current_segment {
                Some(s) => final(self).segments@ == old(self).segments@.insert(
                    s.segment_id as u64,
                    s.frames_dir,
                ),
                None => final(self).segments == old(self).segments,
            },
    {
        broadcast use vstd::std_specs::hash::group_hash_axioms;

        if let Some(segment) = self.current_segment.take() {
            self.segments.insert(segment.segment_id as u64, segment.frames_dir);
            assert(self.segments@ =~= old(self).segments@.insert(
                segment.segment_id as u64,
                segment.frames_dir,
            ));
        }
        let segment_id = self.next_segment_id();
        IndexedRotation::MakeDirectory { segment_id }
    }

    /// The reply is one to this step.
    pub open spec fn rotation_answered(st: IndexedRotation, reply: IndexedReply) -> bool {
        match st {
            IndexedRotation::MakeDirectory { .. } => reply is Made || reply is Failed,
            IndexedRotation::OpenIndex(_) => reply is Opened || reply is Failed,
            IndexedRotation::Commit { .. } => reply is Committed || reply is Failed,
            IndexedRotation::Done(_) => true,
        }
    }

    /// What follows a step of a rotation. A segment becomes the current one only after the index
    /// tells of it.
    pub fn rotate_segment(&mut self, st: IndexedRotation, reply: IndexedReply) -> (
        next: IndexedRotation)
        requires
            Self::rotation_answered(st, reply),
        ensures
            final(self).same_config(*old(self)),
            final(self).segments == old(self).segments,
            final(self).segment_counter == old(self).segment_counter,
            !(st is Commit && reply is Committed) ==> *final(self) == *old(self),
            match (st, reply) {
                (IndexedRotation::Done(r), _) => next == IndexedRotation::Done(r),
                (_, IndexedReply::Failed(e)) => next == IndexedRotation::Done(Err(e)),
                (IndexedRotation::MakeDirectory { segment_id }, IndexedReply::Made(dir)) => {
                    &&& next matches IndexedRotation::OpenIndex(s)
                    &&& s.wf()
                    &&& s.frames_dir@ == dir@
                    &&& s.segment_id == segment_id
                    &&& s.frame_size == old(self).frame_size
                    &&& s.data_frame_count == old(self).data_frame_count
                    &&& s.sync_mode == old(self).config.sync_mode
                    &&& s.staging_frame == 1
                    &&& s.staging@.len() == 0
                    &&& s.entries_in_staging == 0
                },
                (IndexedRotation::OpenIndex(segment), IndexedReply::Opened(index)) => {
                    &&& next matches IndexedRotation::Commit { segment: s, index: i, write }
                    &&& s == segment
                    &&& i == index
                    &&& write.writes(
                        (WalIndexHeader {
                            segment_id: segment.segment_id,
                            frame_size: old(self).frame_size as u32,
                            ..index.latest
                        }),
                        index.latest,
                        true,
                    )
                },
                (IndexedRotation::Commit { segment, index, write }, IndexedReply::Committed) => {
                    &&& next == IndexedRotation::Done(Ok(()))
                    &&& final(self).current_segment == Some(segment)
                    &&& final(self).index matches Some(i)
                    &&& i.path == index.path
                    &&& i.latest == write.header
                },
                _ => true,
            },
    {
        match st {
            IndexedRotation::MakeDirectory { segment_id } => match reply {
                IndexedReply::Made(dir) => IndexedRotation::OpenIndex(
                    IndexedWalSegment::create(
                        dir,
                        segment_id,
                        self.frame_size,
                        self.data_frame_count,
                        self.config.sync_mode,
                    ),
                ),
                IndexedReply::Failed(e) => IndexedRotation::Done(Err(e)),
                _ => IndexedRotation::MakeDirectory { segment_id },
            },
            IndexedRotation::OpenIndex(segment) => match reply {
                IndexedReply::Opened(index) => {
                    let header = self.fresh_index_state(index.latest(), segment.segment_id);
                    let write = index.commit(header);
                    IndexedRotation::Commit { segment, index, write }
                },
                IndexedReply::Failed(e) => IndexedRotation::Done(Err(e)),
                _ => IndexedRotation::OpenIndex(segment),
            },
            IndexedRotation::Commit { segment, index, write } => match reply {
                IndexedReply::Failed(e) => IndexedRotation::Done(Err(e)),
                _ => {
                    let mut index = index;
                    index.slot_written(&write);
                    self.index = Some(index);
                    self.current_segment = Some(segment);
                    IndexedRotation::Done(Ok(()))
                },
            },
            IndexedRotation::Done(r) => IndexedRotation::Done(r),
        }
    }

    /// Whether there are a segment and an index to write to.
    pub fn check_ready(&self) -> (r: Result<(), LsmError>)
        ensures
            r is Ok <==> self.current_segment is Some && self.index is Some,
            r matches Err(e) ==> e.is_internal(
                if self.current_segment is None {
                    "indexed wal segment not initialized"@
                } else {
                    "wal.idx not initialized"@
                },
            ),
    {
        if self.current_segment.is_none() {
            return Err(LsmError::Internal("indexed wal segment not initialized".to_owned()));
        }
        if self.index.is_none() {
            return Err(LsmError::Internal("wal.idx not initialized".to_owned()));
        }
        Ok(())
    }

    /// Gives up the current segment; the caller removes its directory and those of the completed
    /// segments.
    pub fn begin_truncation(&mut self) -> (r: Option<IndexedWalSegment>)
        ensures
            r == old(self).current_segment,
            *final(self) == (IndexedWalManager { current_segment: None, ..*old(self) }),
    {
        self.current_segment.take()
    }

    /// Forgets the completed segments.
    pub fn forget_segments(&mut self)
        ensures
            final(self).segments@ == Map::<u64, String>::empty(),
            *final(self) == (IndexedWalManager { segments: final(self).segments, ..*old(self) }),
    {
        self.segments.clear();
    }

    /// Forgets the index file.
    pub fn forget_index(&mut self)
        ensures
            *final(self) == (IndexedWalManager { index: None, ..*old(self) }),
    {
        self.index = None;
    }

    /// Forgets a completed segment; its directory, if it was known.
    pub fn forget_segment(&mut self, id: u64) -> (r: Option<String>)
        ensures
            r == (if old(self).segments@.contains_key(id) {
                Some(old(self).segments@[id])
            } else {
                None
            }),
            final(self).segments@ == old(self).segments@.remove(id),
            *final(self) == (IndexedWalManager { segments: final(self).segments, ..*old(self) }),
    {
        broadcast use vstd::std_specs::hash::group_hash_axioms;

        let r = self.segments.remove(&id);
        assert(self.segments@ =~= old(self).segments@.remove(id));
        r
    }

    /// Whether the log is truncated: no segment is completed.
    pub fn verify_truncated(&self) -> (r: bool)
        ensures
            r == (self.segments@.len() == 0),
    {
        broadcast use vstd::std_specs::hash::group_hash_axioms;

        self.segments.len() == 0
    }

    /// The completed segments that are older than the retention period.
    pub fn cleanup_old_segments(
        &self,
        ages: &Vec<SegmentAge>,
        now: u64,
        retention_period: Duration,
    ) -> (r: Vec<u64>)
        ensures
            r@ == wal_recovery::expired(
                ages@,
                if retention_period.secs <= now {
                    now - retention_period.secs
                } else {
                    0
                },
            ),
    {
        expired_segments(ages, now.saturating_sub(retention_period.as_secs()))
    }

    /// The steps of a clean shutdown.
    pub fn mark_clean_shutdown(&self) -> (r: Vec<ShutdownStep>)
        ensures
            r@ == seq![ShutdownStep::Checkpoint, ShutdownStep::Flush, ShutdownStep::Truncate],
    {
        let mut steps: Vec<ShutdownStep> = Vec::new();
        steps.push(ShutdownStep::Checkpoint);
        steps.push(ShutdownStep::Flush);
        steps.push(ShutdownStep::Truncate);
        steps
    }
}

/// The number of a completed segment, from the name of its directory; 0 where it has none.
pub open spec fn completed_number(name: Seq<char>) -> u32 {
    match numerals::parsed(name, 16, u32::MAX as nat) {
        Some(n) => n as u32,
        None => 0,
    }
}

/// The number of a completed segment, from the name of its directory; 0 where it has none.
pub fn completed_segment_id(name: &str) -> (r: u32)
    ensures
        r == completed_number(name@),
{
    match parse_number(&chars_of(name), 16, u32::MAX as u64) {
        Some(n) => n as u32,
        None => 0,
    }
}

} // verus!
