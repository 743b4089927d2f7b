//! Writing to the indexed log, step by step: a record is staged or framed, the frame is written to
//! its file, and then the index tells of it.

use crate::error::LsmError;
use crate::wal_index::{self, SlotWrite, WalIndexHeader};
use crate::wal_indexed::{self, AppendAction, FrameWrite, IndexedWalSegment};
use crate::wal_indexed_manager::IndexedWalManager;
use crate::wal_record;
use vstd::prelude::*;

verus! {

/// What a frame is written for.
#[derive(Debug, Clone, Copy, PartialEq, Eq, Structural)]
pub enum FrameUse {
    /// The staged records make room; the record is offered again.
    MakeRoom,
    /// The record stands in a frame of its own.
    Alone,
    /// The staged records are committed.
    Commit,
}

/// How far a write has come.
#[derive(Debug)]
pub enum IndexedAppend {
    /// A frame is to be written to its file.
    Frame {
        /// The frame.
        write: FrameWrite,
        /// What it is written for.
        reason: FrameUse,
    },
    /// A slot of the index is to be written.
    Slot {
        /// The slot.
        slot: SlotWrite,
        /// What the frame was written for.
        reason: FrameUse,
    },
    /// The write has ended.
    Done(Result<(), LsmError>),
}

/// What the caller answers.
#[derive(Debug)]
pub enum AppendReply {
    /// What was to be written is written.
    Written,
    /// It could not be written.
    Failed(LsmError),
}

impl IndexedWalManager {
    /// There are a segment and an index, and the segment has room for counting one more entry.
    pub open spec fn can_append(self) -> bool {
        &&& self.index is Some
        &&& self.current_segment matches Some(segment) && segment.wf()
            && segment.entries_in_staging < u32::MAX
    }

    /// The manager with this segment as the current one.
    pub open spec fn with_segment(self, after: IndexedWalManager) -> bool {
        &&& after.current_segment is Some
        &&& after == (IndexedWalManager { current_segment: after.current_segment, ..self })
    }
}

/// A record of an entry that is written on its own is committed at once where writes are synced,
/// and where it fills an empty frame; one of several is not.
pub open spec fn committed_at_once(segment: IndexedWalSegment, payload: Seq<u8>, batch: bool) -> bool {
    !batch && (segment.syncs_each() || (segment.staging@.len() == 0 && wal_record::record(
        payload,
    ).len() == segment.frame_size))
}

/// What follows from offering a record to the segment.
pub open spec fn offered(
    before: IndexedWalManager,
    after: IndexedWalManager,
    payload: Seq<u8>,
    batch: bool,
    next: IndexedAppend,
) -> bool {
    let segment = before.current_segment->Some_0;
    &&& before.with_segment(after)
    &&& exists|r: Result<AppendAction, LsmError>| #[trigger]
        segment.append_step(
            after.current_segment->Some_0,
            payload,
            committed_at_once(segment, payload, batch),
            r,
        ) && follows_action(r, next)
}

/// What an action of the segment calls for.
pub open spec fn follows_action(r: Result<AppendAction, LsmError>, next: IndexedAppend) -> bool {
    match r {
        Ok(AppendAction::FlushFirst(write)) => next == (IndexedAppend::Frame {
            write,
            reason: FrameUse::MakeRoom,
        }),
        Ok(AppendAction::Alone(write)) => next == (IndexedAppend::Frame {
            write,
            reason: FrameUse::Alone,
        }),
        Ok(AppendAction::StagedAndFlush(write)) => next == (IndexedAppend::Frame {
            write,
            reason: FrameUse::Commit,
        }),
        Ok(AppendAction::Staged) => next == IndexedAppend::Done(Ok(())),
        Err(e) => next == IndexedAppend::Done(Err(e)),
    }
}

/// The staged records are committed: nothing is staged, and the next frame comes.
pub open spec fn staging_done(before: IndexedWalSegment, after: IndexedWalSegment) -> bool {
    &&& after.same_place(before)
    &&& after.staging@.len() == 0
    &&& after.entries_in_staging == 0
    &&& after.staging_frame == before.frame_behind()
}

/// The index tells of the slot, and the segment of the frame.
pub open spec fn slot_noted(
    before: IndexedWalManager,
    after: IndexedWalManager,
    slot: SlotWrite,
    reason: FrameUse,
) -> bool {
    let was = before.current_segment->Some_0;
    let is = after.current_segment->Some_0;
    &&& after.current_segment is Some
    &&& after.index is Some
    &&& after.index->Some_0.latest == slot.header
    &&& after.index->Some_0.path == before.index->Some_0.path
    &&& after == (IndexedWalManager {
        index: after.index,
        current_segment: after.current_segment,
        ..before
    })
    &&& if reason == FrameUse::Alone {
        is == (IndexedWalSegment { staging_frame: was.frame_behind(), ..was })
    } else {
        staging_done(was, is)
    }
}

/// How a commit of what is staged begins.
pub open spec fn flush_begins(manager: IndexedWalManager, next: IndexedAppend) -> bool {
    match (manager.current_segment, manager.index) {
        (Some(segment), Some(_)) => if segment.staging@.len() == 0 {
            next == IndexedAppend::Done(Ok(()))
        } else if segment.staging_frame > segment.data_frame_count {
            next matches IndexedAppend::Done(Err(e)) && wal_indexed::segment_full(e)
        } else {
            next matches IndexedAppend::Frame { write, reason } && reason == FrameUse::Commit
                && write.holds(
                segment.staging_frame,
                segment.staging@,
                segment.frame_size as nat,
                segment.entries_in_staging as nat,
            )
        },
        _ => next == IndexedAppend::Done(Ok(())),
    }
}

/// The next state and manager, when `reply` answers what `st` asks for.
pub open spec fn append_advances(
    before: IndexedWalManager,
    after: IndexedWalManager,
    payload: Seq<u8>,
    batch: bool,
    st: IndexedAppend,
    reply: AppendReply,
    next: IndexedAppend,
) -> bool {
    match (st, reply) {
        (IndexedAppend::Done(_), _) => next == st && after == before,
        (_, AppendReply::Failed(e)) => next == IndexedAppend::Done(Err(e)) && after == before,
        (IndexedAppend::Frame { write, reason }, AppendReply::Written) => {
            let latest = before.index->Some_0.latest;
            &&& after == before
            &&& next matches IndexedAppend::Slot { slot, reason: why } && why == reason
                && slot.writes(write.committed(latest), latest, false)
        },
        (IndexedAppend::Slot { slot, reason }, AppendReply::Written) => if reason
            == FrameUse::MakeRoom {
            exists|noted: IndexedWalManager| #[trigger]
                slot_noted(before, noted, slot, reason) && offered(noted, after, payload, batch, next)
        } else {
            slot_noted(before, after, slot, reason) && next == IndexedAppend::Done(Ok(()))
        },
    }
}

fn follow(action: Result<AppendAction, LsmError>) -> (next: IndexedAppend)
    ensures
        follows_action(action, next),
{
    match action {
        Ok(AppendAction::FlushFirst(write)) => IndexedAppend::Frame {
            write,
            reason: FrameUse::MakeRoom,
        },
        Ok(AppendAction::Alone(write)) => IndexedAppend::Frame { write, reason: FrameUse::Alone },
        Ok(AppendAction::StagedAndFlush(write)) => IndexedAppend::Frame {
            write,
            reason: FrameUse::Commit,
        },
        Ok(AppendAction::Staged) => IndexedAppend::Done(Ok(())),
        Err(e) => IndexedAppend::Done(Err(e)),
    }
}

impl IndexedWalManager {
    fn offer(&mut self, payload: &Vec<u8>, batch: bool) -> (next: IndexedAppend)
        requires
            old(self).can_append(),
        ensures
            offered(*old(self), *final(self), payload@, batch, next),
            final(self).current_segment->Some_0.wf(),
    {
        match self.current_segment.take() {
            Some(segment) => {
                let mut segment = segment;
                let action = if batch {
                    segment.append_entries_batch(payload)
                } else {
                    segment.append_entry(payload)
                };
                self.current_segment = Some(segment);
                assert(old(self).with_segment(*self));
                assert(old(self).current_segment->Some_0.append_step(
                    self.current_segment->Some_0,
                    payload@,
                    committed_at_once(old(self).current_segment->Some_0, payload@, batch),
                    action,
                ));
                follow(action)
            },
            None => IndexedAppend::Done(Ok(())),
        }
    }

    /// Begins to write an entry; `batch` tells whether more entries follow, and a flush behind
    /// them. Without a segment or an index nothing can be written.
    pub fn write_entry(&mut self, payload: &Vec<u8>, batch: bool) -> (next: IndexedAppend)
        requires
            old(self).current_segment matches Some(segment) ==> segment.wf()
                && segment.entries_in_staging < u32::MAX,
        ensures
            if old(self).current_segment is Some && old(self).index is Some {
                &&& offered(*old(self), *final(self), payload@, batch, next)
                &&& final(self).current_segment->Some_0.wf()
            } else {
                &&& *final(self) == *old(self)
                &&& next matches IndexedAppend::Done(Err(e)) && e.is_internal(
                    if old(self).current_segment is None {
                        "indexed wal segment not initialized"@
                    } else {
                        "wal.idx not initialized"@
                    },
                )
            },
    {
        match self.check_ready() {
            Ok(()) => self.offer(payload, batch),
            Err(e) => IndexedAppend::Done(Err(e)),
        }
    }

    /// Begins to commit what is staged; without a segment or an index there is nothing to commit.
    pub fn flush(&self) -> (next: IndexedAppend)
        ensures
            flush_begins(*self, next),
    {
        if self.index.is_none() {
            return IndexedAppend::Done(Ok(()));
        }
        match &self.current_segment {
            Some(segment) => match segment.flush_staging() {
                Ok(Some(write)) => IndexedAppend::Frame { write, reason: FrameUse::Commit },
                Ok(None) => IndexedAppend::Done(Ok(())),
                Err(e) => IndexedAppend::Done(Err(e)),
            },
            None => IndexedAppend::Done(Ok(())),
        }
    }

    fn note_slot(&mut self, slot: SlotWrite, reason: FrameUse)
        requires
            old(self).index is Some,
            old(self).current_segment is Some,
            old(self).current_segment->Some_0.wf(),
        ensures
            slot_noted(*old(self), *final(self), slot, reason),
            final(self).current_segment->Some_0.wf(),
    {
        if let Some(index) = self.index.take() {
            let mut index = index;
            index.slot_written(&slot);
            self.index = Some(index);
        }
        if let Some(segment) = self.current_segment.take() {
            let mut segment = segment;
            match reason {
                FrameUse::Alone => segment.frame_committed(),
                _ => segment.staging_flushed(),
            }
            self.current_segment = Some(segment);
        }
    }

    /// One step of a write: takes the reply to what `st` asks for. The index tells of a frame only
    /// after the frame was written.
    pub fn continue_write(
        &mut self,
        payload: &Vec<u8>,
        batch: bool,
        st: IndexedAppend,
        reply: AppendReply,
    ) -> (next: IndexedAppend)
        requires
            old(self).index is Some,
            old(self).current_segment is Some,
            old(self).current_segment->Some_0.wf(),
        ensures
            append_advances(*old(self), *final(self), payload@, batch, st, reply, next),
            final(self).index is Some,
            final(self).current_segment is Some,
            final(self).current_segment->Some_0.wf(),
    {
        match (st, reply) {
            (IndexedAppend::Done(outcome), _) => IndexedAppend::Done(outcome),
            (_, AppendReply::Failed(e)) => IndexedAppend::Done(Err(e)),
            (IndexedAppend::Frame { write, reason }, AppendReply::Written) => match &self.index {
                Some(index) => {
                    let state: WalIndexHeader = write.index_state(index.latest());
                    IndexedAppend::Slot { slot: index.commit_volatile(state), reason }
                },
                None => IndexedAppend::Done(Ok(())),
            },
            (IndexedAppend::Slot { slot, reason }, AppendReply::Written) => {
                self.note_slot(slot, reason);
                assert(slot_noted(*old(self), *self, slot, reason));
                if reason == FrameUse::MakeRoom {
                    self.offer(payload, batch)
                } else {
                    IndexedAppend::Done(Ok(()))
                }
            },
        }
    }
}

/// Where writes are synced, an entry that is written on its own is not acknowledged before its
/// frame was written and the index tells of it.
pub proof fn synced_entry_is_committed_first(
    before: IndexedWalManager,
    after: IndexedWalManager,
    payload: Seq<u8>,
    next: IndexedAppend,
)
    requires
        before.can_append(),
        before.current_segment->Some_0.syncs_each(),
        offered(before, after, payload, false, next),
    ensures
        !(next matches IndexedAppend::Done(Ok(_))),
{
}

/// A frame that is committed is the one that the index tells of, and nothing stays staged.
pub proof fn committed_frame_is_indexed(
    before: IndexedWalManager,
    between: IndexedWalManager,
    after: IndexedWalManager,
    payload: Seq<u8>,
    batch: bool,
    write: FrameWrite,
    st: IndexedAppend,
    next: IndexedAppend,
)
    requires
        before.can_append(),
        append_advances(
            before,
            between,
            payload,
            batch,
            IndexedAppend::Frame { write, reason: FrameUse::Commit },
            AppendReply::Written,
            st,
        ),
        append_advances(between, after, payload, batch, st, AppendReply::Written, next),
    ensures
        next matches IndexedAppend::Done(Ok(_)),
        after.index->Some_0.latest.committed_frame == write.frame_id,
        after.index->Some_0.latest.committed_offset == write.used,
        after.index->Some_0.latest.is_valid(),
        after.current_segment->Some_0.staging@.len() == 0,
{
    let latest = before.index->Some_0.latest;
    let slot = st->slot;
    assert(slot.writes(write.committed(latest), latest, false));
    let stamped = WalIndexHeader {
        generation: wal_index::next_generation(latest.generation),
        ..write.committed(latest)
    };
    assert(wal_index::index_covered(stamped) =~= wal_index::index_covered(
        slot.header,
    ));
}

} // verus!
