//! What appends to the indexed log come to: what was acknowledged is read back from the frames and
//! stands in what is staged. A caller that can write the files is taken as given.

use crate::wal_index::{self, SlotWrite, WalIndexHeader};
use crate::wal_indexed::{self, AppendAction, IndexedWalSegment};
use crate::wal_indexed_append::{self, AppendReply, FrameUse, IndexedAppend};
use crate::wal_indexed_manager::IndexedWalManager;
use crate::wal_record;
use vstd::prelude::*;

verus! {

/// What is done to the log.
pub enum IndexedOp {
    /// An entry is written; `batch` tells whether more entries follow.
    Write { payload: Seq<u8>, batch: bool },
    /// What is staged is committed.
    Flush,
}

/// Appends to a segment of the indexed log, step by step.
pub struct IndexedRun {
    /// The manager at each state.
    pub managers: Seq<IndexedWalManager>,
    /// What the files of the frames hold at each state, by the frames' numbers.
    pub disks: Seq<Map<u32, Seq<u8>>>,
    /// What the two slots of the index hold at each state.
    pub slots: Seq<Seq<Seq<u8>>>,
    /// The states.
    pub states: Seq<IndexedAppend>,
    /// What each step belongs to.
    pub ops: Seq<IndexedOp>,
    /// Whether the step is the first one of what it belongs to.
    pub begins: Seq<bool>,
}

/// The length of the payload's record can be told.
pub open spec fn appendable(payload: Seq<u8>) -> bool {
    0 < payload.len() <= u32::MAX - 4
}

impl IndexedRun {
    /// Step `i` was taken, and what it asked for was written.
    pub open spec fn step_taken(self, i: int) -> bool {
        let (before, after) = (self.managers[i], self.managers[i + 1]);
        let (st, next) = (self.states[i], self.states[i + 1]);
        if self.begins[i] {
            &&& st matches IndexedAppend::Done(Ok(_))
            &&& self.disks[i + 1] == self.disks[i]
            &&& self.slots[i + 1] == self.slots[i]
            &&& match self.ops[i] {
                IndexedOp::Write { payload, batch } => {
                    &&& appendable(payload)
                    &&& wal_indexed_append::offered(before, after, payload, batch, next)
                },
                IndexedOp::Flush => after == before && wal_indexed_append::flush_begins(
                    before,
                    next,
                ),
            }
        } else {
            &&& i > 0 && self.ops[i] == self.ops[i - 1]
            &&& st !is Done
            &&& self.disks[i + 1] == match st {
                IndexedAppend::Frame { write, .. } => self.disks[i].insert(
                    write.frame_id,
                    write.bytes@,
                ),
                _ => self.disks[i],
            }
            &&& self.slots[i + 1] == match st {
                IndexedAppend::Slot { slot, .. } => self.slots[i].update(
                    wal_index::slot_number(slot.header.generation) as int,
                    slot.bytes@,
                ),
                _ => self.slots[i],
            }
            &&& before.index->Some_0.latest.generation < u64::MAX
            &&& match self.ops[i] {
                IndexedOp::Write { payload, batch } => wal_indexed_append::append_advances(
                    before,
                    after,
                    payload,
                    batch,
                    st,
                    AppendReply::Written,
                    next,
                ),
                IndexedOp::Flush => wal_indexed_append::append_advances(
                    before,
                    after,
                    Seq::empty(),
                    true,
                    st,
                    AppendReply::Written,
                    next,
                ),
            }
        }
    }

    /// The run appends to a fresh segment.
    pub open spec fn appends(self) -> bool {
        &&& self.states.len() == self.ops.len() + 1
        &&& self.managers.len() == self.states.len()
        &&& self.disks.len() == self.states.len()
        &&& self.slots.len() == self.states.len()
        &&& self.begins.len() == self.ops.len()
        &&& self.managers[0].index matches Some(index) && index.latest.committed_frame == 0
            && wal_index::slots_hold(self.slots[0], index.latest)
        &&& self.managers[0].current_segment matches Some(segment) && {
            &&& segment.staging@.len() == 0
            &&& segment.staging_frame == 1
            &&& segment.frame_size <= u32::MAX
            &&& segment.data_frame_count < u32::MAX
        }
        &&& self.disks[0] == Map::<u32, Seq<u8>>::empty()
        &&& self.states[0] matches IndexedAppend::Done(Ok(_))
        &&& forall|i: int| 0 <= i < self.ops.len() ==> #[trigger] self.step_taken(i)
    }

    /// The payloads of the entries that were acknowledged up to state `i`, in their order.
    pub open spec fn acknowledged(self, i: int) -> Seq<Seq<u8>>
        decreases i,
    {
        if i <= 0 {
            Seq::empty()
        } else {
            let before = self.acknowledged(i - 1);
            match (self.ops[i - 1], self.states[i]) {
                (IndexedOp::Write { payload, .. }, IndexedAppend::Done(Ok(_))) => before.push(
                    payload,
                ),
                _ => before,
            }
        }
    }
}

/// The payloads that are read of frame `f`.
pub open spec fn frame_payloads(
    disk: Map<u32, Seq<u8>>,
    state: WalIndexHeader,
    last: u32,
    f: u32,
) -> Seq<Seq<u8>> {
    wal_record::records_in(
        disk[f].take(wal_indexed::frame_limit(f, last, state, disk[f].len()) as int),
        u32::MAX as nat,
    )
}

/// The payloads that are read of the first `n` frames, joined.
pub open spec fn committed_payloads(
    disk: Map<u32, Seq<u8>>,
    state: WalIndexHeader,
    last: u32,
    n: nat,
) -> Seq<Seq<u8>>
    decreases n,
{
    if n == 0 {
        Seq::empty()
    } else {
        committed_payloads(disk, state, last, (n - 1) as nat) + frame_payloads(
            disk,
            state,
            last,
            n as u32,
        )
    }
}

/// The payloads of all frames.
spec fn joined(frames: Seq<Seq<Seq<u8>>>) -> Seq<Seq<u8>>
    decreases frames.len(),
{
    if frames.len() == 0 {
        Seq::empty()
    } else {
        joined(frames.drop_last()) + frames.last()
    }
}

spec fn all_storable(payloads: Seq<Seq<u8>>) -> bool {
    forall|i: int|
        0 <= i < payloads.len() ==> wal_record::storable(#[trigger] payloads[i], u32::MAX as nat)
}

/// The file is a frame of these payloads.
spec fn is_frame(bytes: Seq<u8>, payloads: Seq<Seq<u8>>, size: nat) -> bool {
    &&& payloads.len() > 0
    &&& all_storable(payloads)
    &&& wal_record::log_bytes(payloads).len() <= u32::MAX
    &&& bytes == wal_indexed::padded(wal_record::log_bytes(payloads), size)
}

/// The frames are on the disk and in the index, and the rest is staged.
spec fn kept(
    first: IndexedWalSegment,
    manager: IndexedWalManager,
    disk: Map<u32, Seq<u8>>,
    frames: Seq<Seq<Seq<u8>>>,
    staged: Seq<Seq<u8>>,
) -> bool {
    let segment = manager.current_segment->Some_0;
    let latest = manager.index->Some_0.latest;
    &&& manager.current_segment is Some
    &&& manager.index is Some
    &&& segment.frame_size == first.frame_size
    &&& segment.data_frame_count == first.data_frame_count
    &&& segment.staging@ == wal_record::log_bytes(staged)
    &&& segment.staging@.len() <= segment.frame_size
    &&& all_storable(staged)
    &&& segment.staging_frame == frames.len() + 1
    &&& frames.len() <= segment.data_frame_count
    &&& forall|f: u32|
        1 <= f <= frames.len() ==> #[trigger] disk.contains_key(f) && is_frame(
            disk[f],
            frames[f - 1],
            first.frame_size as nat,
        )
    &&& latest.committed_frame == frames.len()
    &&& frames.len() > 0 ==> latest.committed_offset == wal_record::log_bytes(frames.last()).len()
}

/// What is written for a reason.
spec fn content(reason: FrameUse, op: IndexedOp, staged: Seq<Seq<u8>>) -> Seq<Seq<u8>> {
    match op {
        IndexedOp::Write { payload, .. } => if reason == FrameUse::Alone {
            seq![payload]
        } else {
            staged
        },
        IndexedOp::Flush => staged,
    }
}

/// What is acknowledged once all frames and what is staged are in the log, beside what was.
spec fn on_its_way(reason: FrameUse, op: IndexedOp) -> Seq<Seq<u8>> {
    match op {
        IndexedOp::Write { payload, .. } => if reason == FrameUse::MakeRoom {
            Seq::empty()
        } else {
            seq![payload]
        },
        IndexedOp::Flush => Seq::empty(),
    }
}

/// What holds for a frame on its way.
spec fn way_ok(
    reason: FrameUse,
    op: IndexedOp,
    segment: IndexedWalSegment,
    all: Seq<Seq<u8>>,
    staged: Seq<Seq<u8>>,
    acked: Seq<Seq<u8>>,
) -> bool {
    let inner = content(reason, op, staged);
    &&& segment.staging_frame <= segment.data_frame_count
    &&& inner.len() > 0
    &&& all_storable(inner)
    &&& wal_record::log_bytes(inner).len() <= u32::MAX
    &&& reason == FrameUse::Alone ==> staged.len() == 0
    &&& op is Flush ==> reason == FrameUse::Commit
    &&& op matches IndexedOp::Write { payload, .. } ==> appendable(payload)
    &&& (if reason == FrameUse::Alone {
        all + inner
    } else {
        all + staged
    }) == acked + on_its_way(reason, op)
}

/// What holds at a state: `disk` is the disk without the frame that is on its way.
spec fn state_ok(
    st: IndexedAppend,
    op: IndexedOp,
    manager: IndexedWalManager,
    disk: Map<u32, Seq<u8>>,
    frames: Seq<Seq<Seq<u8>>>,
    staged: Seq<Seq<u8>>,
    acked: Seq<Seq<u8>>,
) -> bool {
    let segment = manager.current_segment->Some_0;
    let all = joined(frames);
    let n = frames.len();
    match st {
        IndexedAppend::Done(Ok(_)) => {
            &&& all + staged == acked
            &&& forall|f: u32| #[trigger] disk.contains_key(f) ==> 1 <= f <= n
        },
        IndexedAppend::Done(Err(_)) => true,
        IndexedAppend::Frame { write, reason } => {
            let log = wal_record::log_bytes(content(reason, op, staged));
            &&& way_ok(reason, op, segment, all, staged, acked)
            &&& write.frame_id == segment.staging_frame
            &&& write.bytes@ == wal_indexed::padded(log, segment.frame_size as nat)
            &&& write.used == log.len()
            &&& forall|f: u32| #[trigger] disk.contains_key(f) ==> 1 <= f <= n
        },
        IndexedAppend::Slot { slot, reason } => {
            let log = wal_record::log_bytes(content(reason, op, staged));
            &&& way_ok(reason, op, segment, all, staged, acked)
            &&& slot.header.committed_frame == segment.staging_frame
            &&& slot.header.committed_offset == log.len()
            &&& disk.contains_key(segment.staging_frame)
            &&& disk[segment.staging_frame] == wal_indexed::padded(
                log,
                segment.frame_size as nat,
            )
            &&& forall|f: u32| #[trigger] disk.contains_key(f) ==> 1 <= f <= n + 1
        },
    }
}

proof fn log_of_one(payload: Seq<u8>)
    ensures
        wal_record::log_bytes(seq![payload]) == wal_record::record(payload),
{
    let one = seq![payload];
    assert(one.drop_last() =~= Seq::empty());
    assert(wal_record::log_bytes(one.drop_last()) =~= Seq::empty());
    assert(wal_record::log_bytes(one) =~= wal_record::record(payload));
}

proof fn log_has_bytes(payloads: Seq<Seq<u8>>)
    requires
        payloads.len() > 0,
    ensures
        wal_record::log_bytes(payloads).len() >= 4,
{
    wal_record::length_back(payloads.last().len() as u32);
}

/// Offering a record to the segment, from a state in which nothing is on its way.
proof fn offer_keeps(
    first: IndexedWalSegment,
    before: IndexedWalManager,
    after: IndexedWalManager,
    disk: Map<u32, Seq<u8>>,
    frames: Seq<Seq<Seq<u8>>>,
    staged: Seq<Seq<u8>>,
    acked: Seq<Seq<u8>>,
    payload: Seq<u8>,
    batch: bool,
    next: IndexedAppend,
) -> (more: Seq<Seq<u8>>)
    requires
        first.frame_size <= u32::MAX,
        first.data_frame_count < u32::MAX,
        kept(first, before, disk, frames, staged),
        joined(frames) + staged == acked,
        forall|f: u32| #[trigger] disk.contains_key(f) ==> 1 <= f <= frames.len(),
        appendable(payload),
        wal_indexed_append::offered(before, after, payload, batch, next),
    ensures
        kept(first, after, disk, frames, more),
        state_ok(
            next,
            IndexedOp::Write { payload, batch },
            after,
            disk,
            frames,
            more,
            if next matches IndexedAppend::Done(Ok(_)) {
                acked.push(payload)
            } else {
                acked
            },
        ),
{
    let segment = before.current_segment->Some_0;
    let at_once = wal_indexed_append::committed_at_once(segment, payload, batch);
    let r = choose|r: Result<AppendAction, crate::error::LsmError>| #[trigger]
        segment.append_step(after.current_segment->Some_0, payload, at_once, r)
            && wal_indexed_append::follows_action(r, next);
    let rec = wal_record::record(payload);
    let size = segment.frame_size as nat;
    wal_record::length_back(payload.len() as u32);
    if segment.staging@.len() > 0 && segment.staging@.len() + rec.len() > size {
        assert(staged.len() > 0) by {
            if staged.len() == 0 {
                assert(wal_record::log_bytes(staged) =~= Seq::empty());
            }
        }
        assert(acked + Seq::<Seq<u8>>::empty() =~= acked);
        staged
    } else if rec.len() > size {
        assert(staged.len() == 0) by {
            if staged.len() > 0 {
                log_has_bytes(staged);
            }
        }
        log_of_one(payload);
        assert(joined(frames) + staged =~= joined(frames));
        assert(all_storable(seq![payload]));
        staged
    } else {
        let more = staged.push(payload);
        assert(more.drop_last() =~= staged);
        assert(wal_record::log_bytes(more) == wal_record::log_bytes(staged) + rec);
        assert(all_storable(more)) by {
            assert forall|i: int| 0 <= i < more.len() implies wal_record::storable(
                #[trigger] more[i],
                u32::MAX as nat,
            ) by {
                if i < staged.len() {
                    assert(more[i] == staged[i]);
                }
            }
        }
        assert(joined(frames) + more =~= acked.push(payload));
        assert(acked.push(payload) =~= acked + seq![payload]);
        more
    }
}

/// The index tells of a frame: it is one of the frames then.
proof fn slot_keeps(
    first: IndexedWalSegment,
    before: IndexedWalManager,
    after: IndexedWalManager,
    disk: Map<u32, Seq<u8>>,
    frames: Seq<Seq<Seq<u8>>>,
    staged: Seq<Seq<u8>>,
    acked: Seq<Seq<u8>>,
    op: IndexedOp,
    st: IndexedAppend,
) -> (grown: Seq<Seq<Seq<u8>>>)
    requires
        first.frame_size <= u32::MAX,
        first.data_frame_count < u32::MAX,
        kept(first, before, disk, frames, staged),
        st is Slot,
        state_ok(st, op, before, disk, frames, staged, acked),
        wal_indexed_append::slot_noted(before, after, st->slot, st->Slot_reason),
    ensures
        grown == frames.push(content(st->Slot_reason, op, staged)),
        kept(first, after, disk, grown, Seq::empty()),
        joined(grown) == acked + on_its_way(st->Slot_reason, op),
        forall|f: u32| #[trigger] disk.contains_key(f) ==> 1 <= f <= grown.len(),
{
    let reason = st->Slot_reason;
    let inner = content(reason, op, staged);
    let grown = frames.push(inner);
    let none = Seq::<Seq<u8>>::empty();
    let segment = before.current_segment->Some_0;
    assert(grown.drop_last() =~= frames);
    assert(grown.last() == inner);
    assert(wal_record::log_bytes(none) =~= Seq::empty());
    let now = after.current_segment->Some_0;
    assert(now.staging@ =~= Seq::empty()) by {
        if reason == FrameUse::Alone {
            assert(staged =~= none);
        }
    }
    assert forall|f: u32| 1 <= f <= grown.len() implies #[trigger] disk.contains_key(f) && is_frame(
        disk[f],
        grown[f - 1],
        first.frame_size as nat,
    ) by {
        if f <= frames.len() {
            assert(disk.contains_key(f));
            assert(grown[f - 1] == frames[f - 1]);
        } else {
            assert(f == segment.staging_frame);
        }
    }
    grown
}

proof fn run_keeps(run: IndexedRun, i: int) -> (r: (Seq<Seq<Seq<u8>>>, Seq<Seq<u8>>))
    requires
        run.appends(),
        0 <= i < run.states.len(),
    ensures
        kept(
            run.managers[0].current_segment->Some_0,
            run.managers[i],
            run.disks[i],
            r.0,
            r.1,
        ),
        state_ok(
            run.states[i],
            if i == 0 {
                IndexedOp::Flush
            } else {
                run.ops[i - 1]
            },
            run.managers[i],
            run.disks[i],
            r.0,
            r.1,
            run.acknowledged(i),
        ),
    decreases i,
{
    let first = run.managers[0].current_segment->Some_0;
    let none = Seq::<Seq<u8>>::empty();
    if i == 0 {
        let frames = Seq::<Seq<Seq<u8>>>::empty();
        assert(wal_record::log_bytes(none) =~= first.staging@);
        assert(joined(frames) + none =~= run.acknowledged(0));
        (frames, none)
    } else {
        let (frames, staged) = run_keeps(run, i - 1);
        assert(run.step_taken(i - 1));
        let (before, after) = (run.managers[i - 1], run.managers[i]);
        let (st, next) = (run.states[i - 1], run.states[i]);
        let disk = run.disks[i - 1];
        let acked = run.acknowledged(i - 1);
        let op = run.ops[i - 1];
        let segment = before.current_segment->Some_0;
        if run.begins[i - 1] {
            match op {
                IndexedOp::Write { payload, batch } => {
                    let more = offer_keeps(
                        first,
                        before,
                        after,
                        disk,
                        frames,
                        staged,
                        acked,
                        payload,
                        batch,
                        next,
                    );
                    (frames, more)
                },
                IndexedOp::Flush => {
                    assert(acked + none =~= acked);
                    if segment.staging@.len() > 0 {
                        assert(staged.len() > 0) by {
                            if staged.len() == 0 {
                                assert(wal_record::log_bytes(staged) =~= Seq::empty());
                            }
                        }
                    }
                    (frames, staged)
                },
            }
        } else {
            match st {
                IndexedAppend::Frame { write, reason } => {
                    let f = write.frame_id;
                    let written = run.disks[i];
                    assert forall|k: u32| 1 <= k <= frames.len() implies #[trigger]
                        written.contains_key(k) && is_frame(
                        written[k],
                        frames[k - 1],
                        first.frame_size as nat,
                    ) by {
                        assert(disk.contains_key(k));
                        assert(k != f);
                    }
                    (frames, staged)
                },
                IndexedAppend::Slot { slot, reason } => {
                    if reason == FrameUse::MakeRoom {
                        if let IndexedOp::Write { payload, batch } = op {
                            let noted = choose|noted: IndexedWalManager| #[trigger]
                                wal_indexed_append::slot_noted(before, noted, slot, reason)
                                    && wal_indexed_append::offered(
                                    noted,
                                    after,
                                    payload,
                                    batch,
                                    next,
                                );
                            let grown = slot_keeps(
                                first,
                                before,
                                noted,
                                disk,
                                frames,
                                staged,
                                acked,
                                op,
                                st,
                            );
                            assert(acked + none =~= acked);
                            assert(joined(grown) + none =~= acked);
                            let more = offer_keeps(
                                first,
                                noted,
                                after,
                                disk,
                                grown,
                                none,
                                acked,
                                payload,
                                batch,
                                next,
                            );
                            (grown, more)
                        } else {
                            (frames, staged)
                        }
                    } else {
                        let grown = slot_keeps(
                            first,
                            before,
                            after,
                            disk,
                            frames,
                            staged,
                            acked,
                            op,
                            st,
                        );
                        assert(joined(grown) + none =~= joined(grown));
                        match op {
                            IndexedOp::Write { payload, .. } => {
                                assert(acked + seq![payload] =~= acked.push(payload));
                            },
                            IndexedOp::Flush => {
                                assert(acked + none =~= acked);
                            },
                        }
                        (grown, none)
                    }
                },
                IndexedAppend::Done(_) => (frames, staged),
            }
        }
    }
}

/// The slot is what the next commit behind `latest` writes.
spec fn slot_is_next(slot: SlotWrite, latest: WalIndexHeader) -> bool {
    exists|header: WalIndexHeader| #[trigger] slot.writes(header, latest, false)
}

proof fn slots_are_kept(run: IndexedRun, i: int)
    requires
        run.appends(),
        0 <= i < run.states.len(),
    ensures
        wal_index::slots_hold(run.slots[i], run.managers[i].index->Some_0.latest),
        run.states[i] matches IndexedAppend::Slot { slot, .. } ==> slot_is_next(
            slot,
            run.managers[i].index->Some_0.latest,
        ),
    decreases i,
{
    if i > 0 {
        slots_are_kept(run, i - 1);
        run_keeps(run, i - 1);
        assert(run.step_taken(i - 1));
        let latest = run.managers[i - 1].index->Some_0.latest;
        if let IndexedAppend::Slot { slot, .. } = run.states[i - 1] {
            let header = choose|header: WalIndexHeader| #[trigger]
                slot.writes(header, latest, false);
            wal_index::commit_is_read_back(run.slots[i - 1], latest, header);
        }
    }
}

proof fn frames_are_read(
    first: IndexedWalSegment,
    manager: IndexedWalManager,
    disk: Map<u32, Seq<u8>>,
    frames: Seq<Seq<Seq<u8>>>,
    staged: Seq<Seq<u8>>,
    n: nat,
)
    requires
        kept(first, manager, disk, frames, staged),
        n <= frames.len(),
    ensures
        committed_payloads(
            disk,
            manager.index->Some_0.latest,
            manager.index->Some_0.latest.committed_frame,
            n,
        ) == joined(frames.take(n as int)),
    decreases n,
{
    let latest = manager.index->Some_0.latest;
    if n > 0 {
        frames_are_read(first, manager, disk, frames, staged, (n - 1) as nat);
        let f = n as u32;
        let payloads = frames[n - 1];
        assert(frames.take(n as int).drop_last() =~= frames.take(n - 1));
        assert(frames.take(n as int).last() == payloads);
        assert(disk.contains_key(f));
        assert(is_frame(disk[f], frames[f - 1], first.frame_size as nat));
        wal_indexed::padded_is_read_back(payloads, first.frame_size as nat);
        log_has_bytes(payloads);
        assert(disk[f].take(disk[f].len() as int) =~= disk[f]);
    }
}

/// What was acknowledged is in the log. The slots of the index give its last state. The frames from
/// the first to the last that it tells of are there. The payloads that are read of them, and those
/// that are staged behind them, are the acknowledged ones, in their order. Where nothing is staged,
/// all of them are read.
pub proof fn acknowledged_entries_are_read_back(run: IndexedRun, names: Seq<String>)
    requires
        run.appends(),
        run.states.last() matches IndexedAppend::Done(Ok(_)),
        forall|i: int|
            0 <= i < names.len() ==> (wal_indexed::frame_id_of((#[trigger] names[i])@) matches Some(
                f,
            ) ==> run.disks.last().contains_key(f as u32)),
    ensures
        ({
            let latest = run.managers.last().index->Some_0.latest;
            let last = latest.committed_frame;
            let staging = run.managers.last().current_segment->Some_0.staging@;
            let all = run.acknowledged(run.states.len() - 1);
            let read = committed_payloads(run.disks.last(), latest, last, last as nat);
            let slots = run.slots.last();
            &&& wal_index::newer(
                wal_index::slot_header(slots[0]),
                wal_index::slot_header(slots[1]),
            ) == Some(latest)
            &&& wal_indexed::last_frame(names, latest) == last
            &&& forall|f: u32|
                1 <= f <= last ==> #[trigger] run.disks.last().contains_key(f)
                    && wal_indexed::frame_limit(f, last, latest, run.disks.last()[f].len())
                    <= run.disks.last()[f].len()
            &&& exists|staged: Seq<Seq<u8>>|
                staging == #[trigger] wal_record::log_bytes(staged) && read + staged == all
            &&& staging.len() == 0 ==> read == all
        }),
{
    let end = run.states.len() - 1;
    let first = run.managers[0].current_segment->Some_0;
    let (frames, staged) = run_keeps(run, end);
    let manager = run.managers.last();
    let disk = run.disks.last();
    let latest = manager.index->Some_0.latest;
    frames_are_read(first, manager, disk, frames, staged, frames.len());
    assert(frames.take(frames.len() as int) =~= frames);
    highest_is_kept(disk, names, frames.len());
    slots_are_kept(run, end);
    assert forall|f: u32| 1 <= f <= frames.len() implies #[trigger] disk.contains_key(f)
        && wal_indexed::frame_limit(f, latest.committed_frame, latest, disk[f].len())
        <= disk[f].len() by {
        assert(disk.contains_key(f));
        assert(is_frame(disk[f], frames[f - 1], first.frame_size as nat));
    }
    if manager.current_segment->Some_0.staging@.len() == 0 {
        if staged.len() > 0 {
            log_has_bytes(staged);
        }
        assert(joined(frames) + staged =~= joined(frames));
    }
}

proof fn highest_is_kept(disk: Map<u32, Seq<u8>>, names: Seq<String>, n: nat)
    requires
        forall|f: u32| #[trigger] disk.contains_key(f) ==> 1 <= f <= n,
        forall|i: int|
            0 <= i < names.len() ==> (wal_indexed::frame_id_of((#[trigger] names[i])@) matches Some(
                f,
            ) ==> disk.contains_key(f as u32)),
    ensures
        wal_indexed::highest_frame_file(names) <= n,
    decreases names.len(),
{
    if names.len() > 0 {
        let before = names.drop_last();
        assert forall|i: int| 0 <= i < before.len() implies (wal_indexed::frame_id_of(
            (#[trigger] before[i])@,
        ) matches Some(f) ==> disk.contains_key(f as u32)) by {
            assert(before[i] == names[i]);
        }
        highest_is_kept(disk, before, n);
        let last = names[names.len() - 1];
        if let Some(f) = wal_indexed::frame_id_of(last@) {
            assert(disk.contains_key(f as u32));
        }
    }
}

/// Where writes are synced, an entry that is written on its own leaves nothing staged once it is
/// acknowledged, so that it is read back.
pub proof fn synced_entries_are_read_back(run: IndexedRun)
    requires
        run.appends(),
        run.states.len() > 1,
        run.states.last() matches IndexedAppend::Done(Ok(_)),
        run.ops.last() matches IndexedOp::Write { batch, .. } && !batch,
        run.managers[run.managers.len() - 2].current_segment->Some_0.syncs_each(),
    ensures
        ({
            let latest = run.managers.last().index->Some_0.latest;
            let last = latest.committed_frame;
            committed_payloads(run.disks.last(), latest, last, last as nat) == run.acknowledged(
                run.states.len() - 1,
            )
        }),
{
    let i = run.states.len() - 1;
    acknowledged_entries_are_read_back(run, Seq::empty());
    assert(run.step_taken(i - 1));
    let (frames, staged) = run_keeps(run, i - 1);
    let manager = run.managers[i - 1];
    if let IndexedOp::Write { payload, batch } = run.ops[i - 1] {
        if !run.begins[i - 1] {
            if let IndexedAppend::Slot { slot, reason } = run.states[i - 1] {
                if reason == FrameUse::MakeRoom {
                    let noted = choose|noted: IndexedWalManager| #[trigger]
                        wal_indexed_append::slot_noted(manager, noted, slot, reason)
                            && wal_indexed_append::offered(
                            noted,
                            run.managers[i],
                            payload,
                            batch,
                            run.states[i],
                        );
                    assert(noted.current_segment->Some_0.syncs_each());
                } else if reason == FrameUse::Alone {
                    assert(wal_record::log_bytes(staged) =~= Seq::empty());
                }
            }
        }
    }
}

} // verus!
