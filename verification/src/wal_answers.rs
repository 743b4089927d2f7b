//! What reading a segment and recovering from all segment files come to, from the first step to
//! the last. A caller that can read the files and decode records is taken as given.

use crate::error::LsmError;
use crate::sst_open::FileReply;
use crate::stable_sort;
use crate::wal::{BatchReply, BatchWrite, WALManager};
use crate::wal_entry::WALEntry;
use crate::wal_record;
use crate::wal_recovery::{self, Recovery, SegmentFile};
use crate::wal_segment::{self, LogRead, WALSegmentHeader};
use crate::wal_truncation;
use vstd::prelude::*;

verus! {

/// How the payload of a record is decoded.
pub type RecordDecoder = spec_fn(Seq<u8>) -> Result<WALEntry, String>;

/// Reading the records of a segment file, from the first state to the last.
pub struct LogReadRun {
    /// The states.
    pub states: Seq<LogRead>,
    /// The reply to each state but the last.
    pub replies: Seq<FileReply>,
}

impl LogReadRun {
    /// Step `i` was taken on what the file answers.
    pub open spec fn step_taken(self, file: Seq<u8>, limit: u64, i: int) -> bool {
        &&& self.states[i] !is Done ==> wal_segment::file_answers(
            self.states[i].wants(),
            file,
            self.replies[i],
        )
        &&& wal_segment::segment_read_step(
            self.states[i],
            self.replies[i],
            self.states[i + 1],
            limit,
        )
    }

    /// The run reads a file that does not change to its end.
    pub open spec fn reads(self, file: Seq<u8>, limit: u64) -> bool {
        &&& self.states.len() == self.replies.len() + 1
        &&& self.states[0] is Size
        &&& forall|i: int| 0 <= i < self.replies.len() ==> #[trigger] self.step_taken(file, limit, i)
        &&& self.states.last() is Done
    }
}

proof fn read_keeps_due(run: LogReadRun, file: Seq<u8>, limit: u64, i: int)
    requires
        run.reads(file, limit),
        0 <= i < run.states.len(),
    ensures
        wal_segment::due(run.states[i], file, limit as nat) == wal_segment::segment_records(
            file,
            limit as nat,
        ),
        !(run.states[i] matches LogRead::Done(Err(_))),
    decreases i,
{
    if i > 0 {
        read_keeps_due(run, file, limit, i - 1);
        assert(run.step_taken(file, limit, i - 1));
        if run.states[i - 1] !is Done {
            wal_segment::stored_segment_is_read(
                run.states[i - 1],
                run.replies[i - 1],
                run.states[i],
                file,
                limit,
            );
        }
    }
}

/// Reading a segment file that does not change ends with the payloads of its records.
pub proof fn segment_is_read_to_its_end(run: LogReadRun, file: Seq<u8>, limit: u64)
    requires
        run.reads(file, limit),
    ensures
        run.states.last() matches LogRead::Done(Ok(payloads)) && wal_record::views(payloads@)
            == wal_segment::segment_records(file, limit as nat),
{
    read_keeps_due(run, file, limit, run.states.len() - 1);
}

/// A segment file without a record is read as empty.
pub proof fn fresh_segment_reads_empty(run: LogReadRun, h: WALSegmentHeader, limit: u64)
    requires
        run.reads(wal_segment::header_bytes(h), limit),
    ensures
        run.states.last() matches LogRead::Done(Ok(payloads)) && payloads@.len() == 0,
{
    fresh_segment_is_empty(h, limit as nat);
    segment_is_read_to_its_end(run, wal_segment::header_bytes(h), limit);
    if let LogRead::Done(Ok(payloads)) = run.states.last() {
        assert(wal_record::views(payloads@).len() == payloads@.len());
    }
}

proof fn fresh_segment_is_empty(h: WALSegmentHeader, limit: nat)
    ensures
        wal_segment::segment_records(wal_segment::header_bytes(h), limit).len() == 0,
{
    wal_segment::header_round_trip(h, Seq::empty());
}

/// The entries that a segment file holds: its records, as far as they can be decoded.
pub open spec fn entries_in(file: Seq<u8>, limit: u64, decode: RecordDecoder) -> Seq<WALEntry> {
    wal_recovery::decodable(
        wal_segment::segment_records(file, limit as nat).map_values(|p: Seq<u8>| decode(p)),
    )
}

/// The entries that the files hold, file by file.
pub open spec fn entries_of(
    files: Seq<SegmentFile>,
    disk: Map<Seq<char>, Seq<u8>>,
    limit: u64,
    decode: RecordDecoder,
) -> Seq<WALEntry>
    decreases files.len(),
{
    if files.len() == 0 {
        Seq::empty()
    } else {
        entries_of(files.drop_last(), disk, limit, decode) + entries_in(
            disk[files.last().name@],
            limit,
            decode,
        )
    }
}

/// Recovery from the segment files, from its beginning to its outcome.
pub struct RecoveryRun {
    /// What has been read before each file and at the end.
    pub states: Seq<Recovery>,
    /// What reading each file gave.
    pub reads: Seq<Result<Vec<WALEntry>, LsmError>>,
    /// The outcome.
    pub outcome: Result<Vec<WALEntry>, LsmError>,
}

impl RecoveryRun {
    /// File `i` was read, and recovery took its entries.
    pub open spec fn step_taken(
        self,
        files: Seq<SegmentFile>,
        disk: Map<Seq<char>, Seq<u8>>,
        limit: u64,
        decode: RecordDecoder,
        i: int,
    ) -> bool {
        &&& self.reads[i] matches Ok(entries) && entries@ == entries_in(
            disk[files[i].name@],
            limit,
            decode,
        )
        &&& wal_recovery::accepted(
            self.states[i],
            self.states[i + 1],
            files[i].name@,
            self.reads[i],
        )
    }

    /// The run recovers from the files, one after the other.
    pub open spec fn recovers(
        self,
        files: Seq<SegmentFile>,
        disk: Map<Seq<char>, Seq<u8>>,
        limit: u64,
        decode: RecordDecoder,
    ) -> bool {
        &&& self.states.len() == files.len() + 1
        &&& self.reads.len() == files.len()
        &&& self.states[0].segments_found == files.len()
        &&& self.states[0].segments_read == 0
        &&& self.states[0].entries@.len() == 0
        &&& self.states[0].errors@.len() == 0
        &&& forall|i: int|
            0 <= i < files.len() ==> #[trigger] self.step_taken(files, disk, limit, decode, i)
        &&& self.states.last().ends_with(self.outcome)
    }
}

proof fn recovery_takes_all(
    run: RecoveryRun,
    files: Seq<SegmentFile>,
    disk: Map<Seq<char>, Seq<u8>>,
    limit: u64,
    decode: RecordDecoder,
    i: int,
)
    requires
        run.recovers(files, disk, limit, decode),
        0 <= i <= files.len(),
    ensures
        run.states[i].entries@ == entries_of(files.take(i), disk, limit, decode),
        run.states[i].segments_read == i,
        run.states[i].segments_found == files.len(),
    decreases i,
{
    if i == 0 {
        assert(run.states[0].entries@ =~= entries_of(files.take(0), disk, limit, decode));
    } else {
        recovery_takes_all(run, files, disk, limit, decode, i - 1);
        assert(run.step_taken(files, disk, limit, decode, i - 1));
        assert(files.take(i).drop_last() =~= files.take(i - 1));
        assert(files.take(i).last() == files[i - 1]);
    }
}

/// Recovery from segment files that can all be read succeeds with every entry that they hold, in
/// the order of the timestamps, those of one timestamp in the order in which they were written.
pub proof fn recovery_gives_every_entry(
    run: RecoveryRun,
    files: Seq<SegmentFile>,
    disk: Map<Seq<char>, Seq<u8>>,
    limit: u64,
    decode: RecordDecoder,
)
    requires
        run.recovers(files, disk, limit, decode),
    ensures
        run.outcome matches Ok(entries) && stable_sort::stably_sorted(
            entries_of(files, disk, limit, decode),
            entries@,
        ),
{
    recovery_takes_all(run, files, disk, limit, decode, files.len() as int);
    assert(files.take(files.len() as int) =~= files);
}

proof fn all_decodable(payloads: Seq<Seq<u8>>, written: Seq<WALEntry>, decode: RecordDecoder)
    requires
        payloads.len() == written.len(),
        forall|i: int|
            0 <= i < payloads.len() ==> decode(#[trigger] payloads[i]) == Ok::<WALEntry, String>(
                written[i],
            ),
    ensures
        wal_recovery::decodable(payloads.map_values(|p: Seq<u8>| decode(p))) == written,
    decreases payloads.len(),
{
    let all = payloads.map_values(|p: Seq<u8>| decode(p));
    if payloads.len() == 0 {
        assert(written =~= Seq::empty());
    } else {
        all_decodable(payloads.drop_last(), written.drop_last(), decode);
        assert(all.drop_last() =~= payloads.drop_last().map_values(|p: Seq<u8>| decode(p)));
        assert(all.last() == decode(payloads[payloads.len() - 1]));
        assert(written =~= written.drop_last().push(written.last()));
    }
}

/// A segment file to which entries were written holds those entries, whatever incomplete record
/// stands behind them.
pub proof fn written_entries_are_in_the_file(
    h: WALSegmentHeader,
    payloads: Seq<Seq<u8>>,
    written: Seq<WALEntry>,
    tail: Seq<u8>,
    limit: u64,
    decode: RecordDecoder,
)
    requires
        forall|i: int|
            0 <= i < payloads.len() ==> wal_record::storable(#[trigger] payloads[i], limit as nat),
        wal_record::records_in(tail, limit as nat).len() == 0,
        payloads.len() == written.len(),
        forall|i: int|
            0 <= i < payloads.len() ==> decode(#[trigger] payloads[i]) == Ok::<WALEntry, String>(
                written[i],
            ),
    ensures
        entries_in(
            wal_segment::header_bytes(h) + wal_record::log_bytes(payloads) + tail,
            limit,
            decode,
        ) == written,
{
    wal_segment::segment_holds_what_was_written(h, payloads, tail, limit as nat);
    all_decodable(payloads, written, decode);
}

/// After a truncation, which leaves a fresh segment and no completed one, reading the log gives
/// nothing: the records of the current segment are decoded, collected and sorted.
pub proof fn read_after_truncation_is_empty(
    run: LogReadRun,
    h: WALSegmentHeader,
    limit: u64,
    decode: RecordDecoder,
    collected: Seq<WALEntry>,
    entries: Seq<WALEntry>,
)
    requires
        run.reads(wal_segment::header_bytes(h), limit),
        run.states.last() matches LogRead::Done(Ok(payloads)) ==> collected
            == wal_recovery::decodable(
            wal_record::views(payloads@).map_values(|p: Seq<u8>| decode(p)),
        ),
        stable_sort::stably_sorted(collected, entries),
    ensures
        entries.len() == 0,
{
    fresh_segment_reads_empty(run, h, limit);
    if let LogRead::Done(Ok(payloads)) = run.states.last() {
        assert(wal_record::views(payloads@).map_values(|p: Seq<u8>| decode(p)).len() == 0);
    }
}

/// The write of several entries, from its first state to the last.
pub struct BatchRun {
    /// The manager with which the write begins.
    pub start: WALManager,
    /// The payloads.
    pub payloads: Seq<Seq<u8>>,
    /// The manager before each step.
    pub befores: Seq<WALManager>,
    /// The manager after each step.
    pub afters: Seq<WALManager>,
    /// What the file of the current segment holds at each state.
    pub files: Seq<Seq<u8>>,
    /// The states.
    pub states: Seq<BatchWrite>,
    /// The reply to each state but the last.
    pub replies: Seq<BatchReply>,
    /// The number of bytes that are appended, as it is told.
    pub data_len: u64,
    /// The number of entries, as it is told.
    pub count: u32,
}

impl BatchRun {
    /// The manager between the steps before `i` and step `i`.
    pub open spec fn manager_at(self, i: int) -> WALManager {
        if i == 0 {
            self.start
        } else {
            self.afters[i - 1]
        }
    }

    /// What the caller did for step `i`: it changed to a fresh segment, appended the bytes or wrote
    /// the header, or left the file as it was.
    pub open spec fn file_follows(self, i: int) -> bool {
        let before = self.befores[i];
        match (self.states[i], self.replies[i]) {
            (BatchWrite::RotateFull | BatchWrite::RotateForRoom, BatchReply::Done) => {
                &&& before.same_config(self.manager_at(i))
                &&& before.current_segment matches Some(s) ==> self.files[i + 1]
                    == wal_segment::header_bytes(s.header)
            },
            (BatchWrite::Append, BatchReply::Done) => {
                &&& before == self.manager_at(i)
                &&& self.files[i + 1] == self.files[i] + wal_record::log_bytes(self.payloads)
            },
            (BatchWrite::Persist, BatchReply::Done) => {
                &&& before == self.manager_at(i)
                &&& before.current_segment matches Some(s) ==> self.files[i + 1]
                    == wal_segment::header_bytes(s.header) + self.files[i].skip(
                    wal_segment::SEGMENT_HEADER_SIZE as int,
                )
                &&& before.current_segment is None ==> self.files[i + 1] == self.files[i]
            },
            _ => before == self.manager_at(i) && self.files[i + 1] == self.files[i],
        }
    }

    /// Step `i` was taken.
    pub open spec fn step_taken(self, i: int) -> bool {
        &&& self.file_follows(i)
        &&& WALManager::batch_answered(self.states[i], self.replies[i])
        &&& self.befores[i].batch_step(
            self.afters[i],
            self.states[i],
            self.data_len,
            self.count,
            self.replies[i],
            self.states[i + 1],
        )
    }

    /// The run writes the payloads, beginning with a segment file that holds `held`.
    pub open spec fn writes(self, h: WALSegmentHeader, held: Seq<Seq<u8>>) -> bool {
        &&& self.states.len() == self.replies.len() + 1
        &&& self.befores.len() == self.replies.len()
        &&& self.afters.len() == self.replies.len()
        &&& self.files.len() == self.states.len()
        &&& self.payloads.len() > 0
        &&& self.start.batch_begins(self.payloads, self.states[0])
        &&& self.files[0] == wal_segment::header_bytes(h) + wal_record::log_bytes(held)
        &&& forall|i: int| 0 <= i < self.replies.len() ==> #[trigger] self.step_taken(i)
    }
}

/// The file is a segment that holds these payloads.
pub open spec fn segment_of(file: Seq<u8>, h: WALSegmentHeader, payloads: Seq<Seq<u8>>) -> bool {
    file == wal_segment::header_bytes(h) + wal_record::log_bytes(payloads)
}

/// The file is a segment that holds what it held, or a fresh one, and `more` behind it.
spec fn holds_more(file: Seq<u8>, held: Seq<Seq<u8>>, more: Seq<Seq<u8>>) -> bool {
    ||| exists|h: WALSegmentHeader| segment_of(file, h, held + more)
    ||| exists|h: WALSegmentHeader| segment_of(file, h, more)
}

/// What holds of the file at a state.
spec fn batch_file(st: BatchWrite, file: Seq<u8>, held: Seq<Seq<u8>>, more: Seq<Seq<u8>>) -> bool {
    match st {
        BatchWrite::Persist => holds_more(file, held, more),
        BatchWrite::Done(Ok(_)) => holds_more(file, held, more),
        BatchWrite::Done(Err(_)) => true,
        _ => holds_more(file, held, Seq::empty()),
    }
}

proof fn append_to_segment(
    file: Seq<u8>,
    h: WALSegmentHeader,
    held: Seq<Seq<u8>>,
    more: Seq<Seq<u8>>,
)
    requires
        segment_of(file, h, held),
    ensures
        segment_of(file + wal_record::log_bytes(more), h, held + more),
{
    wal_record::log_bytes_append(held, more);
    assert(file + wal_record::log_bytes(more) =~= wal_segment::header_bytes(h)
        + wal_record::log_bytes(held + more));
}

proof fn rewrite_header(
    file: Seq<u8>,
    h: WALSegmentHeader,
    to: WALSegmentHeader,
    held: Seq<Seq<u8>>,
)
    requires
        segment_of(file, h, held),
    ensures
        segment_of(
            wal_segment::header_bytes(to) + file.skip(wal_segment::SEGMENT_HEADER_SIZE as int),
            to,
            held,
        ),
{
    wal_segment::header_round_trip(h, Seq::empty());
    assert(file.skip(wal_segment::SEGMENT_HEADER_SIZE as int) =~= wal_record::log_bytes(held));
}

proof fn batch_step_keeps_file(run: BatchRun, held: Seq<Seq<u8>>, i: int)
    requires
        run.step_taken(i),
        batch_file(run.states[i], run.files[i], held, run.payloads),
    ensures
        batch_file(run.states[i + 1], run.files[i + 1], held, run.payloads),
{
    let none = Seq::<Seq<u8>>::empty();
    let file = run.files[i];
    let next = run.files[i + 1];
    assert(held + none =~= held);
    assert(none + run.payloads =~= run.payloads);
    match (run.states[i], run.replies[i]) {
        (BatchWrite::RotateFull | BatchWrite::RotateForRoom, BatchReply::Done) => {
            if let Some(s) = run.befores[i].current_segment {
                assert(next =~= wal_segment::header_bytes(s.header) + wal_record::log_bytes(none));
                assert(segment_of(next, s.header, none));
            }
        },
        (BatchWrite::Append, BatchReply::Done) => {
            if exists|h: WALSegmentHeader| segment_of(file, h, held + none) {
                let h = choose|h: WALSegmentHeader| segment_of(file, h, held + none);
                append_to_segment(file, h, held, run.payloads);
            } else {
                let h = choose|h: WALSegmentHeader| segment_of(file, h, none);
                append_to_segment(file, h, none, run.payloads);
            }
        },
        (BatchWrite::Persist, BatchReply::Done) => {
            if let Some(s) = run.befores[i].current_segment {
                if exists|h: WALSegmentHeader| segment_of(file, h, held + run.payloads) {
                    let h = choose|h: WALSegmentHeader| segment_of(file, h, held + run.payloads);
                    rewrite_header(file, h, s.header, held + run.payloads);
                } else {
                    let h = choose|h: WALSegmentHeader| segment_of(file, h, run.payloads);
                    rewrite_header(file, h, s.header, run.payloads);
                }
            }
        },
        _ => {},
    }
}

proof fn batch_run_keeps_file(run: BatchRun, h: WALSegmentHeader, held: Seq<Seq<u8>>, i: int)
    requires
        run.writes(h, held),
        0 <= i < run.states.len(),
    ensures
        batch_file(run.states[i], run.files[i], held, run.payloads),
    decreases i,
{
    if i > 0 {
        batch_run_keeps_file(run, h, held, i - 1);
        assert(run.step_taken(i - 1));
        batch_step_keeps_file(run, held, i - 1);
    } else {
        assert(held + Seq::<Seq<u8>>::empty() =~= held);
        assert(segment_of(run.files[0], h, held));
    }
}

proof fn ended_batch_stays(run: BatchRun, h: WALSegmentHeader, held: Seq<Seq<u8>>, i: int)
    requires
        run.writes(h, held),
        run.states[0] is Done,
        0 <= i < run.states.len(),
    ensures
        run.states[i] == run.states[0],
    decreases i,
{
    if i > 0 {
        ended_batch_stays(run, h, held, i - 1);
        assert(run.step_taken(i - 1));
    }
}

proof fn segment_gives_records(
    file: Seq<u8>,
    h: WALSegmentHeader,
    payloads: Seq<Seq<u8>>,
    limit: nat,
)
    requires
        segment_of(file, h, payloads),
        forall|i: int|
            0 <= i < payloads.len() ==> wal_record::storable(#[trigger] payloads[i], limit),
    ensures
        wal_segment::segment_records(file, limit) == payloads,
{
    wal_segment::segment_holds_what_was_written(h, payloads, Seq::empty(), limit);
    assert(file + Seq::<u8>::empty() =~= file);
}

/// A batch that is acknowledged is in the log: reading the current segment gives its payloads, in
/// their order, behind what the segment held before, or alone where the log went on to a fresh
/// segment.
pub proof fn acknowledged_batch_is_read_back(
    run: BatchRun,
    h: WALSegmentHeader,
    held: Seq<Seq<u8>>,
)
    requires
        run.writes(h, held),
        run.states.last() matches BatchWrite::Done(Ok(_)),
        forall|i: int|
            0 <= i < held.len() ==> wal_record::storable(
                #[trigger] held[i],
                run.start.config.segment_size as nat,
            ),
    ensures
        run.start.batch_storable(run.payloads),
        wal_segment::segment_records(run.files.last(), run.start.config.segment_size as nat)
            == held + run.payloads || wal_segment::segment_records(
            run.files.last(),
            run.start.config.segment_size as nat,
        ) == run.payloads,
{
    let limit = run.start.config.segment_size as nat;
    let last = run.states.len() - 1;
    let file = run.files.last();
    if run.states[0] is Done {
        ended_batch_stays(run, h, held, last);
    }
    batch_run_keeps_file(run, h, held, last);
    assert forall|i: int| 0 <= i < run.payloads.len() implies wal_record::storable(
        #[trigger] run.payloads[i],
        limit,
    ) by {
        assert(wal_record::storable(run.payloads[i], run.start.entry_limit()));
    }
    let all = held + run.payloads;
    if exists|h: WALSegmentHeader| segment_of(file, h, all) {
        let h = choose|h: WALSegmentHeader| segment_of(file, h, all);
        assert forall|i: int| 0 <= i < all.len() implies wal_record::storable(
            #[trigger] all[i],
            limit,
        ) by {
            if i < held.len() {
                assert(all[i] == held[i]);
            } else {
                assert(all[i] == run.payloads[i - held.len()]);
            }
        }
        segment_gives_records(file, h, all, limit);
    } else {
        let h = choose|h: WALSegmentHeader| segment_of(file, h, run.payloads);
        segment_gives_records(file, h, run.payloads, limit);
    }
}

/// A batch with an entry that could not be read back is refused before anything is appended.
pub proof fn unreadable_batch_is_refused(run: BatchRun, h: WALSegmentHeader, held: Seq<Seq<u8>>)
    requires
        run.writes(h, held),
        run.start.current_segment is Some,
        !run.start.batch_storable(run.payloads),
    ensures
        run.states.last() matches BatchWrite::Done(Err(_)),
{
    ended_batch_stays(run, h, held, run.states.len() - 1);
}

proof fn empty_files_hold_nothing(
    files: Seq<SegmentFile>,
    disk: Map<Seq<char>, Seq<u8>>,
    limit: u64,
    decode: RecordDecoder,
)
    requires
        forall|i: int|
            0 <= i < files.len() ==> entries_in(
                disk[(#[trigger] files[i]).name@],
                limit,
                decode,
            ).len() == 0,
    ensures
        entries_of(files, disk, limit, decode).len() == 0,
    decreases files.len(),
{
    if files.len() > 0 {
        let before = files.drop_last();
        assert forall|i: int| 0 <= i < before.len() implies entries_in(
            disk[(#[trigger] before[i]).name@],
            limit,
            decode,
        ).len() == 0 by {
            assert(before[i] == files[i]);
        }
        empty_files_hold_nothing(before, disk, limit, decode);
    }
}

proof fn only_the_fresh_one(names: Seq<String>, fresh: String, files: Seq<SegmentFile>)
    requires
        wal_truncation::no_segment(names),
        wal_recovery::lists_segments(names.push(fresh), files),
    ensures
        forall|i: int| 0 <= i < files.len() ==> (#[trigger] files[i]).name@ == fresh@,
{
    let keep = |n: String| wal_recovery::names_segment(n);
    let all = names.push(fresh);
    let kept = all.filter(keep);
    assert forall|i: int| 0 <= i < files.len() implies (#[trigger] files[i]).name@ == fresh@ by {
        assert(kept.contains(kept[i]));
        all.lemma_filter_pred(keep, i);
        all.lemma_filter_contains_rev(keep, kept[i]);
        let j = choose|j: int| 0 <= j < all.len() && all[j] == kept[i];
        if j < names.len() {
            assert(names[j] == kept[i]);
            assert(!wal_recovery::names_segment(names[j]));
        }
    }
}

/// After a truncation, which succeeds only once a listing shows no segment file and a fresh segment
/// was made, recovery from what is there gives nothing.
pub proof fn recovery_after_truncation_is_empty(
    run: RecoveryRun,
    names: Seq<String>,
    fresh: String,
    h: WALSegmentHeader,
    listed: Seq<SegmentFile>,
    files: Seq<SegmentFile>,
    disk: Map<Seq<char>, Seq<u8>>,
    limit: u64,
    decode: RecordDecoder,
)
    requires
        wal_truncation::no_segment(names),
        wal_recovery::lists_segments(names.push(fresh), listed),
        stable_sort::stably_sorted(listed, files),
        disk[fresh@] == wal_segment::header_bytes(h),
        run.recovers(files, disk, limit, decode),
    ensures
        run.outcome matches Ok(entries) && entries@.len() == 0,
{
    only_the_fresh_one(names, fresh, listed);
    fresh_segment_is_empty(h, limit as nat);
    recovery_gives_every_entry(run, files, disk, limit, decode);
    assert forall|i: int| 0 <= i < files.len() implies entries_in(
        disk[(#[trigger] files[i]).name@],
        limit,
        decode,
    ).len() == 0 by {
        stable_sort::sorted_item_was_there(listed, files, i);
        let j = choose|j: int| 0 <= j < listed.len() && listed[j] == files[i];
        assert(listed[j].name@ == fresh@);
        assert(wal_segment::segment_records(disk[fresh@], limit as nat).map_values(
            |p: Seq<u8>| decode(p),
        ).len() == 0);
    }
    empty_files_hold_nothing(files, disk, limit, decode);
}

} // verus!
