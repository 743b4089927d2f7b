//! Recovery from the log, its truncation and its clean-up.

use crate::duration::Duration;
use crate::error::{IoError, IoErrorKind, LsmError};
use crate::stable_sort::{self, sort_by_stamp, Stamped};
use crate::text::{self, cat, push_dec, same_text};
use crate::wal::WALManager;
use crate::wal_entry::{WALEntry, WALEntryView};
use crate::wal_segment::{self, is_segment_file, parse_segment_id, WALSegment};
use vstd::prelude::*;
use vstd::string::*;

verus! {

/// A segment file that recovery reads.
#[derive(Debug, Clone)]
pub struct SegmentFile {
    /// Its number; the highest possible one where the name holds none.
    pub id: u64,
    /// Its name.
    pub name: String,
}

impl Stamped for SegmentFile {
    open spec fn stamp_of(self) -> u64 {
        self.id
    }

    fn stamp(&self) -> (r: u64) {
        self.id
    }
}

/// The name is that of a segment file.
pub open spec fn names_segment(name: String) -> bool {
    wal_segment::is_segment_name(name@)
}

/// The number by which a segment file is ordered.
pub open spec fn order_number(name: Seq<char>) -> u64 {
    match wal_segment::segment_number(name) {
        Some(n) => n as u64,
        None => u64::MAX,
    }
}

/// `files` are the segment files among the names, in the order of the names.
pub open spec fn lists_segments(names: Seq<String>, files: Seq<SegmentFile>) -> bool {
    let kept = names.filter(|n: String| names_segment(n));
    &&& files.len() == kept.len()
    &&& forall|i: int|
        0 <= i < files.len() ==> (#[trigger] files[i]).name@ == kept[i]@ && files[i].id
            == order_number(kept[i]@)
}

/// The segment files among the names of a directory.
pub fn list_segment_files(names: &Vec<String>) -> (r: Vec<SegmentFile>)
    ensures
        lists_segments(names@, r@),
{
    let ghost keep = |n: String| names_segment(n);
    let mut out: Vec<SegmentFile> = Vec::new();
    let mut i: usize = 0;
    proof {
        crate::seqs::filter_none(names@, keep);
    }
    while i < names.len()
        invariant
            i <= names@.len(),
            keep == (|n: String| names_segment(n)),
            lists_segments(names@.take(i as int), out@),
        decreases names@.len() - i,
    {
        proof {
            crate::seqs::filter_step(names@, keep, i as int);
        }
        if is_segment_file(names[i].as_str()) {
            let id = match parse_segment_id(names[i].as_str()) {
                Some(id) => id,
                None => u64::MAX,
            };
            out.push(SegmentFile { id, name: names[i].clone() });
        }
        i = i + 1;
    }
    assert(names@.take(i as int) =~= names@);
    out
}

/// The segment files among the names of a directory, in the order in which recovery reads them:
/// by their numbers, equal ones in the order of the names.
pub fn recovery_order(names: &Vec<String>) -> (r: Vec<SegmentFile>)
    ensures
        exists|files: Seq<SegmentFile>| #[trigger]
            lists_segments(names@, files) && stable_sort::stably_sorted(files, r@),
{
    let files = list_segment_files(names);
    let ghost listed = files@;
    let r = sort_by_stamp(files);
    assert(lists_segments(names@, listed) && stable_sort::stably_sorted(listed, r@));
    r
}

/// What recovery has read so far.
#[derive(Debug)]
pub struct Recovery {
    /// How many segment files there are.
    pub segments_found: usize,
    /// How many of them could be read.
    pub segments_read: usize,
    /// The entries that were read.
    pub entries: Vec<WALEntry>,
    /// What went wrong with the others: file name and failure.
    pub errors: Vec<String>,
}

/// The texts, with `between` between them.
pub open spec fn joined(texts: Seq<String>, between: Seq<char>) -> Seq<char>
    decreases texts.len(),
{
    if texts.len() == 0 {
        Seq::empty()
    } else if texts.len() == 1 {
        texts[0]@
    } else {
        joined(texts.drop_last(), between) + between + texts.last()@
    }
}

/// The texts, with `between` between them.
pub fn join_texts(texts: &Vec<String>, between: &str) -> (r: String)
    ensures
        r@ == joined(texts@, between@),
{
    let mut out = "".to_owned();
    let mut i: usize = 0;
    proof {
        reveal_strlit("");
        assert(out@ =~= joined(texts@.take(0), between@));
    }
    while i < texts.len()
        invariant
            i <= texts@.len(),
            out@ == joined(texts@.take(i as int), between@),
        decreases texts@.len() - i,
    {
        proof {
            let next = texts@.take(i + 1);
            assert(next.drop_last() =~= texts@.take(i as int));
            assert(next.last() == texts@[i as int]);
            assert(texts@.take(0) =~= Seq::empty());
        }
        if i > 0 {
            out.append(between);
        }
        out.append(texts[i].as_str());
        assert(out@ =~= joined(texts@.take(i + 1), between@));
        i = i + 1;
    }
    assert(texts@.take(i as int) =~= texts@);
    out
}

/// Recovery before and after it took what reading one segment file gave.
pub open spec fn accepted(
    before: Recovery,
    after: Recovery,
    file_name: Seq<char>,
    outcome: Result<Vec<WALEntry>, LsmError>,
) -> bool {
    &&& after.segments_found == before.segments_found
    &&& match outcome {
        Ok(more) => {
            &&& after.segments_read == before.segments_read + 1
            &&& after.entries@ == before.entries@ + more@
            &&& after.errors == before.errors
        },
        Err(e) => {
            &&& after.segments_read == before.segments_read
            &&& after.entries == before.entries
            &&& after.errors@.len() == before.errors@.len() + 1
            &&& after.errors@.drop_last() == before.errors@
            &&& after.errors@.last()@ == file_name + ": "@ + (e.heading() + e.detail())
        },
    }
}

impl Recovery {
    /// Each file that was looked at was read or reported.
    pub open spec fn wf(self) -> bool {
        self.segments_read + self.errors@.len() <= self.segments_found
    }

    /// Nothing was read yet.
    pub fn begin(segments_found: usize) -> (r: Self)
        ensures
            r.wf(),
            r.segments_found == segments_found,
            r.segments_read == 0,
            r.entries@.len() == 0,
            r.errors@.len() == 0,
    {
        Recovery { segments_found, segments_read: 0, entries: Vec::new(), errors: Vec::new() }
    }

    /// Takes what reading one segment file gave: its entries behind those before it, or what went
    /// wrong.
    pub fn accept(&mut self, file_name: &str, outcome: Result<Vec<WALEntry>, LsmError>)
        requires
            old(self).segments_read + old(self).errors@.len() < old(self).segments_found,
        ensures
            final(self).wf(),
            accepted(*old(self), *final(self), file_name@, outcome),
    {
        match outcome {
            Ok(more) => {
                let mut more = more;
                self.segments_read = self.segments_read + 1;
                self.entries.append(&mut more);
            },
            Err(e) => {
                let mut m = file_name.to_owned();
                m.append(": ");
                m.append(e.user_message().as_str());
                self.errors.push(m);
                assert(self.errors@.drop_last() =~= old(self).errors@);
            },
        }
    }

    /// The failure when no segment file could be read.
    pub open spec fn failure_text(self) -> Seq<char> {
        "Failed to recover from "@ + text::dec(self.segments_found as nat) + " WAL segment(s): "@
            + joined(self.errors@, "; "@)
    }

    /// The outcome of a recovery that has read all this.
    pub open spec fn ends_with(self, r: Result<Vec<WALEntry>, LsmError>) -> bool {
        &&& r is Err <==> self.segments_found > 0 && self.segments_read == 0
        &&& match r {
            Ok(entries) => stable_sort::stably_sorted(self.entries@, entries@),
            Err(e) => e.is_wal(self.failure_text()),
        }
    }

    /// The recovered entries by their timestamps, equal ones in the order in which they were read.
    /// Recovery fails only where there are segment files and none could be read.
    pub fn finish(self) -> (r: Result<Vec<WALEntry>, LsmError>)
        ensures
            self.ends_with(r),
    {
        if self.segments_found > 0 && self.segments_read == 0 {
            let mut m = "Failed to recover from ".to_owned();
            push_dec(&mut m, self.segments_found as u64);
            m.append(" WAL segment(s): ");
            m.append(join_texts(&self.errors, "; ").as_str());
            return Err(LsmError::Wal(m));
        }
        Ok(sort_by_stamp(self.entries))
    }
}

/// Entries of several segments by their timestamps, equal ones in the order in which they were
/// read.
pub fn merge_entries(entries: Vec<WALEntry>) -> (r: Vec<WALEntry>)
    ensures
        stable_sort::stably_sorted(entries@, r@),
{
    sort_by_stamp(entries)
}

/// The entries that could be decoded, in their order.
pub open spec fn decodable(decoded: Seq<Result<WALEntry, String>>) -> Seq<WALEntry>
    decreases decoded.len(),
{
    if decoded.len() == 0 {
        Seq::empty()
    } else {
        let before = decodable(decoded.drop_last());
        match decoded.last() {
            Ok(entry) => before.push(entry),
            Err(_) => before,
        }
    }
}

/// The entries of a segment whose records were decoded one by one; what could not be decoded is
/// left out.
pub fn decoded_entries(decoded: Vec<Result<WALEntry, String>>) -> (r: Vec<WALEntry>)
    ensures
        r@ == decodable(decoded@),
{
    let mut rest = decoded;
    let mut backwards: Vec<WALEntry> = Vec::new();
    let ghost all = rest@;
    while rest.len() > 0
        invariant
            rest@.len() <= all.len(),
            rest@ == all.take(rest@.len() as int),
            decodable(all) == decodable(rest@) + backwards@.reverse(),
        decreases rest@.len(),
    {
        let ghost held = rest@;
        let ghost later = backwards@;
        let next = rest.pop();
        assert(rest@ =~= held.drop_last());
        assert(all.take(rest@.len() as int) =~= rest@);
        if let Some(Ok(entry)) = next {
            backwards.push(entry);
            assert(backwards@.reverse() =~= seq![entry] + later.reverse());
            assert(decodable(all) =~= decodable(rest@) + backwards@.reverse());
        }
    }
    let mut out: Vec<WALEntry> = Vec::new();
    while backwards.len() > 0
        invariant
            decodable(all) == out@ + backwards@.reverse(),
        decreases backwards@.len(),
    {
        let ghost held = backwards@;
        let ghost before = out@;
        if let Some(entry) = backwards.pop() {
            out.push(entry);
            assert(held.reverse() =~= seq![entry] + backwards@.reverse());
            assert(decodable(all) =~= out@ + backwards@.reverse());
        }
    }
    assert(decodable(all) =~= out@);
    out
}

/// The entries that were read of several segments. An error of the current one ends the reading; a
/// completed one that cannot be read is left out.
#[derive(Debug)]
pub struct CollectedEntries {
    /// The entries.
    pub entries: Vec<WALEntry>,
}

impl CollectedEntries {
    /// Nothing was read yet.
    pub fn begin() -> (r: Self)
        ensures
            r.entries@.len() == 0,
    {
        CollectedEntries { entries: Vec::new() }
    }

    /// Takes what was read of the current segment.
    pub fn accept_current(&mut self, outcome: Result<Vec<WALEntry>, LsmError>) -> (r: Result<
        (),
        LsmError,
    >)
        ensures
            match outcome {
                Ok(entries) => r is Ok && final(self).entries@ == old(self).entries@ + entries@,
                Err(e) => r == Err::<(), LsmError>(e) && final(self).entries@ == old(
                    self,
                ).entries@,
            },
    {
        match outcome {
            Ok(entries) => {
                let mut entries = entries;
                self.entries.append(&mut entries);
                Ok(())
            },
            Err(e) => Err(e),
        }
    }

    /// Takes what was read of a completed segment, if it could be read.
    pub fn accept_completed(&mut self, outcome: Result<Vec<WALEntry>, LsmError>)
        ensures
            final(self).entries@ == match outcome {
                Ok(entries) => old(self).entries@ + entries@,
                Err(_) => old(self).entries@,
            },
    {
        if let Ok(entries) = outcome {
            let mut entries = entries;
            self.entries.append(&mut entries);
        }
    }

    /// The entries in the order of their timestamps; equal ones stay as they were read.
    pub fn finish(self) -> (r: Vec<WALEntry>)
        ensures
            stable_sort::stably_sorted(self.entries@, r@),
    {
        merge_entries(self.entries)
    }
}

/// How often the removal of a file is tried.
pub const MAX_REMOVE_TRIES: u32 = 3;

/// Whether a removal that failed so many times is tried again, after 50 ms.
pub fn retry_removal(failures: u32) -> (r: bool)
    ensures
        r == (failures < MAX_REMOVE_TRIES),
{
    failures < MAX_REMOVE_TRIES
}

fn other_io(message: String) -> (r: LsmError)
    ensures
        r.is_io(IoErrorKind::Other, message@),
{
    LsmError::Io(IoError { kind: IoErrorKind::Other, message })
}

/// Fails where a removed segment file, shown as `quoted_path`, is still there.
pub fn check_removed(quoted_path: &str, still_there: bool) -> (r: Result<(), LsmError>)
    ensures
        r is Ok <==> !still_there,
        r matches Err(e) ==> e.is_io(
            IoErrorKind::Other,
            "Failed to remove WAL segment after retries: "@ + quoted_path@,
        ),
{
    if still_there {
        return Err(other_io(cat("Failed to remove WAL segment after retries: ", quoted_path)));
    }
    Ok(())
}

/// Fails where segment files are left behind their removal.
pub fn check_truncated(remaining: usize) -> (r: Result<(), LsmError>)
    ensures
        r is Ok <==> remaining == 0,
        r matches Err(e) ==> e.is_io(
            IoErrorKind::Other,
            "WAL truncation incomplete: "@ + text::dec(remaining as nat)
                + " segment file(s) still on disk after wipe"@,
        ),
{
    if remaining > 0 {
        let mut m = "WAL truncation incomplete: ".to_owned();
        push_dec(&mut m, remaining as u64);
        m.append(" segment file(s) still on disk after wipe");
        return Err(other_io(m));
    }
    Ok(())
}

/// A step of a clean shutdown.
#[derive(Debug, Clone, Copy, PartialEq, Eq, Structural)]
pub enum ShutdownStep {
    /// Entries that wait in a group are written.
    CommitGroup,
    /// A checkpoint is written.
    Checkpoint,
    /// The log is flushed.
    Flush,
    /// The log is truncated.
    Truncate,
}

/// The steps of a clean shutdown of a log with or without a segment, with or without group commit.
pub open spec fn shutdown_plan(has_segment: bool, group_commit: bool) -> Seq<ShutdownStep> {
    if has_segment {
        (if group_commit {
            seq![ShutdownStep::CommitGroup]
        } else {
            Seq::empty()
        }) + seq![ShutdownStep::Checkpoint, ShutdownStep::Flush, ShutdownStep::Truncate]
    } else {
        seq![ShutdownStep::Truncate]
    }
}

/// The steps of a clean shutdown.
pub(crate) fn plan_shutdown(has_segment: bool, group_commit: bool) -> (r: Vec<ShutdownStep>)
    ensures
        r@ == shutdown_plan(has_segment, group_commit),
{
    let mut steps: Vec<ShutdownStep> = Vec::new();
    if has_segment {
        if group_commit {
            steps.push(ShutdownStep::CommitGroup);
        }
        steps.push(ShutdownStep::Checkpoint);
        steps.push(ShutdownStep::Flush);
    }
    steps.push(ShutdownStep::Truncate);
    assert(steps@ =~= shutdown_plan(has_segment, group_commit));
    steps
}

/// A completed segment with the time at which its file was created, if that is known.
#[derive(Debug, Clone, Copy)]
pub struct SegmentAge {
    /// The segment's number.
    pub id: u64,
    /// Seconds since the epoch.
    pub created_at: Option<u64>,
}

/// The segment was created before the cutoff.
pub open spec fn created_before(age: SegmentAge, cutoff: int) -> bool {
    age.created_at matches Some(t) && t < cutoff
}

/// The numbers of the segments that were created before the cutoff, in their order.
pub open spec fn expired(ages: Seq<SegmentAge>, cutoff: int) -> Seq<u64> {
    ages.filter(|a: SegmentAge| created_before(a, cutoff)).map_values(|a: SegmentAge| a.id)
}

/// The numbers of the segments that were created before the cutoff.
pub fn expired_segments(ages: &Vec<SegmentAge>, cutoff: u64) -> (r: Vec<u64>)
    ensures
        r@ == expired(ages@, cutoff as int),
{
    let ghost keep = |a: SegmentAge| created_before(a, cutoff as int);
    let ghost id_of = |a: SegmentAge| a.id;
    let mut out: Vec<u64> = Vec::new();
    let mut i: usize = 0;
    proof {
        crate::seqs::filter_none(ages@, keep);
        assert(out@ =~= expired(ages@.take(0), cutoff as int));
    }
    while i < ages.len()
        invariant
            i <= ages@.len(),
            keep == (|a: SegmentAge| created_before(a, cutoff as int)),
            id_of == (|a: SegmentAge| a.id),
            out@ == ages@.take(i as int).filter(keep).map_values(id_of),
        decreases ages@.len() - i,
    {
        proof {
            crate::seqs::filter_step(ages@, keep, i as int);
            let before = ages@.take(i as int).filter(keep);
            assert(before.push(ages@[i as int]).map_values(id_of) =~= before.map_values(id_of).push(
                ages@[i as int].id,
            ));
        }
        if let Some(t) = ages[i].created_at {
            if t < cutoff {
                out.push(ages[i].id);
            }
        }
        i = i + 1;
    }
    assert(ages@.take(i as int) =~= ages@);
    out
}

impl WALManager {
    /// Begins a truncation: the current segment is taken to be closed, and the completed ones are
    /// forgotten.
    pub fn begin_truncation(&mut self) -> (r: Option<WALSegment>)
        ensures
            r == old(self).current_segment,
            final(self).current_segment is None,
            final(self).segments@ == Map::<u64, String>::empty(),
            final(self).segment_counter == old(self).segment_counter,
            final(self).same_config(*old(self)),
    {
        let segment = self.current_segment.take();
        self.segments.clear();
        segment
    }

    /// The log is truncated: there is a current segment, none is completed, and no segment file
    /// but the current one is there.
    pub open spec fn is_truncated(self, on_disk: Seq<String>) -> bool {
        &&& self.current_segment matches Some(s)
        &&& self.segments@.len() == 0
        &&& on_disk.len() <= 1
        &&& on_disk.len() == 1 ==> on_disk[0]@ == s.path@
    }

    /// Whether the log is truncated, given the paths of the segment files that are there.
    pub fn verify_truncated(&self, on_disk: &Vec<String>) -> (r: bool)
        ensures
            r == self.is_truncated(on_disk@),
    {
        match &self.current_segment {
            None => false,
            Some(segment) => {
                if self.segments.len() > 0 || on_disk.len() > 1 {
                    return false;
                }
                on_disk.len() == 0 || same_text(on_disk[0].as_str(), segment.path.as_str())
            },
        }
    }

    /// The completed segments that are older than the retention period.
    pub fn cleanup_old_segments(
        &self,
        ages: &Vec<SegmentAge>,
        now: u64,
        retention_period: Duration,
    ) -> (r: Vec<u64>)
        requires
            retention_period.secs <= now,
        ensures
            r@ == expired(ages@, now - retention_period.secs),
    {
        expired_segments(ages, now - retention_period.as_secs())
    }

    /// The completed segments that are older than the grace period, and so were flushed.
    pub fn cleanup_flushed_segments(
        &self,
        ages: &Vec<SegmentAge>,
        now: u64,
        grace_period: Duration,
    ) -> (r: Vec<u64>)
        ensures
            r@ == expired(
                ages@,
                if grace_period.secs <= now {
                    now - grace_period.secs
                } else {
                    0
                },
            ),
    {
        expired_segments(ages, now.saturating_sub(grace_period.as_secs()))
    }

    /// Forgets a completed segment; its path, if it was known.
    pub fn forget_segment(&mut self, id: u64) -> (r: Option<String>)
        ensures
            r == (if old(self).segments@.contains_key(id) {
                Some(old(self).segments@[id])
            } else {
                None
            }),
            final(self).segments@ == old(self).segments@.remove(id),
            final(self).current_segment == old(self).current_segment,
            final(self).segment_counter == old(self).segment_counter,
            final(self).same_config(*old(self)),
    {
        broadcast use vstd::std_specs::hash::group_hash_axioms;

        let r = self.segments.remove(&id);
        assert(self.segments@ =~= old(self).segments@.remove(id));
        r
    }

    /// The steps of a clean shutdown.
    pub fn mark_clean_shutdown(&self) -> (r: Vec<ShutdownStep>)
        ensures
            r@ == shutdown_plan(self.current_segment is Some, self.config.group_commit_enabled),
    {
        plan_shutdown(self.current_segment.is_some(), self.config.group_commit_enabled)
    }
}

/// A fresh segment after a truncation that left no file behind is the whole log.
pub proof fn truncation_leaves_one_segment(
    before: WALManager,
    after: WALManager,
    segment: WALSegment,
    on_disk: Seq<String>,
)
    requires
        before.segments@ == Map::<u64, String>::empty(),
        after.current_segment == Some(segment),
        after.segments == before.segments,
        on_disk.len() == 1,
        on_disk[0]@ == segment.path@,
    ensures
        after.is_truncated(on_disk),
{
    assert(after.segments@.dom() =~= Set::<u64>::empty());
}

proof fn sorted_entries_stay_in_time(before: Seq<WALEntry>, after: Seq<WALEntry>)
    requires
        stable_sort::stably_sorted(before, after),
    ensures
        in_order_of_time(before, after),
{
    assert forall|t: u64| #[trigger] written_at(after, t) == written_at(before, t) by {
        let by_time = |e: WALEntry|
            (match e@ {
                WALEntryView::Put { timestamp, .. } => timestamp,
                WALEntryView::Delete { timestamp, .. } => timestamp,
                WALEntryView::Flush { timestamp, .. } => timestamp,
                WALEntryView::Checkpoint { timestamp } => timestamp,
            }) == t;
        let by_stamp = |e: WALEntry| e.stamp_of() == t;
        assert(by_time =~= by_stamp);
        assert(stable_sort::at_stamp(after, t) == stable_sort::at_stamp(before, t));
    }
    assert forall|i: int, j: int| 0 <= i < j < after.len() implies (match (#[trigger] after[i])@ {
        WALEntryView::Put { timestamp, .. } => timestamp,
        WALEntryView::Delete { timestamp, .. } => timestamp,
        WALEntryView::Flush { timestamp, .. } => timestamp,
        WALEntryView::Checkpoint { timestamp } => timestamp,
    }) <= (match (#[trigger] after[j])@ {
        WALEntryView::Put { timestamp, .. } => timestamp,
        WALEntryView::Delete { timestamp, .. } => timestamp,
        WALEntryView::Flush { timestamp, .. } => timestamp,
        WALEntryView::Checkpoint { timestamp } => timestamp,
    }) by {
        assert(after[i].stamp_of() <= after[j].stamp_of());
    }
}

/// The entries that were written at a time, in their order.
pub open spec fn written_at(entries: Seq<WALEntry>, t: u64) -> Seq<WALEntry> {
    entries.filter(
        |e: WALEntry|
            (match e@ {
                WALEntryView::Put { timestamp, .. } => timestamp,
                WALEntryView::Delete { timestamp, .. } => timestamp,
                WALEntryView::Flush { timestamp, .. } => timestamp,
                WALEntryView::Checkpoint { timestamp } => timestamp,
            }) == t,
    )
}

/// `after` holds the entries of `before`: no entry stands behind one with a later timestamp, whatever
/// kinds of entries the two are, and those of one timestamp stand as they did.
pub open spec fn in_order_of_time(before: Seq<WALEntry>, after: Seq<WALEntry>) -> bool {
    &&& after.len() == before.len()
    &&& forall|i: int, j: int|
        0 <= i < j < after.len() ==> (match (#[trigger] after[i])@ {
            WALEntryView::Put { timestamp, .. } => timestamp,
            WALEntryView::Delete { timestamp, .. } => timestamp,
            WALEntryView::Flush { timestamp, .. } => timestamp,
            WALEntryView::Checkpoint { timestamp } => timestamp,
        }) <= (match (#[trigger] after[j])@ {
            WALEntryView::Put { timestamp, .. } => timestamp,
            WALEntryView::Delete { timestamp, .. } => timestamp,
            WALEntryView::Flush { timestamp, .. } => timestamp,
            WALEntryView::Checkpoint { timestamp } => timestamp,
        })
    &&& forall|t: u64| #[trigger] written_at(after, t) == written_at(before, t)
}

/// Recovery gives back every entry that was read, in the order of the timestamps that the entries
/// carry; it fails exactly if there were segment files and none of them could be read.
pub proof fn recovered_in_order_of_time(
    recovery: Recovery,
    r: Result<Vec<WALEntry>, LsmError>,
)
    requires
        call_ensures(Recovery::finish, (recovery,), r),
    ensures
        r is Ok <==> recovery.segments_found == 0 || recovery.segments_read > 0,
        r matches Ok(entries) ==> in_order_of_time(recovery.entries@, entries@),
{
    if let Ok(entries) = r {
        sorted_entries_stay_in_time(recovery.entries@, entries@);
    }
}

/// Merging the entries of several segments keeps all of them, in the order of the timestamps that
/// they carry.
pub proof fn merged_in_order_of_time(entries: Vec<WALEntry>, r: Vec<WALEntry>)
    requires
        call_ensures(merge_entries, (entries,), r),
    ensures
        in_order_of_time(entries@, r@),
{
    sorted_entries_stay_in_time(entries@, r@);
}

/// Reading the log keeps all entries that were collected, in the order of the timestamps that they
/// carry.
pub proof fn collected_in_order_of_time(collected: CollectedEntries, r: Vec<WALEntry>)
    requires
        call_ensures(CollectedEntries::finish, (collected,), r),
    ensures
        in_order_of_time(collected.entries@, r@),
{
    sorted_entries_stay_in_time(collected.entries@, r@);
}

} // verus!
