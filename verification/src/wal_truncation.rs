//! Truncation of the log after its entries were flushed.

use crate::error::{IoErrorKind, LsmError};
use crate::text;
use crate::wal::WALManager;
use crate::wal_recovery::{
    self, check_removed, check_truncated, list_segment_files, retry_removal, SegmentFile,
};
use crate::wal_segment::WALSegment;
use vstd::prelude::*;
use vstd::string::*;

verus! {

/// How far a truncation has come, and what is done next.
#[derive(Debug)]
pub enum Truncation {
    /// The current segment is closed.
    Close(WALSegment),
    /// The system is given time to let the file go.
    Pause,
    /// The names of the files are listed.
    List,
    /// A file is removed.
    Remove {
        /// The segment files.
        files: Vec<SegmentFile>,
        /// Which one.
        next: usize,
        /// How often removing it has failed.
        failures: u32,
    },
    /// Some time passes before a file is removed again.
    Retry {
        /// The segment files.
        files: Vec<SegmentFile>,
        /// Which one.
        next: usize,
        /// How often removing it has failed.
        failures: u32,
    },
    /// It is looked whether a file is still there.
    Look {
        /// The segment files.
        files: Vec<SegmentFile>,
        /// Which one.
        next: usize,
    },
    /// The names of the files are listed again.
    ListAgain,
    /// A fresh segment is made.
    Rotate,
    /// It is over.
    Done(Result<(), LsmError>),
}

/// What came of the last step of a truncation.
#[derive(Debug)]
pub enum TruncationReply {
    /// It was done, or it does not matter that it failed.
    Done,
    /// The names of the files in the directory.
    Names(Vec<String>),
    /// Whether a file is there, with its quoted path.
    There {
        /// Whether it is there.
        still: bool,
        /// Its quoted path.
        quoted_path: String,
    },
    /// It failed.
    Failed(LsmError),
}

impl Truncation {
    /// The files that are removed next are there.
    pub open spec fn wf(self) -> bool {
        match self {
            Truncation::Remove { files, next, failures } => next < files@.len() && failures
                < wal_recovery::MAX_REMOVE_TRIES,
            Truncation::Retry { files, next, failures } => next < files@.len() && failures
                < wal_recovery::MAX_REMOVE_TRIES,
            Truncation::Look { files, next } => next < files@.len(),
            _ => true,
        }
    }

    /// The reply is one to this step.
    pub open spec fn answered_by(self, reply: TruncationReply) -> bool {
        match self {
            Truncation::Close(_) => reply is Done,
            Truncation::Pause => reply is Done,
            Truncation::List => reply is Names,
            Truncation::Remove { .. } => reply is Done || reply is Failed,
            Truncation::Retry { .. } => reply is Done,
            Truncation::Look { .. } => reply is There,
            Truncation::ListAgain => reply is Names,
            Truncation::Rotate => reply is Done || reply is Failed,
            Truncation::Done(_) => true,
        }
    }
}

/// No name is that of a segment file.
pub open spec fn no_segment(names: Seq<String>) -> bool {
    forall|i: int| 0 <= i < names.len() ==> !wal_recovery::names_segment(#[trigger] names[i])
}

/// How many of the names are those of segment files.
pub open spec fn segment_count(names: Seq<String>) -> nat {
    names.filter(|n: String| wal_recovery::names_segment(n)).len()
}

/// What removing goes on with behind a file.
pub open spec fn removed_up_to(files: Vec<SegmentFile>, next: int, to: Truncation) -> bool {
    if next < files@.len() {
        to matches Truncation::Remove { files: f, next: n, failures } && f == files && n == next
            && failures == 0
    } else {
        to is ListAgain
    }
}

/// What follows a step of a truncation.
pub open spec fn truncation_step(st: Truncation, reply: TruncationReply, to: Truncation) -> bool {
    match st {
        Truncation::Close(_) => to is Pause,
        Truncation::Pause => to is List,
        Truncation::List => reply matches TruncationReply::Names(names) ==> (exists|
            files: Vec<SegmentFile>,
        |
            #[trigger] wal_recovery::lists_segments(names@, files@) && removed_up_to(files, 0, to)),
        Truncation::Remove { files, next, failures } => match reply {
            TruncationReply::Failed(e) => if failures + 1 < wal_recovery::MAX_REMOVE_TRIES {
                to == (Truncation::Retry { files, next, failures: (failures + 1) as u32 })
            } else {
                to == Truncation::Done(Err(e))
            },
            _ => to == (Truncation::Look { files, next }),
        },
        Truncation::Retry { files, next, failures } => to == (Truncation::Remove {
            files,
            next,
            failures,
        }),
        Truncation::Look { files, next } => reply matches TruncationReply::There {
            still,
            quoted_path,
        } ==> if still {
            &&& to matches Truncation::Done(Err(e))
            &&& e.is_io(
                IoErrorKind::Other,
                "Failed to remove WAL segment after retries: "@ + quoted_path@,
            )
        } else {
            removed_up_to(files, next + 1, to)
        },
        Truncation::ListAgain => reply matches TruncationReply::Names(names) ==> if no_segment(
            names@,
        ) {
            to is Rotate
        } else {
            &&& to matches Truncation::Done(Err(e))
            &&& e.is_io(
                IoErrorKind::Other,
                "WAL truncation incomplete: "@ + text::dec(segment_count(names@))
                    + " segment file(s) still on disk after wipe"@,
            )
        },
        Truncation::Rotate => match reply {
            TruncationReply::Failed(e) => to == Truncation::Done(Err(e)),
            _ => to == Truncation::Done(Ok(())),
        },
        Truncation::Done(r) => to == Truncation::Done(r),
    }
}

proof fn counts_none(names: Seq<String>)
    ensures
        segment_count(names) == 0 <==> no_segment(names),
    decreases names.len(),
{
    let keep = |n: String| wal_recovery::names_segment(n);
    broadcast use Seq::lemma_filter_len_push;

    reveal(Seq::filter);
    if names.len() > 0 {
        let before = names.drop_last();
        counts_none(before);
        assert(names =~= before.push(names.last()));
        assert forall|i: int| 0 <= i < before.len() implies before[i] == names[i] by {}
        if no_segment(names) {
            assert forall|i: int| 0 <= i < before.len() implies !wal_recovery::names_segment(
                #[trigger] before[i],
            ) by {
                assert(before[i] == names[i]);
            }
            assert(!keep(names[names.len() - 1]));
        } else if no_segment(before) {
            let i = choose|i: int|
                0 <= i < names.len() && wal_recovery::names_segment(#[trigger] names[i]);
            if i < before.len() {
                assert(before[i] == names[i]);
            }
            assert(keep(names.last()));
        }
    }
}

fn after_removal(files: Vec<SegmentFile>, next: usize) -> (r: Truncation)
    requires
        next <= files@.len(),
    ensures
        removed_up_to(files, next as int, r),
        r.wf(),
{
    if next < files.len() {
        Truncation::Remove { files, next, failures: 0 }
    } else {
        Truncation::ListAgain
    }
}

impl WALManager {
    /// Begins to truncate the log: the current segment is given up, and the completed ones are
    /// forgotten, since the files that are there decide.
    pub fn start_truncation(&mut self) -> (r: Truncation)
        ensures
            match old(self).current_segment {
                Some(s) => r == Truncation::Close(s),
                None => r is Pause,
            },
            final(self).current_segment is None,
            final(self).segments@ == Map::<u64, String>::empty(),
            final(self).segment_counter == old(self).segment_counter,
            final(self).same_config(*old(self)),
    {
        match self.begin_truncation() {
            Some(segment) => Truncation::Close(segment),
            None => Truncation::Pause,
        }
    }
}

/// What follows a step of a truncation: every segment file of the directory is removed, also those
/// of earlier runs, with some tries each; only where none is left, a fresh segment is made.
pub fn truncate_after_flush(st: Truncation, reply: TruncationReply) -> (to: Truncation)
    requires
        st.wf(),
        st.answered_by(reply),
    ensures
        truncation_step(st, reply, to),
        to.wf(),
{
    match st {
        Truncation::Close(_) => Truncation::Pause,
        Truncation::Pause => Truncation::List,
        Truncation::List => match reply {
            TruncationReply::Names(names) => {
                let files = list_segment_files(&names);
                let to = after_removal(files, 0);
                assert(wal_recovery::lists_segments(names@, files@));
                to
            },
            _ => Truncation::List,
        },
        Truncation::Remove { files, next, failures } => match reply {
            TruncationReply::Failed(e) => {
                let failures: u32 = failures + 1;
                if retry_removal(failures) {
                    Truncation::Retry { files, next, failures }
                } else {
                    Truncation::Done(Err(e))
                }
            },
            _ => Truncation::Look { files, next },
        },
        Truncation::Retry { files, next, failures } => Truncation::Remove { files, next, failures },
        Truncation::Look { files, next } => match reply {
            TruncationReply::There { still, quoted_path } => {
                let count: usize = files.len();
                match check_removed(quoted_path.as_str(), still) {
                    Ok(()) => {
                        assert(next < count);
                        after_removal(files, next + 1)
                    },
                    Err(e) => Truncation::Done(Err(e)),
                }
            },
            _ => Truncation::Look { files, next },
        },
        Truncation::ListAgain => match reply {
            TruncationReply::Names(names) => {
                let left = list_segment_files(&names);
                proof {
                    counts_none(names@);
                }
                match check_truncated(left.len()) {
                    Ok(()) => Truncation::Rotate,
                    Err(e) => Truncation::Done(Err(e)),
                }
            },
            _ => Truncation::ListAgain,
        },
        Truncation::Rotate => match reply {
            TruncationReply::Failed(e) => Truncation::Done(Err(e)),
            _ => Truncation::Done(Ok(())),
        },
        Truncation::Done(r) => Truncation::Done(r),
    }
}

/// A truncation succeeds only after a listing in which no segment file was left: a fresh segment is
/// made only then, and success is told only after it was made.
pub proof fn truncation_leaves_no_old_segment(st: Truncation, reply: TruncationReply, to: Truncation)
    requires
        st.answered_by(reply),
        truncation_step(st, reply, to),
        !(st is Done),
    ensures
        to == Truncation::Done(Ok(())) ==> st is Rotate,
        to is Rotate ==> st is ListAgain && (reply matches TruncationReply::Names(names)
            && no_segment(names@)),
{
}

} // verus!
