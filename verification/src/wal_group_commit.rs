//! Group commit: when entries that wait together are written.

use crate::duration::Duration;
use crate::error::LsmError;
use vstd::prelude::*;
use vstd::string::*;

verus! {

/// When the waiting entries arrived. Points in time are spans since one fixed origin.
#[derive(Debug, Clone, Copy)]
pub struct GroupCommitTiming {
    /// When the first waiting entry arrived.
    pub first_pending_at: Option<Duration>,
    /// When the last entry arrived.
    pub last_enqueue_at: Option<Duration>,
}

impl Default for GroupCommitTiming {
    fn default() -> (r: Self)
        ensures
            r.first_pending_at is None,
            r.last_enqueue_at is None,
    {
        GroupCommitTiming { first_pending_at: None, last_enqueue_at: None }
    }
}

impl GroupCommitTiming {
    /// The points in time are well-formed.
    pub open spec fn wf(self) -> bool {
        &&& self.first_pending_at matches Some(t) ==> t.wf()
        &&& self.last_enqueue_at matches Some(t) ==> t.wf()
    }

    /// Takes note of an entry that arrives now.
    pub fn record_enqueue(&mut self, pending_was_empty: bool, now: Duration)
        ensures
            final(self).first_pending_at == (if pending_was_empty {
                Some(now)
            } else {
                old(self).first_pending_at
            }),
            final(self).last_enqueue_at == Some(now),
    {
        if pending_was_empty {
            self.first_pending_at = Some(now);
        }
        self.last_enqueue_at = Some(now);
    }

    /// Forgets all entries.
    pub fn clear(&mut self)
        ensures
            final(self).first_pending_at is None,
            final(self).last_enqueue_at is None,
    {
        self.first_pending_at = None;
        self.last_enqueue_at = None;
    }
}

/// The earlier of two points in time.
pub open spec fn earlier(a: Duration, b: Duration) -> Duration {
    if b.total_nanos() < a.total_nanos() {
        b
    } else {
        a
    }
}

/// The later of two points in time.
pub open spec fn later(a: Duration, b: Duration) -> Duration {
    if a.total_nanos() < b.total_nanos() {
        b
    } else {
        a
    }
}

/// When the waiting entries are due: the longest wait after the first of them, or the idle time
/// after the last of them if that is earlier; but not before now.
pub open spec fn deadline(
    timing: GroupCommitTiming,
    pending_count: int,
    max_wait: Duration,
    idle_flush: Option<Duration>,
    now: Duration,
) -> Option<Duration> {
    match timing.first_pending_at {
        Some(first) if pending_count > 0 => {
            let by_wait = first.sum(max_wait);
            let due = match (idle_flush, timing.last_enqueue_at) {
                (Some(idle), Some(last)) => earlier(by_wait, last.sum(idle)),
                _ => by_wait,
            };
            Some(later(due, now))
        },
        _ => None,
    }
}

/// The sums that a deadline is made of can be told.
pub open spec fn deadline_fits(
    timing: GroupCommitTiming,
    max_wait: Duration,
    idle_flush: Option<Duration>,
) -> bool {
    &&& timing.wf()
    &&& max_wait.wf()
    &&& idle_flush matches Some(idle) ==> idle.wf()
    &&& timing.first_pending_at matches Some(first) ==> first.sum_fits(max_wait)
    &&& timing.last_enqueue_at matches Some(last) ==> (idle_flush matches Some(idle)
        ==> last.sum_fits(idle))
}

/// When the waiting entries are due, if any wait.
pub fn next_flush_deadline(
    timing: &GroupCommitTiming,
    pending_count: usize,
    max_wait: Duration,
    idle_flush: Option<Duration>,
    now: Duration,
) -> (r: Option<Duration>)
    requires
        deadline_fits(*timing, max_wait, idle_flush),
        now.wf(),
    ensures
        r == deadline(*timing, pending_count as int, max_wait, idle_flush, now),
        r matches Some(t) ==> t.wf() && t.total_nanos() >= now.total_nanos(),
{
    if pending_count == 0 {
        return None;
    }
    let first = match timing.first_pending_at {
        Some(first) => first,
        None => {
            return None;
        },
    };
    let mut due = first.plus(max_wait);
    if let Some(idle) = idle_flush {
        if let Some(last) = timing.last_enqueue_at {
            let idle_due = last.plus(idle);
            if idle_due.less_than(due) {
                due = idle_due;
            }
        }
    }
    if due.less_than(now) {
        due = now;
    }
    Some(due)
}

/// What wakes the task that writes waiting entries.
#[derive(Debug, Clone, Copy, PartialEq, Eq, Structural)]
pub enum CommitWake {
    /// The deadline has come.
    DeadlineReached,
    /// An entry arrived while a deadline was set.
    Notified,
    /// An entry arrived while nothing waited.
    NotifiedIdle,
}

/// Entries that wait to be written together.
pub struct GroupCommitQueue<T> {
    /// The entries, in their order of arrival.
    pub pending: Vec<T>,
    /// When they arrived.
    pub timing: GroupCommitTiming,
}

impl<T> GroupCommitQueue<T> {
    /// A first entry has a time of arrival as long as entries wait.
    pub open spec fn wf(self) -> bool {
        &&& self.timing.wf()
        &&& self.pending@.len() > 0 <==> self.timing.first_pending_at is Some
        &&& self.pending@.len() > 0 <==> self.timing.last_enqueue_at is Some
    }

    /// Nothing waits.
    pub fn new() -> (r: Self)
        ensures
            r.wf(),
            r.pending@.len() == 0,
    {
        GroupCommitQueue { pending: Vec::new(), timing: GroupCommitTiming::default() }
    }

    /// Adds an entry that arrives now; says whether the group is full.
    pub fn enqueue(&mut self, entry: T, now: Duration, max_batch_size: usize) -> (full: bool)
        requires
            old(self).wf(),
            now.wf(),
        ensures
            final(self).wf(),
            final(self).pending@ == old(self).pending@.push(entry),
            final(self).timing.first_pending_at == (if old(self).pending@.len() == 0 {
                Some(now)
            } else {
                old(self).timing.first_pending_at
            }),
            final(self).timing.last_enqueue_at == Some(now),
            full == (final(self).pending@.len() >= max_batch_size),
    {
        let was_empty: bool = self.pending.len() == 0;
        self.timing.record_enqueue(was_empty, now);
        self.pending.push(entry);
        self.pending.len() >= max_batch_size
    }

    /// Takes all waiting entries.
    pub fn take_pending(&mut self) -> (r: Vec<T>)
        requires
            old(self).wf(),
        ensures
            final(self).wf(),
            r@ == old(self).pending@,
            final(self).pending@.len() == 0,
    {
        let mut taken: Vec<T> = Vec::new();
        std::mem::swap(&mut taken, &mut self.pending);
        if taken.len() > 0 {
            self.timing.clear();
        }
        taken
    }

    /// When the waiting entries are due.
    pub fn deadline(
        &self,
        max_wait: Duration,
        idle_flush: Option<Duration>,
        now: Duration,
    ) -> (r: Option<Duration>)
        requires
            self.wf(),
            deadline_fits(self.timing, max_wait, idle_flush),
            now.wf(),
        ensures
            r == deadline(self.timing, self.pending@.len() as int, max_wait, idle_flush, now),
            r is Some <==> self.pending@.len() > 0,
    {
        next_flush_deadline(&self.timing, self.pending.len(), max_wait, idle_flush, now)
    }

    /// Whether the waiting entries are written now.
    pub fn flush_now(&self, wake: CommitWake, max_batch_size: usize) -> (r: bool)
        ensures
            r == match wake {
                CommitWake::DeadlineReached => true,
                CommitWake::Notified => self.pending@.len() >= max_batch_size,
                CommitWake::NotifiedIdle => false,
            },
    {
        match wake {
            CommitWake::DeadlineReached => true,
            CommitWake::Notified => self.pending.len() >= max_batch_size,
            CommitWake::NotifiedIdle => false,
        }
    }
}

/// What a waiting writer is told about the write of its group.
pub fn ack_result(outcome: &Result<(), LsmError>) -> (r: Result<(), LsmError>)
    ensures
        match *outcome {
            Ok(_) => r is Ok,
            Err(e) => r matches Err(told) && told.is_internal(e.heading() + e.detail()),
        },
{
    match outcome {
        Ok(_) => Ok(()),
        Err(e) => Err(LsmError::Internal(e.user_message())),
    }
}

/// What a write returns whose entry was put into a group: at once where it does not wait,
/// otherwise what it was told; `None` where nobody will tell it any more.
pub fn waiter_outcome(
    wait_durable: bool,
    told: Option<Result<(), LsmError>>,
    dropped: &str,
) -> (r: Result<(), LsmError>)
    ensures
        if !wait_durable {
            r is Ok
        } else {
            match told {
                Some(answer) => r == answer,
                None => r matches Err(e) && e.is_internal(dropped@),
            }
        },
{
    if !wait_durable {
        return Ok(());
    }
    match told {
        Some(answer) => answer,
        None => Err(LsmError::Internal(dropped.to_owned())),
    }
}

/// An entry never waits longer than the longest wait, nor longer than the idle time after the
/// last arrival, unless that moment has passed already.
pub proof fn deadline_is_bounded(
    timing: GroupCommitTiming,
    pending_count: int,
    max_wait: Duration,
    idle_flush: Option<Duration>,
    now: Duration,
)
    requires
        deadline_fits(timing, max_wait, idle_flush),
        now.wf(),
        pending_count > 0,
        timing.first_pending_at is Some,
    ensures
        ({
            let first = timing.first_pending_at->Some_0;
            let due = deadline(timing, pending_count, max_wait, idle_flush, now);
            &&& due matches Some(t)
            &&& t.total_nanos() >= now.total_nanos()
            &&& t.total_nanos() <= first.total_nanos() + max_wait.total_nanos() || t == now
            &&& idle_flush matches Some(idle) ==> (timing.last_enqueue_at matches Some(last)
                ==> t.total_nanos() <= last.total_nanos() + idle.total_nanos() || t == now)
        }),
{
    let first = timing.first_pending_at->Some_0;
    first.sum_adds_up(max_wait);
    if idle_flush is Some && timing.last_enqueue_at is Some {
        timing.last_enqueue_at->Some_0.sum_adds_up(idle_flush->Some_0);
    }
}

/// Entries that wait are written when the first one has waited as long as allowed, or when none came
/// for the idle time, whichever is earlier, but never in the past; there is nothing to wait for
/// exactly if none waits.
pub proof fn deadline_is_the_earlier_one(
    timing: GroupCommitTiming,
    pending_count: usize,
    max_wait: Duration,
    idle_flush: Option<Duration>,
    now: Duration,
    r: Option<Duration>,
)
    requires
        deadline_fits(timing, max_wait, idle_flush),
        now.wf(),
        call_ensures(next_flush_deadline, (&timing, pending_count, max_wait, idle_flush, now), r),
    ensures
        r is Some <==> pending_count > 0 && timing.first_pending_at is Some,
        r matches Some(t) ==> {
            let by_wait = timing.first_pending_at->Some_0.total_nanos() + max_wait.total_nanos();
            let due = if idle_flush is Some && timing.last_enqueue_at is Some
                && timing.last_enqueue_at->Some_0.total_nanos()
                + idle_flush->Some_0.total_nanos() < by_wait {
                timing.last_enqueue_at->Some_0.total_nanos() + idle_flush->Some_0.total_nanos()
            } else {
                by_wait
            };
            t.total_nanos() == if due < now.total_nanos() {
                now.total_nanos()
            } else {
                due
            }
        },
{
    if let Some(first) = timing.first_pending_at {
        first.sum_adds_up(max_wait);
        if let Some(idle) = idle_flush {
            if let Some(last) = timing.last_enqueue_at {
                last.sum_adds_up(idle);
            }
        }
    }
}

/// A time in nanoseconds is its seconds and the rest of them.
pub proof fn nanos_are_seconds_and_rest(d: Duration)
    ensures
        d.total_nanos() == d.secs * 1_000_000_000 + d.nanos,
{
}

/// Entries that were queued one after the other are taken in that order, all of them and once, and
/// the queue is empty then.
pub proof fn queued_entries_are_taken_in_order<T>(
    q: &mut GroupCommitQueue<T>,
    next: &mut GroupCommitQueue<T>,
    last: &mut GroupCommitQueue<T>,
    first: T,
    second: T,
    at: Duration,
    later: Duration,
    limit: usize,
    full: bool,
    fuller: bool,
    r: Vec<T>,
)
    requires
        old(q).wf(),
        at.wf(),
        later.wf(),
        call_ensures(GroupCommitQueue::<T>::enqueue, (q, first, at, limit), full),
        *old(next) == *final(q),
        call_ensures(GroupCommitQueue::<T>::enqueue, (next, second, later, limit), fuller),
        *old(last) == *final(next),
        call_ensures(GroupCommitQueue::<T>::take_pending, (last,), r),
    ensures
        r@ == old(q).pending@ + seq![first, second],
        final(last).pending@.len() == 0,
        full ==> fuller,
        old(q).pending@.len() == 0 ==> final(next).timing.first_pending_at == Some(at),
        final(next).timing.last_enqueue_at == Some(later),
{
    assert(old(q).pending@.push(first).push(second) =~= old(q).pending@ + seq![first, second]);
}

/// A queue that is told to be full is written when its writer is woken; before that it waits for its
/// time, and a wake without entries writes nothing.
pub proof fn full_queue_is_written_at_once<T>(
    q: &mut GroupCommitQueue<T>,
    entry: T,
    now: Duration,
    limit: usize,
    full: bool,
    woken: bool,
    due: bool,
    idle: bool,
)
    requires
        old(q).wf(),
        now.wf(),
        call_ensures(GroupCommitQueue::<T>::enqueue, (q, entry, now, limit), full),
        call_ensures(GroupCommitQueue::<T>::flush_now, (&*final(q), CommitWake::Notified, limit), woken),
        call_ensures(
            GroupCommitQueue::<T>::flush_now,
            (&*final(q), CommitWake::DeadlineReached, limit),
            due,
        ),
        call_ensures(
            GroupCommitQueue::<T>::flush_now,
            (&*final(q), CommitWake::NotifiedIdle, limit),
            idle,
        ),
    ensures
        full <==> old(q).pending@.len() + 1 >= limit,
        woken <==> full,
        due,
        !idle,
{
}

/// One who waits for a write is told that it succeeded exactly if it did, and is told of its failure
/// otherwise; one who does not wait is never told of a failure.
pub proof fn waiters_learn_the_outcome(
    outcome: Result<(), LsmError>,
    told: Result<(), LsmError>,
    dropped: &str,
    waited: Result<(), LsmError>,
    lost: Result<(), LsmError>,
    unwaited: Result<(), LsmError>,
)
    requires
        call_ensures(ack_result, (&outcome,), told),
        call_ensures(waiter_outcome, (true, Some(told), dropped), waited),
        call_ensures(waiter_outcome, (true, None, dropped), lost),
        call_ensures(waiter_outcome, (false, Some(told), dropped), unwaited),
    ensures
        waited is Ok <==> outcome is Ok,
        outcome matches Err(e) ==> (waited matches Err(LsmError::Internal(m)) && m@ == e.heading()
            + e.detail()),
        lost matches Err(LsmError::Internal(m)) && m@ == dropped@,
        unwaited is Ok,
{
}

} // verus!
