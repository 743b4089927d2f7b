//! Spans of time.

use vstd::prelude::*;

verus! {

/// A span of time: whole seconds and the nanoseconds beyond them.
#[derive(Debug, Clone, Copy, PartialEq, Eq, Structural)]
pub struct Duration {
    /// Whole seconds.
    pub secs: u64,
    /// Nanoseconds beyond the whole seconds, fewer than a second.
    pub nanos: u32,
}

impl Duration {
    /// The nanoseconds are fewer than a second.
    pub open spec fn wf(self) -> bool {
        self.nanos < 1_000_000_000
    }

    /// The span in milliseconds, cut off.
    pub open spec fn millis(self) -> nat {
        (self.secs * 1000 + self.nanos / 1_000_000) as nat
    }

    /// The span in nanoseconds.
    pub open spec fn total_nanos(self) -> nat {
        (self.secs * 1_000_000_000 + self.nanos) as nat
    }

    /// The sum of two spans.
    pub open spec fn sum(self, other: Duration) -> Duration {
        let nanos = self.nanos + other.nanos;
        if nanos >= 1_000_000_000 {
            Duration { secs: (self.secs + other.secs + 1) as u64, nanos: (nanos - 1_000_000_000) as u32 }
        } else {
            Duration { secs: (self.secs + other.secs) as u64, nanos: nanos as u32 }
        }
    }

    /// The sum can be told in seconds.
    pub open spec fn sum_fits(self, other: Duration) -> bool {
        self.secs + other.secs + (self.nanos + other.nanos) / 1_000_000_000 <= u64::MAX
    }

    /// The nanoseconds of a sum are the sum of the nanoseconds.
    pub proof fn sum_adds_up(self, other: Duration)
        requires
            self.wf(),
            other.wf(),
            self.sum_fits(other),
        ensures
            self.sum(other).wf(),
            self.sum(other).total_nanos() == self.total_nanos() + other.total_nanos(),
    {
    }

    /// The sum of two spans.
    pub fn plus(self, other: Duration) -> (r: Self)
        requires
            self.wf(),
            other.wf(),
            self.sum_fits(other),
        ensures
            r == self.sum(other),
            r.wf(),
            r.total_nanos() == self.total_nanos() + other.total_nanos(),
    {
        let nanos: u32 = self.nanos + other.nanos;
        if nanos >= 1_000_000_000 {
            Duration { secs: self.secs + other.secs + 1, nanos: nanos - 1_000_000_000 }
        } else {
            Duration { secs: self.secs + other.secs, nanos }
        }
    }

    /// Whether the span is shorter than another.
    pub fn less_than(self, other: Duration) -> (r: bool)
        requires
            self.wf(),
            other.wf(),
        ensures
            r == (self.total_nanos() < other.total_nanos()),
    {
        self.secs < other.secs || (self.secs == other.secs && self.nanos < other.nanos)
    }

    /// A number of seconds.
    pub fn from_secs(secs: u64) -> (r: Self)
        ensures
            r == (Duration { secs, nanos: 0 }),
    {
        Duration { secs, nanos: 0 }
    }

    /// A number of milliseconds.
    pub fn from_millis(millis: u64) -> (r: Self)
        ensures
            r == (Duration { secs: millis / 1000, nanos: ((millis % 1000) * 1_000_000) as u32 }),
            r.millis() == millis,
            r.wf(),
    {
        Duration { secs: millis / 1000, nanos: ((millis % 1000) * 1_000_000) as u32 }
    }

    /// Whole seconds.
    pub fn as_secs(&self) -> (r: u64)
        ensures
            r == self.secs,
    {
        self.secs
    }

    /// Milliseconds beyond the whole seconds.
    pub fn subsec_millis(&self) -> (r: u32)
        ensures
            r == self.nanos / 1_000_000,
    {
        self.nanos / 1_000_000
    }

    /// Whether the span is empty.
    pub fn is_zero(&self) -> (r: bool)
        ensures
            r == (self.secs == 0 && self.nanos == 0),
    {
        self.secs == 0 && self.nanos == 0
    }
}

} // verus!
