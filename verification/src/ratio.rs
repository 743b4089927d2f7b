//! Rates as exact fractions.

use vstd::prelude::*;

verus! {

/// A rate: a part of a whole. The whole of a rate of nothing is 1.
#[derive(Debug, Clone, Copy, PartialEq, Eq, Structural)]
pub struct Ratio {
    /// The part.
    pub part: u64,
    /// The whole.
    pub whole: u64,
}

impl Ratio {
    /// The part of the whole; nothing where the whole is nothing.
    pub open spec fn of_parts(part: int, whole: int) -> Ratio {
        if whole == 0 {
            Ratio { part: 0, whole: 1 }
        } else {
            Ratio { part: part as u64, whole: whole as u64 }
        }
    }

    /// The part of the whole; nothing where the whole is nothing.
    pub fn of(part: u64, whole: u64) -> (r: Self)
        ensures
            r == Ratio::of_parts(part as int, whole as int),
    {
        if whole == 0 {
            Ratio { part: 0, whole: 1 }
        } else {
            Ratio { part, whole }
        }
    }
}

} // verus!
