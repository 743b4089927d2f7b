//! Facts about sequences.

use vstd::prelude::*;

verus! {

/// Where exactly the elements from `lo` up to `hi` have a property, they are what a filter keeps.
pub proof fn filter_span<A>(s: Seq<A>, keep: spec_fn(A) -> bool, lo: int, hi: int)
    requires
        0 <= lo <= hi <= s.len(),
        forall|i: int| 0 <= i < s.len() ==> (#[trigger] keep(s[i]) <==> lo <= i < hi),
    ensures
        s.filter(keep) == s.subrange(lo, hi),
    decreases s.len(),
{
    reveal(Seq::filter);
    if s.len() > 0 {
        let before = s.drop_last();
        let last = s.len() - 1;
        assert(keep(s[last]) <==> lo <= last < hi);
        assert forall|i: int| 0 <= i < before.len() implies (#[trigger] keep(before[i]) <==> lo <= i
            < (if hi <= before.len() { hi } else { before.len() as int })) by {
            assert(before[i] == s[i]);
        }
        if hi == s.len() {
            if lo < s.len() {
                filter_span(before, keep, lo, hi - 1);
                assert(before.subrange(lo, hi - 1).push(s.last()) =~= s.subrange(lo, hi));
            } else {
                assert forall|i: int| 0 <= i < before.len() implies (#[trigger] keep(before[i]) <==> lo
                    - 1 <= i < hi - 1) by {
                    assert(before[i] == s[i]);
                }
                filter_span(before, keep, lo - 1, hi - 1);
                assert(before.subrange(lo - 1, hi - 1) =~= s.subrange(lo, hi));
            }
        } else {
            filter_span(before, keep, lo, hi);
            assert(before.subrange(lo, hi) =~= s.subrange(lo, hi));
        }
    } else {
        assert(s =~= s.subrange(lo, hi));
    }
}

/// A filter over one element more.
pub proof fn filter_step<A>(s: Seq<A>, keep: spec_fn(A) -> bool, i: int)
    requires
        0 <= i < s.len(),
    ensures
        s.take(i + 1).filter(keep) == if keep(s[i]) {
            s.take(i).filter(keep).push(s[i])
        } else {
            s.take(i).filter(keep)
        },
{
    reveal(Seq::filter);
    assert(s.take(i + 1).drop_last() =~= s.take(i));
}

/// A filter over nothing.
pub proof fn filter_none<A>(s: Seq<A>, keep: spec_fn(A) -> bool)
    ensures
        s.take(0).filter(keep) == Seq::<A>::empty(),
{
    reveal(Seq::filter);
    assert(s.take(0) =~= Seq::empty());
}

/// What a filter keeps stands in its first order: the places from which it comes ascend, and each
/// place whose item is kept is among them.
pub proof fn filter_places<A>(s: Seq<A>, keep: spec_fn(A) -> bool) -> (at: Seq<int>)
    ensures
        at.len() == s.filter(keep).len(),
        forall|k: int|
            0 <= k < at.len() ==> 0 <= #[trigger] at[k] < s.len() && s[at[k]] == s.filter(keep)[k]
                && keep(s[at[k]]),
        forall|k: int, l: int| 0 <= k < l < at.len() ==> #[trigger] at[k] < #[trigger] at[l],
        forall|i: int| 0 <= i < s.len() && keep(#[trigger] s[i]) ==> at.contains(i),
    decreases s.len(),
{
    reveal(Seq::filter);
    if s.len() == 0 {
        Seq::empty()
    } else {
        let before = filter_places(s.drop_last(), keep);
        let n = s.len() - 1;
        assert forall|k: int| 0 <= k < before.len() implies 0 <= #[trigger] before[k] < n
            && s[before[k]] == s.drop_last().filter(keep)[k] by {
            assert(s.drop_last()[before[k]] == s[before[k]]);
        }
        let at = if keep(s.last()) {
            before.push(n)
        } else {
            before
        };
        assert forall|i: int| 0 <= i < s.len() && keep(#[trigger] s[i]) implies at.contains(i) by {
            if i < n {
                assert(s.drop_last()[i] == s[i]);
                assert(before.contains(i));
                let k = choose|k: int| 0 <= k < before.len() && before[k] == i;
                assert(at[k] == i);
            } else {
                assert(at[before.len() as int] == n);
            }
        }
        at
    }
}

} // verus!
