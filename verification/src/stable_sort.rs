//! Sorting by a number, with items of equal numbers in their first order.

use std::collections::VecDeque;
use vstd::prelude::*;

verus! {

/// Items that carry a number by which they are ordered.
pub trait Stamped: Sized {
    /// The number.
    spec fn stamp_of(self) -> u64;

    /// The number.
    fn stamp(&self) -> (r: u64)
        ensures
            r == self.stamp_of(),
    ;
}

/// The items with this number, in their order.
pub open spec fn at_stamp<T: Stamped>(items: Seq<T>, stamp: u64) -> Seq<T> {
    items.filter(|x: T| x.stamp_of() == stamp)
}

/// The numbers of the items never fall.
pub open spec fn ascending<T: Stamped>(items: Seq<T>) -> bool {
    forall|i: int, j: int|
        0 <= i <= j < items.len() ==> (#[trigger] items[i]).stamp_of() <= (
        #[trigger] items[j]).stamp_of()
}

/// `after` holds the items of `before` in ascending order, and items of one number in the order
/// that they had.
pub open spec fn stably_sorted<T: Stamped>(before: Seq<T>, after: Seq<T>) -> bool {
    &&& ascending(after)
    &&& after.len() == before.len()
    &&& forall|stamp: u64| #[trigger] at_stamp(after, stamp) == at_stamp(before, stamp)
}

proof fn at_stamp_add<T: Stamped>(a: Seq<T>, b: Seq<T>, stamp: u64)
    ensures
        at_stamp(a + b, stamp) == at_stamp(a, stamp) + at_stamp(b, stamp),
{
    Seq::filter_distributes_over_add(a, b, |x: T| x.stamp_of() == stamp);
}

proof fn at_stamp_absent<T: Stamped>(a: Seq<T>, stamp: u64)
    requires
        forall|i: int| 0 <= i < a.len() ==> (#[trigger] a[i]).stamp_of() != stamp,
    ensures
        at_stamp(a, stamp) == Seq::<T>::empty(),
    decreases a.len(),
{
    reveal(Seq::filter);
    if a.len() > 0 {
        at_stamp_absent(a.drop_last(), stamp);
    }
}

/// Sorting adds no item.
pub proof fn sorted_item_was_there<T: Stamped>(before: Seq<T>, after: Seq<T>, i: int)
    requires
        stably_sorted(before, after),
        0 <= i < after.len(),
    ensures
        before.contains(after[i]),
{
    let stamp = after[i].stamp_of();
    at_stamp_holds(after, stamp, i);
    assert(at_stamp(before, stamp).contains(after[i]));
    at_stamp_holds_no_other(before, stamp, after[i]);
}

/// Sorting drops no item.
pub proof fn item_is_kept<T: Stamped>(before: Seq<T>, after: Seq<T>, i: int)
    requires
        stably_sorted(before, after),
        0 <= i < before.len(),
    ensures
        after.contains(before[i]),
{
    let stamp = before[i].stamp_of();
    at_stamp_holds(before, stamp, i);
    assert(at_stamp(after, stamp) == at_stamp(before, stamp));
    at_stamp_holds_no_other(after, stamp, before[i]);
}

proof fn at_stamp_holds<T: Stamped>(items: Seq<T>, stamp: u64, i: int)
    requires
        0 <= i < items.len(),
        items[i].stamp_of() == stamp,
    ensures
        at_stamp(items, stamp).contains(items[i]),
    decreases items.len(),
{
    reveal(Seq::filter);
    let before = at_stamp(items.drop_last(), stamp);
    if i < items.len() - 1 {
        at_stamp_holds(items.drop_last(), stamp, i);
        let k = choose|k: int| 0 <= k < before.len() && before[k] == items[i];
        assert(at_stamp(items, stamp)[k] == items[i]);
    } else {
        assert(at_stamp(items, stamp)[before.len() as int] == items[i]);
    }
}

proof fn at_stamp_holds_no_other<T: Stamped>(items: Seq<T>, stamp: u64, x: T)
    requires
        at_stamp(items, stamp).contains(x),
    ensures
        items.contains(x),
    decreases items.len(),
{
    reveal(Seq::filter);
    if items.len() > 0 {
        let before = at_stamp(items.drop_last(), stamp);
        let all = at_stamp(items, stamp);
        let k = choose|k: int| 0 <= k < all.len() && all[k] == x;
        if k < before.len() {
            assert(before[k] == x);
            at_stamp_holds_no_other(items.drop_last(), stamp, x);
            let j = choose|j: int| 0 <= j < items.len() - 1 && items.drop_last()[j] == x;
            assert(items[j] == x);
        } else {
            assert(items[items.len() - 1] == x);
        }
    }
}

/// One sequence for each of the items, in their order: what was merged, then both rests.
proof fn first_moves_left<T: Stamped>(out: Seq<T>, a: Seq<T>, b: Seq<T>, stamp: u64)
    requires
        a.len() > 0,
    ensures
        at_stamp(out.push(a[0]) + a.subrange(1, a.len() as int) + b, stamp) == at_stamp(
            out + a + b,
            stamp,
        ),
{
    assert(out.push(a[0]) + a.subrange(1, a.len() as int) + b =~= out + a + b);
}

proof fn second_moves_left<T: Stamped>(out: Seq<T>, a: Seq<T>, b: Seq<T>, stamp: u64)
    requires
        b.len() > 0,
        forall|i: int| 0 <= i < a.len() ==> (#[trigger] a[i]).stamp_of() != b[0].stamp_of(),
    ensures
        at_stamp(out.push(b[0]) + a + b.subrange(1, b.len() as int), stamp) == at_stamp(
            out + a + b,
            stamp,
        ),
{
    let one = seq![b[0]];
    let rest = b.subrange(1, b.len() as int);
    assert(out.push(b[0]) + a + rest =~= out + (one + a) + rest);
    assert(out + a + b =~= out + (a + one) + rest);
    at_stamp_add(out + (one + a), rest, stamp);
    at_stamp_add(out, one + a, stamp);
    at_stamp_add(one, a, stamp);
    at_stamp_add(out + (a + one), rest, stamp);
    at_stamp_add(out, a + one, stamp);
    at_stamp_add(a, one, stamp);
    if stamp == b[0].stamp_of() {
        at_stamp_absent(a, stamp);
        assert(at_stamp(one, stamp) + Seq::<T>::empty() =~= Seq::<T>::empty() + at_stamp(one, stamp));
    } else {
        at_stamp_absent(one, stamp);
        assert(at_stamp(a, stamp) + Seq::<T>::empty() =~= Seq::<T>::empty() + at_stamp(a, stamp));
    }
}

fn merge<T: Stamped>(a: VecDeque<T>, b: VecDeque<T>) -> (out: VecDeque<T>)
    requires
        ascending(a@),
        ascending(b@),
    ensures
        stably_sorted(a@ + b@, out@),
{
    let ghost whole = a@ + b@;
    let mut a = a;
    let mut b = b;
    let mut out: VecDeque<T> = VecDeque::new();
    proof {
        assert(out@ + a@ + b@ =~= whole);
    }
    while a.len() > 0 || b.len() > 0
        invariant
            ascending(a@),
            ascending(b@),
            ascending(out@),
            out@.len() + a@.len() + b@.len() == whole.len(),
            forall|i: int, j: int|
                0 <= i < out@.len() && 0 <= j < a@.len() ==> (#[trigger] out@[i]).stamp_of() <= (
                #[trigger] a@[j]).stamp_of(),
            forall|i: int, j: int|
                0 <= i < out@.len() && 0 <= j < b@.len() ==> (#[trigger] out@[i]).stamp_of() <= (
                #[trigger] b@[j]).stamp_of(),
            forall|stamp: u64|
                #[trigger] at_stamp(out@ + a@ + b@, stamp) == at_stamp(whole, stamp),
        decreases a.len() + b.len(),
    {
        let ghost (a0, b0, out0) = (a@, b@, out@);
        let from_first: bool = if a.len() == 0 {
            false
        } else if b.len() == 0 {
            true
        } else {
            a[0].stamp() <= b[0].stamp()
        };
        if from_first {
            if let Some(x) = a.pop_front() {
                out.push_back(x);
                proof {
                    assert forall|stamp: u64| #[trigger]
                        at_stamp(out@ + a@ + b@, stamp) == at_stamp(whole, stamp) by {
                        first_moves_left(out0, a0, b0, stamp);
                        assert(at_stamp(out0 + a0 + b0, stamp) == at_stamp(whole, stamp));
                    }
                    assert(forall|j: int| 0 <= j < a@.len() ==> #[trigger] a@[j] == a0[j + 1]);
                }
            }
        } else {
            if let Some(x) = b.pop_front() {
                out.push_back(x);
                proof {
                    assert forall|i: int| 0 <= i < a0.len() implies (#[trigger] a0[i]).stamp_of()
                        != b0[0].stamp_of() by {
                        assert(a0[0].stamp_of() <= a0[i].stamp_of());
                    }
                    assert forall|stamp: u64| #[trigger]
                        at_stamp(out@ + a@ + b@, stamp) == at_stamp(whole, stamp) by {
                        second_moves_left(out0, a0, b0, stamp);
                        assert(at_stamp(out0 + a0 + b0, stamp) == at_stamp(whole, stamp));
                    }
                    assert(forall|j: int| 0 <= j < b@.len() ==> #[trigger] b@[j] == b0[j + 1]);
                }
            }
        }
    }
    proof {
        assert(out@ + a@ + b@ =~= out@);
        assert forall|stamp: u64| #[trigger]
            at_stamp(out@, stamp) == at_stamp(whole, stamp) by {
            assert(at_stamp(out@ + a@ + b@, stamp) == at_stamp(whole, stamp));
        }
    }
    out
}

fn merge_sort<T: Stamped>(items: VecDeque<T>) -> (out: VecDeque<T>)
    ensures
        stably_sorted(items@, out@),
    decreases items@.len(),
{
    if items.len() <= 1 {
        return items;
    }
    let ghost whole = items@;
    let mut first = items;
    let mid = first.len() / 2;
    let second = first.split_off(mid);
    let ghost (f, s) = (first@, second@);
    proof {
        assert(f + s =~= whole);
    }
    let a = merge_sort(first);
    let b = merge_sort(second);
    let out = merge(a, b);
    proof {
        assert forall|stamp: u64| #[trigger]
            at_stamp(out@, stamp) == at_stamp(whole, stamp) by {
            at_stamp_add(a@, b@, stamp);
            at_stamp_add(f, s, stamp);
            assert(at_stamp(a@, stamp) == at_stamp(f, stamp));
            assert(at_stamp(b@, stamp) == at_stamp(s, stamp));
            assert(at_stamp(out@, stamp) == at_stamp(a@ + b@, stamp));
        }
    }
    out
}

/// The items in ascending order of their numbers, equal numbers in their first order.
pub fn sort_by_stamp<T: Stamped>(items: Vec<T>) -> (r: Vec<T>)
    ensures
        stably_sorted(items@, r@),
{
    let ghost whole = items@;
    let mut items = items;
    let mut queue: VecDeque<T> = VecDeque::new();
    assert(items@ + queue@ =~= whole);
    while items.len() > 0
        invariant
            items@ + queue@ == whole,
        decreases items.len(),
    {
        let ghost before = items@ + queue@;
        if let Some(x) = items.pop() {
            queue.push_front(x);
            assert(items@ + queue@ =~= before);
        }
    }
    assert(queue@ =~= whole);
    let mut sorted = merge_sort(queue);
    let ghost order = sorted@;
    let mut out: Vec<T> = Vec::with_capacity(sorted.len());
    assert(out@ + sorted@ =~= order);
    while sorted.len() > 0
        invariant
            out@ + sorted@ == order,
        decreases sorted.len(),
    {
        let ghost before = out@ + sorted@;
        if let Some(x) = sorted.pop_front() {
            out.push(x);
            assert(out@ + sorted@ =~= before);
        }
    }
    assert(out@ =~= order);
    out
}

/// What is sorted already stays as it is.
pub proof fn sorted_stays<T: Stamped>(before: Seq<T>, after: Seq<T>)
    requires
        ascending(before),
        stably_sorted(before, after),
    ensures
        after == before,
{
    same_order(before, after);
}

/// There is one stable order only.
pub proof fn same_order<T: Stamped>(a: Seq<T>, b: Seq<T>)
    requires
        ascending(a),
        ascending(b),
        a.len() == b.len(),
        forall|stamp: u64| #[trigger] at_stamp(a, stamp) == at_stamp(b, stamp),
    ensures
        a == b,
    decreases a.len(),
{
    reveal(Seq::filter);
    if a.len() > 0 {
        let (x, y) = (a.last(), b.last());
        let (a1, b1) = (a.drop_last(), b.drop_last());
        if x.stamp_of() < y.stamp_of() {
            at_stamp_absent(a, y.stamp_of());
            assert(at_stamp(b, y.stamp_of()) == at_stamp(b1, y.stamp_of()).push(y));
            assert(at_stamp(a, y.stamp_of()) == at_stamp(b, y.stamp_of()));
            assert(false);
        }
        if y.stamp_of() < x.stamp_of() {
            at_stamp_absent(b, x.stamp_of());
            assert(at_stamp(a, x.stamp_of()) == at_stamp(a1, x.stamp_of()).push(x));
            assert(at_stamp(a, x.stamp_of()) == at_stamp(b, x.stamp_of()));
            assert(false);
        }
        let top = x.stamp_of();
        assert(at_stamp(a, top) == at_stamp(a1, top).push(x));
        assert(at_stamp(b, top) == at_stamp(b1, top).push(y));
        assert(at_stamp(a, top) == at_stamp(b, top));
        assert(at_stamp(a, top).last() == x && at_stamp(b, top).last() == y);
        assert(at_stamp(a, top).drop_last() =~= at_stamp(a1, top));
        assert(at_stamp(b, top).drop_last() =~= at_stamp(b1, top));
        assert forall|stamp: u64| #[trigger] at_stamp(a1, stamp) == at_stamp(b1, stamp) by {
            assert(at_stamp(a, stamp) == at_stamp(b, stamp));
            if stamp != top {
                assert(at_stamp(a, stamp) == at_stamp(a1, stamp));
                assert(at_stamp(b, stamp) == at_stamp(b1, stamp));
            }
        }
        same_order(a1, b1);
        assert(a =~= a1.push(x));
        assert(b =~= b1.push(y));
    } else {
        assert(a =~= b);
    }
}

} // verus!
