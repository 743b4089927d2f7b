//! Byte strings: lexicographic order, prefixes and slices.

use vstd::bytes::*;
use vstd::prelude::*;
use vstd::slice::*;

verus! {

/// Lexicographic order on byte strings; a proper prefix comes first.
pub open spec fn bytes_lt(a: Seq<u8>, b: Seq<u8>) -> bool
    decreases a.len(),
{
    if b.len() == 0 {
        false
    } else if a.len() == 0 {
        true
    } else if a[0] != b[0] {
        a[0] < b[0]
    } else {
        bytes_lt(a.drop_first(), b.drop_first())
    }
}

/// `prefix` is a prefix of `s`.
pub open spec fn starts_with(s: Seq<u8>, prefix: Seq<u8>) -> bool {
    prefix.len() <= s.len() && s.take(prefix.len() as int) == prefix
}

/// No byte string comes before itself.
pub proof fn bytes_lt_irreflexive(a: Seq<u8>)
    ensures
        !bytes_lt(a, a),
    decreases a.len(),
{
    if a.len() > 0 {
        bytes_lt_irreflexive(a.drop_first());
    }
}

/// The order is transitive.
pub proof fn bytes_lt_transitive(a: Seq<u8>, b: Seq<u8>, c: Seq<u8>)
    requires
        bytes_lt(a, b),
        bytes_lt(b, c),
    ensures
        bytes_lt(a, c),
    decreases a.len(),
{
    if a.len() > 0 && a[0] == b[0] && b[0] == c[0] {
        bytes_lt_transitive(a.drop_first(), b.drop_first(), c.drop_first());
    }
}

/// Of two byte strings one comes first, or they are equal.
pub proof fn bytes_lt_total(a: Seq<u8>, b: Seq<u8>)
    ensures
        bytes_lt(a, b) || bytes_lt(b, a) || a == b,
    decreases a.len(),
{
    if a.len() > 0 && b.len() > 0 && a[0] == b[0] {
        bytes_lt_total(a.drop_first(), b.drop_first());
        if a.drop_first() == b.drop_first() {
            assert(a.drop_first().len() == b.drop_first().len());
            assert forall|i: int| 0 <= i < a.len() implies a[i] == b[i] by {
                if i > 0 {
                    assert(a[i] == a.drop_first()[i - 1]);
                    assert(b[i] == b.drop_first()[i - 1]);
                }
            }
            assert(a =~= b);
        }
    } else if a.len() == 0 && b.len() == 0 {
        assert(a =~= b);
    }
}

/// Two byte strings never come before each other.
pub proof fn bytes_lt_asymmetric(a: Seq<u8>, b: Seq<u8>)
    requires
        bytes_lt(a, b),
    ensures
        !bytes_lt(b, a),
{
    if bytes_lt(b, a) {
        bytes_lt_transitive(a, b, a);
        bytes_lt_irreflexive(a);
    }
}

/// Where `a` is before `b` and `c` is not before `b`, `a` is before `c`.
pub proof fn bytes_lt_then_not_before(a: Seq<u8>, b: Seq<u8>, c: Seq<u8>)
    requires
        bytes_lt(a, b),
        !bytes_lt(c, b),
    ensures
        bytes_lt(a, c),
{
    bytes_lt_total(b, c);
    if bytes_lt(b, c) {
        bytes_lt_transitive(a, b, c);
    }
}

/// Every byte string that `prefix` begins is at or after `prefix`.
pub proof fn prefix_not_after(s: Seq<u8>, prefix: Seq<u8>)
    requires
        starts_with(s, prefix),
    ensures
        !bytes_lt(s, prefix),
    decreases s.len(),
{
    if prefix.len() > 0 {
        assert(s.take(prefix.len() as int)[0] == s[0]);
        assert(s.drop_first().take(prefix.len() - 1) =~= s.take(prefix.len() as int).drop_first());
        prefix_not_after(s.drop_first(), prefix.drop_first());
    }
}

/// Between two byte strings that `prefix` begins, every byte string has that prefix.
pub proof fn prefix_convex(prefix: Seq<u8>, a: Seq<u8>, s: Seq<u8>)
    requires
        !starts_with(a, prefix),
        !bytes_lt(a, prefix),
        bytes_lt(a, s),
    ensures
        !starts_with(s, prefix),
    decreases prefix.len(),
{
    if starts_with(s, prefix) {
        if prefix.len() == 0 {
            assert(a.take(0) =~= prefix);
        } else {
            assert(s.take(prefix.len() as int)[0] == s[0]);
            assert(s.drop_first().take(prefix.len() - 1) =~= s.take(prefix.len() as int).drop_first());
            if a.len() > 0 && a[0] == prefix[0] {
                if starts_with(a.drop_first(), prefix.drop_first()) {
                    assert(a.take(prefix.len() as int) =~= seq![a[0]] + a.drop_first().take(
                        prefix.len() - 1,
                    ));
                    assert(prefix =~= seq![prefix[0]] + prefix.drop_first());
                }
                prefix_convex(prefix.drop_first(), a.drop_first(), s.drop_first());
            }
        }
    }
}

/// Whether `a` comes before `b`.
pub fn bytes_less(a: &[u8], b: &[u8]) -> (r: bool)
    ensures
        r == bytes_lt(a@, b@),
{
    let mut i: usize = 0;
    proof {
        assert(a@.skip(0) =~= a@);
        assert(b@.skip(0) =~= b@);
    }
    while i < a.len() && i < b.len() && a[i] == b[i]
        invariant
            i <= a@.len(),
            i <= b@.len(),
            bytes_lt(a@, b@) == bytes_lt(a@.skip(i as int), b@.skip(i as int)),
        decreases a@.len() - i,
    {
        proof {
            let x = a@.skip(i as int);
            let y = b@.skip(i as int);
            assert(x[0] == a@[i as int] && y[0] == b@[i as int]);
            assert(x.drop_first() =~= a@.skip(i + 1));
            assert(y.drop_first() =~= b@.skip(i + 1));
        }
        i = i + 1;
    }
    if i >= b.len() {
        false
    } else if i >= a.len() {
        true
    } else {
        a[i] < b[i]
    }
}

/// Whether the two byte strings are equal.
pub fn bytes_equal(a: &[u8], b: &[u8]) -> (r: bool)
    ensures
        r == (a@ == b@),
{
    if a.len() != b.len() {
        return false;
    }
    let mut i: usize = 0;
    while i < a.len()
        invariant
            a@.len() == b@.len(),
            i <= a@.len(),
            forall|j: int| 0 <= j < i ==> a@[j] == b@[j],
        decreases a@.len() - i,
    {
        if a[i] != b[i] {
            return false;
        }
        i = i + 1;
    }
    assert(a@ =~= b@);
    true
}

/// Whether `prefix` begins `s`.
pub fn bytes_start_with(s: &[u8], prefix: &[u8]) -> (r: bool)
    ensures
        r == starts_with(s@, prefix@),
{
    if s.len() < prefix.len() {
        return false;
    }
    bytes_equal(slice_subrange(s, 0, prefix.len()), prefix)
}

/// Appends `more` to `out`.
pub fn extend(out: &mut Vec<u8>, more: &[u8])
    ensures
        final(out)@ == old(out)@ + more@,
{
    let ghost before = out@;
    out.extend_from_slice(more);
    assert(out@ =~= before + more@);
}

/// A byte string comes before `end` with a zero byte behind it exactly if it is not after `end`.
pub proof fn before_successor(s: Seq<u8>, end: Seq<u8>)
    ensures
        bytes_lt(s, end.push(0u8)) == !bytes_lt(end, s),
    decreases end.len(),
{
    let next = end.push(0u8);
    if end.len() == 0 {
        if s.len() > 0 {
            assert(next[0] == 0u8);
            assert(next.drop_first() =~= Seq::empty());
            assert(!bytes_lt(s.drop_first(), next.drop_first()));
        }
    } else {
        assert(next[0] == end[0]);
        assert(next.drop_first() =~= end.drop_first().push(0u8));
        if s.len() > 0 && s[0] == end[0] {
            before_successor(s.drop_first(), end.drop_first());
        }
    }
}

/// The parts, one after the other.
pub open spec fn flat(parts: Seq<Seq<u8>>) -> Seq<u8>
    decreases parts.len(),
{
    if parts.len() == 0 {
        Seq::empty()
    } else {
        flat(parts.drop_last()) + parts.last()
    }
}

/// One part more.
pub proof fn flat_push(parts: Seq<Seq<u8>>, part: Seq<u8>)
    ensures
        flat(parts.push(part)) == flat(parts) + part,
{
    assert(parts.push(part).drop_last() =~= parts);
}

/// The parts before and from `k` on.
pub proof fn flat_split(parts: Seq<Seq<u8>>, k: int)
    requires
        0 <= k <= parts.len(),
    ensures
        flat(parts) == flat(parts.take(k)) + flat(parts.skip(k)),
    decreases parts.len(),
{
    if k == parts.len() {
        assert(parts.take(k) =~= parts);
        assert(parts.skip(k) =~= Seq::empty());
        assert(flat(parts) + Seq::<u8>::empty() =~= flat(parts));
    } else {
        flat_split(parts.drop_last(), k);
        assert(parts.drop_last().take(k) =~= parts.take(k));
        assert(parts.skip(k).drop_last() =~= parts.drop_last().skip(k));
        assert(parts.skip(k).last() == parts.last());
        assert(flat(parts) =~= flat(parts.take(k)) + flat(parts.skip(k)));
    }
}

/// Part `k` stands behind the parts before it.
pub proof fn flat_at(parts: Seq<Seq<u8>>, k: int)
    requires
        0 <= k < parts.len(),
    ensures
        flat(parts) == flat(parts.take(k)) + parts[k] + flat(parts.skip(k + 1)),
        flat(parts.take(k + 1)) == flat(parts.take(k)) + parts[k],
        flat(parts.take(k)).len() + parts[k].len() <= flat(parts).len(),
        flat(parts).subrange(
            flat(parts.take(k)).len() as int,
            (flat(parts.take(k)).len() + parts[k].len()) as int,
        ) == parts[k],
{
    flat_split(parts, k + 1);
    assert(parts.take(k + 1).drop_last() =~= parts.take(k));
    assert(parts.take(k + 1).last() == parts[k]);
    assert(flat(parts).subrange(
        flat(parts.take(k)).len() as int,
        (flat(parts.take(k)).len() + parts[k].len()) as int,
    ) =~= parts[k]);
}

/// A 32-bit number is read back from its four bytes.
pub proof fn u32_back(x: u32)
    ensures
        spec_u32_to_le_bytes(x).len() == 4,
        spec_u32_from_le_bytes(spec_u32_to_le_bytes(x)) == x,
{
    lemma_auto_spec_u32_to_from_le_bytes();
    assert(spec_u32_to_le_bytes(x).len() == 4);
}

/// A 64-bit number is read back from its eight bytes.
pub proof fn u64_back(x: u64)
    ensures
        spec_u64_to_le_bytes(x).len() == 8,
        spec_u64_from_le_bytes(spec_u64_to_le_bytes(x)) == x,
{
    lemma_auto_spec_u64_to_from_le_bytes();
    assert(spec_u64_to_le_bytes(x).len() == 8);
}

proof fn first_difference_decides(a: Seq<u8>, b: Seq<u8>, i: int)
    requires
        0 <= i <= a.len(),
        i < b.len(),
        a.take(i) == b.take(i),
        i == a.len() || a[i] < b[i],
    ensures
        bytes_lt(a, b),
    decreases i,
{
    if i > 0 {
        assert(a.take(i)[0] == a[0]);
        assert(b.take(i)[0] == b[0]);
        assert(a.drop_first().take(i - 1) =~= a.take(i).drop_first());
        assert(b.drop_first().take(i - 1) =~= b.take(i).drop_first());
        first_difference_decides(a.drop_first(), b.drop_first(), i - 1);
    }
}

proof fn some_difference_is_first(a: Seq<u8>, b: Seq<u8>) -> (i: int)
    requires
        bytes_lt(a, b),
    ensures
        0 <= i <= a.len(),
        i < b.len(),
        a.take(i) == b.take(i),
        i == a.len() || a[i] < b[i],
    decreases a.len(),
{
    if a.len() == 0 || a[0] != b[0] {
        assert(a.take(0) =~= b.take(0));
        0
    } else {
        let i = some_difference_is_first(a.drop_first(), b.drop_first());
        assert(a.take(i + 1) =~= seq![a[0]] + a.drop_first().take(i));
        assert(b.take(i + 1) =~= seq![b[0]] + b.drop_first().take(i));
        i + 1
    }
}

/// Byte strings are compared by the first place in which they differ; where there is none, the
/// shorter one comes first.
pub proof fn first_difference_orders(a: &[u8], b: &[u8], less: bool)
    requires
        call_ensures(bytes_less, (a, b), less),
    ensures
        less <==> exists|i: int|
            0 <= i <= a@.len() && i < b@.len() && #[trigger] a@.take(i) == b@.take(i) && (i
                == a@.len() || a@[i] < b@[i]),
{
    if less {
        let i = some_difference_is_first(a@, b@);
        assert(a@.take(i) == b@.take(i));
    }
    if exists|i: int|
        0 <= i <= a@.len() && i < b@.len() && #[trigger] a@.take(i) == b@.take(i) && (i == a@.len()
            || a@[i] < b@[i]) {
        let i = choose|i: int|
            0 <= i <= a@.len() && i < b@.len() && #[trigger] a@.take(i) == b@.take(i) && (i
                == a@.len() || a@[i] < b@[i]);
        first_difference_decides(a@, b@, i);
    }
}

/// A byte string has a prefix exactly if it is that prefix with something behind it.
pub proof fn prefix_and_rest(s: &[u8], prefix: &[u8], yes: bool)
    requires
        call_ensures(bytes_start_with, (s, prefix), yes),
    ensures
        yes <==> exists|rest: Seq<u8>| s@ == #[trigger] (prefix@ + rest),
{
    if yes {
        let rest = s@.skip(prefix@.len() as int);
        assert(s@ =~= prefix@ + rest);
    }
    if exists|rest: Seq<u8>| s@ == #[trigger] (prefix@ + rest) {
        let rest = choose|rest: Seq<u8>| s@ == #[trigger] (prefix@ + rest);
        assert(s@.take(prefix@.len() as int) =~= prefix@);
    }
}

} // verus!
