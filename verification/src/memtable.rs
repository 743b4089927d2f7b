//! Memtable: the newest values of keys, in key order, with deleted keys marked by `Null`.

use crate::bytes::{self, bytes_equal, bytes_less, bytes_start_with};
use crate::engine_config::MemtableConfig;
use crate::error::LsmError;
use crate::lsm_utils::{self, exclusive_range_end};
use crate::seqs;
use crate::sst_query;
use crate::value::{self, Value};
use vstd::prelude::*;
use vstd::string::*;
use vstd::utf8::*;

verus! {

/// What a put did to a key.
#[derive(Debug, Clone, Copy, PartialEq, Eq, Structural)]
pub enum PutEffect {
    /// The key was not held.
    Inserted,
    /// The key had a value.
    UpdatedLive,
    /// The key was deleted.
    Resurrected,
}

/// What a lookup gives.
#[derive(Debug, Clone, PartialEq)]
pub enum MemtableLookupResult {
    /// The key has a value.
    Found(Value),
    /// The key is deleted.
    Tombstone,
    /// The key is not held.
    Missing,
}

/// A key and its value.
pub type Pair = (Seq<char>, value::ValueView);

/// A key, its value and whether it is deleted.
pub type LayerPair = (Seq<char>, value::ValueView, bool);

/// Keys and values as text and views.
pub open spec fn pairs_of(data: Seq<(String, Value)>) -> Seq<Pair> {
    data.map_values(|p: (String, Value)| (p.0@, p.1@))
}

/// The keys ascend in byte order.
pub open spec fn pairs_ascend(pairs: Seq<Pair>) -> bool {
    forall|i: int, j: int|
        0 <= i < j < pairs.len() ==> bytes::bytes_lt(
            encode_utf8(#[trigger] pairs[i].0),
            encode_utf8(#[trigger] pairs[j].0),
        )
}

/// The pairs as a map; of a key that occurs twice the later value counts.
pub open spec fn as_map(pairs: Seq<Pair>) -> Map<Seq<char>, value::ValueView>
    decreases pairs.len(),
{
    if pairs.len() == 0 {
        Map::empty()
    } else {
        as_map(pairs.drop_last()).insert(pairs.last().0, pairs.last().1)
    }
}

/// The pairs with a mark for deleted keys.
pub open spec fn layer_of(pairs: Seq<Pair>) -> Seq<LayerPair> {
    pairs.map_values(|p: Pair| (p.0, p.1, p.1 is Null))
}

/// The pairs whose key begins with `prefix`.
pub open spec fn pairs_with_prefix(pairs: Seq<Pair>, prefix: Seq<u8>) -> Seq<Pair> {
    pairs.filter(|p: Pair| bytes::starts_with(encode_utf8(p.0), prefix))
}

/// The pairs whose key is in a range.
pub open spec fn pairs_within(pairs: Seq<Pair>, start: Seq<u8>, end: Seq<u8>) -> Seq<Pair> {
    pairs.filter(|p: Pair| lsm_utils::in_range(encode_utf8(p.0), start, end))
}

/// The size that a key counts with: its bytes and those of its value, or one for the mark that a
/// deletion left.
pub open spec fn pair_size(key: Seq<char>, v: value::ValueView, marked: bool) -> nat {
    encode_utf8(key).len() + if marked {
        1
    } else {
        value::value_size(v)
    }
}

/// The size that the pairs count with together, with these keys marked as deleted.
pub open spec fn total_size(pairs: Seq<Pair>, marked: Set<Seq<char>>) -> nat
    decreases pairs.len(),
{
    if pairs.len() == 0 {
        0
    } else {
        total_size(pairs.drop_last(), marked) + pair_size(
            pairs.last().0,
            pairs.last().1,
            marked.contains(pairs.last().0),
        )
    }
}

proof fn total_agrees(pairs: Seq<Pair>, a: Set<Seq<char>>, b: Set<Seq<char>>)
    requires
        forall|i: int|
            0 <= i < pairs.len() ==> a.contains((#[trigger] pairs[i]).0) == b.contains(pairs[i].0),
    ensures
        total_size(pairs, a) == total_size(pairs, b),
    decreases pairs.len(),
{
    if pairs.len() > 0 {
        let before = pairs.drop_last();
        assert forall|i: int| 0 <= i < before.len() implies a.contains((#[trigger] before[i]).0)
            == b.contains(before[i].0) by {
            assert(before[i] == pairs[i]);
        }
        total_agrees(before, a, b);
        assert(pairs.last() == pairs[pairs.len() - 1]);
    }
}

proof fn total_with(pairs: Seq<Pair>, marked: Set<Seq<char>>, at: int, pair: Pair)
    requires
        0 <= at <= pairs.len(),
    ensures
        total_size(pairs.insert(at, pair), marked) == total_size(pairs, marked) + pair_size(
            pair.0,
            pair.1,
            marked.contains(pair.0),
        ),
    decreases pairs.len(),
{
    let more = pairs.insert(at, pair);
    if at == pairs.len() {
        assert(more.drop_last() =~= pairs);
    } else {
        total_with(pairs.drop_last(), marked, at, pair);
        assert(more.drop_last() =~= pairs.drop_last().insert(at, pair));
        assert(more.last() == pairs.last());
    }
}

proof fn total_without(pairs: Seq<Pair>, marked: Set<Seq<char>>, at: int)
    requires
        0 <= at < pairs.len(),
    ensures
        total_size(pairs.remove(at), marked) + pair_size(
            pairs[at].0,
            pairs[at].1,
            marked.contains(pairs[at].0),
        ) == total_size(pairs, marked),
{
    let rest = pairs.remove(at);
    total_with(rest, marked, at, pairs[at]);
    assert(rest.insert(at, pairs[at]) =~= pairs);
}

proof fn keys_are_distinct(pairs: Seq<Pair>, i: int, j: int)
    requires
        pairs_ascend(pairs),
        0 <= i < pairs.len(),
        0 <= j < pairs.len(),
        pairs[i].0 == pairs[j].0,
    ensures
        i == j,
{
    bytes::bytes_lt_irreflexive(encode_utf8(pairs[i].0));
    if i < j {
        assert(bytes::bytes_lt(encode_utf8(pairs[i].0), encode_utf8(pairs[j].0)));
    } else if j < i {
        assert(bytes::bytes_lt(encode_utf8(pairs[j].0), encode_utf8(pairs[i].0)));
    }
}

/// The totals around the place of a key: without the key they are one, whatever becomes of its mark.
proof fn total_around(pairs: Seq<Pair>, a: Set<Seq<char>>, b: Set<Seq<char>>, at: int)
    requires
        pairs_ascend(pairs),
        0 <= at < pairs.len(),
        forall|k: Seq<char>| k != pairs[at].0 ==> #[trigger] a.contains(k) == b.contains(k),
    ensures
        total_size(pairs.remove(at), a) == total_size(pairs.remove(at), b),
{
    let rest = pairs.remove(at);
    assert forall|i: int| 0 <= i < rest.len() implies a.contains((#[trigger] rest[i]).0)
        == b.contains(rest[i].0) by {
        let k = if i < at { i } else { i + 1 };
        assert(rest[i] == pairs[k]);
        if pairs[k].0 == pairs[at].0 {
            keys_are_distinct(pairs, k, at);
        }
    }
    total_agrees(rest, a, b);
}

/// The keys whose mark is set.
spec fn marked_keys(pairs: Seq<Pair>, marks: Seq<bool>) -> Set<Seq<char>> {
    Set::new(|k: Seq<char>| exists|i: int| marked_at(pairs, marks, k, i))
}

spec fn marked_at(pairs: Seq<Pair>, marks: Seq<bool>, k: Seq<char>, i: int) -> bool {
    0 <= i < pairs.len() && pairs[i].0 == k && marks[i]
}

proof fn marks_changed(pairs: Seq<Pair>, marks: Seq<bool>, at: int, pair: Pair, mark: bool)
    requires
        pairs_ascend(pairs),
        marks.len() == pairs.len(),
        0 <= at < pairs.len(),
        pairs[at].0 == pair.0,
    ensures
        marked_keys(pairs.update(at, pair), marks.update(at, mark)) == if mark {
            marked_keys(pairs, marks).insert(pair.0)
        } else {
            marked_keys(pairs, marks).remove(pair.0)
        },
        marked_keys(pairs, marks).contains(pair.0) == marks[at],
{
    let (p, m) = (pairs.update(at, pair), marks.update(at, mark));
    let was = marked_keys(pairs, marks);
    let is = marked_keys(p, m);
    let want = if mark { was.insert(pair.0) } else { was.remove(pair.0) };
    if was.contains(pair.0) {
        let i = choose|i: int| marked_at(pairs, marks, pair.0, i);
        keys_are_distinct(pairs, i, at);
    }
    if marks[at] {
        assert(marked_at(pairs, marks, pair.0, at));
    }
    assert forall|k: Seq<char>| #[trigger] is.contains(k) == want.contains(k) by {
        if is.contains(k) {
            let i = choose|i: int| marked_at(p, m, k, i);
            if i != at {
                assert(marked_at(pairs, marks, k, i));
                if k == pair.0 {
                    keys_are_distinct(pairs, i, at);
                }
            }
        }
        if want.contains(k) {
            if k == pair.0 {
                assert(marked_at(p, m, k, at));
            } else {
                let i = choose|i: int| marked_at(pairs, marks, k, i);
                assert(marked_at(p, m, k, i));
            }
        }
    }
    assert(is =~= want);
}

proof fn marks_inserted(pairs: Seq<Pair>, marks: Seq<bool>, at: int, pair: Pair, mark: bool)
    requires
        marks.len() == pairs.len(),
        0 <= at <= pairs.len(),
        forall|i: int| 0 <= i < pairs.len() ==> (#[trigger] pairs[i]).0 != pair.0,
    ensures
        marked_keys(pairs.insert(at, pair), marks.insert(at, mark)) == if mark {
            marked_keys(pairs, marks).insert(pair.0)
        } else {
            marked_keys(pairs, marks).remove(pair.0)
        },
        !marked_keys(pairs, marks).contains(pair.0),
{
    let (p, m) = (pairs.insert(at, pair), marks.insert(at, mark));
    let was = marked_keys(pairs, marks);
    let is = marked_keys(p, m);
    let want = if mark { was.insert(pair.0) } else { was.remove(pair.0) };
    assert(!was.contains(pair.0)) by {
        if was.contains(pair.0) {
            let i = choose|i: int| marked_at(pairs, marks, pair.0, i);
            assert(pairs[i].0 == pair.0);
        }
    }
    assert forall|k: Seq<char>| #[trigger] is.contains(k) == want.contains(k) by {
        if is.contains(k) {
            let i = choose|i: int| marked_at(p, m, k, i);
            if i != at {
                let b = if i < at { i } else { i - 1 };
                assert(p[i] == pairs[b] && m[i] == marks[b]);
                assert(marked_at(pairs, marks, k, b));
            }
        }
        if want.contains(k) {
            if k == pair.0 {
                assert(p[at] == pair && m[at] == mark);
                assert(marked_at(p, m, k, at));
            } else {
                let b = choose|b: int| marked_at(pairs, marks, k, b);
                let i = if b < at { b } else { b + 1 };
                assert(p[i] == pairs[b] && m[i] == marks[b]);
                assert(marked_at(p, m, k, i));
            }
        }
    }
    assert(is =~= want);
}

/// A map holds exactly the pairs.
pub proof fn as_map_holds(pairs: Seq<Pair>)
    requires
        pairs_ascend(pairs),
    ensures
        forall|i: int|
            0 <= i < pairs.len() ==> as_map(pairs).dom().contains(#[trigger] pairs[i].0)
                && as_map(pairs)[pairs[i].0] == pairs[i].1,
        forall|k: Seq<char>| #[trigger]
            as_map(pairs).dom().contains(k) ==> exists|i: int| 0 <= i < pairs.len() && pairs[i].0 == k,
    decreases pairs.len(),
{
    if pairs.len() > 0 {
        let before = pairs.drop_last();
        assert(pairs_ascend(before));
        as_map_holds(before);
        assert forall|i: int| 0 <= i < pairs.len() implies as_map(pairs).dom().contains(
            #[trigger] pairs[i].0,
        ) && as_map(pairs)[pairs[i].0] == pairs[i].1 by {
            if i < before.len() {
                assert(before[i] == pairs[i]);
                bytes::bytes_lt_irreflexive(encode_utf8(pairs[i].0));
                assert(bytes::bytes_lt(
                    encode_utf8(pairs[i].0),
                    encode_utf8(pairs[pairs.len() - 1].0),
                ));
            }
        }
        assert forall|k: Seq<char>| #[trigger] as_map(pairs).dom().contains(k) implies exists|i: int|
            0 <= i < pairs.len() && pairs[i].0 == k by {
            if k == pairs.last().0 {
                assert(pairs[pairs.len() - 1].0 == k);
            } else {
                assert(as_map(before).dom().contains(k));
                let i = choose|i: int| 0 <= i < before.len() && before[i].0 == k;
                assert(pairs[i].0 == k);
            }
        }
    }
}

/// A key that is held by no pair is not in the map.
pub proof fn as_map_lacks(pairs: Seq<Pair>, key: Seq<char>)
    requires
        pairs_ascend(pairs),
        forall|i: int| 0 <= i < pairs.len() ==> #[trigger] pairs[i].0 != key,
    ensures
        !as_map(pairs).dom().contains(key),
{
    as_map_holds(pairs);
}

proof fn maps_agree<V>(a: Map<Seq<char>, V>, b: Map<Seq<char>, V>)
    requires
        forall|k: Seq<char>| #[trigger] a.dom().contains(k) == b.dom().contains(k),
        forall|k: Seq<char>| #[trigger] a.dom().contains(k) ==> a[k] == b[k],
    ensures
        a == b,
{
    assert(a =~= b);
}

/// Memtable: keys with their newest values, in key order.
#[derive(Debug)]
pub struct Memtable {
    config: MemtableConfig,
    data: Vec<(String, Value)>,
    marks: Vec<bool>,
    size: usize,
    entry_count: usize,
}

impl View for Memtable {
    type V = Map<Seq<char>, value::ValueView>;

    closed spec fn view(&self) -> Map<Seq<char>, value::ValueView> {
        as_map(pairs_of(self.data@))
    }
}

impl Memtable {
    /// The pairs in key order.
    pub closed spec fn pairs(&self) -> Seq<Pair> {
        pairs_of(self.data@)
    }

    /// The size that was counted.
    pub closed spec fn counted_size(&self) -> nat {
        self.size as nat
    }

    /// The entries that were counted.
    pub closed spec fn counted_entries(&self) -> nat {
        self.entry_count as nat
    }

    /// The size at which the memtable is full.
    pub closed spec fn limit(&self) -> nat {
        self.config.max_size as nat
    }

    /// The keys that a deletion marked, and nothing was put under since.
    pub closed spec fn marked(&self) -> Set<Seq<char>> {
        marked_keys(pairs_of(self.data@), self.marks@)
    }

    /// The keys ascend, and what was counted is what is held.
    pub closed spec fn wf(&self) -> bool {
        &&& pairs_ascend(pairs_of(self.data@))
        &&& self.marks@.len() == self.data@.len()
        &&& self.size == total_size(pairs_of(self.data@), self.marked())
        &&& self.entry_count == self.data@.len()
    }

    /// Creates an empty memtable.
    pub fn new(config: &MemtableConfig) -> (r: Result<Self, LsmError>)
        ensures
            r matches Ok(m) && {
                &&& m.wf()
                &&& m@ == Map::<Seq<char>, value::ValueView>::empty()
                &&& m.pairs() == Seq::<Pair>::empty()
                &&& m.marked() == Set::<Seq<char>>::empty()
                &&& m.counted_size() == 0
                &&& m.counted_entries() == 0
                &&& m.limit() == config.max_size
            },
    {
        let m = Memtable {
            config: *config,
            data: Vec::new(),
            marks: Vec::new(),
            size: 0,
            entry_count: 0,
        };
        assert(pairs_of(m.data@) =~= Seq::empty());
        assert(m.marked() =~= Set::empty());
        Ok(m)
    }

    /// First position whose key is not before `key`.
    fn position(&self, key: &[u8]) -> (r: usize)
        requires
            self.wf(),
        ensures
            r <= self.pairs().len(),
            forall|i: int|
                0 <= i < r ==> bytes::bytes_lt(encode_utf8(#[trigger] self.pairs()[i].0), key@),
            forall|i: int|
                r <= i < self.pairs().len() ==> !bytes::bytes_lt(
                    encode_utf8(#[trigger] self.pairs()[i].0),
                    key@,
                ),
    {
        let ghost pairs = self.pairs();
        let mut lo: usize = 0;
        let mut hi: usize = self.data.len();
        while lo < hi
            invariant
                pairs == self.pairs(),
                pairs_ascend(pairs),
                pairs.len() == self.data@.len(),
                lo <= hi <= pairs.len(),
                forall|i: int|
                    0 <= i < lo ==> bytes::bytes_lt(encode_utf8(#[trigger] pairs[i].0), key@),
                forall|i: int|
                    hi <= i < pairs.len() ==> !bytes::bytes_lt(encode_utf8(#[trigger] pairs[i].0), key@),
            decreases hi - lo,
        {
            let mid: usize = lo + (hi - lo) / 2;
            let k = self.data[mid].0.as_str().as_bytes();
            assert(k@ == encode_utf8(pairs[mid as int].0));
            if bytes_less(k, key) {
                proof {
                    assert forall|i: int| 0 <= i <= mid implies bytes::bytes_lt(
                        encode_utf8(#[trigger] pairs[i].0),
                        key@,
                    ) by {
                        if i < mid {
                            bytes::bytes_lt_transitive(encode_utf8(pairs[i].0), k@, key@);
                        }
                    }
                }
                lo = mid + 1;
            } else {
                proof {
                    assert forall|i: int| mid <= i < pairs.len() implies !bytes::bytes_lt(
                        encode_utf8(#[trigger] pairs[i].0),
                        key@,
                    ) by {
                        if mid < i && bytes::bytes_lt(encode_utf8(pairs[i].0), key@) {
                            bytes::bytes_lt_transitive(k@, encode_utf8(pairs[i].0), key@);
                        }
                    }
                }
                hi = mid;
            }
        }
        lo
    }

    /// The position of a key, or where it would be inserted.
    fn find(&self, key: &str) -> (r: (bool, usize))
        requires
            self.wf(),
        ensures
            r.0 ==> r.1 < self.pairs().len() && self.pairs()[r.1 as int].0 == key@,
            r.0 <==> self@.dom().contains(key@),
            r.0 ==> self@[key@] == self.pairs()[r.1 as int].1,
            !r.0 ==> {
                &&& r.1 <= self.pairs().len()
                &&& forall|i: int|
                    0 <= i < r.1 ==> bytes::bytes_lt(
                        encode_utf8(#[trigger] self.pairs()[i].0),
                        encode_utf8(key@),
                    )
                &&& forall|i: int|
                    r.1 <= i < self.pairs().len() ==> bytes::bytes_lt(
                        encode_utf8(key@),
                        encode_utf8(#[trigger] self.pairs()[i].0),
                    )
            },
    {
        let kb = key.as_bytes();
        let at: usize = self.position(kb);
        let ghost pairs = self.pairs();
        proof {
            as_map_holds(pairs);
            encode_utf8_decode_utf8(key@);
            bytes::bytes_lt_irreflexive(kb@);
        }
        if at < self.data.len() && bytes_equal(self.data[at].0.as_str().as_bytes(), kb) {
            proof {
                encode_utf8_decode_utf8(pairs[at as int].0);
            }
            assert(pairs[at as int].0 == key@);
            return (true, at);
        }
        proof {
            assert forall|i: int| at <= i < pairs.len() implies bytes::bytes_lt(
                kb@,
                encode_utf8(#[trigger] pairs[i].0),
            ) by {
                bytes::bytes_lt_total(kb@, encode_utf8(pairs[at as int].0));
                if i > at {
                    bytes::bytes_lt_transitive(
                        kb@,
                        encode_utf8(pairs[at as int].0),
                        encode_utf8(pairs[i].0),
                    );
                }
            }
            assert forall|i: int| 0 <= i < pairs.len() implies #[trigger] pairs[i].0 != key@ by {
                if i < at {
                    assert(bytes::bytes_lt(encode_utf8(pairs[i].0), kb@));
                } else {
                    assert(bytes::bytes_lt(kb@, encode_utf8(pairs[i].0)));
                }
            }
            as_map_lacks(pairs, key@);
        }
        (false, at)
    }

    /// Stores a value under a key, at the place that `find` gave.
    fn store(&mut self, key: &str, v: Value, mark: bool, held: bool, at: usize)
        requires
            pairs_ascend(old(self).pairs()),
            old(self).marks@.len() == old(self).pairs().len(),
            held ==> at < old(self).pairs().len() && old(self).pairs()[at as int].0 == key@,
            !held ==> {
                &&& at <= old(self).pairs().len()
                &&& forall|i: int|
                    0 <= i < at ==> bytes::bytes_lt(
                        encode_utf8(#[trigger] old(self).pairs()[i].0),
                        encode_utf8(key@),
                    )
                &&& forall|i: int|
                    at <= i < old(self).pairs().len() ==> bytes::bytes_lt(
                        encode_utf8(key@),
                        encode_utf8(#[trigger] old(self).pairs()[i].0),
                    )
            },
        ensures
            pairs_ascend(final(self).pairs()),
            final(self).pairs() == if held {
                old(self).pairs().update(at as int, (key@, v@))
            } else {
                old(self).pairs().insert(at as int, (key@, v@))
            },
            final(self).marks@ == if held {
                old(self).marks@.update(at as int, mark)
            } else {
                old(self).marks@.insert(at as int, mark)
            },
            final(self)@ == old(self)@.insert(key@, v@),
            final(self).counted_size() == old(self).counted_size(),
            final(self).counted_entries() == old(self).counted_entries(),
            final(self).limit() == old(self).limit(),
    {
        let ghost before = self.pairs();
        if held {
            let owned = key.to_owned();
            self.data.set(at, (owned, v));
            self.marks.set(at, mark);
            let ghost after = self.pairs();
            proof {
                assert(after =~= before.update(at as int, (key@, v@)));
                assert forall|i: int, j: int| 0 <= i < j < after.len() implies bytes::bytes_lt(
                    encode_utf8(#[trigger] after[i].0),
                    encode_utf8(#[trigger] after[j].0),
                ) by {
                    assert(after[i].0 == before[i].0 && after[j].0 == before[j].0);
                }
            }
        } else {
            let owned = key.to_owned();
            self.data.insert(at, (owned, v));
            self.marks.insert(at, mark);
            let ghost after = self.pairs();
            proof {
                assert(after =~= before.insert(at as int, (key@, v@)));
                assert forall|i: int, j: int| 0 <= i < j < after.len() implies bytes::bytes_lt(
                    encode_utf8(#[trigger] after[i].0),
                    encode_utf8(#[trigger] after[j].0),
                ) by {
                    let bi = if i < at { i } else { i - 1 };
                    let bj = if j < at { j } else { j - 1 };
                    if i != at {
                        assert(after[i] == before[bi]);
                    }
                    if j != at {
                        assert(after[j] == before[bj]);
                    }
                }
            }
        }
        let ghost after = self.pairs();
        proof {
            as_map_holds(before);
            as_map_holds(after);
            let want = old(self)@.insert(key@, v@);
            assert forall|k: Seq<char>| #[trigger]
                as_map(after).dom().contains(k) == want.dom().contains(k) by {
                if as_map(after).dom().contains(k) {
                    let i = choose|i: int| 0 <= i < after.len() && after[i].0 == k;
                    if k != key@ {
                        let b = if held || i < at { i } else { i - 1 };
                        assert(after[i] == before[b]);
                    }
                }
                if want.dom().contains(k) {
                    if k == key@ {
                        assert(after[at as int].0 == k);
                    } else {
                        let b = choose|b: int| 0 <= b < before.len() && before[b].0 == k;
                        let i = if held || b < at { b } else { b + 1 };
                        assert(after[i] == before[b]);
                    }
                }
            }
            assert forall|k: Seq<char>| #[trigger]
                as_map(after).dom().contains(k) implies as_map(after)[k] == want[k] by {
                if k == key@ {
                    assert(after[at as int] == (key@, v@));
                    assert(after[at as int].0 == k);
                } else {
                    let b = choose|b: int| 0 <= b < before.len() && before[b].0 == k;
                    let i = if held || b < at { b } else { b + 1 };
                    assert(after[i] == before[b]);
                    assert(after[i].0 == k);
                    assert(as_map(before)[before[b].0] == before[b].1);
                }
            }
            maps_agree(as_map(after), want);
        }
    }

    /// Puts a value under a key, or the mark of a deletion, and counts it.
    fn replace(&mut self, key: &str, v: Value, mark: bool) -> (r: Option<bool>)
        requires
            old(self).wf(),
            old(self).counted_size() + pair_size(key@, v@, mark) <= usize::MAX,
            !old(self)@.dom().contains(key@) ==> old(self).counted_entries() < usize::MAX,
        ensures
            final(self).wf(),
            final(self)@ == old(self)@.insert(key@, v@),
            final(self).marked() == if mark {
                old(self).marked().insert(key@)
            } else {
                old(self).marked().remove(key@)
            },
            final(self).limit() == old(self).limit(),
            match r {
                None => {
                    &&& !old(self)@.dom().contains(key@)
                    &&& final(self).counted_entries() == old(self).counted_entries() + 1
                    &&& final(self).counted_size() == old(self).counted_size() + pair_size(
                        key@,
                        v@,
                        mark,
                    )
                },
                Some(deleted) => {
                    &&& old(self)@.dom().contains(key@)
                    &&& deleted == (old(self)@[key@] is Null)
                    &&& final(self).counted_entries() == old(self).counted_entries()
                    &&& final(self).counted_size() + old(self).size_of_key(key@) == old(
                        self,
                    ).counted_size() + pair_size(key@, v@, mark)
                },
            },
    {
        let ghost pairs = self.pairs();
        let ghost marks = self.marks@;
        let ghost was = self.marked();
        let ghost pair = (key@, v@);
        let key_size: usize = key.as_bytes().len();
        let value_size: usize = if mark {
            1
        } else {
            v.serialized_size()
        };
        let (held, at) = self.find(key);
        if held {
            assert(self.data@[at as int].1@ == self@[key@]);
            proof {
                marks_changed(pairs, marks, at as int, pair, mark);
                total_without(pairs, was, at as int);
            }
            let deleted = self.data[at].1.is_null();
            let old_size: usize = if self.marks[at] {
                1
            } else {
                self.data[at].1.serialized_size()
            };
            let size: usize = self.size - (key_size + old_size) + (key_size + value_size);
            self.store(key, v, mark, held, at);
            self.size = size;
            proof {
                let now = self.marked();
                total_around(pairs, was, now, at as int);
                assert(self.pairs().remove(at as int) =~= pairs.remove(at as int));
                total_without(self.pairs(), now, at as int);
            }
            Some(deleted)
        } else {
            proof {
                assert forall|i: int| 0 <= i < pairs.len() implies (#[trigger] pairs[i]).0 != key@ by {
                    as_map_holds(pairs);
                    if pairs[i].0 == key@ {
                        assert(as_map(pairs).dom().contains(key@));
                    }
                }
                marks_inserted(pairs, marks, at as int, pair, mark);
            }
            let size: usize = self.size + (key_size + value_size);
            let entry_count: usize = self.entry_count + 1;
            self.store(key, v, mark, held, at);
            self.size = size;
            self.entry_count = entry_count;
            proof {
                let now = self.marked();
                total_with(pairs, now, at as int, pair);
                assert forall|i: int| 0 <= i < pairs.len() implies was.contains(
                    (#[trigger] pairs[i]).0,
                ) == now.contains(pairs[i].0) by {}
                total_agrees(pairs, was, now);
            }
            None
        }
    }

    /// The size that a held key counts with.
    pub open spec fn size_of_key(&self, key: Seq<char>) -> nat {
        pair_size(key, self@[key], self.marked().contains(key))
    }

    /// Stores a value under a key.
    pub fn put(&mut self, key: &str, v: &Value) -> (r: Result<PutEffect, LsmError>)
        requires
            old(self).wf(),
            old(self).counted_size() + pair_size(key@, v@, false) <= usize::MAX,
            old(self).counted_entries() < usize::MAX,
        ensures
            final(self).wf(),
            final(self)@ == old(self)@.insert(key@, v@),
            final(self).marked() == old(self).marked().remove(key@),
            final(self).limit() == old(self).limit(),
            r matches Ok(effect) && if !old(self)@.dom().contains(key@) {
                &&& effect == PutEffect::Inserted
                &&& final(self).counted_entries() == old(self).counted_entries() + 1
                &&& final(self).counted_size() == old(self).counted_size() + pair_size(
                    key@,
                    v@,
                    false,
                )
            } else {
                &&& effect == if old(self)@[key@] is Null {
                    PutEffect::Resurrected
                } else {
                    PutEffect::UpdatedLive
                }
                &&& final(self).counted_entries() == old(self).counted_entries()
                &&& final(self).counted_size() + old(self).size_of_key(key@) == old(
                    self,
                ).counted_size() + pair_size(key@, v@, false)
            },
    {
        match self.replace(key, v.clone(), false) {
            None => Ok(PutEffect::Inserted),
            Some(true) => Ok(PutEffect::Resurrected),
            Some(false) => Ok(PutEffect::UpdatedLive),
        }
    }

    /// Stores a value under a key, unless the size or the number of entries could then not be
    /// counted any more.
    pub fn try_put(&mut self, key: &str, v: &Value) -> (r: Option<PutEffect>)
        requires
            old(self).wf(),
        ensures
            final(self).wf(),
            r is Some <==> old(self).counted_size() + pair_size(key@, v@, false) <= usize::MAX
                && old(self).counted_entries() < usize::MAX,
            r is None ==> *final(self) == *old(self),
            r is Some ==> {
                &&& final(self)@ == old(self)@.insert(key@, v@)
                &&& r == Some(
                    if !old(self)@.dom().contains(key@) {
                        PutEffect::Inserted
                    } else if old(self)@[key@] is Null {
                        PutEffect::Resurrected
                    } else {
                        PutEffect::UpdatedLive
                    },
                )
            },
    {
        let key_size: usize = key.as_bytes().len();
        let value_size: usize = v.serialized_size();
        if self.entry_count == usize::MAX || key_size > usize::MAX - self.size || value_size
            > usize::MAX - self.size - key_size {
            return None;
        }
        match self.put(key, v) {
            Ok(effect) => Some(effect),
            Err(_) => None,
        }
    }

    /// Marks a key as deleted. The mark counts as an entry, whether or not the key was held.
    pub fn delete(&mut self, key: &str) -> (r: Result<(), LsmError>)
        requires
            old(self).wf(),
            old(self).counted_size() + encode_utf8(key@).len() + 1 <= usize::MAX,
            !old(self)@.dom().contains(key@) ==> old(self).counted_entries() < usize::MAX,
        ensures
            r is Ok,
            final(self).wf(),
            final(self)@ == old(self)@.insert(key@, value::ValueView::Null),
            final(self).marked() == old(self).marked().insert(key@),
            final(self).limit() == old(self).limit(),
            if old(self)@.dom().contains(key@) {
                &&& final(self).counted_entries() == old(self).counted_entries()
                &&& final(self).counted_size() + old(self).size_of_key(key@) == old(
                    self,
                ).counted_size() + encode_utf8(key@).len() + 1
            } else {
                &&& final(self).counted_entries() == old(self).counted_entries() + 1
                &&& final(self).counted_size() == old(self).counted_size() + encode_utf8(
                    key@,
                ).len() + 1
            },
    {
        let _ = self.replace(key, Value::Null, true);
        Ok(())
    }

    /// Looks a key up and tells deleted keys from those that are not held.
    pub fn lookup(&self, key: &str) -> (r: Result<MemtableLookupResult, LsmError>)
        requires
            self.wf(),
        ensures
            r matches Ok(found) && if !self@.dom().contains(key@) {
                found is Missing
            } else if self@[key@] is Null {
                found is Tombstone
            } else {
                found matches MemtableLookupResult::Found(v) && v@ == self@[key@]
            },
    {
        let (held, at) = self.find(key);
        if !held {
            return Ok(MemtableLookupResult::Missing);
        }
        assert(self.data@[at as int].1@ == self@[key@]);
        if self.data[at].1.is_null() {
            Ok(MemtableLookupResult::Tombstone)
        } else {
            Ok(MemtableLookupResult::Found(self.data[at].1.clone()))
        }
    }

    /// The value of a key, if it has one.
    pub fn get(&self, key: &str) -> (r: Result<Option<Value>, LsmError>)
        requires
            self.wf(),
        ensures
            r matches Ok(found) && match live_value(self@, key@) {
                Some(want) => found matches Some(v) && v@ == want,
                None => found is None,
            },
    {
        match self.lookup(key) {
            Ok(MemtableLookupResult::Found(v)) => Ok(Some(v)),
            Ok(_) => Ok(None),
            Err(e) => Err(e),
        }
    }

    /// Whether a key has a value.
    pub fn key_exists(&self, key: &str) -> (r: Result<bool, LsmError>)
        requires
            self.wf(),
        ensures
            r matches Ok(yes) && yes == live_value(self@, key@).is_some(),
    {
        let (held, at) = self.find(key);
        Ok(held && !self.data[at].1.is_null())
    }

    /// Whether a key is held as deleted.
    pub fn is_tombstone(&self, key: &str) -> (r: Result<bool, LsmError>)
        requires
            self.wf(),
        ensures
            r matches Ok(yes) && yes == (self@.dom().contains(key@) && self@[key@] is Null),
    {
        let (held, at) = self.find(key);
        Ok(held && self.data[at].1.is_null())
    }

    /// The size that was counted.
    pub fn size(&self) -> (r: usize)
        ensures
            r == self.counted_size(),
    {
        self.size
    }

    /// The entries that were counted.
    pub fn entry_count(&self) -> (r: usize)
        ensures
            r == self.counted_entries(),
    {
        self.entry_count
    }

    /// Whether the size has reached the limit.
    pub fn is_full(&self) -> (r: bool)
        ensures
            r == (self.counted_size() >= self.limit()),
    {
        self.size >= self.config.max_size
    }

    /// The configuration.
    pub fn config(&self) -> (r: &MemtableConfig)
        ensures
            r.max_size == self.limit(),
    {
        &self.config
    }

    /// Drops everything.
    pub fn clear(&mut self)
        ensures
            final(self).wf(),
            final(self)@ == Map::<Seq<char>, value::ValueView>::empty(),
            final(self).pairs() == Seq::<Pair>::empty(),
            final(self).marked() == Set::<Seq<char>>::empty(),
            final(self).counted_size() == 0,
            final(self).counted_entries() == 0,
            final(self).limit() == old(self).limit(),
    {
        self.data.clear();
        self.marks.clear();
        self.size = 0;
        self.entry_count = 0;
        assert(pairs_of(self.data@) =~= Seq::empty());
        assert(self.marked() =~= Set::empty());
    }
}

/// The value that a key has in a map in which deleted keys have `Null`.
pub open spec fn live_value(m: Map<Seq<char>, value::ValueView>, key: Seq<char>) -> Option<
    value::ValueView,
> {
    if m.dom().contains(key) && !(m[key] is Null) {
        Some(m[key])
    } else {
        None
    }
}

/// What was put is found, a deleted key is not, and other keys stay as they are.
pub proof fn newest_write_counts(
    m: Map<Seq<char>, value::ValueView>,
    key: Seq<char>,
    v: value::ValueView,
    other: Seq<char>,
)
    ensures
        !(v is Null) ==> live_value(m.insert(key, v), key) == Some(v),
        live_value(m.insert(key, value::ValueView::Null), key) is None,
        other != key ==> live_value(m.insert(key, v), other) == live_value(m, other),
{
}

/// A delete after a put leaves the key deleted, and a put after a delete brings it back.
pub proof fn delete_and_put_undo(
    m: Map<Seq<char>, value::ValueView>,
    key: Seq<char>,
    v: value::ValueView,
)
    ensures
        m.insert(key, v).insert(key, value::ValueView::Null) == m.insert(
            key,
            value::ValueView::Null,
        ),
        m.insert(key, value::ValueView::Null).insert(key, v) == m.insert(key, v),
{
    assert(m.insert(key, v).insert(key, value::ValueView::Null) =~= m.insert(
        key,
        value::ValueView::Null,
    ));
    assert(m.insert(key, value::ValueView::Null).insert(key, v) =~= m.insert(key, v));
}

/// A range scan can be done: the start is not behind the end of the range.
pub open spec fn range_ok(start: Seq<char>, end: Seq<char>) -> bool {
    end.len() > 0 ==> !bytes::bytes_lt(encode_utf8(end).push(0u8), encode_utf8(start))
}

impl Memtable {
    /// The pairs are those of the map, in key order.
    pub proof fn pairs_are_the_map(&self)
        requires
            self.wf(),
        ensures
            pairs_ascend(self.pairs()),
            self@ == as_map(self.pairs()),
    {
    }

    /// The counted size is that of the held pairs, and the counted entries are the held ones,
    /// marks of deleted keys among them.
    pub proof fn counts_are_exact(&self)
        requires
            self.wf(),
        ensures
            self.counted_size() == total_size(self.pairs(), self.marked()),
            self.counted_entries() == self.pairs().len(),
    {
    }

    fn copy_span(&self, lo: usize, hi: usize) -> (r: Vec<(String, Value, bool)>)
        requires
            lo <= hi <= self.pairs().len(),
        ensures
            sst_query::layer_view(r@) == layer_of(self.pairs().subrange(lo as int, hi as int)),
    {
        let ghost pairs = self.pairs();
        let mut out: Vec<(String, Value, bool)> = Vec::new();
        let mut i: usize = lo;
        assert(sst_query::layer_view(out@) =~= layer_of(pairs.subrange(lo as int, lo as int)));
        while i < hi
            invariant
                pairs == self.pairs(),
                lo <= i <= hi <= pairs.len(),
                pairs.len() == self.data@.len(),
                sst_query::layer_view(out@) == layer_of(pairs.subrange(lo as int, i as int)),
            decreases hi - i,
        {
            let ghost before = out@;
            let key = self.data[i].0.clone();
            let v = self.data[i].1.clone();
            let deleted = v.is_null();
            out.push((key, v, deleted));
            proof {
                assert(sst_query::layer_view(out@) =~= sst_query::layer_view(before).push(
                    (key@, v@, deleted),
                ));
                assert(layer_of(pairs.subrange(lo as int, i + 1)) =~= layer_of(
                    pairs.subrange(lo as int, i as int),
                ).push((pairs[i as int].0, pairs[i as int].1, pairs[i as int].1 is Null)));
            }
            i = i + 1;
        }
        out
    }

    /// The entries whose key begins with `prefix`, deleted ones among them, in key order.
    pub fn scan_prefix_layer(&self, prefix: &str) -> (r: Result<Vec<(String, Value, bool)>, LsmError>)
        requires
            self.wf(),
        ensures
            r matches Ok(entries) && sst_query::layer_view(entries@) == layer_of(
                pairs_with_prefix(self.pairs(), encode_utf8(prefix@)),
            ),
    {
        let pb = prefix.as_bytes();
        let ghost pairs = self.pairs();
        let lo: usize = self.position(pb);
        let n: usize = self.data.len();
        let mut hi: usize = lo;
        while hi < n && bytes_start_with(self.data[hi].0.as_str().as_bytes(), pb)
            invariant
                pairs == self.pairs(),
                n == pairs.len(),
                n == self.data@.len(),
                lo <= hi <= n,
                forall|j: int| lo <= j < hi ==> bytes::starts_with(encode_utf8(#[trigger] pairs[j].0), pb@),
            decreases n - hi,
        {
            hi = hi + 1;
        }
        proof {
            let keep = |p: Pair| bytes::starts_with(encode_utf8(p.0), pb@);
            assert forall|j: int| 0 <= j < pairs.len() implies (#[trigger] keep(pairs[j]) <==> lo <= j
                < hi) by {
                if j < lo {
                    if bytes::starts_with(encode_utf8(pairs[j].0), pb@) {
                        bytes::prefix_not_after(encode_utf8(pairs[j].0), pb@);
                    }
                } else if j >= hi {
                    assert(!bytes::starts_with(encode_utf8(pairs[hi as int].0), pb@));
                    if j > hi {
                        bytes::prefix_convex(
                            pb@,
                            encode_utf8(pairs[hi as int].0),
                            encode_utf8(pairs[j].0),
                        );
                    }
                }
            }
            seqs::filter_span(pairs, keep, lo as int, hi as int);
        }
        Ok(self.copy_span(lo, hi))
    }

    /// The entries whose key is from `start` to `end`, both included, deleted ones among them, in
    /// key order; an empty `end` sets no limit.
    pub fn scan_range_layer(&self, start: &str, end: &str) -> (r: Result<
        Vec<(String, Value, bool)>,
        LsmError,
    >)
        requires
            self.wf(),
            range_ok(start@, end@),
        ensures
            r matches Ok(entries) && sst_query::layer_view(entries@) == layer_of(
                pairs_within(self.pairs(), encode_utf8(start@), encode_utf8(end@)),
            ),
    {
        let sb = start.as_bytes();
        let ghost pairs = self.pairs();
        let ghost eb = encode_utf8(end@);
        let lo: usize = self.position(sb);
        let end_bound = exclusive_range_end(end);
        let hi: usize = match &end_bound {
            Some(bound) => self.position(bound.as_str().as_bytes()),
            None => self.data.len(),
        };
        proof {
            sst_query::encode_empty_iff(end@);
            if end@.len() > 0 && hi < lo {
                bytes::bytes_lt_total(encode_utf8(pairs[hi as int].0), eb.push(0u8));
                bytes::bytes_lt_then_not_before(
                    encode_utf8(pairs[hi as int].0),
                    sb@,
                    eb.push(0u8),
                );
                assert(false);
            }
            let keep = |p: Pair| lsm_utils::in_range(encode_utf8(p.0), sb@, eb);
            assert forall|j: int| 0 <= j < pairs.len() implies (#[trigger] keep(pairs[j]) <==> lo <= j
                < hi) by {
                bytes::before_successor(encode_utf8(pairs[j].0), eb);
            }
            seqs::filter_span(pairs, keep, lo as int, hi as int);
        }
        Ok(self.copy_span(lo, hi))
    }

    /// The keys that begin with `prefix` and have a value, in key order.
    pub fn scan_prefix(&self, prefix: &str) -> (r: Result<Vec<String>, LsmError>)
        requires
            self.wf(),
        ensures
            r matches Ok(keys) && keys@.map_values(|k: String| k@) == sst_query::live_keys(
                layer_of(pairs_with_prefix(self.pairs(), encode_utf8(prefix@))),
            ),
    {
        let entries = self.scan_prefix_layer(prefix)?;
        Ok(sst_query::live_entry_keys(&entries))
    }

    /// The keys from `start` to `end`, both included, that have a value, in key order; an empty
    /// `end` sets no limit.
    pub fn scan_range(&self, start: &str, end: &str) -> (r: Result<Vec<String>, LsmError>)
        requires
            self.wf(),
            range_ok(start@, end@),
        ensures
            r matches Ok(keys) && keys@.map_values(|k: String| k@) == sst_query::live_keys(
                layer_of(pairs_within(self.pairs(), encode_utf8(start@), encode_utf8(end@))),
            ),
    {
        let entries = self.scan_range_layer(start, end)?;
        Ok(sst_query::live_entry_keys(&entries))
    }

    /// All entries, deleted ones among them, in key order.
    pub fn get_all_entries(&self) -> (r: Vec<(String, Value, bool)>)
        ensures
            sst_query::layer_view(r@) == layer_of(self.pairs()),
    {
        let n: usize = self.data.len();
        let r = self.copy_span(0, n);
        assert(self.pairs().subrange(0, n as int) =~= self.pairs());
        r
    }
}

impl Clone for Memtable {
    fn clone(&self) -> (r: Self)
        ensures
            r.pairs() == self.pairs(),
            r@ == self@,
            r.marked() == self.marked(),
            r.wf() == self.wf(),
            r.counted_size() == self.counted_size(),
            r.counted_entries() == self.counted_entries(),
            r.limit() == self.limit(),
    {
        let mut data: Vec<(String, Value)> = Vec::new();
        let mut i: usize = 0;
        while i < self.data.len()
            invariant
                i <= self.data@.len(),
                data@.len() == i,
                forall|j: int|
                    0 <= j < i ==> (#[trigger] data@[j]).0@ == self.data@[j].0@ && data@[j].1@
                        == self.data@[j].1@,
            decreases self.data@.len() - i,
        {
            data.push((self.data[i].0.clone(), self.data[i].1.clone()));
            i = i + 1;
        }
        assert(pairs_of(data@) =~= pairs_of(self.data@));
        Memtable {
            config: self.config,
            data,
            marks: self.marks.clone(),
            size: self.size,
            entry_count: self.entry_count,
        }
    }
}

proof fn live_keys_are_picked(pairs: Seq<Pair>, keep: spec_fn(Pair) -> bool)
    requires
        pairs_ascend(pairs),
    ensures
        ({
            let keys = sst_query::live_keys(layer_of(pairs.filter(keep)));
            &&& forall|k: Seq<char>| #[trigger]
                keys.contains(k) <==> exists|i: int|
                    0 <= i < pairs.len() && (#[trigger] pairs[i]).0 == k && keep(pairs[i])
                        && !(pairs[i].1 is Null)
            &&& forall|i: int, j: int|
                0 <= i < j < keys.len() ==> bytes::bytes_lt(
                    encode_utf8(#[trigger] keys[i]),
                    encode_utf8(#[trigger] keys[j]),
                )
        }),
{
    let kept = pairs.filter(keep);
    let at = seqs::filter_places(pairs, keep);
    let layer = layer_of(kept);
    let picked = sst_query::live_keys_places(layer);
    let keys = sst_query::live_keys(layer);
    assert forall|k: Seq<char>| #[trigger] keys.contains(k) implies exists|i: int|
        0 <= i < pairs.len() && (#[trigger] pairs[i]).0 == k && keep(pairs[i]) && !(
        pairs[i].1 is Null) by {
        let n = choose|n: int| 0 <= n < keys.len() && keys[n] == k;
        let m = picked[n];
        assert(layer[m].0 == k && !layer[m].2);
        assert(pairs[at[m]] == kept[m]);
        assert(pairs[at[m]].0 == k);
    }
    assert forall|k: Seq<char>|
        (exists|i: int|
            0 <= i < pairs.len() && (#[trigger] pairs[i]).0 == k && keep(pairs[i]) && !(
            pairs[i].1 is Null)) implies #[trigger] keys.contains(k) by {
        let i = choose|i: int|
            0 <= i < pairs.len() && (#[trigger] pairs[i]).0 == k && keep(pairs[i]) && !(
            pairs[i].1 is Null);
        assert(at.contains(i));
        let m = choose|m: int| 0 <= m < at.len() && at[m] == i;
        assert(layer[m] == (k, pairs[i].1, false));
        assert(picked.contains(m));
        let n = choose|n: int| 0 <= n < picked.len() && picked[n] == m;
        assert(keys[n] == k);
    }
    assert forall|i: int, j: int| 0 <= i < j < keys.len() implies bytes::bytes_lt(
        encode_utf8(#[trigger] keys[i]),
        encode_utf8(#[trigger] keys[j]),
    ) by {
        assert(picked[i] < picked[j]);
        let (a, b) = (at[picked[i]], at[picked[j]]);
        assert(a < b);
        assert(pairs[a] == kept[picked[i]] && pairs[b] == kept[picked[j]]);
        assert(bytes::bytes_lt(encode_utf8(pairs[a].0), encode_utf8(pairs[b].0)));
    }
}

proof fn live_keys_of_the_map(
    m: Memtable,
    keep: spec_fn(Pair) -> bool,
    wanted: spec_fn(Seq<char>) -> bool,
    keys: Vec<String>,
)
    requires
        m.wf(),
        forall|p: Pair| #[trigger] keep(p) == wanted(p.0),
        keys@.map_values(|k: String| k@) == sst_query::live_keys(
            layer_of(m.pairs().filter(keep)),
        ),
    ensures
        forall|k: Seq<char>|
            (exists|i: int| 0 <= i < keys@.len() && (#[trigger] keys@[i])@ == k)
                <==> #[trigger] wanted(k) && m@.contains_key(k) && !(m@[k] is Null),
        forall|i: int, j: int|
            0 <= i < j < keys@.len() ==> bytes::bytes_lt(
                encode_utf8((#[trigger] keys@[i])@),
                encode_utf8((#[trigger] keys@[j])@),
            ),
{
    let pairs = m.pairs();
    let shown = keys@.map_values(|k: String| k@);
    live_keys_are_picked(pairs, keep);
    as_map_holds(pairs);
    assert forall|k: Seq<char>|
        (exists|i: int| 0 <= i < keys@.len() && (#[trigger] keys@[i])@ == k)
            <==> #[trigger] wanted(k) && m@.contains_key(k) && !(m@[k] is Null) by {
        if exists|i: int| 0 <= i < keys@.len() && (#[trigger] keys@[i])@ == k {
            let i = choose|i: int| 0 <= i < keys@.len() && (#[trigger] keys@[i])@ == k;
            assert(shown[i] == k);
            assert(shown.contains(k));
            let p = choose|p: int|
                0 <= p < pairs.len() && (#[trigger] pairs[p]).0 == k && keep(pairs[p]) && !(
                pairs[p].1 is Null);
            assert(as_map(pairs)[pairs[p].0] == pairs[p].1);
        }
        if wanted(k) && m@.contains_key(k) && !(m@[k] is Null) {
            let p = choose|p: int| 0 <= p < pairs.len() && pairs[p].0 == k;
            assert(as_map(pairs)[pairs[p].0] == pairs[p].1);
            assert(keep(pairs[p]));
            assert(shown.contains(k));
            let i = choose|i: int| 0 <= i < shown.len() && shown[i] == k;
            assert(keys@[i]@ == k);
        }
    }
    assert forall|i: int, j: int| 0 <= i < j < keys@.len() implies bytes::bytes_lt(
        encode_utf8((#[trigger] keys@[i])@),
        encode_utf8((#[trigger] keys@[j])@),
    ) by {
        assert(shown[i] == keys@[i]@ && shown[j] == keys@[j]@);
    }
}

/// A scan of a prefix gives a key exactly if it begins with the prefix and has a value, and the keys
/// ascend in byte order.
pub proof fn prefix_scan_gives_live_keys(
    m: Memtable,
    prefix: &str,
    r: Result<Vec<String>, LsmError>,
)
    requires
        m.wf(),
        call_ensures(Memtable::scan_prefix, (&m, prefix), r),
    ensures
        r matches Ok(keys) && {
            &&& forall|k: Seq<char>|
                (exists|i: int| 0 <= i < keys@.len() && (#[trigger] keys@[i])@ == k) <==> encode_utf8(
                    prefix@,
                ).is_prefix_of(#[trigger] encode_utf8(k)) && m@.contains_key(k) && !(m@[k] is Null)
            &&& forall|i: int, j: int|
                0 <= i < j < keys@.len() ==> bytes::bytes_lt(
                    encode_utf8((#[trigger] keys@[i])@),
                    encode_utf8((#[trigger] keys@[j])@),
                )
        },
{
    let pb = encode_utf8(prefix@);
    let keep = |p: Pair| bytes::starts_with(encode_utf8(p.0), pb);
    let wanted = |k: Seq<char>| pb.is_prefix_of(encode_utf8(k));
    assert forall|p: Pair| #[trigger] keep(p) == wanted(p.0) by {
        let k = encode_utf8(p.0);
        if pb.len() <= k.len() {
            assert(k.take(pb.len() as int) =~= k.subrange(0, pb.len() as int));
        }
    }
    if let Ok(keys) = r {
        live_keys_of_the_map(m, keep, wanted, keys);
        assert forall|k: Seq<char>|
            (exists|i: int| 0 <= i < keys@.len() && (#[trigger] keys@[i])@ == k)
                <==> pb.is_prefix_of(#[trigger] encode_utf8(k)) && m@.contains_key(k) && !(
            m@[k] is Null) by {
            assert(wanted(k) == pb.is_prefix_of(encode_utf8(k)));
        }
    }
}

/// A scan of a range gives a key exactly if it has a value and is neither before the start nor
/// behind the end, where there is one, and the keys ascend in byte order.
pub proof fn range_scan_gives_live_keys(
    m: Memtable,
    start: &str,
    end: &str,
    r: Result<Vec<String>, LsmError>,
)
    requires
        m.wf(),
        call_ensures(Memtable::scan_range, (&m, start, end), r),
    ensures
        r matches Ok(keys) && {
            &&& forall|k: Seq<char>|
                (exists|i: int| 0 <= i < keys@.len() && (#[trigger] keys@[i])@ == k)
                    <==> !bytes::bytes_lt(#[trigger] encode_utf8(k), encode_utf8(start@)) && (
                end@.len() > 0 ==> !bytes::bytes_lt(encode_utf8(end@), encode_utf8(k)))
                    && m@.contains_key(k) && !(m@[k] is Null)
            &&& forall|i: int, j: int|
                0 <= i < j < keys@.len() ==> bytes::bytes_lt(
                    encode_utf8((#[trigger] keys@[i])@),
                    encode_utf8((#[trigger] keys@[j])@),
                )
        },
{
    let (sb, eb) = (encode_utf8(start@), encode_utf8(end@));
    sst_query::encode_empty_iff(end@);
    let keep = |p: Pair| lsm_utils::in_range(encode_utf8(p.0), sb, eb);
    let wanted = |k: Seq<char>|
        !bytes::bytes_lt(encode_utf8(k), sb) && (end@.len() > 0 ==> !bytes::bytes_lt(
            eb,
            encode_utf8(k),
        ));
    if let Ok(keys) = r {
        live_keys_of_the_map(m, keep, wanted, keys);
        assert forall|k: Seq<char>|
            (exists|i: int| 0 <= i < keys@.len() && (#[trigger] keys@[i])@ == k)
                <==> !bytes::bytes_lt(#[trigger] encode_utf8(k), sb) && (end@.len() > 0
                ==> !bytes::bytes_lt(eb, encode_utf8(k))) && m@.contains_key(k) && !(m@[k] is Null) by {
            assert(wanted(k) == (!bytes::bytes_lt(encode_utf8(k), sb) && (end@.len() > 0
                ==> !bytes::bytes_lt(eb, encode_utf8(k)))));
        }
    }
}

} // verus!
