//! A cache of blocks that drops the block that was used least recently when it runs out of room.

use crate::ratio::Ratio;
use crate::text::same_text;
use vstd::prelude::*;
use vstd::slice::*;
use vstd::string::*;

verus! {

/// A cached block.
#[derive(Debug)]
pub struct CachedBlock {
    /// The block's key.
    pub key: String,
    /// The block.
    pub data: Vec<u8>,
}

/// The cache.
#[derive(Debug)]
pub struct BlockCache {
    max_size: usize,
    current_size: usize,
    blocks: Vec<CachedBlock>,
    access_order: Vec<String>,
    hit_count: u64,
    miss_count: u64,
    eviction_count: u64,
}

/// What a cache holds.
#[verifier::ext_equal]
pub struct CacheView {
    /// How much room there is, in bytes.
    pub max_size: nat,
    /// How much of it is taken.
    pub current_size: nat,
    /// The blocks.
    pub blocks: Map<Seq<char>, Seq<u8>>,
    /// The keys in the order in which their blocks were used last: the next one to leave comes
    /// first.
    pub order: Seq<Seq<char>>,
    /// How often a block was found.
    pub hits: u64,
    /// How often a block was not found.
    pub misses: u64,
    /// How many blocks were dropped for room.
    pub evictions: u64,
}

/// Counters of a cache.
#[derive(Debug, Clone, Copy, PartialEq, Eq, Structural)]
pub struct BlockCacheMetrics {
    /// Room in bytes.
    pub capacity: u64,
    /// Taken room in bytes.
    pub usage: u64,
    /// How often a block was found.
    pub hit_count: u64,
    /// How often a block was not found.
    pub miss_count: u64,
    /// How many blocks were dropped for room.
    pub eviction_count: u64,
    /// The part of the lookups that found a block.
    pub hit_rate: Ratio,
}

/// How full a cache is.
#[derive(Debug, Clone, Copy, PartialEq, Eq, Structural)]
pub struct CacheStats {
    /// Taken room in bytes.
    pub current_size: usize,
    /// Room in bytes.
    pub max_size: usize,
    /// Number of blocks.
    pub block_count: usize,
    /// The part of the lookups that found a block.
    pub hit_rate: Ratio,
}

spec fn held(blocks: Seq<CachedBlock>) -> Map<Seq<char>, Seq<u8>>
    decreases blocks.len(),
{
    if blocks.len() == 0 {
        Map::empty()
    } else {
        held(blocks.drop_last()).insert(blocks.last().key@, blocks.last().data@)
    }
}

spec fn distinct(blocks: Seq<CachedBlock>) -> bool {
    forall|i: int, j: int|
        0 <= i < j < blocks.len() ==> (#[trigger] blocks[i]).key@ != (#[trigger] blocks[j]).key@
}

spec fn keys_of(order: Seq<String>) -> Seq<Seq<char>> {
    order.map_values(|k: String| k@)
}

proof fn held_is(blocks: Seq<CachedBlock>)
    requires
        distinct(blocks),
    ensures
        forall|i: int|
            0 <= i < blocks.len() ==> held(blocks).contains_key((#[trigger] blocks[i]).key@) && held(
                blocks,
            )[blocks[i].key@] == blocks[i].data@,
        forall|k: Seq<char>| #[trigger]
            held(blocks).contains_key(k) ==> exists|i: int|
                0 <= i < blocks.len() && (#[trigger] blocks[i]).key@ == k,
        held(blocks).dom().finite(),
        held(blocks).dom().len() == blocks.len(),
    decreases blocks.len(),
{
    if blocks.len() > 0 {
        let before = blocks.drop_last();
        assert(distinct(before)) by {
            assert forall|i: int, j: int| 0 <= i < j < before.len() implies (#[trigger] before[i]).key@
                != (#[trigger] before[j]).key@ by {
                assert(before[i] == blocks[i] && before[j] == blocks[j]);
            }
        }
        held_is(before);
        let last = blocks.last();
        assert(!held(before).contains_key(last.key@)) by {
            if held(before).contains_key(last.key@) {
                let i = choose|i: int| 0 <= i < before.len() && (#[trigger] before[i]).key@ == last.key@;
                assert(blocks[i] == before[i]);
                assert(blocks[i].key@ != blocks[blocks.len() - 1].key@);
            }
        }
        assert forall|i: int| 0 <= i < blocks.len() implies held(blocks).contains_key(
            (#[trigger] blocks[i]).key@,
        ) && held(blocks)[blocks[i].key@] == blocks[i].data@ by {
            if i < before.len() {
                assert(before[i] == blocks[i]);
                assert(blocks[i].key@ != blocks[blocks.len() - 1].key@);
            }
        }
        assert forall|k: Seq<char>| #[trigger] held(blocks).contains_key(k) implies exists|i: int|
            0 <= i < blocks.len() && (#[trigger] blocks[i]).key@ == k by {
            if k == last.key@ {
                assert(blocks[blocks.len() - 1].key@ == k);
            } else {
                assert(held(before).contains_key(k));
                let i = choose|i: int| 0 <= i < before.len() && (#[trigger] before[i]).key@ == k;
                assert(blocks[i].key@ == k);
            }
        }
    } else {
        assert(held(blocks).dom() =~= Set::empty());
    }
}

proof fn held_without(blocks: Seq<CachedBlock>, i: int)
    requires
        distinct(blocks),
        0 <= i < blocks.len(),
    ensures
        distinct(blocks.remove(i)),
        held(blocks.remove(i)) == held(blocks).remove(blocks[i].key@),
{
    let rest = blocks.remove(i);
    assert forall|a: int, b: int| 0 <= a < b < rest.len() implies (#[trigger] rest[a]).key@ != (
    #[trigger] rest[b]).key@ by {
        let a2 = if a < i { a } else { a + 1 };
        let b2 = if b < i { b } else { b + 1 };
        assert(rest[a] == blocks[a2] && rest[b] == blocks[b2]);
    }
    held_is(blocks);
    held_is(rest);
    let gone = blocks[i].key@;
    assert forall|k: Seq<char>| #[trigger] held(rest).contains_key(k) implies held(
        blocks,
    ).remove(gone).contains_key(k) && held(blocks).remove(gone)[k] == held(rest)[k] by {
        let a = choose|a: int| 0 <= a < rest.len() && (#[trigger] rest[a]).key@ == k;
        let a2 = if a < i { a } else { a + 1 };
        assert(rest[a] == blocks[a2]);
        if a2 < i {
            assert(blocks[a2].key@ != blocks[i].key@);
        } else {
            assert(blocks[i].key@ != blocks[a2].key@);
        }
    }
    assert forall|k: Seq<char>| #[trigger] held(blocks).remove(gone).contains_key(k) implies held(
        rest,
    ).contains_key(k) by {
        assert(held(blocks).contains_key(k));
        let b = choose|b: int| 0 <= b < blocks.len() && (#[trigger] blocks[b]).key@ == k;
        let b2 = if b < i { b } else { b - 1 };
        assert(rest[b2] == blocks[b]);
    }
    assert(held(rest) =~= held(blocks).remove(gone));
}

/// The bytes of the blocks of the keys together.
pub open spec fn bytes_of(order: Seq<Seq<char>>, blocks: Map<Seq<char>, Seq<u8>>) -> nat
    decreases order.len(),
{
    if order.len() == 0 {
        0
    } else {
        blocks[order[0]].len() + bytes_of(order.drop_first(), blocks)
    }
}

impl CacheView {
    /// Each cached block has one turn, nothing else has one, and the taken room is the bytes of the
    /// cached blocks.
    pub open spec fn valid(self) -> bool {
        &&& self.order.no_duplicates()
        &&& forall|k: Seq<char>| #[trigger] self.blocks.contains_key(k) <==> self.order.contains(k)
        &&& self.current_size == bytes_of(self.order, self.blocks)
    }

    /// The cache after the block that was used least recently was dropped.
    pub open spec fn evict_one(self) -> CacheView {
        if self.order.len() == 0 {
            self
        } else {
            let k = self.order[0];
            CacheView {
                blocks: self.blocks.remove(k),
                current_size: (self.current_size - self.blocks[k].len()) as nat,
                order: self.order.drop_first(),
                evictions: (self.evictions + 1) as u64,
                ..self
            }
        }
    }

    /// The cache after so many blocks were dropped that `n` bytes have room, or none is left.
    pub open spec fn evict_for(self, n: nat) -> CacheView
        decreases self.order.len(),
    {
        if self.current_size + n > self.max_size && self.order.len() > 0 {
            self.evict_one().evict_for(n)
        } else {
            self
        }
    }

    /// The cache after a block was stored: a block that it replaces is taken out, others are dropped
    /// for room, and it is the one that was used last.
    pub open spec fn put(self, key: Seq<char>, data: Seq<u8>) -> CacheView {
        let e = self.removed(key).evict_for(data.len());
        CacheView {
            blocks: e.blocks.insert(key, data),
            current_size: e.current_size + data.len(),
            order: e.order.push(key),
            ..e
        }
    }

    /// The cache after a block was looked for.
    pub open spec fn got(self, key: Seq<char>) -> CacheView {
        if self.blocks.contains_key(key) {
            CacheView { hits: (self.hits + 1) as u64, order: touched(self.order, key), ..self }
        } else {
            CacheView { misses: (self.misses + 1) as u64, ..self }
        }
    }

    /// The cache after a block was taken out.
    pub open spec fn removed(self, key: Seq<char>) -> CacheView {
        if self.blocks.contains_key(key) {
            CacheView {
                blocks: self.blocks.remove(key),
                current_size: (self.current_size - self.blocks[key].len()) as nat,
                order: without_first(self.order, key),
                ..self
            }
        } else {
            self
        }
    }

    /// The cache after all blocks were dropped.
    pub open spec fn cleared(self) -> CacheView {
        CacheView { blocks: Map::empty(), order: Seq::empty(), current_size: 0, ..self }
    }
}

/// The keys without the first occurrence of a key.
pub open spec fn without_first(order: Seq<Seq<char>>, key: Seq<char>) -> Seq<Seq<char>>
    decreases order.len(),
{
    if order.len() == 0 {
        order
    } else if order[0] == key {
        order.drop_first()
    } else {
        seq![order[0]] + without_first(order.drop_first(), key)
    }
}

/// The keys with a key moved to the end.
pub open spec fn touched(order: Seq<Seq<char>>, key: Seq<char>) -> Seq<Seq<char>> {
    without_first(order, key).push(key)
}

proof fn without_first_at(order: Seq<Seq<char>>, key: Seq<char>, i: int)
    requires
        0 <= i < order.len(),
        order[i] == key,
        forall|j: int| 0 <= j < i ==> order[j] != key,
    ensures
        without_first(order, key) == order.remove(i),
    decreases order.len(),
{
    if i == 0 {
        assert(order.remove(0) =~= order.drop_first());
    } else {
        without_first_at(order.drop_first(), key, i - 1);
        assert(order.remove(i) =~= seq![order[0]] + order.drop_first().remove(i - 1));
    }
}

proof fn without_first_absent(order: Seq<Seq<char>>, key: Seq<char>)
    requires
        !order.contains(key),
    ensures
        without_first(order, key) == order,
    decreases order.len(),
{
    if order.len() > 0 {
        assert(order[0] != key);
        assert(!order.drop_first().contains(key)) by {
            if order.drop_first().contains(key) {
                let i = choose|i: int|
                    0 <= i < order.drop_first().len() && order.drop_first()[i] == key;
                assert(order[i + 1] == key);
            }
        }
        without_first_absent(order.drop_first(), key);
        assert(order =~= seq![order[0]] + order.drop_first());
    }
}

proof fn bytes_agree(
    order: Seq<Seq<char>>,
    a: Map<Seq<char>, Seq<u8>>,
    b: Map<Seq<char>, Seq<u8>>,
)
    requires
        forall|i: int| 0 <= i < order.len() ==> a[#[trigger] order[i]] == b[order[i]],
    ensures
        bytes_of(order, a) == bytes_of(order, b),
    decreases order.len(),
{
    if order.len() > 0 {
        assert(a[order[0]] == b[order[0]]);
        assert forall|i: int| 0 <= i < order.drop_first().len() implies a[#[trigger] order.drop_first()[i]]
            == b[order.drop_first()[i]] by {
            assert(order.drop_first()[i] == order[i + 1]);
        }
        bytes_agree(order.drop_first(), a, b);
    }
}

proof fn bytes_without(order: Seq<Seq<char>>, blocks: Map<Seq<char>, Seq<u8>>, i: int)
    requires
        0 <= i < order.len(),
    ensures
        bytes_of(order.remove(i), blocks) + blocks[order[i]].len() == bytes_of(order, blocks),
    decreases order.len(),
{
    if i == 0 {
        assert(order.remove(0) =~= order.drop_first());
    } else {
        bytes_without(order.drop_first(), blocks, i - 1);
        assert(order.remove(i).drop_first() =~= order.drop_first().remove(i - 1));
        assert(order.remove(i)[0] == order[0]);
    }
}

proof fn bytes_pushed(order: Seq<Seq<char>>, blocks: Map<Seq<char>, Seq<u8>>, k: Seq<char>)
    ensures
        bytes_of(order.push(k), blocks) == bytes_of(order, blocks) + blocks[k].len(),
    decreases order.len(),
{
    let more = order.push(k);
    if order.len() == 0 {
        assert(more.drop_first() =~= Seq::<Seq<char>>::empty());
        assert(bytes_of(more.drop_first(), blocks) == 0);
        assert(more[0] == k);
    } else {
        assert(more[0] == order[0]);
        assert(more.drop_first() =~= order.drop_first().push(k));
        bytes_pushed(order.drop_first(), blocks, k);
    }
}

proof fn without_is(order: Seq<Seq<char>>, key: Seq<char>) -> (i: int)
    requires
        order.no_duplicates(),
        order.contains(key),
    ensures
        0 <= i < order.len(),
        order[i] == key,
        without_first(order, key) == order.remove(i),
        order.remove(i).no_duplicates(),
        forall|k: Seq<char>| #[trigger]
            order.remove(i).contains(k) <==> order.contains(k) && k != key,
{
    let i = choose|i: int| 0 <= i < order.len() && order[i] == key;
    without_first_at(order, key, i);
    let rest = order.remove(i);
    assert forall|a: int, b: int| 0 <= a < rest.len() && 0 <= b < rest.len() && a != b implies rest[a]
        != rest[b] by {
        let a2 = if a < i { a } else { a + 1 };
        let b2 = if b < i { b } else { b + 1 };
        assert(rest[a] == order[a2] && rest[b] == order[b2]);
    }
    assert forall|k: Seq<char>| #[trigger] rest.contains(k) <==> order.contains(k) && k != key by {
        if rest.contains(k) {
            let a = choose|a: int| 0 <= a < rest.len() && rest[a] == k;
            let a2 = if a < i { a } else { a + 1 };
            assert(order[a2] == k);
        }
        if order.contains(k) && k != key {
            let a = choose|a: int| 0 <= a < order.len() && order[a] == k;
            let a2 = if a < i { a } else { a - 1 };
            assert(rest[a2] == k);
        }
    }
    i
}

/// Taking a block out gives its bytes back to the room, keeps every other block and every counter,
/// and leaves the cache valid.
pub proof fn taking_out_frees_room(cache: CacheView, key: Seq<char>)
    requires
        cache.valid(),
    ensures
        cache.removed(key).valid(),
        !cache.removed(key).blocks.contains_key(key),
        cache.removed(key).blocks == cache.blocks.remove(key),
        cache.blocks.contains_key(key) ==> cache.removed(key).current_size
            + cache.blocks[key].len() == cache.current_size,
        !cache.blocks.contains_key(key) ==> cache.removed(key) == cache,
        cache.removed(key).max_size == cache.max_size,
        cache.removed(key).hits == cache.hits,
        cache.removed(key).misses == cache.misses,
        cache.removed(key).evictions == cache.evictions,
        cache.removed(key).order.len() <= cache.order.len(),
{
    let r = cache.removed(key);
    if cache.blocks.contains_key(key) {
        let i = without_is(cache.order, key);
        bytes_without(cache.order, cache.blocks, i);
        assert(!r.order.contains(key));
        bytes_agree(r.order, cache.blocks, r.blocks);
    } else {
        assert(cache.blocks.remove(key) =~= cache.blocks);
    }
}

/// Looking for a block changes no block and no size, keeps the cache valid, and counts one hit or
/// one miss.
pub proof fn looking_only_counts(cache: CacheView, key: Seq<char>)
    requires
        cache.valid(),
        cache.hits < u64::MAX,
        cache.misses < u64::MAX,
    ensures
        cache.got(key).valid(),
        cache.got(key).blocks == cache.blocks,
        cache.got(key).current_size == cache.current_size,
        cache.got(key).max_size == cache.max_size,
        cache.got(key).evictions == cache.evictions,
        cache.blocks.contains_key(key) ==> cache.got(key).hits == cache.hits + 1
            && cache.got(key).misses == cache.misses,
        !cache.blocks.contains_key(key) ==> cache.got(key).misses == cache.misses + 1
            && cache.got(key).hits == cache.hits,
        cache.blocks.contains_key(key) ==> cache.got(key).order.last() == key,
{
    if cache.blocks.contains_key(key) {
        renewed_is_valid(cache, key);
    }
}

proof fn renewed_is_valid(cache: CacheView, key: Seq<char>)
    requires
        cache.valid(),
        cache.blocks.contains_key(key),
    ensures
        (CacheView { order: touched(cache.order, key), ..cache }).valid(),
        touched(cache.order, key).len() == cache.order.len(),
{
    let i = without_is(cache.order, key);
    let rest = cache.order.remove(i);
    let order = touched(cache.order, key);
    assert(order =~= rest.push(key));
    pushed_is_unique(rest, key);
    bytes_without(cache.order, cache.blocks, i);
    bytes_pushed(rest, cache.blocks, key);
}

proof fn pushed_is_unique(order: Seq<Seq<char>>, key: Seq<char>)
    requires
        order.no_duplicates(),
        !order.contains(key),
    ensures
        order.push(key).no_duplicates(),
        forall|k: Seq<char>| #[trigger]
            order.push(key).contains(k) <==> order.contains(k) || k == key,
{
    let more = order.push(key);
    assert forall|k: Seq<char>| #[trigger] more.contains(k) <==> order.contains(k) || k == key by {
        if more.contains(k) {
            let a = choose|a: int| 0 <= a < more.len() && more[a] == k;
            if a < order.len() {
                assert(order[a] == k);
            }
        }
        if order.contains(k) {
            let a = choose|a: int| 0 <= a < order.len() && order[a] == k;
            assert(more[a] == k);
        }
        assert(more[order.len() as int] == key);
    }
}

proof fn evicted_is_valid(cache: CacheView)
    requires
        cache.valid(),
        cache.order.len() > 0,
    ensures
        cache.evict_one().valid(),
        cache.evict_one().current_size + cache.blocks[cache.order[0]].len() == cache.current_size,
{
    let k = cache.order[0];
    let next = cache.evict_one();
    let rest = cache.order.drop_first();
    assert(cache.order.contains(k));
    assert forall|x: Seq<char>| #[trigger] next.blocks.contains_key(x) <==> rest.contains(x) by {
        if rest.contains(x) {
            let a = choose|a: int| 0 <= a < rest.len() && rest[a] == x;
            assert(cache.order[a + 1] == x);
            assert(cache.order.contains(x));
        }
        if next.blocks.contains_key(x) {
            assert(cache.order.contains(x));
            let a = choose|a: int| 0 <= a < cache.order.len() && cache.order[a] == x;
            assert(rest[a - 1] == x);
        }
    }
    assert(rest.no_duplicates()) by {
        assert forall|a: int, b: int| 0 <= a < rest.len() && 0 <= b < rest.len() && a != b implies rest[a]
            != rest[b] by {
            assert(rest[a] == cache.order[a + 1] && rest[b] == cache.order[b + 1]);
        }
    }
    assert(!rest.contains(k)) by {
        if rest.contains(k) {
            let a = choose|a: int| 0 <= a < rest.len() && rest[a] == k;
            assert(cache.order[a + 1] == k);
        }
    }
    bytes_agree(rest, cache.blocks, next.blocks);
}

proof fn added_is_valid(cache: CacheView, key: Seq<char>, data: Seq<u8>)
    requires
        cache.valid(),
        !cache.blocks.contains_key(key),
    ensures
        (CacheView {
            blocks: cache.blocks.insert(key, data),
            current_size: cache.current_size + data.len(),
            order: cache.order.push(key),
            ..cache
        }).valid(),
{
    let blocks = cache.blocks.insert(key, data);
    pushed_is_unique(cache.order, key);
    bytes_pushed(cache.order, blocks, key);
    bytes_agree(cache.order, cache.blocks, blocks);
}

impl View for BlockCache {
    type V = CacheView;

    closed spec fn view(&self) -> CacheView {
        CacheView {
            max_size: self.max_size as nat,
            current_size: self.current_size as nat,
            blocks: held(self.blocks@),
            order: keys_of(self.access_order@),
            hits: self.hit_count,
            misses: self.miss_count,
            evictions: self.eviction_count,
        }
    }
}

impl BlockCache {
    /// Keys are distinct, and what the cache holds is valid.
    pub closed spec fn wf(self) -> bool {
        &&& distinct(self.blocks@)
        &&& self@.valid()
    }

    /// What a cache holds is valid.
    pub proof fn holds_valid(&self)
        requires
            self.wf(),
        ensures
            self@.valid(),
    {
    }

    /// An empty cache with this much room.
    pub fn new(max_size: usize) -> (r: Self)
        ensures
            r.wf(),
            r@ == (CacheView {
                max_size: max_size as nat,
                current_size: 0,
                blocks: Map::empty(),
                order: Seq::empty(),
                hits: 0,
                misses: 0,
                evictions: 0,
            }),
    {
        let r = BlockCache {
            max_size,
            current_size: 0,
            blocks: Vec::new(),
            access_order: Vec::new(),
            hit_count: 0,
            miss_count: 0,
            eviction_count: 0,
        };
        assert(r@.order =~= Seq::empty());
        r
    }

    fn find(&self, key: &str) -> (r: Option<usize>)
        requires
            distinct(self.blocks@),
        ensures
            match r {
                Some(i) => i < self.blocks@.len() && self.blocks@[i as int].key@ == key@ && self@.blocks.contains_key(
                    key@,
                ) && self@.blocks[key@] == self.blocks@[i as int].data@,
                None => !self@.blocks.contains_key(key@),
            },
    {
        let mut i: usize = 0;
        proof {
            held_is(self.blocks@);
        }
        while i < self.blocks.len()
            invariant
                i <= self.blocks@.len(),
                distinct(self.blocks@),
                forall|j: int| 0 <= j < i ==> (#[trigger] self.blocks@[j]).key@ != key@,
            decreases self.blocks@.len() - i,
        {
            if same_text(self.blocks[i].key.as_str(), key) {
                proof {
                    held_is(self.blocks@);
                }
                return Some(i);
            }
            i = i + 1;
        }
        proof {
            held_is(self.blocks@);
        }
        None
    }

    fn forget_turn(&mut self, key: &str)
        ensures
            keys_of(final(self).access_order@) == without_first(
                keys_of(old(self).access_order@),
                key@,
            ),
            *final(self) == (BlockCache { access_order: final(self).access_order, ..*old(self) }),
    {
        let ghost order = keys_of(self.access_order@);
        let mut i: usize = 0;
        while i < self.access_order.len()
            invariant
                i <= self.access_order@.len(),
                *self == *old(self),
                order == keys_of(self.access_order@),
                forall|j: int| 0 <= j < i ==> order[j] != key@,
            decreases self.access_order@.len() - i,
        {
            if same_text(self.access_order[i].as_str(), key) {
                self.access_order.remove(i);
                proof {
                    without_first_at(order, key@, i as int);
                    assert(keys_of(self.access_order@) =~= order.remove(i as int));
                }
                return;
            }
            i = i + 1;
        }
        proof {
            assert(!order.contains(key@));
            without_first_absent(order, key@);
        }
    }

    /// Gives the key the last turn.
    fn update_access_order(&mut self, key: &str)
        ensures
            keys_of(final(self).access_order@) == touched(keys_of(old(self).access_order@), key@),
            *final(self) == (BlockCache { access_order: final(self).access_order, ..*old(self) }),
    {
        let ghost order = keys_of(self.access_order@);
        self.forget_turn(key);
        self.access_order.push(key.to_owned());
        assert(keys_of(self.access_order@) =~= touched(order, key@));
    }

    /// The block with this key; it then leaves last.
    pub fn get(&mut self, key: &str) -> (r: Option<&[u8]>)
        requires
            old(self).wf(),
            old(self)@.blocks.contains_key(key@) ==> old(self)@.hits < u64::MAX,
            !old(self)@.blocks.contains_key(key@) ==> old(self)@.misses < u64::MAX,
        ensures
            final(self).wf(),
            final(self)@ == old(self)@.got(key@),
            match r {
                Some(data) => old(self)@.blocks.contains_key(key@) && data@
                    == old(self)@.blocks[key@],
                None => !old(self)@.blocks.contains_key(key@),
            },
    {
        match self.find(key) {
            Some(i) => {
                proof {
                    renewed_is_valid(self@, key@);
                }
                self.hit_count = self.hit_count + 1;
                self.update_access_order(key);
                assert(self@ =~= old(self)@.got(key@));
                Some(self.blocks[i].data.as_slice())
            },
            None => {
                self.miss_count = self.miss_count + 1;
                assert(self@ =~= old(self)@.got(key@));
                None
            },
        }
    }

    fn take_block(&mut self, i: usize) -> (r: CachedBlock)
        requires
            distinct(old(self).blocks@),
            i < old(self).blocks@.len(),
            old(self).blocks@[i as int].data@.len() <= old(self).current_size,
        ensures
            r == old(self).blocks@[i as int],
            distinct(final(self).blocks@),
            held(final(self).blocks@) == held(old(self).blocks@).remove(r.key@),
            final(self).current_size == old(self).current_size - r.data@.len(),
            *final(self) == (BlockCache {
                blocks: final(self).blocks,
                current_size: final(self).current_size,
                ..*old(self)
            }),
    {
        proof {
            held_without(self.blocks@, i as int);
        }
        let block = self.blocks.remove(i);
        assert(self.blocks@ =~= old(self).blocks@.remove(i as int));
        self.current_size = self.current_size - block.data.len();
        block
    }

    /// Drops the block that was used least recently.
    fn evict_lru(&mut self)
        requires
            old(self).wf(),
            old(self)@.order.len() > 0,
            old(self)@.evictions < u64::MAX,
        ensures
            final(self).wf(),
            final(self)@ == old(self)@.evict_one(),
            final(self).current_size <= old(self).current_size,
    {
        proof {
            evicted_is_valid(self@);
            assert(self@.order.contains(self@.order[0]));
        }
        let key = self.access_order.remove(0);
        proof {
            assert(key@ == old(self)@.order[0]);
            assert(keys_of(self.access_order@) =~= old(self)@.order.drop_first());
        }
        if let Some(i) = self.find(key.as_str()) {
            let _ = self.take_block(i);
            self.eviction_count = self.eviction_count + 1;
        }
        assert(self@ =~= old(self)@.evict_one());
    }

    /// Stores a block. A block with the same key is replaced, and others are dropped, the one that
    /// was used least recently first, as long as it has no room.
    pub fn put(&mut self, key: String, data: Vec<u8>)
        requires
            old(self).wf(),
            old(self)@.removed(key@).current_size + data@.len() <= usize::MAX,
            old(self)@.evictions + old(self)@.removed(key@).order.len() <= u64::MAX,
        ensures
            final(self).wf(),
            final(self)@ == old(self)@.put(key@, data@),
    {
        let data_size: usize = data.len();
        proof {
            taking_out_frees_room(self@, key@);
        }
        let _ = self.remove(key.as_str());
        let ghost whole = self@.evict_for(data_size as nat);
        while self.current_size + data_size > self.max_size && self.access_order.len() > 0
            invariant
                self.wf(),
                self.current_size + data_size <= usize::MAX,
                self@.evict_for(data_size as nat) == whole,
                self@.evictions + self@.order.len() <= u64::MAX,
                !self@.blocks.contains_key(key@),
            decreases self.access_order@.len(),
        {
            let ghost before = self@.order.len();
            assert(before == self.access_order@.len());
            self.evict_lru();
            assert(self@.order.len() == self.access_order@.len());
        }
        assert(self@.order.len() == self.access_order@.len());
        let ghost e = self@;
        proof {
            assert(whole == e);
            added_is_valid(e, key@, data@);
            held_added(self.blocks@, CachedBlock { key, data });
        }
        let turn = key.clone();
        self.blocks.push(CachedBlock { key, data });
        self.current_size = self.current_size + data_size;
        self.access_order.push(turn);
        proof {
            assert(self@.order =~= e.order.push(key@));
            assert(self@ =~= old(self)@.put(key@, data@));
        }
    }

    /// The part of the lookups that found a block.
    pub fn hit_rate(&self) -> (r: Ratio)
        requires
            self@.hits + self@.misses <= u64::MAX,
        ensures
            r == Ratio::of_parts(self@.hits as int, self@.hits + self@.misses),
    {
        Ratio::of(self.hit_count, self.hit_count + self.miss_count)
    }

    /// How full the cache is.
    pub fn stats(&self) -> (r: CacheStats)
        requires
            self.wf(),
            self@.hits + self@.misses <= u64::MAX,
        ensures
            r.current_size == self@.current_size,
            r.max_size == self@.max_size,
            r.block_count == self@.blocks.dom().len(),
            r.hit_rate == Ratio::of_parts(self@.hits as int, self@.hits + self@.misses),
    {
        proof {
            held_is(self.blocks@);
        }
        CacheStats {
            current_size: self.current_size,
            max_size: self.max_size,
            block_count: self.blocks.len(),
            hit_rate: self.hit_rate(),
        }
    }

    /// The counters.
    pub fn metrics(&self) -> (r: BlockCacheMetrics)
        requires
            self@.hits + self@.misses <= u64::MAX,
        ensures
            r.capacity == self@.max_size,
            r.usage == self@.current_size,
            r.hit_count == self@.hits,
            r.miss_count == self@.misses,
            r.eviction_count == self@.evictions,
            r.hit_rate == Ratio::of_parts(self@.hits as int, self@.hits + self@.misses),
    {
        BlockCacheMetrics {
            capacity: self.max_size as u64,
            usage: self.current_size as u64,
            hit_count: self.hit_count,
            miss_count: self.miss_count,
            eviction_count: self.eviction_count,
            hit_rate: self.hit_rate(),
        }
    }

    /// Drops all blocks; the counters stay.
    pub fn clear(&mut self)
        requires
            old(self).wf(),
        ensures
            final(self).wf(),
            final(self)@ == old(self)@.cleared(),
    {
        self.blocks = Vec::new();
        self.access_order = Vec::new();
        self.current_size = 0;
        assert(self@.order =~= Seq::empty());
    }

    /// Takes a block out; its bytes have room again.
    pub fn remove(&mut self, key: &str) -> (r: Option<Vec<u8>>)
        requires
            old(self).wf(),
        ensures
            final(self).wf(),
            final(self)@ == old(self)@.removed(key@),
            match r {
                Some(data) => {
                    &&& old(self)@.blocks.contains_key(key@)
                    &&& data@ == old(self)@.blocks[key@]
                    &&& data@.len() <= old(self)@.current_size
                },
                None => !old(self)@.blocks.contains_key(key@),
            },
    {
        proof {
            taking_out_frees_room(self@, key@);
        }
        match self.find(key) {
            Some(i) => {
                let block = self.take_block(i);
                self.forget_turn(key);
                assert(self@ =~= old(self)@.removed(key@));
                Some(block.data)
            },
            None => None,
        }
    }
}

proof fn held_added(blocks: Seq<CachedBlock>, block: CachedBlock)
    requires
        distinct(blocks),
        !held(blocks).contains_key(block.key@),
    ensures
        distinct(blocks.push(block)),
        held(blocks.push(block)) == held(blocks).insert(block.key@, block.data@),
{
    held_is(blocks);
    let all = blocks.push(block);
    assert(all.drop_last() =~= blocks);
    assert forall|a: int, b: int| 0 <= a < b < all.len() implies (#[trigger] all[a]).key@ != (
    #[trigger] all[b]).key@ by {
        assert(all[a] == blocks[a]);
        if b < blocks.len() {
            assert(all[b] == blocks[b]);
        }
    }
}

/// A block that was stored is found, and looking for it gives back its bytes.
pub proof fn stored_block_is_found(cache: CacheView, key: Seq<char>, data: Seq<u8>)
    ensures
        cache.put(key, data).blocks.contains_key(key),
        cache.put(key, data).blocks[key] == data,
        cache.put(key, data).order.last() == key,
{
}

/// Storing a block changes no other one: another block is as before or was dropped.
pub proof fn storing_keeps_or_drops(cache: CacheView, key: Seq<char>, data: Seq<u8>, k: Seq<char>)
    requires
        k != key,
        cache.put(key, data).blocks.contains_key(k),
    ensures
        cache.blocks.contains_key(k),
        cache.put(key, data).blocks[k] == cache.blocks[k],
{
    evicting_only_drops(cache.removed(key), data.len(), k);
}

proof fn evicting_only_drops(cache: CacheView, n: nat, k: Seq<char>)
    requires
        cache.evict_for(n).blocks.contains_key(k),
    ensures
        cache.blocks.contains_key(k),
        cache.evict_for(n).blocks[k] == cache.blocks[k],
    decreases cache.order.len(),
{
    if cache.current_size + n > cache.max_size && cache.order.len() > 0 {
        evicting_only_drops(cache.evict_one(), n, k);
    }
}

/// `after` is `before` without the `m` blocks that were used least recently, which were counted,
/// and no fewer could have been dropped for room for `n` bytes: with the last of them back, the
/// room would not do. More are not left to drop, or the room does.
pub open spec fn drops_least(before: CacheView, after: CacheView, n: nat, m: nat) -> bool {
    &&& m <= before.order.len()
    &&& after.order == before.order.skip(m as int)
    &&& forall|k: Seq<char>| #[trigger]
        after.blocks.contains_key(k) ==> before.blocks.contains_key(k) && after.blocks[k]
            == before.blocks[k]
    &&& after.evictions == before.evictions + m
    &&& after.max_size == before.max_size
    &&& after.hits == before.hits && after.misses == before.misses
    &&& m > 0 ==> bytes_of(before.order.skip(m - 1), before.blocks) + n > before.max_size
    &&& after.current_size + n <= before.max_size || m == before.order.len()
}

proof fn evicting_drops_least(cache: CacheView, n: nat) -> (m: nat)
    requires
        cache.valid(),
        cache.evictions + cache.order.len() <= u64::MAX,
    ensures
        cache.evict_for(n).valid(),
        drops_least(cache, cache.evict_for(n), n, m),
    decreases cache.order.len(),
{
    if cache.current_size + n > cache.max_size && cache.order.len() > 0 {
        evicted_is_valid(cache);
        let next = cache.evict_one();
        let m = evicting_drops_least(next, n);
        let e = cache.evict_for(n);
        assert(e.order =~= cache.order.skip((m + 1) as int));
        assert forall|k: Seq<char>| #[trigger] e.blocks.contains_key(k) implies cache.blocks.contains_key(
            k,
        ) && e.blocks[k] == cache.blocks[k] by {
            assert(next.blocks.contains_key(k));
        }
        if m == 0 {
            assert(cache.order.skip(0) =~= cache.order);
        } else {
            let tail = cache.order.skip(m as int);
            assert(tail =~= next.order.skip(m - 1));
            assert forall|i: int| 0 <= i < tail.len() implies next.blocks[#[trigger] tail[i]]
                == cache.blocks[tail[i]] by {
                assert(tail[i] == cache.order[m + i]);
                assert(tail[i] != cache.order[0]);
            }
            bytes_agree(tail, next.blocks, cache.blocks);
        }
        m + 1
    } else {
        assert(cache.order.skip(0) =~= cache.order);
        0
    }
}

/// Storing a block keeps the cache valid. It drops, beside a block with the same key, those blocks
/// that were used least recently, no more than needed, and counts them. Afterwards a block that is
/// no larger than the whole cache fits the room.
pub proof fn storing_drops_least(cache: CacheView, key: Seq<char>, data: Seq<u8>)
    requires
        cache.valid(),
        cache.evictions + cache.order.len() <= u64::MAX,
    ensures
        cache.put(key, data).valid(),
        exists|m: nat| #[trigger]
            drops_least(
                cache.removed(key),
                cache.removed(key).evict_for(data.len()),
                data.len(),
                m,
            ) && cache.put(key, data).evictions == cache.evictions + m,
        cache.removed(key).current_size + data.len() <= cache.max_size ==> cache.put(
            key,
            data,
        ).evictions == cache.evictions,
        data.len() <= cache.max_size ==> cache.put(key, data).current_size <= cache.max_size,
{
    taking_out_frees_room(cache, key);
    let r = cache.removed(key);
    let m = evicting_drops_least(r, data.len());
    let e = r.evict_for(data.len());
    assert(drops_least(r, e, data.len(), m));
    if e.blocks.contains_key(key) {
        evicting_only_drops(r, data.len(), key);
    }
    added_is_valid(e, key, data);
    assert(cache.put(key, data) == CacheView {
        blocks: e.blocks.insert(key, data),
        current_size: e.current_size + data.len(),
        order: e.order.push(key),
        ..e
    });
    if m == r.order.len() {
        assert(e.order.len() == 0);
    }
}

/// Blocks leave in the order in which they were used: a block leaves for room only after every
/// block that was used before it has left.
pub proof fn earlier_turns_leave_first(cache: CacheView, n: nat, i: int, j: int)
    requires
        cache.valid(),
        cache.evictions + cache.order.len() <= u64::MAX,
        0 <= i < j < cache.order.len(),
        !cache.evict_for(n).blocks.contains_key(cache.order[j]),
    ensures
        !cache.evict_for(n).blocks.contains_key(cache.order[i]),
{
    let m = evicting_drops_least(cache, n);
    let e = cache.evict_for(n);
    if e.blocks.contains_key(cache.order[i]) {
        assert(e.order.contains(cache.order[i]));
        let a = choose|a: int| 0 <= a < e.order.len() && e.order[a] == cache.order[i];
        assert(cache.order[a + m] == cache.order[i]);
        assert(e.order[j - m] == cache.order[j]);
        assert(e.order.contains(cache.order[j]));
    }
}

/// A block that was stored is given back as long as it is held, and it is held right after it was
/// stored.
pub proof fn stored_block_is_given_back(
    c: &mut BlockCache,
    later: &mut BlockCache,
    key: String,
    data: Vec<u8>,
    name: &str,
    r: Option<&[u8]>,
)
    requires
        old(c).wf(),
        call_ensures(BlockCache::put, (c, key, data), ()),
        *old(later) == *final(c),
        name@ == key@,
        call_ensures(BlockCache::get, (later, name), r),
    ensures
        r matches Some(found) && found@ == data@,
{
    stored_block_is_found(old(c)@, key@, data@);
}

/// Storing a block changes no other one: what is given back under another key is what was given
/// back before, or nothing.
pub proof fn other_blocks_are_kept_or_dropped(
    c: &mut BlockCache,
    before: &mut BlockCache,
    after: &mut BlockCache,
    key: String,
    data: Vec<u8>,
    other: &str,
    r: Option<&[u8]>,
    s: Option<&[u8]>,
)
    requires
        old(c).wf(),
        other@ != key@,
        *old(before) == *old(c),
        call_ensures(BlockCache::get, (before, other), r),
        call_ensures(BlockCache::put, (c, key, data), ()),
        *old(after) == *final(c),
        call_ensures(BlockCache::get, (after, other), s),
    ensures
        s matches Some(found) ==> (r matches Some(was) && found@ == was@),
        r is Some && old(c)@.current_size + data@.len() <= old(c)@.max_size ==> s is Some,
{
    if old(c)@.put(key@, data@).blocks.contains_key(other@) {
        storing_keeps_or_drops(old(c)@, key@, data@, other@);
    }
    old(c).holds_valid();
    taking_out_frees_room(old(c)@, key@);
}

/// A block that is removed is handed out. It is not given back afterwards, nor is any block once the
/// cache is cleared.
pub proof fn removed_block_is_gone(
    c: &mut BlockCache,
    later: &mut BlockCache,
    key: &str,
    before: &mut BlockCache,
    held: Option<&[u8]>,
    taken: Option<Vec<u8>>,
    r: Option<&[u8]>,
    d: &mut BlockCache,
    last: &mut BlockCache,
    s: Option<&[u8]>,
)
    requires
        old(c).wf(),
        *old(before) == *old(c),
        call_ensures(BlockCache::get, (before, key), held),
        call_ensures(BlockCache::remove, (c, key), taken),
        *old(later) == *final(c),
        call_ensures(BlockCache::get, (later, key), r),
        call_ensures(BlockCache::clear, (d,), ()),
        *old(last) == *final(d),
        call_ensures(BlockCache::get, (last, key), s),
    ensures
        taken is Some <==> held is Some,
        taken matches Some(data) ==> (held matches Some(was) && was@ == data@),
        r is None,
        s is None,
        final(d)@.current_size == 0,
{
    old(c).holds_valid();
    taking_out_frees_room(old(c)@, key@);
}

/// A lookup counts as a hit exactly if a block is given back, and as a miss otherwise.
pub proof fn lookups_are_counted(
    c: &mut BlockCache,
    key: &str,
    r: Option<&[u8]>,
    before: BlockCacheMetrics,
    after: BlockCacheMetrics,
)
    requires
        old(c).wf(),
        old(c)@.hits < u64::MAX,
        old(c)@.misses < u64::MAX,
        call_ensures(BlockCache::get, (c, key), r),
        call_ensures(BlockCache::metrics, (&*old(c),), before),
        call_ensures(BlockCache::metrics, (&*final(c),), after),
    ensures
        r is Some ==> after.hit_count == before.hit_count + 1 && after.miss_count
            == before.miss_count,
        r is None ==> after.miss_count == before.miss_count + 1 && after.hit_count
            == before.hit_count,
        after.usage == before.usage,
        after.capacity == before.capacity,
        after.eviction_count == before.eviction_count,
{
    old(c).holds_valid();
    looking_only_counts(old(c)@, key@);
}

/// What the cache uses is the size of its blocks, and no more than its capacity once a block that
/// fits was stored; nothing is dropped where there is room.
pub proof fn capacity_is_kept(
    c: &mut BlockCache,
    key: String,
    data: Vec<u8>,
    before: BlockCacheMetrics,
    after: BlockCacheMetrics,
)
    requires
        old(c).wf(),
        old(c)@.evictions + old(c)@.order.len() <= u64::MAX,
        call_ensures(BlockCache::put, (c, key, data), ()),
        call_ensures(BlockCache::metrics, (&*old(c),), before),
        call_ensures(BlockCache::metrics, (&*final(c),), after),
    ensures
        after.capacity == before.capacity,
        data@.len() <= before.capacity ==> after.usage <= after.capacity,
        after.usage >= data@.len(),
        !old(c)@.blocks.contains_key(key@) && before.usage + data@.len() <= before.capacity
            ==> after.usage == before.usage + data@.len() && after.eviction_count
            == before.eviction_count,
{
    old(c).holds_valid();
    storing_drops_least(old(c)@, key@, data@);
    taking_out_frees_room(old(c)@, key@);
}

proof fn touched_is_last(order: Seq<Seq<char>>, key: Seq<char>)
    requires
        order.no_duplicates(),
        order.contains(key),
    ensures
        touched(order, key).len() == order.len(),
        touched(order, key).last() == key,
        forall|k: Seq<char>| #[trigger] touched(order, key).contains(k) <==> order.contains(k),
        touched(order, key).drop_last() == without_first(order, key),
{
    let i = without_is(order, key);
    let t = touched(order, key);
    assert(t.drop_last() =~= order.remove(i));
    assert forall|k: Seq<char>| #[trigger] t.contains(k) <==> order.contains(k) by {
        if t.contains(k) {
            let a = choose|a: int| 0 <= a < t.len() && t[a] == k;
            if a < t.len() - 1 {
                assert(order.remove(i)[a] == k);
                assert(order.remove(i).contains(k));
            }
        }
        if order.contains(k) {
            if k == key {
                assert(t[t.len() - 1] == k);
            } else {
                assert(order.remove(i).contains(k));
                let a = choose|a: int| 0 <= a < order.remove(i).len() && order.remove(i)[a] == k;
                assert(t[a] == k);
            }
        }
    }
}

/// The later of two keys stays the later one when another key is taken out.
proof fn taking_out_keeps_turns(order: Seq<Seq<char>>, key: Seq<char>, i: int, j: int) -> (at: (
    int,
    int,
))
    requires
        order.no_duplicates(),
        0 <= i < j < order.len(),
        order[i] != key,
        order[j] != key,
    ensures
        0 <= at.0 < at.1 < without_first(order, key).len(),
        without_first(order, key)[at.0] == order[i],
        without_first(order, key)[at.1] == order[j],
{
    if order.contains(key) {
        let p = without_is(order, key);
        (if i < p { i } else { i - 1 }, if j < p { j } else { j - 1 })
    } else {
        without_first_absent(order, key);
        (i, j)
    }
}

proof fn later_turn_stays_longer(
    cache: CacheView,
    key: Seq<char>,
    data: Seq<u8>,
    i: int,
    j: int,
)
    requires
        cache.valid(),
        cache.evictions + cache.order.len() <= u64::MAX,
        0 <= i < j < cache.order.len(),
        cache.order[i] != key,
        cache.order[j] != key,
        !cache.put(key, data).blocks.contains_key(cache.order[j]),
    ensures
        !cache.put(key, data).blocks.contains_key(cache.order[i]),
{
    taking_out_frees_room(cache, key);
    let less = cache.removed(key);
    let at = if cache.blocks.contains_key(key) {
        taking_out_keeps_turns(cache.order, key, i, j)
    } else {
        (i, j)
    };
    earlier_turns_leave_first(less, data.len(), at.0, at.1);
}

/// The block that was used last is the last one to be dropped: where storing another block drops it,
/// it drops every other one that was held.
pub proof fn block_used_last_is_dropped_last(
    c: &mut BlockCache,
    later: &mut BlockCache,
    used: &str,
    r: Option<&[u8]>,
    key: String,
    data: Vec<u8>,
    other: Seq<char>,
)
    requires
        old(c).wf(),
        call_ensures(BlockCache::get, (c, used), r),
        r is Some,
        *old(later) == *final(c),
        old(later)@.evictions + old(later)@.order.len() <= u64::MAX,
        call_ensures(BlockCache::put, (later, key, data), ()),
        used@ != key@,
        other != key@,
        !final(later)@.blocks.contains_key(used@),
    ensures
        !final(later)@.blocks.contains_key(other),
{
    let start = old(c)@;
    let cache = final(c)@;
    old(c).holds_valid();
    final(c).holds_valid();
    assert(start.order.contains(used@));
    touched_is_last(start.order, used@);
    if final(later)@.blocks.contains_key(other) {
        storing_keeps_or_drops(cache, key@, data@, other);
        assert(cache.order.contains(other));
        let i = choose|i: int| 0 <= i < cache.order.len() && cache.order[i] == other;
        let j = cache.order.len() - 1;
        assert(cache.order[j] == used@);
        if i < j {
            later_turn_stays_longer(cache, key@, data@, i, j);
        }
    }
}

/// Of two blocks that were used one after the other, the one that was used earlier is dropped first.
pub proof fn block_used_earlier_is_dropped_first(
    c: &mut BlockCache,
    next: &mut BlockCache,
    later: &mut BlockCache,
    first: &str,
    second: &str,
    r: Option<&[u8]>,
    s: Option<&[u8]>,
    key: String,
    data: Vec<u8>,
)
    requires
        old(c).wf(),
        call_ensures(BlockCache::get, (c, first), r),
        r is Some,
        *old(next) == *final(c),
        call_ensures(BlockCache::get, (next, second), s),
        s is Some,
        *old(later) == *final(next),
        old(later)@.evictions + old(later)@.order.len() <= u64::MAX,
        call_ensures(BlockCache::put, (later, key, data), ()),
        first@ != second@,
        first@ != key@,
        second@ != key@,
        !final(later)@.blocks.contains_key(second@),
    ensures
        !final(later)@.blocks.contains_key(first@),
{
    let (one, two, three) = (old(c)@.order, final(c)@.order, final(next)@.order);
    let cache = final(next)@;
    old(c).holds_valid();
    final(c).holds_valid();
    final(next).holds_valid();
    assert(one.contains(first@));
    touched_is_last(one, first@);
    assert(two.contains(second@));
    touched_is_last(two, second@);
    assert(two.last() == first@);
    assert(two.contains(first@));
    assert(three.contains(first@));
    let i = choose|i: int| 0 <= i < three.len() && three[i] == first@;
    let j = three.len() - 1;
    assert(three[j] == second@);
    later_turn_stays_longer(cache, key@, data@, i, j);
}

} // verus!
