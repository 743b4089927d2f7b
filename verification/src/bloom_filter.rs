//! Bloom filter of a table: which keys it may hold.

use crate::bytes::{self, extend};
use std::collections::hash_map::DefaultHasher;
use std::hash::{Hash, Hasher};
use vstd::bytes::*;
use vstd::prelude::*;
use vstd::slice::*;
use vstd::std_specs::hash::*;

verus! {

/// The state of a hasher after a string was fed to it.
pub uninterp spec fn str_fed(state: Seq<Seq<u8>>, key: Seq<char>) -> Seq<Seq<u8>>;

/// The state of a hasher after a 64-bit number was fed to it.
pub uninterp spec fn u64_fed(state: Seq<Seq<u8>>, n: u64) -> Seq<Seq<u8>>;

/// `<str as Hash>::hash` into a `DefaultHasher`: the new state depends on the old one and on the
/// text alone.
#[verifier::external_body]
fn feed_str(hasher: &mut DefaultHasher, key: &str)
    ensures
        final(hasher)@ == str_fed(old(hasher)@, key@),
{
    key.hash(hasher);
}

/// `<u64 as Hash>::hash` into a `DefaultHasher`: the new state depends on the old one and on the
/// number alone.
#[verifier::external_body]
fn feed_u64(hasher: &mut DefaultHasher, n: u64)
    ensures
        final(hasher)@ == u64_fed(old(hasher)@, n),
{
    n.hash(hasher);
}

/// Hash number `index` of `key`.
pub open spec fn key_hash(key: Seq<char>, index: int) -> u64 {
    DefaultHasher::spec_finish(u64_fed(str_fed(Seq::empty(), key), index as u64))
}

/// The bit that hash number `index` of `key` selects among `size` bits.
pub open spec fn key_slot(key: Seq<char>, index: int, size: int) -> int {
    (key_hash(key, index) as usize) as int % size
}

/// Bit `b` of a byte, the lowest being bit 0.
pub open spec fn byte_bit(byte: u8, b: u8) -> bool {
    byte & (1u8 << b) != 0
}

/// The bits of the bytes, each byte from its lowest bit on.
pub open spec fn unpacked(data: Seq<u8>) -> Seq<bool> {
    Seq::new(data.len() * 8, |j: int| byte_bit(data[j / 8], (j % 8) as u8))
}

/// `bits`, cut or filled with `false` to the length `size`.
pub open spec fn resized(bits: Seq<bool>, size: nat) -> Seq<bool> {
    Seq::new(size, |j: int| if j < bits.len() { bits[j] } else { false })
}

/// `data` holds `bits` packed eight to a byte, with the rest of the last byte zero.
pub open spec fn packs(data: Seq<u8>, bits: Seq<bool>) -> bool {
    &&& data.len() == (bits.len() + 7) / 8
    &&& forall|j: int|
        0 <= j < data.len() * 8 ==> #[trigger] unpacked(data)[j] == (j < bits.len() && bits[j])
}

/// The bytes that hold `bits` packed.
pub open spec fn packed(bits: Seq<bool>) -> Seq<u8> {
    choose|data: Seq<u8>| packs(data, bits)
}

/// The stored form of a filter.
pub open spec fn filter_bytes(bits: Seq<bool>) -> Seq<u8> {
    spec_u32_to_le_bytes(bits.len() as u32) + packed(bits)
}

/// The bits after a key was added.
pub open spec fn with_key(bits: Seq<bool>, hash_count: nat, key: Seq<char>) -> Seq<bool> {
    Seq::new(
        bits.len(),
        |j: int|
            bits[j] || exists|i: int|
                0 <= i < hash_count && #[trigger] key_slot(key, i, bits.len() as int) == j,
    )
}

/// Every bit that the key selects is set.
pub open spec fn holds_key(bits: Seq<bool>, hash_count: nat, key: Seq<char>) -> bool {
    forall|i: int|
        0 <= i < hash_count ==> bits[#[trigger] key_slot(key, i, bits.len() as int)]
}

/// The largest filter that is read back.
pub const MAX_BLOOM_SIZE: usize = 100_000_000;

/// Bloom filter with a number of hash functions.
#[derive(Debug)]
pub struct BloomFilter {
    bits: Vec<bool>,
    hash_count: usize,
    size: usize,
}

impl Clone for BloomFilter {
    fn clone(&self) -> (r: Self)
        ensures
            r.bit_seq() == self.bit_seq(),
            r.hash_num() == self.hash_num(),
            r.bit_num() == self.bit_num(),
    {
        BloomFilter { bits: self.bits.clone(), hash_count: self.hash_count, size: self.size }
    }
}

impl BloomFilter {
    /// The bits.
    pub closed spec fn bit_seq(&self) -> Seq<bool> {
        self.bits@
    }

    /// The number of hash functions.
    pub closed spec fn hash_num(&self) -> nat {
        self.hash_count as nat
    }

    /// The number of bits that the filter was made for.
    pub closed spec fn bit_num(&self) -> nat {
        self.size as nat
    }

    /// There are as many bits as the filter was made for, and at least one.
    pub open spec fn valid(&self) -> bool {
        self.bit_seq().len() == self.bit_num() && self.bit_num() > 0
    }

    /// Creates a filter of `size` bits with `hash_count` hash functions.
    pub fn new(size: usize, hash_count: usize) -> (r: Self)
        ensures
            r.bit_seq() == Seq::new(size as nat, |i: int| false),
            r.hash_num() == hash_count,
            r.bit_num() == size,
    {
        let bits: Vec<bool> = vec![false; size];
        assert(bits@ =~= Seq::new(size as nat, |i: int| false));
        BloomFilter { bits, hash_count, size }
    }

    /// Creates a filter for `item_count` items: ten bits for each, and seven hash functions.
    pub fn with_optimal_params(item_count: usize) -> (r: Self)
        requires
            item_count * 10 <= usize::MAX,
        ensures
            r.bit_seq() == Seq::new((item_count * 10) as nat, |i: int| false),
            r.hash_num() == 7,
            r.bit_num() == item_count * 10,
    {
        Self::new(item_count * 10, 7)
    }

    /// Adds a key; a filter of no bits stays as it is.
    pub fn add(&mut self, key: &str)
        ensures
            final(self).hash_num() == old(self).hash_num(),
            final(self).bit_num() == old(self).bit_num(),
            final(self).bit_seq() == with_key(
                resized(old(self).bit_seq(), old(self).bit_num()),
                old(self).hash_num(),
                key@,
            ),
    {
        self.validate_and_fix_invariant();
        let ghost fixed = self.bits@;
        if self.bits.len() == 0 || self.size == 0 {
            assert(self.bits@ =~= with_key(fixed, self.hash_num(), key@));
            return;
        }
        let mut i: usize = 0;
        while i < self.hash_count
            invariant
                self.size > 0,
                self.bits@.len() == self.size,
                fixed.len() == self.size,
                self.hash_count == old(self).hash_count,
                self.size == old(self).size,
                i <= self.hash_count,
                self.bits@ == with_key(fixed, i as nat, key@),
            decreases self.hash_count - i,
        {
            let hash: usize = self.hash(key, i);
            let index: usize = hash % self.size;
            self.bits.set(index, true);
            assert(index == key_slot(key@, i as int, fixed.len() as int));
            assert(self.bits@ =~= with_key(fixed, (i + 1) as nat, key@));
            i = i + 1;
        }
    }

    /// Whether the key may have been added: `false` means that it was not. A filter that is not
    /// valid answers `true`.
    pub fn might_contain(&self, key: &str) -> (r: bool)
        ensures
            r == (!self.valid() || holds_key(self.bit_seq(), self.hash_num(), key@)),
    {
        if !self.is_valid() {
            return true;
        }
        let mut i: usize = 0;
        while i < self.hash_count
            invariant
                self.valid(),
                i <= self.hash_count,
                holds_key(self.bits@, i as nat, key@),
            decreases self.hash_count - i,
        {
            let hash: usize = self.hash(key, i);
            let index: usize = hash % self.size;
            assert(index == key_slot(key@, i as int, self.bits@.len() as int));
            if !self.bits[index] {
                return false;
            }
            i = i + 1;
        }
        true
    }

    /// Number of hash functions.
    pub fn hash_count(&self) -> (r: usize)
        ensures
            r == self.hash_num(),
    {
        self.hash_count
    }

    /// Cuts or fills the bits to the number that the filter was made for; tells whether that was
    /// needed.
    pub fn validate_and_fix_invariant(&mut self) -> (fixed: bool)
        ensures
            fixed == (old(self).bit_seq().len() != old(self).bit_num()),
            final(self).bit_seq() == resized(old(self).bit_seq(), old(self).bit_num()),
            final(self).hash_num() == old(self).hash_num(),
            final(self).bit_num() == old(self).bit_num(),
    {
        if self.bits.len() != self.size {
            if self.bits.len() < self.size {
                self.bits.resize(self.size, false);
            } else {
                self.bits.truncate(self.size);
            }
            assert(self.bits@ =~= resized(old(self).bits@, old(self).size as nat));
            true
        } else {
            assert(self.bits@ =~= resized(old(self).bits@, old(self).size as nat));
            false
        }
    }

    /// Whether the filter has as many bits as it was made for, and at least one.
    pub fn is_valid(&self) -> (r: bool)
        ensures
            r == self.valid(),
    {
        self.bits.len() == self.size && self.size > 0
    }

    /// Number of bits that the filter was made for.
    pub fn size(&self) -> (r: usize)
        ensures
            r == self.bit_num(),
    {
        self.size
    }

    /// Number of bits.
    pub fn bits_len(&self) -> (r: usize)
        ensures
            r == self.bit_seq().len(),
    {
        self.bits.len()
    }

    /// Whether there are no bits.
    pub fn bits_is_empty(&self) -> (r: bool)
        ensures
            r == (self.bit_seq().len() == 0),
    {
        self.bits.len() == 0
    }

    /// Drops all bits; the filter is then one of no bits.
    pub fn clear_bits(&mut self)
        ensures
            final(self).bit_seq() == Seq::<bool>::empty(),
            final(self).bit_num() == 0,
            final(self).hash_num() == old(self).hash_num(),
    {
        self.bits.clear();
        self.size = 0;
    }

    /// Unsets all bits and keeps their number.
    pub fn clear(&mut self)
        ensures
            final(self).bit_seq() == Seq::new(old(self).bit_num(), |i: int| false),
            final(self).bit_num() == old(self).bit_num(),
            final(self).hash_num() == old(self).hash_num(),
    {
        self.validate_and_fix_invariant();
        let n: usize = self.bits.len();
        let mut i: usize = 0;
        while i < n
            invariant
                n == self.bits@.len(),
                n == old(self).size,
                self.size == old(self).size,
                self.hash_count == old(self).hash_count,
                i <= n,
                forall|j: int| 0 <= j < i ==> !self.bits@[j],
            decreases n - i,
        {
            self.bits.set(i, false);
            i = i + 1;
        }
        assert(self.bits@ =~= Seq::new(old(self).size as nat, |i: int| false));
    }

    fn hash(&self, key: &str, hash_index: usize) -> (r: usize)
        ensures
            r == key_hash(key@, hash_index as int) as usize,
    {
        let mut hasher = DefaultHasher::new();
        feed_str(&mut hasher, key);
        feed_u64(&mut hasher, hash_index as u64);
        hasher.finish() as usize
    }

    /// Number of bytes that the bits fill.
    pub fn size_bytes(&self) -> (r: usize)
        ensures
            r == (self.bit_num() + 7) / 8,
    {
        self.size / 8 + (if self.size % 8 == 0 { 0 } else { 1 })
    }

    /// The stored form: the number of bits (u32 LE) and the packed bits.
    pub fn to_bytes(&self) -> (r: Vec<u8>)
        ensures
            r@ == spec_u32_to_le_bytes(self.bit_num() as u32) + packed(self.bit_seq()),
            packs(packed(self.bit_seq()), self.bit_seq()),
    {
        let head = u32_to_le_bytes(self.size as u32);
        let packed = pack(&self.bits);
        let mut out: Vec<u8> = Vec::new();
        extend(&mut out, head.as_slice());
        extend(&mut out, packed.as_slice());
        proof {
            packed_unique(packed@, self.bits@);
        }
        out
    }

    /// Reads a stored filter. No bytes, too many bits or none give the filter of no bits; fewer
    /// than four bytes are bits alone.
    pub fn from_bytes(data: &[u8], hash_count: usize) -> (r: Self)
        ensures
            r.hash_num() == hash_count,
            r.bit_num() == stored_bits(data@).len(),
            r.bit_seq() == stored_bits(data@),
    {
        if data.len() == 0 {
            let r = Self::new(0, hash_count);
            assert(r.bit_seq() =~= stored_bits(data@));
            return r;
        }
        if data.len() < 4 {
            let size: usize = data.len() * 8;
            let bits = unpack(data);
            let mut filter = BloomFilter { bits, hash_count, size };
            filter.validate_and_fix_invariant();
            assert(filter.bit_seq() =~= stored_bits(data@));
            return filter;
        }
        let size: usize = u32_from_le_bytes(slice_subrange(data, 0, 4)) as usize;
        if size > MAX_BLOOM_SIZE {
            let r = Self::new(0, hash_count);
            assert(r.bit_seq() =~= stored_bits(data@));
            return r;
        }
        let bits = unpack(slice_subrange(data, 4, data.len()));
        let mut filter = BloomFilter { bits, hash_count, size };
        assert(data@.subrange(4, data@.len() as int) =~= data@.skip(4));
        assert(data@.subrange(0, 4) =~= data@.take(4));
        filter.validate_and_fix_invariant();
        if !filter.is_valid() {
            let r = Self::new(0, hash_count);
            assert(r.bit_seq() =~= stored_bits(data@));
            return r;
        }
        filter
    }
}

/// The bits that stored bytes stand for.
pub open spec fn stored_bits(data: Seq<u8>) -> Seq<bool> {
    if data.len() == 0 {
        Seq::empty()
    } else if data.len() < 4 {
        unpacked(data)
    } else if spec_u32_from_le_bytes(data.take(4)) > MAX_BLOOM_SIZE {
        Seq::empty()
    } else {
        resized(unpacked(data.skip(4)), spec_u32_from_le_bytes(data.take(4)) as nat)
    }
}

proof fn bit_set(byte: u8, i: u8, j: u8)
    by (bit_vector)
    requires
        i < 8,
        j < 8,
    ensures
        ((byte | (1u8 << i)) & (1u8 << j) != 0) == (i == j || (byte & (1u8 << j) != 0)),
{
}

proof fn same_bits_same_byte(a: u8, b: u8)
    by (bit_vector)
    requires
        (a & (1u8 << 0u8) != 0) == (b & (1u8 << 0u8) != 0),
        (a & (1u8 << 1u8) != 0) == (b & (1u8 << 1u8) != 0),
        (a & (1u8 << 2u8) != 0) == (b & (1u8 << 2u8) != 0),
        (a & (1u8 << 3u8) != 0) == (b & (1u8 << 3u8) != 0),
        (a & (1u8 << 4u8) != 0) == (b & (1u8 << 4u8) != 0),
        (a & (1u8 << 5u8) != 0) == (b & (1u8 << 5u8) != 0),
        (a & (1u8 << 6u8) != 0) == (b & (1u8 << 6u8) != 0),
        (a & (1u8 << 7u8) != 0) == (b & (1u8 << 7u8) != 0),
    ensures
        a == b,
{
}

/// Bits are packed in one way only.
proof fn packed_unique(data: Seq<u8>, bits: Seq<bool>)
    requires
        packs(data, bits),
    ensures
        packed(bits) == data,
        packs(packed(bits), bits),
{
    let other = packed(bits);
    assert(packs(other, bits));
    assert forall|k: int| 0 <= k < data.len() implies data[k] == other[k] by {
        assert forall|b: u8| b < 8 implies #[trigger] byte_bit(data[k], b) == byte_bit(other[k], b) by {
            let j = k * 8 + b;
            assert(j / 8 == k && j % 8 == b);
            assert(unpacked(data)[j] == (j < bits.len() && bits[j]));
            assert(unpacked(other)[j] == (j < bits.len() && bits[j]));
        }
        assert(byte_bit(data[k], 0) == byte_bit(other[k], 0));
        assert(byte_bit(data[k], 1) == byte_bit(other[k], 1));
        assert(byte_bit(data[k], 2) == byte_bit(other[k], 2));
        assert(byte_bit(data[k], 3) == byte_bit(other[k], 3));
        assert(byte_bit(data[k], 4) == byte_bit(other[k], 4));
        assert(byte_bit(data[k], 5) == byte_bit(other[k], 5));
        assert(byte_bit(data[k], 6) == byte_bit(other[k], 6));
        assert(byte_bit(data[k], 7) == byte_bit(other[k], 7));
        same_bits_same_byte(data[k], other[k]);
    }
    assert(data =~= other);
}

/// The byte whose bits are the eight of `bits` from `at` on.
proof fn byte_with_bits(bits: Seq<bool>, at: int, n: u8) -> (byte: u8)
    requires
        n <= 8,
    ensures
        forall|b: u8| b < 8 ==> #[trigger] byte_bit(byte, b) == (b < n && at + b < bits.len() && bits[at + b]),
    decreases n,
{
    if n == 0 {
        assert forall|b: u8| b < 8 implies !#[trigger] byte_bit(0u8, b) by {
            no_bits(b);
        }
        0u8
    } else {
        let i = (n - 1) as u8;
        let before = byte_with_bits(bits, at, i);
        if at + i < bits.len() && bits[at + i] {
            let byte = before | (1u8 << i);
            assert forall|b: u8| b < 8 implies #[trigger] byte_bit(byte, b) == (b < n && at + b
                < bits.len() && bits[at + b]) by {
                bit_set(before, i, b);
                assert(byte_bit(before, b) == (b < i && at + b < bits.len() && bits[at + b]));
            }
            byte
        } else {
            before
        }
    }
}

/// Every sequence of bits can be packed.
proof fn packed_exists(bits: Seq<bool>)
    ensures
        packs(packed(bits), bits),
{
    let n = ((bits.len() + 7) / 8) as nat;
    let data = Seq::new(n, |k: int| packed_byte(bits, k));
    assert forall|j: int| 0 <= j < data.len() * 8 implies #[trigger] unpacked(data)[j] == (j
        < bits.len() && bits[j]) by {
        let k = j / 8;
        let b = (j % 8) as u8;
        let witness = byte_with_bits(bits, k * 8, 8);
        assert(has_bits(witness, bits, k));
        assert(has_bits(packed_byte(bits, k), bits, k));
        assert(byte_bit(data[k], b) == (k * 8 + b < bits.len() && bits[k * 8 + b]));
    }
    assert(packs(data, bits));
}

/// The byte holds the eight bits from `k * 8` on.
spec fn has_bits(byte: u8, bits: Seq<bool>, k: int) -> bool {
    forall|b: u8|
        b < 8 ==> #[trigger] byte_bit(byte, b) == (k * 8 + b < bits.len() && bits[k * 8 + b])
}

spec fn packed_byte(bits: Seq<bool>, k: int) -> u8 {
    choose|byte: u8| has_bits(byte, bits, k)
}

proof fn no_bits(j: u8)
    by (bit_vector)
    ensures
        0u8 & (1u8 << j) == 0,
{
}

fn pack(bits: &Vec<bool>) -> (r: Vec<u8>)
    ensures
        packs(r@, bits@),
{
    let n: usize = bits.len();
    let mut out: Vec<u8> = Vec::new();
    let mut at: usize = 0;
    while at < n
        invariant
            n == bits@.len(),
            at == out@.len() * 8 || at == n,
            out@.len() == (at + 7) / 8,
            at <= n,
            forall|j: int|
                0 <= j < out@.len() * 8 ==> #[trigger] unpacked(out@)[j] == (j < bits@.len() && bits@[j]),
        decreases n - at,
    {
        let mut byte: u8 = 0;
        let mut i: u8 = 0;
        proof {
            assert forall|j: u8| j < 8 implies !#[trigger] byte_bit(0u8, j) by {
                no_bits(j);
            }
        }
        while i < 8 && (i as usize) < n - at
            invariant
                n == bits@.len(),
                at < n,
                i <= 8,
                i <= n - at,
                forall|j: u8| j < 8 ==> #[trigger] byte_bit(byte, j) == (j < i && bits@[at + j]),
            decreases 8 - i,
        {
            if bits[at + i as usize] {
                let ghost before = byte;
                byte = byte | (1u8 << i);
                proof {
                    assert forall|j: u8| j < 8 implies #[trigger] byte_bit(byte, j) == (j < i + 1
                        && bits@[at + j]) by {
                        bit_set(before, i, j);
                        assert(byte_bit(before, j) == (j < i && bits@[at + j]));
                    }
                }
            }
            i = i + 1;
        }
        let ghost before = out@;
        out.push(byte);
        proof {
            assert forall|j: int| 0 <= j < out@.len() * 8 implies #[trigger] unpacked(out@)[j] == (j
                < bits@.len() && bits@[j]) by {
                if j < before.len() * 8 {
                    assert(unpacked(before)[j] == (j < bits@.len() && bits@[j]));
                    assert(out@[j / 8] == before[j / 8]);
                } else {
                    let b = (j - before.len() * 8) as u8;
                    assert(j / 8 == before.len() && j % 8 == b);
                    assert(byte_bit(byte, b) == (b < i && bits@[at + b]));
                }
            }
        }
        at = at + i as usize;
    }
    out
}

fn unpack(data: &[u8]) -> (r: Vec<bool>)
    ensures
        r@ == unpacked(data@),
{
    let mut out: Vec<bool> = Vec::new();
    let mut k: usize = 0;
    while k < data.len()
        invariant
            k <= data@.len(),
            out@ == unpacked(data@.take(k as int)),
        decreases data@.len() - k,
    {
        let byte: u8 = data[k];
        let mut i: u8 = 0;
        let ghost before = out@;
        while i < 8
            invariant
                i <= 8,
                out@ == before + Seq::new(i as nat, |j: int| byte_bit(byte, j as u8)),
            decreases 8 - i,
        {
            out.push(byte & (1u8 << i) != 0);
            i = i + 1;
            assert(out@ =~= before + Seq::new(i as nat, |j: int| byte_bit(byte, j as u8)));
        }
        proof {
            let all = data@.take(k + 1);
            assert forall|j: int| 0 <= j < all.len() * 8 implies out@[j] == unpacked(all)[j] by {
                if j >= k * 8 {
                    assert(j / 8 == k && j % 8 == j - k * 8);
                } else {
                    assert(unpacked(data@.take(k as int))[j] == unpacked(all)[j]);
                }
            }
            assert(out@ =~= unpacked(all));
        }
        k = k + 1;
    }
    assert(data@.take(k as int) =~= data@);
    out
}

/// A key that was added is never reported absent.
pub proof fn added_key_is_found(bits: Seq<bool>, hash_count: nat, key: Seq<char>)
    requires
        bits.len() > 0,
    ensures
        holds_key(with_key(bits, hash_count, key), hash_count, key),
{
    let after = with_key(bits, hash_count, key);
    assert forall|i: int| 0 <= i < hash_count implies after[#[trigger] key_slot(
        key,
        i,
        after.len() as int,
    )] by {
        let j = key_slot(key, i, after.len() as int);
        assert(0 <= j < after.len());
    }
}

/// Adding another key keeps every key that is found.
pub proof fn added_key_keeps_others(
    bits: Seq<bool>,
    hash_count: nat,
    key: Seq<char>,
    other: Seq<char>,
)
    requires
        bits.len() > 0,
        holds_key(bits, hash_count, other),
    ensures
        holds_key(with_key(bits, hash_count, key), hash_count, other),
{
    let after = with_key(bits, hash_count, key);
    assert forall|i: int| 0 <= i < hash_count implies after[#[trigger] key_slot(
        other,
        i,
        after.len() as int,
    )] by {
        let j = key_slot(other, i, after.len() as int);
        assert(0 <= j < after.len());
        assert(bits[key_slot(other, i, bits.len() as int)]);
    }
}

/// Reading back a stored filter gives its bits, for every valid filter that is not too large.
pub proof fn filter_round_trip(bits: Seq<bool>)
    requires
        bits.len() <= MAX_BLOOM_SIZE,
    ensures
        stored_bits(filter_bytes(bits)) == bits,
{
    let data = filter_bytes(bits);
    let rest = data.skip(4);
    bytes::u32_back(bits.len() as u32);
    packed_exists(bits);
    assert(data.take(4) =~= spec_u32_to_le_bytes(bits.len() as u32));
    assert(rest =~= packed(bits));
    assert(stored_bits(data) == resized(unpacked(rest), bits.len()));
    assert forall|j: int| 0 <= j < bits.len() implies resized(unpacked(rest), bits.len())[j] == bits[j] by {
        assert(unpacked(rest)[j] == (j < bits.len() && bits[j]));
    }
    assert(stored_bits(data) =~= bits);
}

/// A key that was added to a filter is never ruled out, nor is one that was not ruled out before.
pub proof fn added_keys_are_never_ruled_out(
    f: &mut BloomFilter,
    key: &str,
    other: &str,
    before: bool,
    of_key: bool,
    of_other: bool,
)
    requires
        old(f).bit_num() > 0,
        old(f).bit_seq().len() == old(f).bit_num(),
        call_ensures(BloomFilter::might_contain, (&*old(f), other), before),
        call_ensures(BloomFilter::add, (f, key), ()),
        call_ensures(BloomFilter::might_contain, (&*final(f), key), of_key),
        call_ensures(BloomFilter::might_contain, (&*final(f), other), of_other),
    ensures
        of_key,
        before ==> of_other,
{
    let bits = old(f).bit_seq();
    assert(resized(bits, old(f).bit_num()) =~= bits);
    added_key_is_found(bits, old(f).hash_num(), key@);
    if before {
        added_key_keeps_others(bits, old(f).hash_num(), key@, other@);
    }
}

/// A filter to which no key was added, and one that was cleared, rules every key out.
pub proof fn empty_filter_rules_out(
    size: usize,
    hash_count: usize,
    fresh: BloomFilter,
    f: &mut BloomFilter,
    key: &str,
    r: bool,
    s: bool,
)
    requires
        size > 0,
        hash_count > 0,
        call_ensures(BloomFilter::new, (size, hash_count), fresh),
        call_ensures(BloomFilter::might_contain, (&fresh, key), r),
        old(f).bit_num() > 0,
        old(f).hash_num() > 0,
        call_ensures(BloomFilter::clear, (f,), ()),
        call_ensures(BloomFilter::might_contain, (&*final(f), key), s),
    ensures
        !r,
        !s,
{
    let at = key_slot(key@, 0, size as int);
    assert(0 <= at < size);
    assert(!fresh.bit_seq()[at]);
    let n = old(f).bit_num() as int;
    let to = key_slot(key@, 0, n);
    assert(0 <= to < n);
    assert(final(f).bit_seq().len() == n);
    assert(!final(f).bit_seq()[to]);
}

/// Adding a key changes nothing for a key with which it shares no place.
pub proof fn added_key_marks_its_places_only(
    f: &mut BloomFilter,
    key: &str,
    other: &str,
    before: bool,
    after: bool,
)
    requires
        old(f).bit_num() > 0,
        old(f).bit_seq().len() == old(f).bit_num(),
        call_ensures(BloomFilter::might_contain, (&*old(f), other), before),
        call_ensures(BloomFilter::add, (f, key), ()),
        call_ensures(BloomFilter::might_contain, (&*final(f), other), after),
        forall|i: int, j: int|
            0 <= i < old(f).hash_num() && 0 <= j < old(f).hash_num() ==> #[trigger] key_slot(
                key@,
                i,
                old(f).bit_num() as int,
            ) != #[trigger] key_slot(other@, j, old(f).bit_num() as int),
    ensures
        after == before,
{
    let bits = old(f).bit_seq();
    let n = old(f).bit_num() as int;
    assert(resized(bits, old(f).bit_num()) =~= bits);
    assert forall|j: int| 0 <= j < old(f).hash_num() implies final(f).bit_seq()[#[trigger] key_slot(
        other@,
        j,
        n,
    )] == bits[key_slot(other@, j, n)] by {
        assert(0 <= key_slot(other@, j, n) < n);
    }
    if before {
        assert(holds_key(final(f).bit_seq(), old(f).hash_num(), other@));
    }
    if after {
        assert(final(f).bit_seq().len() == n);
        assert forall|j: int| 0 <= j < old(f).hash_num() implies bits[#[trigger] key_slot(
            other@,
            j,
            n,
        )] by {
            assert(final(f).bit_seq()[key_slot(other@, j, n)]);
        }
        assert(holds_key(bits, old(f).hash_num(), other@));
    }
}

/// A filter that was read from the bytes of another one answers as that one does.
pub proof fn stored_filter_answers_alike(
    f: BloomFilter,
    bytes: Vec<u8>,
    data: &[u8],
    hash_count: usize,
    back: BloomFilter,
    key: &str,
    r: bool,
    s: bool,
)
    requires
        f.bit_seq().len() == f.bit_num(),
        f.bit_num() <= 100_000_000,
        f.hash_num() == hash_count,
        call_ensures(BloomFilter::to_bytes, (&f,), bytes),
        data@ == bytes@,
        call_ensures(BloomFilter::from_bytes, (data, hash_count), back),
        call_ensures(BloomFilter::might_contain, (&f, key), r),
        call_ensures(BloomFilter::might_contain, (&back, key), s),
    ensures
        r == s,
        back.bit_seq() == f.bit_seq(),
{
    filter_round_trip(f.bit_seq());
}

/// A key selects one bit for each hash function, by the hash of the key and of the number of the
/// function: adding the key sets these bits and no others, and a key is ruled out exactly if one of
/// its bits is not set.
pub proof fn hashes_select_the_bits(
    f: &mut BloomFilter,
    key: &str,
    may: bool,
    j: int,
)
    requires
        old(f).bit_num() > 0,
        old(f).bit_seq().len() == old(f).bit_num(),
        old(f).hash_num() <= u64::MAX,
        call_ensures(BloomFilter::might_contain, (&*old(f), key), may),
        call_ensures(BloomFilter::add, (f, key), ()),
        0 <= j < old(f).bit_num(),
    ensures
        final(f).bit_seq()[j] <==> old(f).bit_seq()[j] || exists|i: u64|
            i < old(f).hash_num() && (DefaultHasher::spec_finish(
                #[trigger] u64_fed(str_fed(Seq::empty(), key@), i),
            ) as usize) as int % old(f).bit_num() as int == j,
        may <==> forall|i: u64|
            i < old(f).hash_num() ==> old(f).bit_seq()[(DefaultHasher::spec_finish(
                #[trigger] u64_fed(str_fed(Seq::empty(), key@), i),
            ) as usize) as int % old(f).bit_num() as int],
{
    let bits = old(f).bit_seq();
    let n = old(f).bit_num() as int;
    let count = old(f).hash_num();
    assert(resized(bits, old(f).bit_num()) =~= bits);
    assert forall|i: u64| i < count implies key_slot(key@, i as int, n) == (
    DefaultHasher::spec_finish(#[trigger] u64_fed(str_fed(Seq::empty(), key@), i)) as usize) as int
        % n by {
        assert((i as int) as u64 == i);
    }
    if exists|i: int| 0 <= i < count && #[trigger] key_slot(key@, i, n) == j {
        let i = choose|i: int| 0 <= i < count && #[trigger] key_slot(key@, i, n) == j;
        let k = u64_fed(str_fed(Seq::empty(), key@), i as u64);
        assert((DefaultHasher::spec_finish(k) as usize) as int % n == j);
    }
    if forall|i: u64|
        i < count ==> bits[(DefaultHasher::spec_finish(
            #[trigger] u64_fed(str_fed(Seq::empty(), key@), i),
        ) as usize) as int % n] {
        assert forall|i: int| 0 <= i < count implies bits[#[trigger] key_slot(key@, i, n)] by {
            let k = u64_fed(str_fed(Seq::empty(), key@), i as u64);
            assert(bits[(DefaultHasher::spec_finish(k) as usize) as int % n]);
        }
    }
}

/// A filter that is read has as many bits as its bytes tell, and none where they tell more than a
/// filter may have, or where there are no bytes; the bits that are not there are not set. Bytes that
/// are too few to tell a number are bits themselves.
pub proof fn read_filter_has_the_told_size(
    data: &[u8],
    hash_count: usize,
    f: BloomFilter,
    size: usize,
    hashes: usize,
    j: int,
)
    requires
        call_ensures(BloomFilter::from_bytes, (data, hash_count), f),
        call_ensures(BloomFilter::size, (&f,), size),
        call_ensures(BloomFilter::hash_count, (&f,), hashes),
    ensures
        hashes == hash_count,
        data@.len() == 0 ==> size == 0,
        data@.len() < 4 ==> size == 8 * data@.len(),
        data@.len() >= 4 ==> ({
            let told = spec_u32_from_le_bytes(data@.subrange(0, 4));
            &&& told > 100_000_000 ==> size == 0
            &&& told <= 100_000_000 ==> size == told
            &&& 0 <= j < size && 4 + j / 8 < data@.len() ==> (f.bit_seq()[j] <==> data@[4 + j / 8] & (
            1u8 << ((j % 8) as u8)) != 0)
            &&& 0 <= j < size && 4 + j / 8 >= data@.len() ==> !f.bit_seq()[j]
        }),
{
    if data@.len() >= 4 {
        assert(data@.subrange(0, 4) =~= data@.take(4));
        let rest = data@.skip(4);
        if 0 <= j < size && 4 + j / 8 < data@.len() {
            assert(rest[j / 8] == data@[4 + j / 8]);
            assert(unpacked(rest)[j] == byte_bit(rest[j / 8], (j % 8) as u8));
        }
    }
}

} // verus!
