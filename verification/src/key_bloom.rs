//! A filter over keys that rules no key out.

use crate::error::LsmError;
use vstd::prelude::*;
use vstd::string::*;

verus! {

/// A filter for fast negative lookups.
#[derive(Debug)]
pub struct BloomFilter {
    /// The bits, eight in a byte.
    pub data: Vec<u8>,
    /// Number of hash functions.
    pub hash_count: usize,
    /// Number of bits.
    pub bit_count: usize,
}

impl BloomFilter {
    /// A filter with all bits clear, in as few bytes as hold them.
    pub fn new(bit_count: usize, hash_count: usize) -> (r: Result<Self, LsmError>)
        ensures
            r matches Ok(f) && f.bit_count == bit_count && f.hash_count == hash_count
                && f.data@.len() == (bit_count + 7) / 8 && (forall|i: int|
                0 <= i < f.data@.len() ==> f.data@[i] == 0u8),
    {
        let byte_count: usize = bit_count / 8 + (if bit_count % 8 == 0 {
            0
        } else {
            1
        });
        let mut data: Vec<u8> = Vec::new();
        let mut i: usize = 0;
        while i < byte_count
            invariant
                i <= byte_count,
                data@.len() == i,
                forall|j: int| 0 <= j < i ==> data@[j] == 0u8,
            decreases byte_count - i,
        {
            data.push(0u8);
            i = i + 1;
        }
        Ok(BloomFilter { data, hash_count, bit_count })
    }

    /// Adds a key. No bit is needed for it: no key is ever ruled out.
    pub fn add(&mut self, _key: &str) -> (r: Result<(), LsmError>)
        ensures
            r is Ok,
            *final(self) == *old(self),
    {
        Ok(())
    }

    /// Whether a key may have been added: always, to be on the safe side.
    pub fn might_contain(&self, _key: &str) -> (r: Result<bool, LsmError>)
        ensures
            r == Ok::<bool, LsmError>(true),
    {
        Ok(true)
    }
}

/// A filter is made with just the bytes that its bits need, none of them set, and rules out no key,
/// whether it was added or not.
pub proof fn no_key_is_ruled_out(
    bit_count: usize,
    hash_count: usize,
    made: Result<BloomFilter, LsmError>,
    f: &mut BloomFilter,
    key: &str,
    added: Result<(), LsmError>,
    other: &str,
    may: Result<bool, LsmError>,
    i: int,
)
    requires
        call_ensures(BloomFilter::new, (bit_count, hash_count), made),
        call_ensures(BloomFilter::add, (f, key), added),
        call_ensures(BloomFilter::might_contain, (&*final(f), other), may),
    ensures
        made is Ok,
        made->Ok_0.bit_count == bit_count,
        made->Ok_0.hash_count == hash_count,
        8 * made->Ok_0.data@.len() >= bit_count,
        8 * made->Ok_0.data@.len() < bit_count + 8,
        0 <= i < made->Ok_0.data@.len() ==> made->Ok_0.data@[i] == 0,
        added is Ok,
        final(f).bit_count == old(f).bit_count,
        may == Ok::<bool, LsmError>(true),
{
}

} // verus!
