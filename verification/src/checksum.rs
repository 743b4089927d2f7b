//! CRC-32 checksums.

use vstd::prelude::*;

verus! {

/// The CRC-32 (IEEE) checksum of `data`.
pub uninterp spec fn crc32_of(data: Seq<u8>) -> u32;

/// `crc32fast::Hasher`: a fresh hasher that is fed `data` once and finalized gives the
/// checksum of `data`, which depends on those bytes alone.
#[verifier::external_body]
pub(crate) fn crc32(data: &[u8]) -> (sum: u32)
    ensures
        sum == crc32_of(data@),
{
    let mut hasher = crc32fast::Hasher::new();
    hasher.update(data);
    hasher.finalize()
}

} // verus!
