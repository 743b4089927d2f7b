//! Snappy compression of data blocks and indexes.

use crate::error::LsmError;
use crate::text::{self, cat};
use vstd::prelude::*;
use vstd::string::*;

verus! {

/// The Snappy encoding of `data`.
pub uninterp spec fn snappy_compressed(data: Seq<u8>) -> Seq<u8>;

/// What decoding `data` as one Snappy stream gives: the bytes, or the text of the error.
pub uninterp spec fn snappy_decompressed(data: Seq<u8>) -> Result<Seq<u8>, Seq<char>>;

/// The longest encoding of `n` bytes.
pub open spec fn snappy_bound(n: nat) -> nat {
    32 + n + n / 6
}

/// Whether `n` bytes are few enough to be encoded.
pub open spec fn snappy_fits(n: nat) -> bool {
    snappy_bound(n) <= 0xffff_ffff
}

/// `snap::raw::Encoder::compress_vec`: it succeeds exactly when the longest encoding of the
/// input has a 32-bit length, the encoding is neither empty nor longer than that bound, and
/// decoding it gives the input back. Otherwise the error's text names the two sizes.
#[verifier::external_body]
fn raw_compress(raw: &[u8]) -> (r: Result<Vec<u8>, String>)
    ensures
        r is Ok <==> snappy_fits(raw@.len()),
        r matches Ok(v) ==> v@ == snappy_compressed(raw@),
        r matches Ok(v) ==> 1 <= v@.len() <= snappy_bound(raw@.len()),
        r matches Ok(v) ==> (snappy_decompressed(v@) matches Ok(back) && back == raw@),
        r matches Err(text) ==> text@ == "snappy: input buffer (size = "@ + text::dec(raw@.len())
            + ") is larger than allowed (size = 4294967295)"@,
{
    snap::raw::Encoder::new().compress_vec(raw).map_err(|e| e.to_string())
}

/// `snap::raw::Decoder::decompress_vec`: the result, with the error as its text, depends on the
/// input alone.
#[verifier::external_body]
fn raw_decompress(comp: &[u8]) -> (r: Result<Vec<u8>, String>)
    ensures
        match snappy_decompressed(comp@) {
            Ok(raw) => r matches Ok(v) && v@ == raw,
            Err(text) => r matches Err(t) && t@ == text,
        },
{
    snap::raw::Decoder::new().decompress_vec(comp).map_err(|e| e.to_string())
}

/// Compresses a block.
pub fn snap_compress(raw: &[u8]) -> (r: Result<Vec<u8>, LsmError>)
    ensures
        r is Ok <==> snappy_fits(raw@.len()),
        r matches Ok(v) ==> {
            &&& v@ == snappy_compressed(raw@)
            &&& 1 <= v@.len() <= snappy_bound(raw@.len())
            &&& snappy_decompressed(v@) matches Ok(back) && back == raw@
        },
        r matches Err(e) ==> e.is_internal("snappy compress: snappy: input buffer (size = "@ + text::dec(
            raw@.len(),
        ) + ") is larger than allowed (size = 4294967295)"@),
{
    match raw_compress(raw) {
        Ok(v) => Ok(v),
        Err(text) => {
            let m = cat("snappy compress: ", text.as_str());
            proof {
                reveal_strlit("snappy compress: ");
                reveal_strlit("snappy: input buffer (size = ");
                reveal_strlit("snappy compress: snappy: input buffer (size = ");
                assert("snappy compress: "@ + "snappy: input buffer (size = "@
                    =~= "snappy compress: snappy: input buffer (size = "@);
                assert(m@ =~= "snappy compress: snappy: input buffer (size = "@ + text::dec(raw@.len())
                    + ") is larger than allowed (size = 4294967295)"@);
            }
            Err(LsmError::Internal(m))
        },
    }
}

/// Decompresses a block.
pub fn snap_decompress(comp: &[u8]) -> (r: Result<Vec<u8>, LsmError>)
    ensures
        match snappy_decompressed(comp@) {
            Ok(raw) => r matches Ok(v) && v@ == raw,
            Err(text) => r matches Err(e) && e.is_corruption("snappy decompress: "@ + text),
        },
{
    match raw_decompress(comp) {
        Ok(v) => Ok(v),
        Err(text) => Err(LsmError::Corruption(cat("snappy decompress: ", text.as_str()))),
    }
}

} // verus!
