//! Data section of a table: framed entries in Snappy blocks.

use crate::bytes::{self, extend};
use crate::checksum::{self, crc32};
use crate::error::LsmError;
use crate::snappy::{self, snap_decompress};
use crate::sst_metadata;
use crate::text::{self, push_dec};
use vstd::bytes::*;
use vstd::prelude::*;
use vstd::slice::*;
use vstd::string::*;
use vstd::utf8::*;

verus! {

/// Bytes of the file header.
pub const SST_COMPRESSED_HEADER: u64 = 8;

/// A block that has reached this size is closed.
pub const SST_BLOCK_TARGET: usize = 32768;

/// The largest entry that is read.
pub const MAX_ENTRY_SIZE: u32 = 104_857_600;

/// The largest block, packed or unpacked, that is read.
pub const MAX_BLOCK_SIZE: u32 = 134_217_728;

/// The magic bytes of a table with Snappy blocks.
pub open spec fn sst_magic() -> Seq<u8> {
    seq![0x46u8, 0x34u8, 0x53u8, 0x43u8]
}

/// The file header.
pub open spec fn sst_header() -> Seq<u8> {
    seq![0x46u8, 0x34u8, 0x53u8, 0x43u8, 1u8, 0u8, 0u8, 0u8]
}

/// The checksum of an entry: over its length and its bytes.
pub open spec fn entry_checksum(data: Seq<u8>) -> u32 {
    checksum::crc32_of(spec_u32_to_le_bytes(data.len() as u32) + data)
}

/// A framed entry: length (u32 LE), bytes, checksum (u32 LE).
pub open spec fn framed(data: Seq<u8>) -> Seq<u8> {
    spec_u32_to_le_bytes(data.len() as u32) + data + spec_u32_to_le_bytes(entry_checksum(data))
}

/// The entry that is framed at `at`, or the text of the error.
pub open spec fn framed_at(buf: Seq<u8>, at: int) -> Result<Seq<u8>, Seq<char>> {
    let size = sst_metadata::u32_at(buf, at);
    let end = at + 4 + size;
    if at + 8 > buf.len() {
        Err("framed entry header past block end at "@ + text::dec(at as nat))
    } else if size == 0 || size > MAX_ENTRY_SIZE {
        Err(
            "invalid framed entry size "@ + text::dec(size as nat) + " at "@ + text::dec(at as nat),
        )
    } else if end + 4 > buf.len() {
        Err("framed entry body past block end at "@ + text::dec(at as nat))
    } else if sst_metadata::u32_at(buf, end) != checksum::crc32_of(
        spec_u32_to_le_bytes(size) + buf.subrange(at + 4, end),
    ) {
        Err("framed entry checksum mismatch at "@ + text::dec(at as nat))
    } else {
        Ok(buf.subrange(at + 4, end))
    }
}

/// The checksum of an entry, computed.
pub fn checksum_entry(size: u32, data: &[u8]) -> (r: u32)
    ensures
        r == checksum::crc32_of(spec_u32_to_le_bytes(size) + data@),
{
    let mut all = u32_to_le_bytes(size);
    extend(&mut all, data);
    crc32(all.as_slice())
}

/// Reads the entry that is framed at `at` in a block.
pub fn parse_framed_entry(buf: &[u8], at: usize) -> (r: Result<Vec<u8>, LsmError>)
    ensures
        match framed_at(buf@, at as int) {
            Ok(data) => r matches Ok(v) && v@ == data,
            Err(m) => r matches Err(e) && e.is_corruption(m),
        },
{
    if buf.len() < 8 || at > buf.len() - 8 {
        let mut m = "framed entry header past block end at ".to_owned();
        push_dec(&mut m, at as u64);
        return Err(LsmError::Corruption(m));
    }
    let size: u32 = u32_from_le_bytes(slice_subrange(buf, at, at + 4));
    if size == 0 || size > MAX_ENTRY_SIZE {
        let mut m = "invalid framed entry size ".to_owned();
        push_dec(&mut m, size as u64);
        m.append(" at ");
        push_dec(&mut m, at as u64);
        return Err(LsmError::Corruption(m));
    }
    if size as u64 > (buf.len() - at - 8) as u64 {
        let mut m = "framed entry body past block end at ".to_owned();
        push_dec(&mut m, at as u64);
        return Err(LsmError::Corruption(m));
    }
    let end: usize = at + 4 + size as usize;
    let data = slice_subrange(buf, at + 4, end);
    let stored: u32 = u32_from_le_bytes(slice_subrange(buf, end, end + 4));
    if stored != checksum_entry(size, data) {
        let mut m = "framed entry checksum mismatch at ".to_owned();
        push_dec(&mut m, at as u64);
        return Err(LsmError::Corruption(m));
    }
    Ok(slice_to_vec(data))
}

/// An entry that was framed is read back, whatever stands around it.
pub proof fn framed_round_trip(before: Seq<u8>, data: Seq<u8>, after: Seq<u8>)
    requires
        1 <= data.len() <= MAX_ENTRY_SIZE,
    ensures
        framed_at(before + framed(data) + after, before.len() as int) == Ok::<Seq<u8>, Seq<char>>(
            data,
        ),
{
    let buf = before + framed(data) + after;
    let at = before.len() as int;
    let size = data.len() as u32;
    bytes::u32_back(size);
    bytes::u32_back(entry_checksum(data));
    assert(buf.subrange(at, at + 4) =~= spec_u32_to_le_bytes(size));
    let end = at + 4 + size;
    assert(buf.subrange(at + 4, end) =~= data);
    assert(buf.subrange(end, end + 4) =~= spec_u32_to_le_bytes(entry_checksum(data)));
}

/// What is framed in a block stays readable when the block grows.
pub proof fn framed_at_grows(buf: Seq<u8>, more: Seq<u8>, at: int)
    requires
        at >= 0,
        framed_at(buf, at) is Ok,
    ensures
        framed_at(buf + more, at) == framed_at(buf, at),
{
    let big = buf + more;
    let size = sst_metadata::u32_at(buf, at);
    let end = at + 4 + size;
    assert(big.subrange(at, at + 4) =~= buf.subrange(at, at + 4));
    assert(big.subrange(at + 4, end) =~= buf.subrange(at + 4, end));
    assert(big.subrange(end, end + 4) =~= buf.subrange(end, end + 4));
}

/// A stored block: unpacked length, packed length (u32 LE each), packed bytes.
pub open spec fn block_bytes(raw: Seq<u8>) -> Seq<u8> {
    spec_u32_to_le_bytes(raw.len() as u32) + spec_u32_to_le_bytes(
        snappy::snappy_compressed(raw).len() as u32,
    ) + snappy::snappy_compressed(raw)
}

/// The lengths of a stored block are plausible.
pub open spec fn block_header_ok(unc_len: u32, comp_len: u32) -> bool {
    &&& 1 <= unc_len <= MAX_BLOCK_SIZE
    &&& 1 <= comp_len <= MAX_BLOCK_SIZE
}

/// The message for implausible lengths.
pub open spec fn bad_header_text(block_off: u64, unc_len: u32, comp_len: u32) -> Seq<char> {
    "invalid snappy block header at "@ + text::dec(block_off as nat) + " unc="@ + text::dec(
        unc_len as nat,
    ) + " comp="@ + text::dec(comp_len as nat)
}

/// What the packed bytes of a block stand for, or the text of the error.
pub open spec fn unpacked_block(block_off: u64, unc_len: u32, comp: Seq<u8>) -> Result<
    Seq<u8>,
    Seq<char>,
> {
    match snappy::snappy_decompressed(comp) {
        Ok(raw) => if raw.len() != unc_len {
            Err(
                "snappy block length mismatch at "@ + text::dec(block_off as nat) + ": got "@
                    + text::dec(raw.len()) + " want "@ + text::dec(unc_len as nat),
            )
        } else {
            Ok(raw)
        },
        Err(m) => Err("snappy decompress: "@ + m),
    }
}

/// Tests the two lengths of a stored block.
pub fn check_block_header(block_off: u64, unc_len: u32, comp_len: u32) -> (r: Result<(), LsmError>)
    ensures
        r is Ok <==> block_header_ok(unc_len, comp_len),
        r matches Err(e) ==> e.is_corruption(bad_header_text(block_off, unc_len, comp_len)),
{
    if unc_len == 0 || unc_len > MAX_BLOCK_SIZE || comp_len == 0 || comp_len > MAX_BLOCK_SIZE {
        let mut m = "invalid snappy block header at ".to_owned();
        push_dec(&mut m, block_off);
        m.append(" unc=");
        push_dec(&mut m, unc_len as u64);
        m.append(" comp=");
        push_dec(&mut m, comp_len as u64);
        return Err(LsmError::Corruption(m));
    }
    Ok(())
}

/// Unpacks a block and tests its length.
pub fn unpack_block(block_off: u64, unc_len: u32, comp: &[u8]) -> (r: Result<Vec<u8>, LsmError>)
    ensures
        match unpacked_block(block_off, unc_len, comp@) {
            Ok(raw) => r matches Ok(v) && v@ == raw,
            Err(m) => r matches Err(e) && e.is_corruption(m),
        },
{
    let raw = snap_decompress(comp)?;
    if raw.len() as u64 != unc_len as u64 {
        let mut m = "snappy block length mismatch at ".to_owned();
        push_dec(&mut m, block_off);
        m.append(": got ");
        push_dec(&mut m, raw.len() as u64);
        m.append(" want ");
        push_dec(&mut m, unc_len as u64);
        return Err(LsmError::Corruption(m));
    }
    Ok(raw)
}

/// A block of the file at `off` unpacks to `raw`.
pub open spec fn block_at(file: Seq<u8>, off: int, raw: Seq<u8>) -> bool {
    let unc = sst_metadata::u32_at(file, off);
    let comp = sst_metadata::u32_at(file, off + 4);
    &&& 0 <= off <= u64::MAX
    &&& off + 8 + comp <= file.len()
    &&& block_header_ok(unc, comp)
    &&& unpacked_block(off as u64, unc, file.subrange(off + 8, off + 8 + comp)) == Ok::<
        Seq<u8>,
        Seq<char>,
    >(raw)
}

/// A block that was stored unpacks to what was packed, whatever stands around it.
pub proof fn block_round_trip(before: Seq<u8>, raw: Seq<u8>, after: Seq<u8>)
    requires
        1 <= raw.len(),
        before.len() <= u64::MAX,
        snappy::snappy_bound(raw.len()) <= MAX_BLOCK_SIZE,
        snappy::snappy_compressed(raw).len() >= 1,
        snappy::snappy_compressed(raw).len() <= snappy::snappy_bound(raw.len()),
        snappy::snappy_decompressed(snappy::snappy_compressed(raw)) == Ok::<Seq<u8>, Seq<char>>(
            raw,
        ),
    ensures
        block_at(before + block_bytes(raw) + after, before.len() as int, raw),
{
    let file = before + block_bytes(raw) + after;
    let off = before.len() as int;
    let comp = snappy::snappy_compressed(raw);
    bytes::u32_back(raw.len() as u32);
    bytes::u32_back(comp.len() as u32);
    assert(file.subrange(off, off + 4) =~= spec_u32_to_le_bytes(raw.len() as u32));
    assert(file.subrange(off + 4, off + 8) =~= spec_u32_to_le_bytes(comp.len() as u32));
    assert(file.subrange(off + 8, off + 8 + comp.len()) =~= comp);
}

/// A block stays where it is when the file grows.
pub proof fn block_at_grows(file: Seq<u8>, more: Seq<u8>, off: int, raw: Seq<u8>)
    requires
        block_at(file, off, raw),
    ensures
        block_at(file + more, off, raw),
{
    let big = file + more;
    let comp = sst_metadata::u32_at(file, off + 4);
    assert(big.subrange(off, off + 4) =~= file.subrange(off, off + 4));
    assert(big.subrange(off + 4, off + 8) =~= file.subrange(off + 4, off + 8));
    assert(big.subrange(off + 8, off + 8 + comp) =~= file.subrange(off + 8, off + 8 + comp));
}

} // verus!
