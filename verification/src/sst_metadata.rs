//! Metadata of a table: its fields, its stored form and how it is found at the end of a file.

use crate::bytes;
use vstd::bytes::*;
use vstd::prelude::*;
use vstd::slice::*;
use vstd::utf8::*;

verus! {

/// Table metadata.
#[derive(Debug)]
pub struct SSTableMetadata {
    /// Number of entries in the table.
    pub entry_count: usize,
    /// Size of the data section in bytes.
    pub file_size: u64,
    /// Smallest key.
    pub smallest_key: String,
    /// Largest key.
    pub largest_key: String,
    /// Level that the table belongs to.
    pub level: usize,
    /// Checksum of everything before the metadata.
    pub checksum: u32,
    /// When the table was created.
    pub created_at: u64,
    /// Offset of the index in the file.
    pub index_offset: u64,
    /// Size of the index in bytes.
    pub index_size: u64,
    /// Offset of the bloom filter in the file.
    pub bloom_filter_offset: u64,
    /// Size of the bloom filter in bytes.
    pub bloom_filter_size: u64,
    /// Number of hash functions of the bloom filter.
    pub bloom_filter_hash_count: usize,
}

/// The fields of table metadata, with the keys as text.
#[verifier::ext_equal]
pub struct MetadataView {
    pub entry_count: usize,
    pub file_size: u64,
    pub smallest_key: Seq<char>,
    pub largest_key: Seq<char>,
    pub level: usize,
    pub checksum: u32,
    pub created_at: u64,
    pub index_offset: u64,
    pub index_size: u64,
    pub bloom_filter_offset: u64,
    pub bloom_filter_size: u64,
    pub bloom_filter_hash_count: usize,
}

impl Clone for SSTableMetadata {
    fn clone(&self) -> (r: Self)
        ensures
            r@ == self@,
    {
        SSTableMetadata {
            entry_count: self.entry_count,
            file_size: self.file_size,
            smallest_key: self.smallest_key.clone(),
            largest_key: self.largest_key.clone(),
            level: self.level,
            checksum: self.checksum,
            created_at: self.created_at,
            index_offset: self.index_offset,
            index_size: self.index_size,
            bloom_filter_offset: self.bloom_filter_offset,
            bloom_filter_size: self.bloom_filter_size,
            bloom_filter_hash_count: self.bloom_filter_hash_count,
        }
    }
}

impl View for SSTableMetadata {
    type V = MetadataView;

    open spec fn view(&self) -> MetadataView {
        MetadataView {
            entry_count: self.entry_count,
            file_size: self.file_size,
            smallest_key: self.smallest_key@,
            largest_key: self.largest_key@,
            level: self.level,
            checksum: self.checksum,
            created_at: self.created_at,
            index_offset: self.index_offset,
            index_size: self.index_size,
            bloom_filter_offset: self.bloom_filter_offset,
            bloom_filter_size: self.bloom_filter_size,
            bloom_filter_hash_count: self.bloom_filter_hash_count,
        }
    }
}

/// A stored string: its length (u64 LE) and its bytes.
pub open spec fn text_bytes(t: Seq<char>) -> Seq<u8> {
    spec_u64_to_le_bytes(encode_utf8(t).len() as u64) + encode_utf8(t)
}

/// The stored form of the fields behind the keys.
pub open spec fn tail_bytes(m: MetadataView) -> Seq<u8> {
    spec_u64_to_le_bytes(m.level as u64) + spec_u32_to_le_bytes(m.checksum)
        + spec_u64_to_le_bytes(m.created_at) + spec_u64_to_le_bytes(m.index_offset)
        + spec_u64_to_le_bytes(m.index_size) + spec_u64_to_le_bytes(m.bloom_filter_offset)
        + spec_u64_to_le_bytes(m.bloom_filter_size) + spec_u64_to_le_bytes(
        m.bloom_filter_hash_count as u64,
    )
}

/// The stored form of metadata.
pub open spec fn metadata_bytes(m: MetadataView) -> Seq<u8> {
    spec_u64_to_le_bytes(m.entry_count as u64) + spec_u64_to_le_bytes(m.file_size) + text_bytes(
        m.smallest_key,
    ) + text_bytes(m.largest_key) + tail_bytes(m)
}

/// The 64-bit number at `at`.
pub open spec fn u64_at(s: Seq<u8>, at: int) -> u64 {
    spec_u64_from_le_bytes(s.subrange(at, at + 8))
}

/// The 32-bit number at `at`.
pub open spec fn u32_at(s: Seq<u8>, at: int) -> u32 {
    spec_u32_from_le_bytes(s.subrange(at, at + 4))
}

/// The metadata that begins `s`, if there is any.
pub open spec fn decode_metadata(s: Seq<u8>) -> Option<MetadataView> {
    let a = u64_at(s, 16) as int;
    let b = u64_at(s, 24 + a) as int;
    let base = 32 + a + b;
    if s.len() < 24 || s.len() < 24 + a || !valid_utf8(s.subrange(24, 24 + a)) || s.len() < 32 + a
        || s.len() < base || !valid_utf8(s.subrange(32 + a, base)) || s.len() < base + 60 {
        None
    } else if u64_at(s, 0) > usize::MAX || u64_at(s, base) > usize::MAX || u64_at(s, base + 52)
        > usize::MAX {
        None
    } else {
        Some(
            MetadataView {
                entry_count: u64_at(s, 0) as usize,
                file_size: u64_at(s, 8),
                smallest_key: decode_utf8(s.subrange(24, 24 + a)),
                largest_key: decode_utf8(s.subrange(32 + a, base)),
                level: u64_at(s, base) as usize,
                checksum: u32_at(s, base + 8),
                created_at: u64_at(s, base + 12),
                index_offset: u64_at(s, base + 20),
                index_size: u64_at(s, base + 28),
                bloom_filter_offset: u64_at(s, base + 36),
                bloom_filter_size: u64_at(s, base + 44),
                bloom_filter_hash_count: u64_at(s, base + 52) as usize,
            },
        )
    }
}

/// `bincode::serialize` of the fields in order: numbers in little-endian order with `usize` as
/// 64 bits, strings as their 64-bit length and their bytes. It does not fail on these types.
#[verifier::external_body]
pub(crate) fn bincode_metadata(m: &SSTableMetadata) -> (r: Result<Vec<u8>, String>)
    ensures
        r is Ok,
        r matches Ok(v) ==> v@ == metadata_bytes(m@),
{
    bincode::serialize(
        &(m.entry_count, m.file_size, &m.smallest_key, &m.largest_key, m.level, m.checksum,
            m.created_at, m.index_offset, m.index_size, m.bloom_filter_offset,
            m.bloom_filter_size, m.bloom_filter_hash_count),
    ).map_err(|e| e.to_string())
}

/// `bincode::deserialize` of the twelve fields in order, with bytes behind them allowed. It fails
/// where the bytes end early, a string is no UTF-8, or a `usize` field does not fit.
#[verifier::external_body]
fn bincode_metadata_back(data: &[u8]) -> (r: Option<SSTableMetadata>)
    ensures
        match decode_metadata(data@) {
            Some(view) => r matches Some(m) && m@ == view,
            None => r is None,
        },
{
    let t: (usize, u64, String, String, usize, u32, u64, u64, u64, u64, u64, usize) =
        bincode::deserialize(data).ok()?;
    Some(SSTableMetadata {
        entry_count: t.0, file_size: t.1, smallest_key: t.2, largest_key: t.3, level: t.4,
        checksum: t.5, created_at: t.6, index_offset: t.7, index_size: t.8,
        bloom_filter_offset: t.9, bloom_filter_size: t.10, bloom_filter_hash_count: t.11,
    })
}

/// Stored metadata is read back, whatever stands behind it.
pub proof fn metadata_round_trip(m: MetadataView, rest: Seq<u8>)
    requires
        encode_utf8(m.smallest_key).len() <= u64::MAX,
        encode_utf8(m.largest_key).len() <= u64::MAX,
    ensures
        decode_metadata(metadata_bytes(m) + rest) == Some(m),
{
    let s = metadata_bytes(m) + rest;
    let sk = encode_utf8(m.smallest_key);
    let lk = encode_utf8(m.largest_key);
    let a = sk.len() as int;
    let b = lk.len() as int;
    bytes::u64_back(m.entry_count as u64);
    bytes::u64_back(m.file_size);
    bytes::u64_back(a as u64);
    bytes::u64_back(b as u64);
    bytes::u64_back(m.level as u64);
    bytes::u32_back(m.checksum);
    bytes::u64_back(m.created_at);
    bytes::u64_back(m.index_offset);
    bytes::u64_back(m.index_size);
    bytes::u64_back(m.bloom_filter_offset);
    bytes::u64_back(m.bloom_filter_size);
    bytes::u64_back(m.bloom_filter_hash_count as u64);
    assert(s.subrange(0, 8) =~= spec_u64_to_le_bytes(m.entry_count as u64));
    assert(s.subrange(8, 16) =~= spec_u64_to_le_bytes(m.file_size));
    assert(s.subrange(16, 24) =~= spec_u64_to_le_bytes(a as u64));
    assert(s.subrange(24, 24 + a) =~= sk);
    assert(s.subrange(24 + a, 32 + a) =~= spec_u64_to_le_bytes(b as u64));
    assert(s.subrange(32 + a, 32 + a + b) =~= lk);
    let base = 32 + a + b;
    let tail = tail_bytes(m);
    assert(tail.len() == 60);
    assert(s.subrange(base, base + 60) =~= tail);
    assert(s.subrange(base, base + 8) =~= spec_u64_to_le_bytes(m.level as u64));
    assert(s.subrange(base + 8, base + 12) =~= spec_u32_to_le_bytes(m.checksum));
    assert(s.subrange(base + 12, base + 20) =~= spec_u64_to_le_bytes(m.created_at));
    assert(s.subrange(base + 20, base + 28) =~= spec_u64_to_le_bytes(m.index_offset));
    assert(s.subrange(base + 28, base + 36) =~= spec_u64_to_le_bytes(m.index_size));
    assert(s.subrange(base + 36, base + 44) =~= spec_u64_to_le_bytes(m.bloom_filter_offset));
    assert(s.subrange(base + 44, base + 52) =~= spec_u64_to_le_bytes(m.bloom_filter_size));
    assert(s.subrange(base + 52, base + 60) =~= spec_u64_to_le_bytes(
        m.bloom_filter_hash_count as u64,
    ));
    encode_utf8_valid_utf8(m.smallest_key);
    encode_utf8_valid_utf8(m.largest_key);
    encode_utf8_decode_utf8(m.smallest_key);
    encode_utf8_decode_utf8(m.largest_key);
}

/// Metadata stands in the window from `i` on, before the four bytes that end it.
pub open spec fn metadata_in_window(window: Seq<u8>, i: int) -> Option<MetadataView> {
    decode_metadata(window.subrange(i, window.len() - 4))
}

/// The last position in the window at which metadata can be read.
pub open spec fn last_metadata(window: Seq<u8>, i: int) -> bool {
    &&& 0 <= i
    &&& i + 4 < window.len()
    &&& metadata_in_window(window, i) is Some
    &&& forall|j: int| i < j && j + 4 < window.len() ==> #[trigger] metadata_in_window(window, j) is None
}

/// Searches a window of the file's end from behind for metadata.
pub fn find_metadata(window: &[u8]) -> (r: Option<(usize, SSTableMetadata)>)
    ensures
        match r {
            Some((i, m)) => last_metadata(window@, i as int) && metadata_in_window(
                window@,
                i as int,
            ) == Some(m@),
            None => forall|j: int|
                0 <= j && j + 4 < window@.len() ==> #[trigger] metadata_in_window(window@, j) is None,
        },
{
    if window.len() < 4 {
        return None;
    }
    let end: usize = window.len() - 4;
    let mut i: usize = end;
    while i > 0
        invariant
            end == window@.len() - 4,
            i <= end,
            forall|j: int|
                i <= j && j + 4 < window@.len() ==> #[trigger] metadata_in_window(window@, j) is None,
        decreases i,
    {
        i = i - 1;
        match bincode_metadata_back(slice_subrange(window, i, end)) {
            Some(m) => {
                assert(metadata_in_window(window@, i as int) == Some(m@));
                return Some((i, m));
            },
            None => {
                assert(metadata_in_window(window@, i as int) is None);
            },
        }
    }
    None
}

} // verus!
