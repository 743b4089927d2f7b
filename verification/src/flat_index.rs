//! Packed, sorted index of a table.
//!
//! Stored layout (`F4IX`, version 1):
//!   magic `F4IX`, version byte 1, record count (u32 LE),
//!   one u32 LE per record with its byte offset in the data,
//!   the data: records of key length (u32 LE), key, file offset (u64 LE), size (u32 LE).
//!
//! Older files hold a bincode map from key to `(u64, u32)`; [`FlatIndex::decode`] accepts both.

use crate::bytes::{self, bytes_equal, bytes_less, bytes_start_with, extend};
use crate::error::LsmError;
use crate::text::{self, cat, push_dec};
use vstd::bytes::*;
use vstd::prelude::*;
use vstd::slice::*;
use vstd::string::*;
use vstd::utf8::*;

verus! {

/// One record: the key's bytes, the file offset and the size.
pub type IndexRecord = (Seq<u8>, u64, u32);

/// The bytes of one record.
pub open spec fn record_bytes(rec: IndexRecord) -> Seq<u8> {
    spec_u32_to_le_bytes(rec.0.len() as u32) + rec.0 + spec_u64_to_le_bytes(rec.1)
        + spec_u32_to_le_bytes(rec.2)
}

/// The bytes of each record.
pub open spec fn records_parts(recs: Seq<IndexRecord>) -> Seq<Seq<u8>> {
    recs.map_values(|rec: IndexRecord| record_bytes(rec))
}

/// The bytes of the records, one after the other.
pub open spec fn records_bytes(recs: Seq<IndexRecord>) -> Seq<u8> {
    bytes::flat(records_parts(recs))
}

/// The key length that is stored at `off`.
pub open spec fn key_len_at(data: Seq<u8>, off: int) -> int {
    spec_u32_from_le_bytes(data.subrange(off, off + 4)) as int
}

/// A whole record stands at `off`.
pub open spec fn record_fits(data: Seq<u8>, off: int) -> bool {
    &&& 0 <= off
    &&& off + 4 <= data.len()
    &&& off + 4 + key_len_at(data, off) + 12 <= data.len()
}

/// The record that stands at `off`.
pub open spec fn record_at(data: Seq<u8>, off: int) -> IndexRecord {
    let loc = off + 4 + key_len_at(data, off);
    (
        data.subrange(off + 4, loc),
        spec_u64_from_le_bytes(data.subrange(loc, loc + 8)),
        spec_u32_from_le_bytes(data.subrange(loc + 8, loc + 12)),
    )
}

/// The offset table, as it is stored.
pub open spec fn offsets_bytes(offs: Seq<u32>) -> Seq<u8> {
    bytes::flat(offs.map_values(|off: u32| spec_u32_to_le_bytes(off)))
}

/// The records in strictly ascending key order.
pub open spec fn keys_ascend(recs: Seq<IndexRecord>) -> bool {
    forall|i: int, j: int|
        0 <= i < j < recs.len() ==> bytes::bytes_lt(#[trigger] recs[i].0, #[trigger] recs[j].0)
}

/// The records in key order, where a key may stand more than once.
pub open spec fn keys_in_order(recs: Seq<IndexRecord>) -> bool {
    forall|i: int, j: int|
        0 <= i < j < recs.len() ==> !bytes::bytes_lt(#[trigger] recs[j].0, #[trigger] recs[i].0)
}

/// Keys that ascend are in order.
pub proof fn ascending_is_in_order(recs: Seq<IndexRecord>)
    requires
        keys_ascend(recs),
    ensures
        keys_in_order(recs),
{
    assert forall|i: int, j: int| 0 <= i < j < recs.len() implies !bytes::bytes_lt(
        #[trigger] recs[j].0,
        #[trigger] recs[i].0,
    ) by {
        bytes::bytes_lt_asymmetric(recs[i].0, recs[j].0);
    }
}

/// Where halving the span from `lo` to `hi` ends: each time the middle record decides which half
/// is left, the one after it if its key is before `key`, or the one before it.
pub open spec fn halved(recs: Seq<IndexRecord>, key: Seq<u8>, lo: int, hi: int) -> int
    decreases hi - lo,
{
    if lo < hi {
        let mid = lo + (hi - lo) / 2;
        if bytes::bytes_lt(recs[mid].0, key) {
            halved(recs, key, mid + 1, hi)
        } else {
            halved(recs, key, lo, mid)
        }
    } else {
        lo
    }
}

/// The position that a search for `key` ends at.
pub open spec fn search_position(recs: Seq<IndexRecord>, key: Seq<u8>) -> int {
    halved(recs, key, 0, recs.len() as int)
}

/// The location that a search for `key` finds.
pub open spec fn found(recs: Seq<IndexRecord>, key: Seq<u8>) -> Option<(u64, u32)> {
    let i = search_position(recs, key);
    if 0 <= i < recs.len() && recs[i].0 == key {
        Some((recs[i].1, recs[i].2))
    } else {
        None
    }
}

/// A search among records in key order ends at the first one whose key is not before `key`.
pub proof fn search_parts(recs: Seq<IndexRecord>, key: Seq<u8>)
    requires
        keys_in_order(recs),
    ensures
        0 <= search_position(recs, key) <= recs.len(),
        forall|i: int|
            0 <= i < search_position(recs, key) ==> bytes::bytes_lt(#[trigger] recs[i].0, key),
        forall|i: int|
            search_position(recs, key) <= i < recs.len() ==> !bytes::bytes_lt(
                #[trigger] recs[i].0,
                key,
            ),
{
    halved_parts(recs, key, 0, recs.len() as int);
}

proof fn halved_parts(recs: Seq<IndexRecord>, key: Seq<u8>, lo: int, hi: int)
    requires
        keys_in_order(recs),
        0 <= lo <= hi <= recs.len(),
        forall|i: int| 0 <= i < lo ==> bytes::bytes_lt(#[trigger] recs[i].0, key),
        forall|i: int| hi <= i < recs.len() ==> !bytes::bytes_lt(#[trigger] recs[i].0, key),
    ensures
        lo <= halved(recs, key, lo, hi) <= hi,
        forall|i: int|
            0 <= i < halved(recs, key, lo, hi) ==> bytes::bytes_lt(#[trigger] recs[i].0, key),
        forall|i: int|
            halved(recs, key, lo, hi) <= i < recs.len() ==> !bytes::bytes_lt(
                #[trigger] recs[i].0,
                key,
            ),
    decreases hi - lo,
{
    if lo < hi {
        let mid = lo + (hi - lo) / 2;
        if bytes::bytes_lt(recs[mid].0, key) {
            assert forall|i: int| 0 <= i <= mid implies bytes::bytes_lt(#[trigger] recs[i].0, key) by {
                if i < mid {
                    bytes::bytes_lt_total(recs[i].0, recs[mid].0);
                    if bytes::bytes_lt(recs[i].0, recs[mid].0) {
                        bytes::bytes_lt_transitive(recs[i].0, recs[mid].0, key);
                    }
                }
            }
            halved_parts(recs, key, mid + 1, hi);
        } else {
            assert forall|i: int| mid <= i < recs.len() implies !bytes::bytes_lt(
                #[trigger] recs[i].0,
                key,
            ) by {
                if mid < i && bytes::bytes_lt(recs[i].0, key) {
                    bytes::bytes_lt_total(recs[i].0, recs[mid].0);
                    if bytes::bytes_lt(recs[mid].0, recs[i].0) {
                        bytes::bytes_lt_transitive(recs[mid].0, recs[i].0, key);
                    }
                }
            }
            halved_parts(recs, key, lo, mid);
        }
    }
}

/// Among records in key order a search finds a record with the key exactly if there is one.
pub proof fn search_finds(recs: Seq<IndexRecord>, key: Seq<u8>)
    requires
        keys_in_order(recs),
    ensures
        found(recs, key) is None <==> no_record(recs, key),
        found(recs, key) matches Some(loc) ==> recs.contains((key, loc.0, loc.1)),
{
    search_parts(recs, key);
    bytes::bytes_lt_irreflexive(key);
    let p = search_position(recs, key);
    if found(recs, key) is None {
        assert forall|j: int| 0 <= j < recs.len() implies #[trigger] recs[j].0 != key by {
            if j > p && recs[j].0 == key {
                assert(!bytes::bytes_lt(recs[j].0, recs[p].0));
                assert(!bytes::bytes_lt(recs[p].0, key));
                bytes::bytes_lt_total(recs[p].0, key);
            }
        }
    } else {
        assert(recs[p] == (key, recs[p].1, recs[p].2));
    }
}

/// No record has this key.
pub open spec fn no_record(recs: Seq<IndexRecord>, key: Seq<u8>) -> bool {
    forall|i: int| 0 <= i < recs.len() ==> #[trigger] recs[i].0 != key
}

/// The records that a list of keys with locations stands for.
pub open spec fn pairs_records(pairs: Seq<(String, u64, u32)>) -> Seq<IndexRecord> {
    pairs.map_values(|p: (String, u64, u32)| (encode_utf8(p.0@), p.1, p.2))
}

/// In-memory index of a table. Keys stay packed; lookup is binary search.
#[derive(Debug)]
pub struct FlatIndex {
    data: Vec<u8>,
    rec_off: Vec<u32>,
}

impl View for FlatIndex {
    type V = Seq<IndexRecord>;

    closed spec fn view(&self) -> Seq<IndexRecord> {
        Seq::new(self.rec_off@.len(), |i: int| record_at(self.data@, self.rec_off@[i] as int))
    }
}

impl Clone for FlatIndex {
    fn clone(&self) -> (r: Self)
        ensures
            r@ == self@,
            r.data() == self.data(),
            r.offsets() == self.offsets(),
            r.wf() == self.wf(),
    {
        FlatIndex { data: self.data.clone(), rec_off: self.rec_off.clone() }
    }
}

impl FlatIndex {
    /// The packed records.
    pub closed spec fn data(&self) -> Seq<u8> {
        self.data@
    }

    /// The offset of each record.
    pub closed spec fn offsets(&self) -> Seq<u32> {
        self.rec_off@
    }

    /// Every offset is that of a whole record.
    pub closed spec fn wf(&self) -> bool {
        forall|i: int|
            0 <= i < self.rec_off@.len() ==> record_fits(self.data@, #[trigger] self.rec_off@[i] as int)
    }

    /// The stored form of the index.
    pub open spec fn image(&self) -> Seq<u8> {
        index_form(self.offsets(), self.data())
    }

    /// The index of no record.
    pub fn empty() -> (r: Self)
        ensures
            r@ == Seq::<IndexRecord>::empty(),
            r.data() == Seq::<u8>::empty(),
            r.offsets() == Seq::<u32>::empty(),
            r.wf(),
    {
        let r = FlatIndex { data: Vec::new(), rec_off: Vec::new() };
        assert(r@ =~= Seq::<IndexRecord>::empty());
        r
    }

    /// Number of records.
    pub fn len(&self) -> (r: usize)
        ensures
            r == self@.len(),
            r == self.offsets().len(),
    {
        self.rec_off.len()
    }

    /// Whether there is no record.
    pub fn is_empty(&self) -> (r: bool)
        ensures
            r == (self@.len() == 0),
    {
        self.rec_off.len() == 0
    }

    /// Whether every offset is that of a whole record. An index that was built from pairs has this
    /// property; a decoded one has it if its bytes were not damaged.
    pub fn is_well_formed(&self) -> (r: bool)
        ensures
            r == self.wf(),
    {
        let n: usize = self.rec_off.len();
        let total: u64 = self.data.len() as u64;
        let mut i: usize = 0;
        while i < n
            invariant
                n == self.rec_off@.len(),
                total == self.data@.len(),
                total <= usize::MAX,
                i <= n,
                forall|j: int|
                    0 <= j < i ==> record_fits(self.data@, #[trigger] self.rec_off@[j] as int),
            decreases n - i,
        {
            let off: u64 = self.rec_off[i] as u64;
            if off + 4 > total {
                return false;
            }
            let o: usize = off as usize;
            let klen: u64 = u32_from_le_bytes(slice_subrange(self.data.as_slice(), o, o + 4)) as u64;
            if off + 4 + klen + 12 > total {
                return false;
            }
            i = i + 1;
        }
        true
    }

    /// Packs the pairs, which the caller hands over in ascending key order.
    pub fn from_sorted(pairs: Vec<(String, u64, u32)>) -> (r: Self)
        ensures
            r.data() == records_bytes(pairs_records(pairs@)),
            r.offsets().len() == pairs@.len(),
            forall|i: int|
                0 <= i < pairs@.len() ==> #[trigger] r.offsets()[i] == records_bytes(
                    pairs_records(pairs@).take(i),
                ).len() as u32,
            records_bytes(pairs_records(pairs@)).len() <= u32::MAX ==> {
                &&& r.wf()
                &&& r@ == pairs_records(pairs@)
            },
    {
        let mut data: Vec<u8> = Vec::new();
        let mut rec_off: Vec<u32> = Vec::new();
        let ghost recs = pairs_records(pairs@);
        let mut i: usize = 0;
        assert(recs.take(0) =~= Seq::empty());
        assert(records_parts(recs.take(0)) =~= Seq::empty());
        while i < pairs.len()
            invariant
                i <= pairs@.len(),
                recs == pairs_records(pairs@),
                data@ == records_bytes(recs.take(i as int)),
                rec_off@.len() == i,
                forall|j: int|
                    0 <= j < i ==> #[trigger] rec_off@[j] == records_bytes(recs.take(j)).len() as u32,
            decreases pairs@.len() - i,
        {
            rec_off.push(data.len() as u32);
            let kb = pairs[i].0.as_str().as_bytes();
            let klen = u32_to_le_bytes(kb.len() as u32);
            let off = u64_to_le_bytes(pairs[i].1);
            let size = u32_to_le_bytes(pairs[i].2);
            extend(&mut data, klen.as_slice());
            extend(&mut data, kb);
            extend(&mut data, off.as_slice());
            extend(&mut data, size.as_slice());
            proof {
                let before = recs.take(i as int);
                assert(recs.take(i + 1) =~= before.push(recs[i as int]));
                assert(records_parts(before.push(recs[i as int])) =~= records_parts(before).push(
                    record_bytes(recs[i as int]),
                ));
                bytes::flat_push(records_parts(before), record_bytes(recs[i as int]));
                assert(data@ =~= records_bytes(before) + record_bytes(recs[i as int]));
            }
            i = i + 1;
        }
        assert(recs.take(i as int) =~= recs);
        let r = FlatIndex { data, rec_off };
        proof {
            if records_bytes(recs).len() <= u32::MAX {
                assert forall|j: int| 0 <= j < r.rec_off@.len() implies record_fits(
                    r.data@,
                    #[trigger] r.rec_off@[j] as int,
                ) && record_at(r.data@, r.rec_off@[j] as int) == recs[j] by {
                    record_in_data(recs, j);
                }
                assert(r@ =~= recs);
            }
        }
        r
    }

    /// The record at position `i`.
    pub fn at(&self, i: usize) -> (r: Option<(&[u8], (u64, u32))>)
        requires
            self.wf(),
        ensures
            match r {
                Some((key, (off, size))) => i < self@.len() && self@[i as int] == (key@, off, size),
                None => i >= self@.len(),
            },
    {
        if i >= self.rec_off.len() {
            return None;
        }
        let off: usize = self.rec_off[i] as usize;
        assert(record_fits(self.data@, self.rec_off@[i as int] as int));
        Some(self.record_at_off(off))
    }

    fn record_at_off(&self, off: usize) -> (r: (&[u8], (u64, u32)))
        requires
            record_fits(self.data@, off as int),
        ensures
            record_at(self.data@, off as int) == (r.0@, r.1.0, r.1.1),
    {
        let data = self.data.as_slice();
        let total: usize = data.len();
        assert(off + 4 <= total);
        let klen: usize = u32_from_le_bytes(slice_subrange(data, off, off + 4)) as usize;
        let loc: usize = off + 4 + klen;
        let key = slice_subrange(data, off + 4, loc);
        let file_off: u64 = u64_from_le_bytes(slice_subrange(data, loc, loc + 8));
        let size: u32 = u32_from_le_bytes(slice_subrange(data, loc + 8, loc + 12));
        (key, (file_off, size))
    }

    fn key_at_off(&self, off: usize) -> (r: &[u8])
        requires
            record_fits(self.data@, off as int),
        ensures
            record_at(self.data@, off as int).0 == r@,
    {
        self.record_at_off(off).0
    }

    /// First position whose key is not before `key`, where the keys are in order.
    pub fn partition_point(&self, key: &[u8]) -> (r: usize)
        requires
            self.wf(),
        ensures
            r <= self@.len(),
            r == search_position(self@, key@),
            keys_in_order(self@) ==> {
                &&& forall|i: int| 0 <= i < r ==> bytes::bytes_lt(#[trigger] self@[i].0, key@)
                &&& forall|i: int| r <= i < self@.len() ==> !bytes::bytes_lt(#[trigger] self@[i].0, key@)
            },
    {
        let mut lo: usize = 0;
        let mut hi: usize = self.rec_off.len();
        while lo < hi
            invariant
                self.wf(),
                lo <= hi <= self.rec_off@.len(),
                halved(self@, key@, lo as int, hi as int) == search_position(self@, key@),
            decreases hi - lo,
        {
            let mid: usize = lo + (hi - lo) / 2;
            assert(record_fits(self.data@, self.rec_off@[mid as int] as int));
            let k = self.key_at_off(self.rec_off[mid] as usize);
            assert(self@[mid as int].0 == k@);
            if bytes_less(k, key) {
                lo = mid + 1;
            } else {
                hi = mid;
            }
        }
        proof {
            if keys_in_order(self@) {
                search_parts(self@, key@);
            }
        }
        lo
    }

    /// The location that is stored for `key`. It depends on the records alone; where the keys are in
    /// order, one is found exactly if there is a record with the key.
    pub fn get(&self, key: &str) -> (r: Option<(u64, u32)>)
        requires
            self.wf(),
        ensures
            r == found(self@, encode_utf8(key@)),
            match r {
                Some((off, size)) => self@.contains((encode_utf8(key@), off, size)),
                None => keys_in_order(self@) ==> no_record(self@, encode_utf8(key@)),
            },
    {
        let kb = key.as_bytes();
        let i: usize = self.partition_point(kb);
        proof {
            if keys_in_order(self@) {
                search_finds(self@, kb@);
            }
        }
        match self.at(i) {
            Some((k, loc)) => {
                if bytes_equal(k, kb) {
                    assert(self@[i as int] == (encode_utf8(key@), loc.0, loc.1));
                    Some(loc)
                } else {
                    None
                }
            },
            None => None,
        }
    }
}

/// The magic bytes of a stored index.
pub open spec fn index_magic() -> Seq<u8> {
    seq![0x46u8, 0x34u8, 0x49u8, 0x58u8]
}

/// What a bincode map from key to location holds, in ascending key order, or the text of the error.
pub uninterp spec fn legacy_pairs(buf: Seq<u8>) -> Result<Seq<(Seq<char>, u64, u32)>, Seq<char>>;

/// The records that decoded pairs stand for.
pub open spec fn legacy_records(pairs: Seq<(Seq<char>, u64, u32)>) -> Seq<IndexRecord> {
    pairs.map_values(|p: (Seq<char>, u64, u32)| (encode_utf8(p.0), p.1, p.2))
}

/// The offsets of packed records, as they are kept.
pub open spec fn packed_offsets(recs: Seq<IndexRecord>) -> Seq<u32> {
    Seq::new(recs.len(), |i: int| records_bytes(recs.take(i)).len() as u32)
}

/// The stored form of an index with these offsets and packed records.
pub open spec fn index_form(offsets: Seq<u32>, data: Seq<u8>) -> Seq<u8> {
    seq![0x46u8, 0x34u8, 0x49u8, 0x58u8, 1u8] + spec_u32_to_le_bytes(offsets.len() as u32)
        + offsets_bytes(offsets) + data
}

/// The stored form of an index of these records.
pub open spec fn index_image(recs: Seq<IndexRecord>) -> Seq<u8> {
    index_form(packed_offsets(recs), records_bytes(recs))
}

/// The record count of a stored index.
pub open spec fn stored_count(buf: Seq<u8>) -> int {
    spec_u32_from_le_bytes(buf.subrange(5, 9)) as int
}

/// What stored bytes hold: the packed records and their offsets, or the text of the error.
pub open spec fn stored_index(buf: Seq<u8>) -> Result<(Seq<u8>, Seq<u32>), Seq<char>> {
    if buf.len() >= 5 && bytes::starts_with(buf, index_magic()) {
        if buf[4] != 1 {
            Err("unsupported F4IX version "@ + text::dec(buf[4] as nat))
        } else if buf.len() < 9 {
            Err("truncated F4IX header"@)
        } else if buf.len() < 9 + stored_count(buf) * 4 {
            Err("truncated F4IX offset table"@)
        } else {
            Ok(
                (
                    buf.skip(9 + stored_count(buf) * 4),
                    Seq::new(
                        stored_count(buf) as nat,
                        |i: int| spec_u32_from_le_bytes(buf.subrange(9 + i * 4, 13 + i * 4)),
                    ),
                ),
            )
        }
    } else {
        match legacy_pairs(buf) {
            Ok(pairs) => Ok(
                (records_bytes(legacy_records(pairs)), packed_offsets(legacy_records(pairs))),
            ),
            Err(e) => Err("Failed to deserialize index: "@ + e),
        }
    }
}

/// `bincode::deserialize` of a `BTreeMap<String, (u64, u32)>`, walked in the map's ascending key
/// order. The result, with the error as its text, depends on the bytes alone.
#[verifier::external_body]
fn bincode_pairs(buf: &[u8]) -> (r: Result<Vec<(String, u64, u32)>, String>)
    ensures
        match legacy_pairs(buf@) {
            Ok(pairs) => r matches Ok(v) && pairs_view(v@) == pairs && keys_ascend(pairs_records(v@)),
            Err(e) => r matches Err(m) && m@ == e,
        },
{
    bincode::deserialize::<std::collections::BTreeMap<String, (u64, u32)>>(buf)
        .map(|map| map.into_iter().map(|(k, loc)| (k, loc.0, loc.1)).collect())
        .map_err(|e| e.to_string())
}

/// The pairs with their keys as text.
pub open spec fn pairs_view(pairs: Seq<(String, u64, u32)>) -> Seq<(Seq<char>, u64, u32)> {
    pairs.map_values(|p: (String, u64, u32)| (p.0@, p.1, p.2))
}

impl FlatIndex {
    /// The stored form of the index.
    pub fn encode(&self) -> (r: Vec<u8>)
        ensures
            r@ == self.image(),
    {
        let n = u32_to_le_bytes(self.rec_off.len() as u32);
        let mut out: Vec<u8> = Vec::new();
        out.push(0x46);
        out.push(0x34);
        out.push(0x49);
        out.push(0x58);
        out.push(1);
        extend(&mut out, n.as_slice());
        let ghost head = out@;
        let ghost parts = self.rec_off@.map_values(|off: u32| spec_u32_to_le_bytes(off));
        assert(parts.take(0) =~= Seq::empty());
        let mut i: usize = 0;
        while i < self.rec_off.len()
            invariant
                i <= self.rec_off@.len(),
                parts == self.rec_off@.map_values(|off: u32| spec_u32_to_le_bytes(off)),
                out@ == head + bytes::flat(parts.take(i as int)),
            decreases self.rec_off@.len() - i,
        {
            let off = u32_to_le_bytes(self.rec_off[i]);
            extend(&mut out, off.as_slice());
            proof {
                bytes::flat_at(parts, i as int);
                assert(out@ =~= head + bytes::flat(parts.take(i + 1)));
            }
            i = i + 1;
        }
        assert(parts.take(i as int) =~= parts);
        extend(&mut out, self.data.as_slice());
        assert(out@ =~= self.image());
        out
    }

    /// Reads a stored index, of either form.
    pub fn decode(buf: &[u8]) -> (r: Result<Self, LsmError>)
        ensures
            match stored_index(buf@) {
                Ok((data, offsets)) => r matches Ok(idx) && idx.data() == data && idx.offsets() == offsets,
                Err(e) => r matches Err(err) && err.is_serialization(e),
            },
    {
        let magic: [u8; 4] = [0x46, 0x34, 0x49, 0x58];
        assert(magic@ =~= index_magic());
        if buf.len() >= 5 && bytes_start_with(buf, magic.as_slice()) {
            return decode_v1(buf);
        }
        decode_bincode(buf)
    }
}

fn decode_v1(buf: &[u8]) -> (r: Result<FlatIndex, LsmError>)
    requires
        buf@.len() >= 5,
        bytes::starts_with(buf@, index_magic()),
    ensures
        match stored_index(buf@) {
            Ok((data, offsets)) => r matches Ok(idx) && idx.data() == data && idx.offsets() == offsets,
            Err(e) => r matches Err(err) && err.is_serialization(e),
        },
{
    if buf[4] != 1 {
        let mut m = "unsupported F4IX version ".to_owned();
        push_dec(&mut m, buf[4] as u64);
        return Err(LsmError::Serialization(m));
    }
    if buf.len() < 9 {
        return Err(LsmError::Serialization("truncated F4IX header".to_owned()));
    }
    let count: u64 = u32_from_le_bytes(slice_subrange(buf, 5, 9)) as u64;
    let records: u64 = 9 + count * 4;
    if (buf.len() as u64) < records {
        return Err(LsmError::Serialization("truncated F4IX offset table".to_owned()));
    }
    let n: usize = count as usize;
    let mut rec_off: Vec<u32> = Vec::new();
    let mut i: usize = 0;
    while i < n
        invariant
            i <= n,
            9 + n * 4 <= buf@.len(),
            buf@.len() <= usize::MAX,
            rec_off@.len() == i,
            forall|j: int|
                0 <= j < i ==> #[trigger] rec_off@[j] == spec_u32_from_le_bytes(
                    buf@.subrange(9 + j * 4, 13 + j * 4),
                ),
        decreases n - i,
    {
        let o: usize = 9 + i * 4;
        rec_off.push(u32_from_le_bytes(slice_subrange(buf, o, o + 4)));
        i = i + 1;
    }
    let data = slice_to_vec(slice_subrange(buf, records as usize, buf.len()));
    let r = FlatIndex { data, rec_off };
    proof {
        assert(r.data() =~= buf@.skip(9 + stored_count(buf@) * 4));
        assert(r.offsets() =~= Seq::new(
            stored_count(buf@) as nat,
            |i: int| spec_u32_from_le_bytes(buf@.subrange(9 + i * 4, 13 + i * 4)),
        ));
    }
    Ok(r)
}

fn decode_bincode(buf: &[u8]) -> (r: Result<FlatIndex, LsmError>)
    ensures
        match legacy_pairs(buf@) {
            Ok(pairs) => r matches Ok(idx) && idx.data() == records_bytes(legacy_records(pairs))
                && idx.offsets() == packed_offsets(legacy_records(pairs)),
            Err(e) => r matches Err(err) && err.is_serialization(
                "Failed to deserialize index: "@ + e,
            ),
        },
{
    match bincode_pairs(buf) {
        Ok(pairs) => {
            let r = FlatIndex::from_sorted(pairs);
            proof {
                assert(pairs_records(pairs@) =~= legacy_records(pairs_view(pairs@)));
                assert(r.offsets() =~= packed_offsets(pairs_records(pairs@)));
            }
            Ok(r)
        },
        Err(e) => Err(LsmError::Serialization(cat("Failed to deserialize index: ", e.as_str()))),
    }
}

/// Reading back a stored index gives the same records, as long as there are fewer than 2^32.
pub proof fn index_round_trip(offs: Seq<u32>, data: Seq<u8>)
    requires
        offs.len() <= u32::MAX,
    ensures
        stored_index(index_form(offs, data)) == Ok::<(Seq<u8>, Seq<u32>), Seq<char>>((data, offs)),
{
    lemma_auto_spec_u32_to_from_le_bytes();
    let img = index_form(offs, data);
    let parts = offs.map_values(|off: u32| spec_u32_to_le_bytes(off));
    assert(img.take(4) =~= index_magic());
    assert(img.subrange(5, 9) =~= spec_u32_to_le_bytes(offs.len() as u32));
    assert forall|k: int| 0 <= k <= offs.len() implies #[trigger] bytes::flat(parts.take(k)).len() == k * 4 by {
        offsets_length(offs, k);
    }
    assert(parts.take(offs.len() as int) =~= parts);
    assert(img.skip(9 + offs.len() as int * 4) =~= data);
    let got = Seq::new(
        stored_count(img) as nat,
        |i: int| spec_u32_from_le_bytes(img.subrange(9 + i * 4, 13 + i * 4)),
    );
    assert forall|i: int| 0 <= i < offs.len() implies #[trigger] got[i] == offs[i] by {
        bytes::flat_at(parts, i);
        assert(bytes::flat(parts.take(i)).len() == i * 4);
        assert(img.subrange(9 + i * 4, 13 + i * 4) =~= bytes::flat(parts).subrange(i * 4, i * 4 + 4));
    }
    assert(got =~= offs);
}

/// An index that was stored and read back holds the same records at the same positions, answers
/// every lookup alike and has the same stored form, whatever the order of its keys.
pub proof fn decoded_index_answers_alike(idx: FlatIndex, back: FlatIndex, key: Seq<u8>)
    requires
        idx.offsets().len() <= u32::MAX,
        stored_index(idx.image()) matches Ok((data, offsets)) ==> back.data() == data
            && back.offsets() == offsets,
    ensures
        stored_index(idx.image()) is Ok,
        back@ == idx@,
        back.wf() == idx.wf(),
        found(back@, key) == found(idx@, key),
        back.image() == idx.image(),
{
    index_round_trip(idx.offsets(), idx.data());
    assert(back@ =~= idx@);
}

proof fn offsets_length(offs: Seq<u32>, k: int)
    requires
        0 <= k <= offs.len(),
    ensures
        bytes::flat(offs.map_values(|off: u32| spec_u32_to_le_bytes(off)).take(k)).len() == k * 4,
    decreases k,
{
    lemma_auto_spec_u32_to_from_le_bytes();
    let parts = offs.map_values(|off: u32| spec_u32_to_le_bytes(off));
    if k > 0 {
        offsets_length(offs, k - 1);
        bytes::flat_at(parts, k - 1);
    }
}

/// An index that holds the packed form of records has those records.
pub proof fn packed_index_view(idx: FlatIndex, recs: Seq<IndexRecord>)
    requires
        idx.data() == records_bytes(recs),
        idx.offsets() == packed_offsets(recs),
        records_bytes(recs).len() <= u32::MAX,
    ensures
        idx.wf(),
        idx@ == recs,
{
    assert forall|j: int| 0 <= j < recs.len() implies record_fits(
        idx.data@,
        #[trigger] idx.rec_off@[j] as int,
    ) && record_at(idx.data@, idx.rec_off@[j] as int) == recs[j] by {
        record_in_data(recs, j);
        assert(idx.offsets()[j] == records_bytes(recs.take(j)).len() as u32);
    }
    assert(idx@ =~= recs);
}

/// Each record can be read back where it was packed.
pub proof fn record_in_data(recs: Seq<IndexRecord>, j: int)
    requires
        0 <= j < recs.len(),
        records_bytes(recs).len() <= u32::MAX,
    ensures
        record_fits(records_bytes(recs), records_bytes(recs.take(j)).len() as int),
        record_at(records_bytes(recs), records_bytes(recs.take(j)).len() as int) == recs[j],
        records_bytes(recs.take(j)).len() <= u32::MAX,
{
    lemma_auto_spec_u32_to_from_le_bytes();
    lemma_auto_spec_u64_to_from_le_bytes();
    let parts = records_parts(recs);
    bytes::flat_at(parts, j);
    assert(parts.take(j) =~= records_parts(recs.take(j)));
    let data = records_bytes(recs);
    let off = records_bytes(recs.take(j)).len() as int;
    let rec = recs[j];
    let part = record_bytes(rec);
    assert(parts[j] == part);
    assert(rec.0.len() <= u32::MAX);
    assert(data.subrange(off, off + 4) =~= part.subrange(0, 4)) by {
        assert(part == data.subrange(off, off + part.len()));
    }
    assert(part.subrange(0, 4) =~= spec_u32_to_le_bytes(rec.0.len() as u32));
    let loc = off + 4 + rec.0.len();
    assert(data.subrange(off + 4, loc) =~= rec.0);
    assert(data.subrange(loc, loc + 8) =~= spec_u64_to_le_bytes(rec.1));
    assert(data.subrange(loc + 8, loc + 12) =~= spec_u32_to_le_bytes(rec.2));
}

} // verus!
