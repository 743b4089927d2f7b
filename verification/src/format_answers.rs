//! How what the engine stores is laid out, byte by byte, and how its files are named.

use crate::bloom_filter::{self, BloomFilter};
use crate::bytes;
use crate::error::LsmError;
use crate::flat_index::{self, FlatIndex};
use crate::numerals;
use crate::sst_writer::{self, EntryView, TableEntry};
use crate::sstable::SSTable;
use crate::text;
use crate::wal_frame;
use crate::wal_index::WalIndexHeader;
use crate::wal_indexed;
use crate::wal_record;
use crate::wal_segment;
use vstd::bytes::*;
use vstd::prelude::*;
use vstd::string::*;
use vstd::utf8::encode_utf8;

verus! {

/// A record of the log begins with the length of its payload, the lowest byte first.
pub proof fn record_begins_with_its_length(payload: &[u8], r: Vec<u8>)
    requires
        payload@.len() <= u32::MAX,
        call_ensures(wal_record::encode_record, (payload,), r),
    ensures
        r@.len() == payload@.len() + 4,
        r@[0] + 256 * r@[1] + 65_536 * r@[2] + 16_777_216 * r@[3] == payload@.len(),
        forall|i: int| 0 <= i < payload@.len() ==> #[trigger] r@[i + 4] == payload@[i],
{
    let n = payload@.len() as u32;
    wal_record::length_back(n);
    let head = wal_record::length_bytes(n);
    assert(r@ == head + payload@);
    assert(r@[0] == head[0] && r@[1] == head[1] && r@[2] == head[2] && r@[3] == head[3]);
    reveal(wal_record::length_value);
}

/// A stored index begins with its magic, its version and the number of its keys.
pub proof fn stored_index_begins_with_its_magic(idx: FlatIndex, r: Vec<u8>, n: usize)
    requires
        idx.offsets().len() <= u32::MAX,
        call_ensures(FlatIndex::encode, (&idx,), r),
        call_ensures(FlatIndex::len, (&idx,), n),
    ensures
        r@.len() >= 9,
        r@.subrange(0, 5) == seq![0x46u8, 0x34u8, 0x49u8, 0x58u8, 1u8],
        spec_u32_from_le_bytes(r@.subrange(5, 9)) == n,
{
    let offs = idx.offsets();
    lemma_auto_spec_u32_to_from_le_bytes();
    bytes::u32_back(offs.len() as u32);
    assert(r@.subrange(0, 5) =~= seq![0x46u8, 0x34u8, 0x49u8, 0x58u8, 1u8]);
    assert(r@.subrange(5, 9) =~= spec_u32_to_le_bytes(offs.len() as u32));
}

/// Each key of a stored index stands where the table of offsets tells: its length, its bytes, and the
/// place and the size of its entry.
pub proof fn stored_keys_stand_at_their_offsets(
    pairs: Vec<(String, u64, u32)>,
    idx: FlatIndex,
    r: Vec<u8>,
    i: int,
)
    requires
        call_ensures(FlatIndex::from_sorted, (pairs,), idx),
        flat_index::records_bytes(flat_index::pairs_records(pairs@)).len() <= u32::MAX,
        pairs@.len() <= u32::MAX,
        call_ensures(FlatIndex::encode, (&idx,), r),
        0 <= i < pairs@.len(),
    ensures
        ({
            let key = encode_utf8(pairs@[i].0@);
            let off = spec_u32_from_le_bytes(r@.subrange(9 + 4 * i, 13 + 4 * i));
            let at = 9 + 4 * pairs@.len() + off;
            let behind = at + 4 + key.len();
            &&& behind + 12 <= r@.len()
            &&& spec_u32_from_le_bytes(r@.subrange(at, at + 4)) == key.len()
            &&& r@.subrange(at + 4, behind) == key
            &&& spec_u64_from_le_bytes(r@.subrange(behind, behind + 8)) == pairs@[i].1
            &&& spec_u32_from_le_bytes(r@.subrange(behind + 8, behind + 12)) == pairs@[i].2
        }),
{
    let recs = flat_index::pairs_records(pairs@);
    let data = flat_index::records_bytes(recs);
    let offs = idx.offsets();
    let n = pairs@.len() as int;
    assert(recs.len() == n);
    flat_index::record_in_data(recs, i);
    flat_index::index_round_trip(offs, data);
    lemma_auto_spec_u32_to_from_le_bytes();
    bytes::u32_back(n as u32);
    assert(r@.take(4) =~= flat_index::index_magic());
    assert(r@[4] == 1);
    assert(r@.subrange(5, 9) =~= spec_u32_to_le_bytes(n as u32));
    let start = flat_index::records_bytes(recs.take(i)).len() as int;
    assert(offs[i] == start);
    let told = Seq::new(
        flat_index::stored_count(r@) as nat,
        |k: int| spec_u32_from_le_bytes(r@.subrange(9 + k * 4, 13 + k * 4)),
    );
    assert(told == offs);
    assert(told[i] == offs[i]);
    let base = 9 + 4 * n;
    assert(r@.skip(base) == data);
    let key = encode_utf8(pairs@[i].0@);
    assert(recs[i] == (key, pairs@[i].1, pairs@[i].2));
    let at = base + start;
    let len = flat_index::key_len_at(data, start);
    assert(r@.subrange(at, at + 4) =~= data.subrange(start, start + 4));
    assert(data.subrange(start + 4, start + 4 + len) == key);
    assert(r@.subrange(at + 4, at + 4 + len) =~= data.subrange(start + 4, start + 4 + len));
    let behind = start + 4 + len;
    assert(r@.subrange(base + behind, base + behind + 8) =~= data.subrange(behind, behind + 8));
    assert(r@.subrange(base + behind + 8, base + behind + 12) =~= data.subrange(
        behind + 8,
        behind + 12,
    ));
}

/// A slot of the index of a log holds each of its numbers at its place.
pub proof fn slot_holds_numbers_at_their_places(h: WalIndexHeader, r: Vec<u8>)
    requires
        call_ensures(WalIndexHeader::to_slot_bytes, (&h,), r),
    ensures
        r@.len() == 4096,
        r@.subrange(0, 5) == seq![87u8, 73u8, 68u8, 88u8, 1u8],
        r@.subrange(8, 16) == spec_u64_to_le_bytes(h.generation),
        r@.subrange(16, 20) == spec_u32_to_le_bytes(h.segment_id),
        r@.subrange(20, 24) == spec_u32_to_le_bytes(h.frame_size),
        r@.subrange(24, 28) == spec_u32_to_le_bytes(h.committed_frame),
        r@.subrange(28, 32) == spec_u32_to_le_bytes(h.committed_offset),
        r@.subrange(32, 40) == spec_u64_to_le_bytes(h.entry_count),
        r@.subrange(40, 44) == spec_u32_to_le_bytes(h.checksum),
        forall|i: int| 44 <= i < 4096 ==> #[trigger] r@[i] == 0,
{
    bytes::u64_back(h.generation);
    bytes::u64_back(h.entry_count);
    bytes::u32_back(h.segment_id);
    bytes::u32_back(h.frame_size);
    bytes::u32_back(h.committed_frame);
    bytes::u32_back(h.committed_offset);
    bytes::u32_back(h.checksum);
    assert(r@.subrange(0, 5) =~= seq![87u8, 73u8, 68u8, 88u8, 1u8]);
    assert(r@.subrange(8, 16) =~= spec_u64_to_le_bytes(h.generation));
    assert(r@.subrange(16, 20) =~= spec_u32_to_le_bytes(h.segment_id));
    assert(r@.subrange(20, 24) =~= spec_u32_to_le_bytes(h.frame_size));
    assert(r@.subrange(24, 28) =~= spec_u32_to_le_bytes(h.committed_frame));
    assert(r@.subrange(28, 32) =~= spec_u32_to_le_bytes(h.committed_offset));
    assert(r@.subrange(32, 40) =~= spec_u64_to_le_bytes(h.entry_count));
    assert(r@.subrange(40, 44) =~= spec_u32_to_le_bytes(h.checksum));
}

/// A stored filter begins with the number of its bits, and then holds them, eight to a byte, the
/// lowest bit of each byte first.
pub proof fn stored_filter_holds_its_bits(f: BloomFilter, r: Vec<u8>, j: int)
    requires
        call_ensures(BloomFilter::to_bytes, (&f,), r),
        0 <= j < f.bit_seq().len(),
    ensures
        r@.len() == 4 + (f.bit_seq().len() + 7) / 8,
        spec_u32_from_le_bytes(r@.subrange(0, 4)) == f.bit_num() as u32,
        f.bit_seq()[j] <==> r@[4 + j / 8] & (1u8 << ((j % 8) as u8)) != 0,
{
    bytes::u32_back(f.bit_num() as u32);
    let head = spec_u32_to_le_bytes(f.bit_num() as u32);
    let packed = bloom_filter::packed(f.bit_seq());
    assert(r@.subrange(0, 4) =~= head);
    assert(r@[4 + j / 8] == packed[j / 8]);
    assert(bloom_filter::unpacked(packed)[j] == f.bit_seq()[j]);
}

proof fn layout_keeps_its_start(entries: Seq<EntryView>)
    ensures
        sst_writer::layout(entries).out.len() >= 8,
        sst_writer::layout(entries).out.subrange(0, 8) == seq![
            0x46u8,
            0x34u8,
            0x53u8,
            0x43u8,
            1u8,
            0u8,
            0u8,
            0u8,
        ],
    decreases entries.len(),
{
    let start = seq![0x46u8, 0x34u8, 0x53u8, 0x43u8, 1u8, 0u8, 0u8, 0u8];
    if entries.len() > 0 {
        let before = sst_writer::layout(entries.drop_last());
        layout_keeps_its_start(entries.drop_last());
        let after = sst_writer::layout(entries);
        assert(after.out.subrange(0, 8) =~= before.out.subrange(0, 8));
    } else {
        assert(sst_writer::layout(entries).out.subrange(0, 8) =~= start);
    }
}

/// A written table begins with its magic and its version.
pub proof fn written_table_begins_with_its_magic(
    t: &mut SSTable,
    entries: Vec<TableEntry>,
    r: Result<Option<Vec<u8>>, LsmError>,
)
    requires
        call_ensures(SSTable::write_entries, (t, &entries), r),
    ensures
        r matches Ok(Some(image)) ==> image@.len() >= 8 && image@.subrange(0, 8) == seq![
            0x46u8,
            0x34u8,
            0x53u8,
            0x43u8,
            1u8,
            0u8,
            0u8,
            0u8,
        ],
{
    if let Ok(Some(image)) = r {
        let views = sst_writer::entries_view(entries@);
        layout_keeps_its_start(views);
        let l = sst_writer::layout(views);
        let data = sst_writer::data_section(views).out;
        assert(data.subrange(0, 8) =~= l.out.subrange(0, 8));
        assert(image@.subrange(0, 8) =~= data.subrange(0, 8));
    }
}

proof fn hex_is_short(n: nat, k: nat)
    requires
        k >= 1,
        n < vstd::arithmetic::power::pow(16, k),
    ensures
        text::hex(n).len() <= k,
    decreases k,
{
    vstd::arithmetic::power::lemma_pow1(16);
    if k > 1 && n >= 16 {
        vstd::arithmetic::power::lemma_pow_adds(16, 1, (k - 1) as nat);
        assert(n / 16 < vstd::arithmetic::power::pow(16, (k - 1) as nat));
        hex_is_short(n / 16, (k - 1) as nat);
    }
}

proof fn sixteen_digits()
    ensures
        vstd::arithmetic::power::pow(16, 16) == 0x1_0000_0000_0000_0000,
{
    vstd::arithmetic::power::lemma_pow1(16);
    vstd::arithmetic::power::lemma_pow_adds(16, 1, 1);
    assert(vstd::arithmetic::power::pow(16, 2) == 256);
    vstd::arithmetic::power::lemma_pow_adds(16, 2, 2);
    assert(vstd::arithmetic::power::pow(16, 4) == 65_536);
    vstd::arithmetic::power::lemma_pow_adds(16, 4, 4);
    assert(vstd::arithmetic::power::pow(16, 8) == 4_294_967_296);
    vstd::arithmetic::power::lemma_pow_adds(16, 8, 8);
}

proof fn numbers_have_few_digits(n: u64)
    ensures
        text::hex(n as nat).len() <= 16,
{
    sixteen_digits();
    hex_is_short(n as nat, 16);
}

/// The names of all segments are equally long, whatever their numbers, as are those of the files of
/// the frame log and of the directories of the indexed log.
pub proof fn names_are_equally_long(
    a: u64,
    b: u64,
    name_a: String,
    name_b: String,
    frame_a: String,
    frame_b: String,
    c: u32,
    d: u32,
    dir_c: String,
    dir_d: String,
)
    requires
        call_ensures(wal_segment::segment_file_name, (a,), name_a),
        call_ensures(wal_segment::segment_file_name, (b,), name_b),
        call_ensures(wal_frame::frame_file_name, (a,), frame_a),
        call_ensures(wal_frame::frame_file_name, (b,), frame_b),
        call_ensures(wal_indexed::segment_frames_dir, (c,), dir_c),
        call_ensures(wal_indexed::segment_frames_dir, (d,), dir_d),
    ensures
        name_a@.len() == name_b@.len(),
        frame_a@.len() == frame_b@.len(),
        dir_c@.len() == dir_d@.len() == 16,
{
    numbers_have_few_digits(a);
    numbers_have_few_digits(b);
    numbers_have_few_digits(c as u64);
    numbers_have_few_digits(d as u64);
}

/// A file is one of a segment exactly if its name begins and ends as those of segments do, whatever
/// stands between, and one of the frame log likewise.
pub proof fn files_are_known_by_their_names(
    name: &str,
    middle: Seq<char>,
    segment: bool,
    frame: bool,
)
    requires
        call_ensures(wal_segment::is_segment_file, (name,), segment),
        call_ensures(wal_frame::is_frame_file, (name,), frame),
    ensures
        name@ == "segment_"@ + middle + ".wal"@ ==> segment,
        segment ==> "segment_"@.is_prefix_of(name@) && ".wal"@.is_suffix_of(name@),
        name@ == "frame_"@ + middle + ".wal"@ ==> frame,
        frame ==> "frame_"@.is_prefix_of(name@) && ".wal"@.is_suffix_of(name@),
        !(segment && frame),
{
    reveal_strlit("segment_");
    reveal_strlit("frame_");
    if name@ == "segment_"@ + middle + ".wal"@ {
        numerals::between_back("segment_"@, middle, ".wal"@);
    }
    if name@ == "frame_"@ + middle + ".wal"@ {
        numerals::between_back("frame_"@, middle, ".wal"@);
    }
    if segment {
        assert(name@.take(8)[0] == 's');
    }
    if frame {
        assert(name@.take(6)[0] == 'f');
    }
}

/// The number of a segment is the hexadecimal number between the beginning and the end of its name;
/// a name with anything else there has none.
pub proof fn segment_numbers_are_hexadecimal(
    name: &str,
    prefix: &str,
    frame_prefix: &str,
    suffix: &str,
    between: Option<Vec<char>>,
    frame_between: Option<Vec<char>>,
    n: Option<u64>,
    frame_n: Option<u64>,
    id: Option<u64>,
    frame_id: Option<u64>,
)
    requires
        prefix@ == "segment_"@,
        frame_prefix@ == "frame_"@,
        suffix@ == ".wal"@,
        call_ensures(numerals::text_between, (name, prefix, suffix), between),
        call_ensures(numerals::text_between, (name, frame_prefix, suffix), frame_between),
        between matches Some(v) ==> call_ensures(numerals::parse_number, (&v, 16, u64::MAX), n),
        frame_between matches Some(v) ==> call_ensures(
            numerals::parse_number,
            (&v, 16, u64::MAX),
            frame_n,
        ),
        call_ensures(wal_segment::parse_segment_id, (name,), id),
        call_ensures(wal_frame::parse_frame_id, (name,), frame_id),
    ensures
        between is Some ==> id == n,
        between is None ==> id is None,
        frame_between is Some ==> frame_id == frame_n,
        frame_between is None ==> frame_id is None,
{
}

/// The records of several payloads are those of each, one behind the other.
pub proof fn records_stand_behind_each_other(
    payloads: Vec<Vec<u8>>,
    longer: Vec<Vec<u8>>,
    last: &[u8],
    r: Vec<u8>,
    s: Vec<u8>,
    one: Vec<u8>,
)
    requires
        longer@.len() == payloads@.len() + 1,
        longer@.drop_last() == payloads@,
        longer@.last()@ == last@,
        call_ensures(wal_record::encode_records, (&payloads,), r),
        call_ensures(wal_record::encode_records, (&longer,), s),
        call_ensures(wal_record::encode_record, (last,), one),
    ensures
        s@ == r@ + one@,
{
    let all = wal_record::views(longer@);
    assert(all.drop_last() =~= wal_record::views(payloads@));
    assert(all.last() == last@);
}

} // verus!
