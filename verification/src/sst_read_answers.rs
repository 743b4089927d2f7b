//! What the operations that read a table come to, taken together.

use crate::bloom_filter::BloomFilter;
use crate::bytes;
use crate::duration::Duration;
use crate::engine_config::SstableConfig;
use crate::error::{IoErrorKind, LsmError};
use crate::flat_index::FlatIndex;
use crate::numerals;
use crate::snappy;
use crate::sst_block::{self, AllEntries, BlockRead, ReaderGuard, TablePins};
use crate::sst_entry::{self, EntryRead};
use crate::sst_fetch::{self, EntryFetch, FetchReply, SyncEntryRead};
use crate::sst_format;
use crate::sst_lookup::{Lookup, LookupReply};
use crate::sst_metadata::{self, SSTableMetadata};
use crate::sst_open::{self, FileReply, FileRequest, IndexLoad, MetadataRead};
use crate::sst_read::{RetryDecision, SSTableEntry, SstableLookupResult};
use crate::sst_writer::TableEntry;
use crate::sstable::SSTable;
use crate::text;
use crate::value::Value;
use vstd::bytes::{spec_u32_from_le_bytes, spec_u32_to_le_bytes};
use vstd::prelude::*;
use vstd::string::*;
use vstd::utf8::encode_utf8;

verus! {

/// An entry that was framed with its length and its checksum is parsed again, wherever it stands.
pub proof fn framed_entry_is_parsed(
    before: Seq<u8>,
    data: &[u8],
    sum: u32,
    after: Seq<u8>,
    buf: &[u8],
    r: Result<Vec<u8>, LsmError>,
)
    requires
        1 <= data@.len() <= 104_857_600,
        call_ensures(sst_format::checksum_entry, (data@.len() as u32, data), sum),
        buf@ == before + (spec_u32_to_le_bytes(data@.len() as u32) + data@ + spec_u32_to_le_bytes(
            sum,
        )) + after,
        before.len() <= usize::MAX,
        call_ensures(sst_format::parse_framed_entry, (buf, before.len() as usize), r),
    ensures
        r matches Ok(v) && v@ == data@,
{
    sst_format::framed_round_trip(before, data@, after);
    assert(buf@ == before + sst_format::framed(data@) + after);
}

/// What is parsed as an entry stands there behind its length, and its checksum behind it.
pub proof fn parsed_entry_was_framed(
    buf: &[u8],
    at: usize,
    r: Result<Vec<u8>, LsmError>,
    data: &[u8],
    sum: u32,
)
    requires
        call_ensures(sst_format::parse_framed_entry, (buf, at), r),
        r matches Ok(v) ==> data@ == v@,
        call_ensures(sst_format::checksum_entry, (data@.len() as u32, data), sum),
    ensures
        r is Ok ==> {
            let n = data@.len();
            &&& 1 <= n <= 104_857_600
            &&& at + 8 + n <= buf@.len()
            &&& data@ == buf@.subrange(at + 4, at + 4 + n)
            &&& spec_u32_from_le_bytes(buf@.subrange(at as int, at + 4)) == n
            &&& spec_u32_from_le_bytes(buf@.subrange(at + 4 + n, at + 8 + n)) == sum
        },
        r matches Err(e) ==> e is Corruption,
{
}

/// The header of a block is accepted exactly if both of its lengths are those of a block.
pub proof fn block_lengths_are_tested(off: u64, unc: u32, comp: u32, r: Result<(), LsmError>)
    requires
        call_ensures(sst_format::check_block_header, (off, unc, comp), r),
    ensures
        r is Ok <==> 1 <= unc <= 134_217_728 && 1 <= comp <= 134_217_728,
        r matches Err(e) ==> e is Corruption,
{
}

/// A block that was packed is unpacked again, if its length is told right, and refused otherwise.
pub proof fn packed_block_is_unpacked(
    raw: &[u8],
    packed: Result<Vec<u8>, LsmError>,
    comp: &[u8],
    off: u64,
    unc: u32,
    r: Result<Vec<u8>, LsmError>,
)
    requires
        raw@.len() <= 134_217_728,
        call_ensures(snappy::snap_compress, (raw,), packed),
        packed matches Ok(v) ==> comp@ == v@,
        call_ensures(sst_format::unpack_block, (off, unc, comp), r),
    ensures
        packed is Ok,
        r is Ok <==> unc == raw@.len(),
        r matches Ok(v) ==> v@ == raw@,
        r matches Err(e) ==> e is Corruption,
{
}

/// A packed block that stands in a file, behind its two lengths, is read in three parts.
pub proof fn block_in_a_file_is_read(
    before: Seq<u8>,
    raw: &[u8],
    packed: Result<Vec<u8>, LsmError>,
    after: Seq<u8>,
    file: Seq<u8>,
    requests: (FileRequest, FileRequest, FileRequest),
    replies: (FileReply, FileReply, FileReply),
    states: (BlockRead, BlockRead, BlockRead),
)
    requires
        1 <= raw@.len() <= 100_000_000,
        before.len() <= u64::MAX - 8,
        call_ensures(snappy::snap_compress, (raw,), packed),
        packed matches Ok(v) ==> file == before + (spec_u32_to_le_bytes(raw@.len() as u32)
            + spec_u32_to_le_bytes(v@.len() as u32) + v@) + after,
        call_ensures(
            BlockRead::request,
            (&BlockRead::UnpackedLength, before.len() as u64),
            requests.0,
        ),
        requests.0.answered_from(file, replies.0),
        call_ensures(
            sst_block::read_snappy_block,
            (before.len() as u64, BlockRead::UnpackedLength, replies.0),
            states.0,
        ),
        call_ensures(BlockRead::request, (&states.0, before.len() as u64), requests.1),
        requests.1.answered_from(file, replies.1),
        call_ensures(
            sst_block::read_snappy_block,
            (before.len() as u64, states.0, replies.1),
            states.1,
        ),
        call_ensures(BlockRead::request, (&states.1, before.len() as u64), requests.2),
        requests.2.answered_from(file, replies.2),
        call_ensures(
            sst_block::read_snappy_block,
            (before.len() as u64, states.1, replies.2),
            states.2,
        ),
    ensures
        states.2 matches BlockRead::Done(Ok(v)) && v@ == raw@,
{
    sst_format::block_round_trip(before, raw@, after);
    assert(file == before + sst_format::block_bytes(raw@) + after);
    sst_block::stored_block_is_read(file, before.len() as u64, raw@, replies, states);
}

proof fn dec_is_told_apart(a: nat, b: nat)
    requires
        text::dec(a) == text::dec(b),
    ensures
        a == b,
{
    numerals::dec_stands_for(a);
    numerals::dec_stands_for(b);
}

/// Blocks and entries of a table are cached under names that tell them apart.
pub proof fn cache_names_are_told_apart(
    t: SSTable,
    a: u64,
    b: u64,
    entry_a: String,
    entry_b: String,
    block_a: String,
    block_b: String,
)
    requires
        call_ensures(SSTable::block_cache_key, (&t, a), entry_a),
        call_ensures(SSTable::block_cache_key, (&t, b), entry_b),
        call_ensures(SSTable::snappy_cache_key, (&t, a), block_a),
        call_ensures(SSTable::snappy_cache_key, (&t, b), block_b),
    ensures
        entry_a@ == entry_b@ <==> a == b,
        block_a@ == block_b@ <==> a == b,
        entry_a@ != block_b@,
        t.path@.is_prefix_of(entry_a@),
        t.path@.is_prefix_of(block_a@),
{
    reveal_strlit(":");
    reveal_strlit(":blk:");
    let n = t.path@.len() as int;
    assert(entry_a@.skip(n + 1) =~= text::dec(a as nat));
    assert(entry_b@.skip(n + 1) =~= text::dec(b as nat));
    assert(block_a@.skip(n + 5) =~= text::dec(a as nat));
    assert(block_b@.skip(n + 5) =~= text::dec(b as nat));
    assert(entry_a@.subrange(0, n) =~= t.path@);
    assert(block_a@.subrange(0, n) =~= t.path@);
    if entry_a@ == entry_b@ || block_a@ == block_b@ {
        dec_is_told_apart(a as nat, b as nat);
    }
    numerals::dec_stands_for(a as nat);
    assert(numerals::is_digit(text::dec(a as nat)[0], 10));
    assert(entry_a@[n + 1] == text::dec(a as nat)[0]);
    assert(block_b@[n + 1] == 'b');
}

/// The block that was unpacked last is remembered, and no other.
pub proof fn last_block_is_remembered(
    t: &mut SSTable,
    off: u64,
    raw: Vec<u8>,
    asked: u64,
    r: Option<Vec<u8>>,
)
    requires
        call_ensures(SSTable::remember_block, (t, off, raw), ()),
        call_ensures(SSTable::remembered_block, (&*final(t), asked), r),
    ensures
        r is Some <==> asked == off,
        r matches Some(v) ==> v@ == raw@,
        final(t).index == old(t).index,
        final(t).metadata == old(t).metadata,
{
}

/// An entry passes the tests of its place and its length exactly if all of its frame lies in the file
/// and its length is one of an entry; and the test of its checksum exactly if it is the right one.
pub proof fn whole_frames_are_accepted(
    off: u64,
    size: u32,
    file_size: u64,
    of_header: Result<(), LsmError>,
    of_length: Result<(), LsmError>,
    body: &[u8],
    sum: u32,
    stored: u32,
    of_sum: Result<(), LsmError>,
    t: SSTable,
    known: u64,
)
    requires
        call_ensures(sst_block::check_entry_header, (off, file_size), of_header),
        off + 8 <= file_size ==> call_ensures(
            sst_block::check_entry_length,
            (off, size, file_size),
            of_length,
        ),
        call_ensures(sst_format::checksum_entry, (size, body), sum),
        call_ensures(sst_block::check_entry_checksum, (off, size, body, stored), of_sum),
        call_ensures(SSTable::known_file_size, (&t, file_size), known),
    ensures
        of_header is Ok <==> off + 8 <= file_size,
        of_header is Ok ==> (of_length is Ok <==> 1 <= size <= 104_857_600 && off + 8 + size
            <= file_size),
        of_sum is Ok <==> stored == sum,
        known >= file_size && known >= t.metadata.file_size,
        known == file_size || known == t.metadata.file_size,
{
}

/// All entries are read of a table that is ready and is not to be deleted, one location after the
/// other, and the read ends when each was read.
pub proof fn every_location_is_read_in_turn(
    t: SSTable,
    marked: bool,
    begun: Result<AllEntries, LsmError>,
    all: &mut AllEntries,
    next: Result<Option<(u64, u32)>, LsmError>,
    entry: SSTableEntry,
    taken: Result<(), LsmError>,
)
    requires
        call_ensures(AllEntries::begin, (&t, marked), begun),
        old(all).entries@.len() <= old(all).locs@.len(),
        call_ensures(AllEntries::next_location, (&*old(all), &t, marked), next),
        old(all).entries@.len() < old(all).locs@.len() ==> call_ensures(
            AllEntries::accept,
            (all, &t, Ok::<SSTableEntry, LsmError>(entry)),
            taken,
        ),
    ensures
        begun is Ok <==> t.is_ready && !marked,
        begun matches Ok(a) ==> a.locs@.len() == t.index@.len() && a.entries@.len() == 0,
        old(all).entries@.len() == old(all).locs@.len() ==> next == Ok::<
            Option<(u64, u32)>,
            LsmError,
        >(None),
        old(all).entries@.len() < old(all).locs@.len() ==> {
            let loc = old(all).locs@[old(all).entries@.len() as int];
            &&& next is Ok <==> !marked && loc.1 <= t.metadata.file_size && loc.2 <= 104_857_600 && (
            loc.2 > 0 || t.block_compressed)
            &&& next matches Ok(found) ==> found == Some((loc.1, loc.2))
            &&& taken is Ok
            &&& final(all).entries@ == old(all).entries@.push(entry)
            &&& final(all).locs == old(all).locs
        },
{
    if let Ok(a) = begun {
        assert(crate::sst_query::locs_view(a.locs@).len() == a.locs@.len());
        assert(crate::sst_query::locations(t.recs()).len() == t.recs().len());
    }
}

/// A failed read of an entry fails the read of all, and tells which key it was.
pub proof fn failed_entry_fails_the_read(
    t: SSTable,
    all: &mut AllEntries,
    e: LsmError,
    r: Result<(), LsmError>,
)
    requires
        old(all).entries@.len() < old(all).locs@.len(),
        call_ensures(AllEntries::accept, (all, &t, Err::<SSTableEntry, LsmError>(e)), r),
    ensures
        final(all).entries@ == old(all).entries@,
        r matches Err(LsmError::Internal(m)) && text::contains(
            m@,
            old(all).locs@[old(all).entries@.len() as int].0@,
        ),
{
    if let Err(LsmError::Internal(m)) = r {
        let key = old(all).locs@[old(all).entries@.len() as int].0@;
        let n = "Failed to read key '"@.len() as int;
        assert(m@.subrange(n, n + key.len()) =~= key);
        assert(text::part_at(m@, key, n));
    }
}

/// A table may be deleted exactly when it has no readers: each pin is one, until it is given back.
pub proof fn readers_keep_a_table(
    fresh: TablePins,
    free: bool,
    a: &mut TablePins,
    b: &mut TablePins,
    held: bool,
    count: usize,
)
    requires
        call_ensures(TablePins::new, (), fresh),
        call_ensures(TablePins::can_delete, (&fresh,), free),
        old(a).reader_count < usize::MAX,
        call_ensures(TablePins::pin_reader, (a,), ()),
        call_ensures(TablePins::can_delete, (&*final(a),), held),
        call_ensures(TablePins::reader_count, (&*final(a),), count),
        *old(b) == *final(a),
        call_ensures(TablePins::unpin_reader, (b,), ()),
    ensures
        free,
        !held,
        count == old(a).reader_count + 1,
        *final(b) == *old(a),
        !fresh.marked_for_deletion,
{
}

/// The file of a table is unlinked only when it is marked and has no reader; a marked one with a
/// reader is refused, and one that is not marked is left alone.
pub proof fn only_marked_tables_are_unlinked(
    m: &mut TablePins,
    quoted: &str,
    before: Result<bool, LsmError>,
    after: Result<bool, LsmError>,
    told: bool,
)
    requires
        call_ensures(TablePins::unlink_allowed, (&*old(m), quoted), before),
        call_ensures(TablePins::mark_for_deletion, (m,), ()),
        call_ensures(TablePins::unlink_allowed, (&*final(m), quoted), after),
        call_ensures(TablePins::is_marked_for_deletion, (&*final(m),), told),
    ensures
        told,
        final(m).reader_count == old(m).reader_count,
        !old(m).marked_for_deletion ==> before == Ok::<bool, LsmError>(false),
        after is Ok <==> old(m).reader_count == 0,
        after matches Ok(yes) ==> yes,
{
}

/// Waiting for readers ends well as soon as there is none, and goes on no longer than it may.
pub proof fn waiting_for_readers_ends(
    pins: TablePins,
    elapsed: Duration,
    timeout: Duration,
    r: Option<bool>,
    late: bool,
)
    requires
        call_ensures(TablePins::wait_for_readers, (&pins, elapsed, timeout), r),
        call_ensures(Duration::less_than, (timeout, elapsed), late),
    ensures
        r == Some(true) <==> pins.reader_count == 0,
        r == Some(false) <==> pins.reader_count > 0 && late,
{
}

/// A reader gives its pin back once, however often it is told to; one that another holds is left.
pub proof fn pins_are_given_back_once(
    external: bool,
    guard: ReaderGuard,
    g: &mut ReaderGuard,
    p: &mut TablePins,
    h: &mut ReaderGuard,
    q: &mut TablePins,
)
    requires
        call_ensures(ReaderGuard::new, (external,), guard),
        *old(g) == guard,
        old(p).reader_count > 0,
        call_ensures(ReaderGuard::decrement, (g, p), ()),
        *old(h) == *final(g),
        *old(q) == *final(p),
        call_ensures(ReaderGuard::decrement, (h, q), ()),
    ensures
        final(q).reader_count == final(p).reader_count,
        external ==> final(p).reader_count == old(p).reader_count,
        !external ==> final(p).reader_count == old(p).reader_count - 1,
        final(q).marked_for_deletion == old(p).marked_for_deletion,
{
}

/// A file that is gone already counts as removed; any other failure is told.
pub proof fn missing_file_is_removed(removed: Result<(), LsmError>, r: Result<(), LsmError>)
    requires
        call_ensures(sst_block::unlink_from_disk, (removed,), r),
    ensures
        removed is Ok ==> r is Ok,
        r is Err ==> r == removed,
        removed matches Err(e) ==> (r is Ok <==> (e matches LsmError::Io(io) && io.kind
            == IoErrorKind::NotFound)),
{
}

/// An entry that stands in the file of a table that is ready, with its length before it and its
/// checksum behind it, is read in five steps.
pub proof fn entry_in_a_file_is_read(
    t: SSTable,
    before: Seq<u8>,
    data: &[u8],
    sum: u32,
    after: Seq<u8>,
    file: Seq<u8>,
    first: EntryRead,
    requests: (FileRequest, FileRequest, FileRequest, FileRequest, FileRequest),
    replies: (FileReply, FileReply, FileReply, FileReply, FileReply),
    states: (EntryRead, EntryRead, EntryRead, EntryRead, EntryRead),
)
    requires
        t.is_ready,
        t.metadata.file_size <= file.len() <= i64::MAX,
        t.metadata.index_offset > 0 ==> before.len() < t.metadata.index_offset,
        1 <= data@.len() <= 104_857_600,
        call_ensures(sst_format::checksum_entry, (data@.len() as u32, data), sum),
        file == before + (spec_u32_to_le_bytes(data@.len() as u32) + data@ + spec_u32_to_le_bytes(
            sum,
        )) + after,
        call_ensures(SSTable::begin_entry_read, (&t, false), first),
        call_ensures(EntryRead::request, (&first, before.len() as u64), requests.0),
        requests.0.answered_from(file, replies.0),
        call_ensures(
            SSTable::read_stored_entry,
            (&t, false, before.len() as u64, first, replies.0),
            states.0,
        ),
        call_ensures(EntryRead::request, (&states.0, before.len() as u64), requests.1),
        requests.1.answered_from(file, replies.1),
        call_ensures(
            SSTable::read_stored_entry,
            (&t, false, before.len() as u64, states.0, replies.1),
            states.1,
        ),
        call_ensures(EntryRead::request, (&states.1, before.len() as u64), requests.2),
        requests.2.answered_from(file, replies.2),
        call_ensures(
            SSTable::read_stored_entry,
            (&t, false, before.len() as u64, states.1, replies.2),
            states.2,
        ),
        call_ensures(EntryRead::request, (&states.2, before.len() as u64), requests.3),
        requests.3.answered_from(file, replies.3),
        call_ensures(
            SSTable::read_stored_entry,
            (&t, false, before.len() as u64, states.2, replies.3),
            states.3,
        ),
        call_ensures(EntryRead::request, (&states.3, before.len() as u64), requests.4),
        requests.4.answered_from(file, replies.4),
        call_ensures(
            SSTable::read_stored_entry,
            (&t, false, before.len() as u64, states.3, replies.4),
            states.4,
        ),
    ensures
        states.4 matches EntryRead::Done(Ok(v)) && v@ == data@,
{
    sst_format::framed_round_trip(before, data@, after);
    assert(file == before + sst_format::framed(data@) + after);
    bytes::u32_back(data@.len() as u32);
    bytes::u32_back(sum);
    assert(first is Open);
    sst_entry::framed_entry_is_read(t, file, before.len() as u64, data@, replies, states);
}

/// A table that is not ready, or is to be deleted, is not read; and an entry whose checksum is wrong
/// is not given.
pub proof fn wrong_entries_are_not_given(
    t: SSTable,
    marked: bool,
    first: EntryRead,
    off: u64,
    file_size: u64,
    body: Vec<u8>,
    data: &[u8],
    stored: Vec<u8>,
    sum: u32,
    next: EntryRead,
)
    requires
        call_ensures(SSTable::begin_entry_read, (&t, marked), first),
        data@ == body@,
        call_ensures(sst_format::checksum_entry, (body@.len() as u32, data), sum),
        call_ensures(
            SSTable::read_stored_entry,
            (
                &t,
                marked,
                off,
                EntryRead::Checksum { file_size, entry_size: body@.len() as u32, body },
                FileReply::Data(stored),
            ),
            next,
        ),
    ensures
        first is Open <==> t.is_ready && !marked,
        !(first is Open) ==> (first matches EntryRead::Done(Err(_))),
        (next matches EntryRead::Done(Ok(_))) <==> spec_u32_from_le_bytes(stored@) == sum,
        next matches EntryRead::Done(Ok(v)) ==> v@ == body@,
{
}

/// An entry is taken from a block at its place in it, whether the block was remembered, cached or
/// read; and the block is then remembered.
pub proof fn entry_is_taken_from_its_block(
    t: SSTable,
    marked: bool,
    off: u64,
    loc: u32,
    block: Vec<u8>,
    buf: &[u8],
    parsed: Result<Vec<u8>, LsmError>,
    remembered: EntryFetch,
    a: &mut SSTable,
    of_cache: EntryFetch,
    b: &mut SSTable,
    of_store: EntryFetch,
)
    requires
        t.block_compressed,
        t.decompressed_block == Some((off, block)),
        buf@ == block@,
        call_ensures(sst_format::parse_framed_entry, (buf, loc as usize), parsed),
        call_ensures(SSTable::begin_fetch, (&t, marked, off, loc, true), remembered),
        call_ensures(
            SSTable::try_read_entry,
            (
                a,
                marked,
                off,
                loc,
                true,
                EntryFetch::CachedBlock,
                FetchReply::Cached(Some(block)),
            ),
            of_cache,
        ),
        call_ensures(
            SSTable::try_read_entry,
            (b, marked, off, loc, true, EntryFetch::StoreBlock(block), FetchReply::Stored),
            of_store,
        ),
    ensures
        parsed matches Ok(data) ==> (remembered matches EntryFetch::Decode { data: d, store } && d@
            == data@ && !store) && (of_cache matches EntryFetch::Decode { data: d, store } && d@
            == data@ && !store) && (of_store matches EntryFetch::Decode { data: d, store } && d@
            == data@ && !store),
        parsed is Err ==> (remembered matches EntryFetch::Done(Err(_))) && (of_cache
            matches EntryFetch::Done(Err(_))) && (of_store matches EntryFetch::Done(Err(_))),
        final(a).decompressed_block matches Some((o, kept)) && o == off && kept@ == block@,
        final(b).decompressed_block matches Some((o, kept)) && o == off && kept@ == block@,
{
}

/// A cached entry is decoded, and one that cannot be decoded is read from the file instead; an entry
/// that is read for the cache is stored there before it is given.
pub proof fn cached_entries_are_decoded(
    t: &mut SSTable,
    marked: bool,
    off: u64,
    loc: u32,
    data: Vec<u8>,
    entry: SSTableEntry,
    e: LsmError,
    start: EntryFetch,
    hit: EntryFetch,
    u: &mut SSTable,
    good: EntryFetch,
    v: &mut SSTable,
    bad: EntryFetch,
    w: &mut SSTable,
    stored: EntryFetch,
    x: &mut SSTable,
    given: EntryFetch,
    store: bool,
)
    requires
        !old(t).block_compressed,
        old(t).is_ready,
        !marked,
        call_ensures(SSTable::begin_fetch, (&*old(t), marked, off, loc, true), start),
        call_ensures(
            SSTable::try_read_entry,
            (t, marked, off, loc, true, EntryFetch::CachedEntry, FetchReply::Cached(Some(data))),
            hit,
        ),
        call_ensures(
            SSTable::try_read_entry,
            (u, marked, off, loc, true, hit, FetchReply::Decoded(Ok(entry))),
            good,
        ),
        *old(v) == *old(t),
        call_ensures(
            SSTable::try_read_entry,
            (v, marked, off, loc, true, hit, FetchReply::Decoded(Err(e))),
            bad,
        ),
        call_ensures(
            SSTable::try_read_entry,
            (
                w,
                marked,
                off,
                loc,
                true,
                EntryFetch::Decode { data, store },
                FetchReply::Decoded(Ok(entry)),
            ),
            stored,
        ),
        call_ensures(
            SSTable::try_read_entry,
            (x, marked, off, loc, true, stored, FetchReply::Stored),
            given,
        ),
    ensures
        start == EntryFetch::CachedEntry,
        hit == EntryFetch::DecodeCached(data),
        good == EntryFetch::Done(Ok(entry)),
        bad == EntryFetch::Entry(EntryRead::Open),
        store ==> stored == EntryFetch::StoreEntry(entry),
        !store ==> stored == EntryFetch::Done(Ok(entry)),
        given == EntryFetch::Done(Ok(entry)),
{
}

/// A table is known to hold blocks exactly by the first four bytes of its file.
pub proof fn blocks_are_known_by_the_magic(t: &mut SSTable, reply: FileReply, next: MetadataRead)
    requires
        call_ensures(SSTable::try_read_metadata, (t, MetadataRead::Magic, reply), next),
    ensures
        next is Size,
        final(t).block_compressed <==> (reply matches FileReply::Data(d) && d@ == seq![
            0x46u8,
            0x34u8,
            0x53u8,
            0x43u8,
        ]),
        final(t).metadata == old(t).metadata,
        final(t).index == old(t).index,
{
}

/// Metadata is accepted exactly if its checksum is the one that is stored with it, and looked for
/// from the end of the file on.
pub proof fn checked_metadata_is_accepted(
    t: &mut SSTable,
    off: u64,
    size: u64,
    stored: u32,
    body: Vec<u8>,
    data: &[u8],
    sum: u32,
    next: MetadataRead,
    u: &mut SSTable,
    len: u64,
    window: MetadataRead,
)
    requires
        data@ == body@,
        sum == crate::checksum::crc32_of(data@),
        call_ensures(
            SSTable::try_read_metadata,
            (t, MetadataRead::Body { offset: off, size, stored }, FileReply::Data(body)),
            next,
        ),
        call_ensures(
            SSTable::try_read_metadata,
            (u, MetadataRead::Size, FileReply::Size(len)),
            window,
        ),
    ensures
        next == MetadataRead::Done(Ok(())) <==> sum == stored,
        sum != stored ==> (next matches MetadataRead::Done(Err(e)) && e is Corruption) && *final(t)
            == *old(t),
        final(t).metadata == old(t).metadata,
        len == 0 ==> (window matches MetadataRead::Done(Err(e)) && e is Corruption),
        len > 0 ==> (window matches MetadataRead::Window { pos, len: n } && pos + n == len && (n
            == 2048 || pos == 0) && n <= 2048),
{
}

/// The metadata that stands at the end of a file, with its checksum behind it, becomes that of the
/// table, if nothing behind its start reads as metadata.
pub proof fn metadata_at_the_end_is_found(
    t: &mut SSTable,
    body: Seq<u8>,
    m: sst_metadata::MetadataView,
    file: Seq<u8>,
    i: int,
    reply: FileReply,
    next: MetadataRead,
)
    requires
        file.len() <= 2048,
        encode_utf8(m.smallest_key).len() <= u64::MAX,
        encode_utf8(m.largest_key).len() <= u64::MAX,
        file == body + crate::sstable::checked(sst_metadata::metadata_bytes(m)),
        i == body.len(),
        forall|j: int|
            i < j && j + 4 < file.len() ==> #[trigger] sst_metadata::metadata_in_window(
                file,
                j,
            ) is None,
        reply matches FileReply::Data(d) && d@ == file,
        call_ensures(
            SSTable::try_read_metadata,
            (t, MetadataRead::Window { pos: 0, len: file.len() as u64 }, reply),
            next,
        ),
    ensures
        final(t).metadata@ == m,
        next matches MetadataRead::Checksum { offset, size } && offset == i && offset + size + 4
            == file.len(),
        final(t).index == old(t).index,
{
    let mb = sst_metadata::metadata_bytes(m);
    assert(spec_u32_to_le_bytes(crate::checksum::crc32_of(mb)).len() == 4) by {
        bytes::u32_back(crate::checksum::crc32_of(mb));
    }
    sst_open::metadata_read_back(body, m, i);
    if let FileReply::Data(d) = reply {
        assert(sst_metadata::last_metadata(d@, i));
        let k = choose|k: int| sst_metadata::last_metadata(d@, k);
        if k < i {
            assert(sst_metadata::metadata_in_window(d@, i) is None);
        } else if i < k {
            assert(sst_metadata::metadata_in_window(d@, k) is None);
        }
    }
}

/// The index of a table is loaded once: a table that has it does not read it again.
pub proof fn loaded_index_is_kept(
    t: SSTable,
    first: IndexLoad,
    u: &mut SSTable,
    next: IndexLoad,
    bytes_read: Vec<u8>,
    data: &[u8],
    sum: u32,
    stored: Vec<u8>,
    end: u64,
    v: &mut SSTable,
    last: IndexLoad,
)
    requires
        call_ensures(SSTable::begin_index_load, (&t,), first),
        call_ensures(SSTable::ensure_index_loaded, (u, IndexLoad::Open, FileReply::Opened), next),
        data@ == bytes_read@,
        sum == crate::checksum::crc32_of(data@),
        call_ensures(
            SSTable::ensure_index_loaded,
            (v, IndexLoad::Checksum { end, bytes: bytes_read }, FileReply::Data(stored)),
            last,
        ),
    ensures
        t.index_loaded ==> first == IndexLoad::Done(Ok(())),
        !t.index_loaded ==> first == IndexLoad::Open,
        *final(u) == *old(u),
        old(u).index_loaded ==> next == IndexLoad::Done(Ok(())),
        !old(u).index_loaded && old(u).metadata.index_size == 0 ==> (next matches IndexLoad::Done(
            Err(e),
        ) && e is Corruption),
        !old(u).index_loaded && old(u).metadata.index_size > 0 ==> next == (IndexLoad::Bytes {
            offset: old(u).metadata.index_offset,
            size: old(u).metadata.index_size,
        }),
        spec_u32_from_le_bytes(stored@) != sum ==> (last matches IndexLoad::Done(Err(e))
            && e is Corruption) && *final(v) == *old(v),
        last matches IndexLoad::Done(Ok(_)) ==> final(v).index_loaded && final(v).index.offsets().len() == old(v).metadata.entry_count,
{
}

/// A key that the index does not know is nowhere; one that it knows is read where it tells, if that
/// is a place in the data of the table.
pub proof fn index_tells_where_to_read(
    t: SSTable,
    key: &str,
    known: Option<(u64, u32)>,
    r: Result<Option<(u64, u32)>, LsmError>,
    s: Option<(u64, u32)>,
)
    requires
        call_ensures(FlatIndex::get, (&t.index, key), known),
        call_ensures(SSTable::locate, (&t, key), r),
        call_ensures(SSTable::locate_sync, (&t, key), s),
    ensures
        known is None ==> r == Ok::<Option<(u64, u32)>, LsmError>(None) && s is None,
        s is Some ==> s == known,
        known matches Some((off, size)) ==> {
            let inside = off < t.metadata.index_offset && size <= 104_857_600 && (
            t.block_compressed || size > 0);
            &&& s is Some <==> inside
            &&& r == Ok::<Option<(u64, u32)>, LsmError>(known) <==> inside && off
                <= t.metadata.file_size
            &&& r is Ok ==> r == Ok::<Option<(u64, u32)>, LsmError>(known)
        },
{
}

/// Reading is tried again, at most as often as is configured, and never after what is lasting; the
/// wait doubles from try to try where the failure may pass by itself, and stays the same otherwise.
pub proof fn tries_wait_longer_and_longer(
    t: SSTable,
    n: u32,
    e: LsmError,
    now: RetryDecision,
    next: RetryDecision,
)
    requires
        1 <= n < u32::MAX,
        call_ensures(SSTable::retry_after, (&t, n, &e), now),
        call_ensures(SSTable::retry_after, (&t, (n + 1) as u32, &e), next),
    ensures
        now is GiveUp <==> e is Corruption || e is Serialization || n >= t.config.file_retry_attempts,
        now is GiveUp ==> next is GiveUp,
        now matches RetryDecision::Wait { base_ms, times } ==> base_ms == t.config.retry_delay_ms / 2
            && 1 <= times <= 32 && (n == 1 ==> times == 1),
        now is Wait && next is Wait && (e matches LsmError::Io(io) && io.kind
            == IoErrorKind::UnexpectedEof) ==> next->times == (if n <= 5 {
            2 * now->times
        } else {
            32
        }),
        now is Wait && next is Wait ==> next->times == now->times || next->times == 2 * now->times,
        now is Wait && !(e is Io) && !(e is Internal) ==> now->times == 1,
{
}

/// A deleted entry is told as such and has no value; any other gives its own.
pub proof fn entry_is_told_as_it_is(
    entry: SSTableEntry,
    found: SstableLookupResult,
    value: Option<Value>,
    missing: Option<Value>,
)
    requires
        call_ensures(SstableLookupResult::of_entry, (entry,), found),
        call_ensures(SstableLookupResult::into_value, (found,), value),
        call_ensures(SstableLookupResult::into_value, (SstableLookupResult::Missing,), missing),
    ensures
        value is None <==> entry.deleted,
        value matches Some(v) ==> v == entry.value,
        entry.deleted ==> (found matches SstableLookupResult::Tombstone { timestamp } && timestamp
            == entry.timestamp),
        !entry.deleted ==> (found matches SstableLookupResult::Found { timestamp, .. } && timestamp
            == entry.timestamp),
        missing is None,
{
}

/// A table file that is not open is opened where that is allowed, and refused otherwise.
pub proof fn closed_table_is_opened_or_refused(
    t: SSTable,
    is_open: bool,
    r: Result<bool, LsmError>,
)
    requires
        call_ensures(SSTable::ensure_file_open, (&t, is_open), r),
    ensures
        r is Ok <==> is_open || t.config.enable_resilient_handling,
        r matches Ok(open_it) ==> open_it == !is_open,
{
}

/// A key is looked up only in a table that is ready; one outside of the keys of the table is missing
/// without a look at its index.
pub proof fn key_outside_the_table_is_missing(
    a: &mut SSTable,
    b: &mut SSTable,
    key: &str,
    now: u64,
    may: bool,
    r: Lookup,
    s: Lookup,
)
    requires
        *old(b) == *old(a),
        call_ensures(SSTable::key_may_exist, (&*old(a), key), may),
        call_ensures(SSTable::begin_lookup, (a, key, now), r),
        call_ensures(SSTable::begin_lookup_sync, (b, key, now), s),
    ensures
        !old(a).is_ready ==> !may && (r matches Lookup::Done(Err(_))) && (s matches Lookup::Done(
            Err(_),
        )) && *final(a) == *old(a),
        old(a).is_ready && bytes::bytes_lt(
            encode_utf8(key@),
            encode_utf8(old(a).metadata.smallest_key@),
        ) ==> !may,
        old(a).is_ready && bytes::bytes_lt(
            encode_utf8(old(a).metadata.largest_key@),
            encode_utf8(key@),
        ) ==> !may,
        old(a).is_ready && old(a).bloom_filter is None && !bytes::bytes_lt(
            encode_utf8(key@),
            encode_utf8(old(a).metadata.smallest_key@),
        ) && !bytes::bytes_lt(
            encode_utf8(old(a).metadata.largest_key@),
            encode_utf8(key@),
        ) ==> may,
        old(a).is_ready && !may ==> r == Lookup::Done(Ok(SstableLookupResult::Missing)) && s == r,
        old(a).is_ready && may ==> r == Lookup::LoadIndex && s == r && final(a).last_access == now,
        final(b).index == old(b).index,
        final(a).index == old(a).index,
{
}

/// A filter rules a key out of the table exactly as it rules it out by itself.
pub proof fn filter_rules_keys_out(
    t: SSTable,
    f: BloomFilter,
    key: &str,
    may: bool,
    held: bool,
)
    requires
        t.is_ready,
        t.bloom_filter == Some(f),
        call_ensures(SSTable::key_may_exist, (&t, key), may),
        call_ensures(BloomFilter::might_contain, (&f, key), held),
    ensures
        may ==> held,
        held && !bytes::bytes_lt(encode_utf8(key@), encode_utf8(t.metadata.smallest_key@))
            && !bytes::bytes_lt(encode_utf8(t.metadata.largest_key@), encode_utf8(key@)) ==> may,
{
}

/// What a lookup gives of an entry is what the entry is; a read that fails is tried again as long as
/// that is decided, at the same place.
pub proof fn lookup_tells_of_the_entry(
    t: SSTable,
    key: &str,
    off: u64,
    loc: u32,
    n: u32,
    entry: SSTableEntry,
    told: SstableLookupResult,
    e: LsmError,
    found: Lookup,
    found_sync: Lookup,
    again: RetryDecision,
    failed: Lookup,
    failed_sync: Lookup,
)
    requires
        n < u32::MAX,
        call_ensures(SstableLookupResult::of_entry, (entry,), told),
        call_ensures(
            SSTable::lookup_with_reader_guard,
            (&t, key, Lookup::Read { offset: off, loc, attempts: n }, LookupReply::Entry(entry)),
            found,
        ),
        call_ensures(
            SSTable::lookup_sync,
            (&t, key, Lookup::Read { offset: off, loc, attempts: n }, LookupReply::Entry(entry)),
            found_sync,
        ),
        call_ensures(SSTable::retry_after, (&t, (n + 1) as u32, &e), again),
        call_ensures(
            SSTable::lookup_with_reader_guard,
            (&t, key, Lookup::Read { offset: off, loc, attempts: n }, LookupReply::Failed(e)),
            failed,
        ),
        call_ensures(
            SSTable::lookup_sync,
            (&t, key, Lookup::Read { offset: off, loc, attempts: n }, LookupReply::Failed(e)),
            failed_sync,
        ),
    ensures
        found == Lookup::Done(Ok(told)),
        found_sync == found,
        failed_sync == Lookup::Done(Err(e)),
        again is GiveUp ==> failed == Lookup::Done(Err(e)),
        again matches RetryDecision::Wait { base_ms, times } ==> failed == (Lookup::Wait {
            offset: off,
            loc,
            attempts: (n + 1) as u32,
            base_ms,
            times,
        }),
{
}

/// Once the index is there, a lookup reads where the index tells, and misses what it does not know.
pub proof fn lookup_goes_by_the_index(
    t: SSTable,
    key: &str,
    at: Result<Option<(u64, u32)>, LsmError>,
    at_sync: Option<(u64, u32)>,
    r: Lookup,
    s: Lookup,
    off: u64,
    loc: u32,
    n: u32,
    ms: u64,
    times: u32,
    waited: Lookup,
)
    requires
        call_ensures(SSTable::locate, (&t, key), at),
        call_ensures(SSTable::locate_sync, (&t, key), at_sync),
        call_ensures(
            SSTable::lookup_with_reader_guard,
            (&t, key, Lookup::LoadIndex, LookupReply::Indexed),
            r,
        ),
        call_ensures(SSTable::lookup_sync, (&t, key, Lookup::LoadIndex, LookupReply::Indexed), s),
        call_ensures(
            SSTable::lookup_with_reader_guard,
            (
                &t,
                key,
                Lookup::Wait { offset: off, loc, attempts: n, base_ms: ms, times },
                LookupReply::Waited,
            ),
            waited,
        ),
    ensures
        at matches Ok(Some((o, l))) ==> r == (Lookup::Read { offset: o, loc: l, attempts: 0 }),
        at matches Ok(None) ==> r == Lookup::Done(Ok(SstableLookupResult::Missing)),
        at is Err ==> (r matches Lookup::Done(Err(_))),
        at_sync matches Some((o, l)) ==> s == (Lookup::Read { offset: o, loc: l, attempts: 0 }),
        at_sync is None ==> s == Lookup::Done(Ok(SstableLookupResult::Missing)),
        waited == (Lookup::Read { offset: off, loc, attempts: n }),
{
}

/// A new table is empty and is not ready until it is marked so; opening it is needed until then.
pub proof fn new_table_is_not_ready(
    path: String,
    quoted: String,
    config: SstableConfig,
    level: usize,
    created: u64,
    made: Result<SSTable, LsmError>,
    ready: bool,
    keys: usize,
    size: u64,
    shown: &str,
    a: &mut SSTable,
    now: u64,
    needed: bool,
    b: &mut SSTable,
    c: &mut SSTable,
    later: u64,
    needed_again: bool,
)
    requires
        call_ensures(SSTable::new, (path, quoted, config, level, created), made),
        made matches Ok(t) ==> *old(a) == t && call_ensures(SSTable::is_ready, (&t,), ready)
            && call_ensures(SSTable::index_size, (&t,), keys) && call_ensures(
            SSTable::size,
            (&t,),
            size,
        ) && call_ensures(SSTable::path, (&t,), shown),
        call_ensures(SSTable::begin_open, (a, now), needed),
        *old(b) == *final(a),
        call_ensures(SSTable::mark_ready, (b,), ()),
        *old(c) == *final(b),
        call_ensures(SSTable::begin_open, (c, later), needed_again),
    ensures
        made is Ok,
        !ready,
        keys == 0,
        size == 0,
        shown@ == path@,
        needed,
        !needed_again,
        final(b).is_ready,
        final(a).last_access == now,
        final(c).last_access == later,
        final(c).metadata.level == level,
        final(c).metadata.created_at == created,
        final(c).metadata.entry_count == 0,
{
}

/// A written table knows its entries: their number, and the first and the last key of them.
pub proof fn written_table_knows_its_entries(
    t: &mut SSTable,
    entries: Vec<TableEntry>,
    r: Result<Option<Vec<u8>>, LsmError>,
    size: u64,
)
    requires
        call_ensures(SSTable::write_entries, (t, &entries), r),
        call_ensures(SSTable::size, (&*final(t),), size),
    ensures
        entries@.len() == 0 ==> r == Ok::<Option<Vec<u8>>, LsmError>(None) && *final(t) == *old(t),
        entries@.len() > 0 && entries@.len() <= usize::MAX && r is Ok ==> {
            &&& r->Ok_0 is Some
            &&& final(t).metadata.entry_count == entries@.len()
            &&& final(t).metadata.smallest_key@ == entries@[0].key@
            &&& final(t).metadata.largest_key@ == entries@.last().key@
            &&& final(t).metadata.level == old(t).metadata.level
            &&& final(t).metadata.created_at == old(t).metadata.created_at
            &&& final(t).index_loaded
            &&& final(t).block_compressed
            &&& final(t).bloom_filter is Some
            &&& final(t).path == old(t).path
            &&& final(t).metadata.index_offset == size
        },
{
    let views = crate::sst_writer::entries_view(entries@);
    assert(views.len() == entries@.len());
    if entries@.len() > 0 {
        assert(views.first().0 == entries@[0].key@);
        assert(views.last().0 == entries@.last().key@);
    }
}

/// A copy of a table answers as the table does.
pub proof fn copied_table_answers_alike(
    t: SSTable,
    copy: SSTable,
    key: &str,
    may: bool,
    may_too: bool,
    at: Result<Option<(u64, u32)>, LsmError>,
    at_too: Result<Option<(u64, u32)>, LsmError>,
    n: usize,
    n_too: usize,
    m: &SSTableMetadata,
    m_too: &SSTableMetadata,
)
    requires
        call_ensures(SSTable::clone_for_testing, (&t,), copy),
        call_ensures(SSTable::key_may_exist, (&t, key), may),
        call_ensures(SSTable::key_may_exist, (&copy, key), may_too),
        call_ensures(SSTable::locate, (&t, key), at),
        call_ensures(SSTable::locate, (&copy, key), at_too),
        call_ensures(SSTable::index_size, (&t,), n),
        call_ensures(SSTable::index_size, (&copy,), n_too),
        call_ensures(SSTable::metadata, (&t,), m),
        call_ensures(SSTable::metadata, (&copy,), m_too),
    ensures
        may == may_too,
        at is Ok <==> at_too is Ok,
        at is Ok ==> at == at_too,
        n == n_too,
        m@ == m_too@,
        copy.path@ == t.path@,
        copy.is_ready == t.is_ready,
        copy.decompressed_block is None,
{
    assert(copy.metadata@.index_offset == t.metadata@.index_offset);
    assert(copy.metadata@.file_size == t.metadata@.file_size);
    assert(copy.metadata@.smallest_key == t.metadata@.smallest_key);
    assert(copy.metadata@.largest_key == t.metadata@.largest_key);
}

/// The metadata that was found is tested against the checksum that stands behind it, and accepted
/// where it is that of its bytes.
pub proof fn metadata_is_tested_where_it_stands(
    t: &mut SSTable,
    u: &mut SSTable,
    file: Seq<u8>,
    off: u64,
    size: u64,
    requests: (FileRequest, FileRequest),
    replies: (FileReply, FileReply),
    states: (MetadataRead, MetadataRead),
)
    requires
        off + size + 4 <= file.len() <= i64::MAX,
        file.subrange(off + size, off + size + 4) == spec_u32_to_le_bytes(
            crate::checksum::crc32_of(file.subrange(off as int, off + size)),
        ),
        call_ensures(
            MetadataRead::request,
            (&MetadataRead::Checksum { offset: off, size },),
            requests.0,
        ),
        requests.0.answered_from(file, replies.0),
        call_ensures(
            SSTable::try_read_metadata,
            (t, MetadataRead::Checksum { offset: off, size }, replies.0),
            states.0,
        ),
        call_ensures(MetadataRead::request, (&states.0,), requests.1),
        requests.1.answered_from(file, replies.1),
        *old(u) == *final(t),
        call_ensures(SSTable::try_read_metadata, (u, states.0, replies.1), states.1),
    ensures
        states.1 == MetadataRead::Done(Ok(())),
        final(u).metadata == old(t).metadata,
{
    bytes::u32_back(crate::checksum::crc32_of(file.subrange(off as int, off + size)));
}

/// The metadata that is found in a window is the one that stands nearest to its end.
pub proof fn nearest_metadata_is_found(
    window: &[u8],
    body: Seq<u8>,
    m: sst_metadata::MetadataView,
    sum: Seq<u8>,
    r: Option<(usize, SSTableMetadata)>,
)
    requires
        encode_utf8(m.smallest_key).len() <= u64::MAX,
        encode_utf8(m.largest_key).len() <= u64::MAX,
        sum.len() == 4,
        window@ == body + sst_metadata::metadata_bytes(m) + sum,
        call_ensures(sst_metadata::find_metadata, (window,), r),
    ensures
        r matches Some((i, found)) && i >= body.len() && (i == body.len() ==> found@ == m),
{
    let mb = sst_metadata::metadata_bytes(m);
    let i = body.len() as int;
    sst_metadata::metadata_round_trip(m, Seq::empty());
    assert(mb + Seq::<u8>::empty() =~= mb);
    assert(window@.subrange(i, window@.len() - 4) =~= mb);
    assert(sst_metadata::metadata_in_window(window@, i) == Some(m));
    bytes::u64_back(m.entry_count as u64);
    assert(mb.len() > 0);
}

/// Loading an index asks for its bytes, and then for the checksum behind them.
pub proof fn index_is_asked_for_in_parts(
    off: u64,
    size: u64,
    bytes_read: Vec<u8>,
    end: u64,
    first: FileRequest,
    second: FileRequest,
    third: FileRequest,
    t: &mut SSTable,
    next: IndexLoad,
)
    requires
        off + size <= u64::MAX,
        call_ensures(IndexLoad::request, (&IndexLoad::Open,), first),
        call_ensures(IndexLoad::request, (&IndexLoad::Bytes { offset: off, size },), second),
        call_ensures(IndexLoad::request, (&IndexLoad::Checksum { end, bytes: bytes_read },), third),
        call_ensures(
            SSTable::ensure_index_loaded,
            (t, IndexLoad::Bytes { offset: off, size }, FileReply::Data(bytes_read)),
            next,
        ),
    ensures
        first == FileRequest::Open,
        second == (FileRequest::Read { offset: off, len: size }),
        third == (FileRequest::Read { offset: end, len: 4 }),
        next matches IndexLoad::Checksum { end: e, bytes: b } && e == off + size && b@
            == bytes_read@,
        *final(t) == *old(t),
{
}

/// One step of fetching an entry of a table without blocks, of a file that does not change.
pub open spec fn fetch_step_read(
    t: SSTable,
    file: Seq<u8>,
    off: u64,
    loc: u32,
    st: EntryFetch,
    request: FileRequest,
    reply: FileReply,
    next: EntryFetch,
) -> bool {
    &&& st matches EntryFetch::EntrySync(read) && call_ensures(
        SyncEntryRead::request,
        (&read, off),
        request,
    )
    &&& request.answered_from(file, reply)
    &&& sst_fetch::fetch_step(t, t, false, off, loc, false, st, FetchReply::File(reply), next)
}

/// An entry that stands in the file of a table without blocks is fetched, after its size, its length
/// and its checksum were tested.
pub proof fn entry_in_a_file_is_fetched(
    t: SSTable,
    before: Seq<u8>,
    data: &[u8],
    sum: u32,
    after: Seq<u8>,
    file: Seq<u8>,
    loc: u32,
    requests: (FileRequest, FileRequest, FileRequest, FileRequest),
    replies: (FileReply, FileReply, FileReply, FileReply),
    states: (EntryFetch, EntryFetch, EntryFetch, EntryFetch, EntryFetch),
)
    requires
        !t.block_compressed,
        file.len() <= i64::MAX,
        1 <= data@.len() <= 104_857_600,
        call_ensures(sst_format::checksum_entry, (data@.len() as u32, data), sum),
        file == before + (spec_u32_to_le_bytes(data@.len() as u32) + data@ + spec_u32_to_le_bytes(
            sum,
        )) + after,
        sst_fetch::fetch_step(
            t,
            t,
            false,
            before.len() as u64,
            loc,
            false,
            EntryFetch::OpenFirst,
            FetchReply::File(FileReply::Opened),
            states.0,
        ),
        fetch_step_read(
            t,
            file,
            before.len() as u64,
            loc,
            states.0,
            requests.0,
            replies.0,
            states.1,
        ),
        fetch_step_read(
            t,
            file,
            before.len() as u64,
            loc,
            states.1,
            requests.1,
            replies.1,
            states.2,
        ),
        fetch_step_read(
            t,
            file,
            before.len() as u64,
            loc,
            states.2,
            requests.2,
            replies.2,
            states.3,
        ),
        fetch_step_read(
            t,
            file,
            before.len() as u64,
            loc,
            states.3,
            requests.3,
            replies.3,
            states.4,
        ),
    ensures
        states.4 matches EntryFetch::Decode { data: d, store } && d@ == data@ && !store,
{
    let off = before.len() as u64;
    let n = data@.len() as u32;
    bytes::u32_back(n);
    bytes::u32_back(sum);
    assert(file.subrange(off as int, off + 4) =~= spec_u32_to_le_bytes(n));
    assert(file.subrange(off + 4, off + 4 + n) =~= data@);
    assert(file.subrange(off + 4 + n, off + 8 + n) =~= spec_u32_to_le_bytes(sum));
    assert(states.0 == EntryFetch::EntrySync(SyncEntryRead::Size));
    assert(states.1 matches EntryFetch::EntrySync(SyncEntryRead::Length { .. }));
    assert(states.2 == EntryFetch::EntrySync(SyncEntryRead::Body { entry_size: n }));
    assert(states.3 matches EntryFetch::EntrySync(SyncEntryRead::Checksum { entry_size, body })
        && entry_size == n && body@ == data@);
}

} // verus!
