//! What the operations on files, indexes, page maps and spans of time come to, taken together.

use crate::bytes;
use crate::duration::Duration;
use crate::engine_config::SstableReadMode;
use crate::error::LsmError;
use crate::file_reader::{self, ReadExact, SstableFileReader};
use crate::flat_index::{self, FlatIndex};
use crate::lsm_utils;
use crate::page_map::{self, PageMap, PageScan};
use crate::snappy;
use vstd::prelude::*;
use vstd::utf8::encode_utf8;

verus! {

/// Each key of an index that was built of ascending keys is found with its place, and each place by
/// its number; a key that is none of them is not found.
pub proof fn indexed_keys_are_found(
    pairs: Vec<(String, u64, u32)>,
    idx: FlatIndex,
    i: usize,
    key: &str,
    r: Option<(u64, u32)>,
    n: usize,
    at: Option<(&[u8], (u64, u32))>,
)
    requires
        call_ensures(FlatIndex::from_sorted, (pairs,), idx),
        forall|a: int, b: int|
            0 <= a < b < pairs@.len() ==> bytes::bytes_lt(
                encode_utf8((#[trigger] pairs@[a]).0@),
                encode_utf8((#[trigger] pairs@[b]).0@),
            ),
        flat_index::records_bytes(flat_index::pairs_records(pairs@)).len() <= u32::MAX,
        call_ensures(FlatIndex::get, (&idx, key), r),
        call_ensures(FlatIndex::len, (&idx,), n),
        call_ensures(FlatIndex::at, (&idx, i), at),
    ensures
        n == pairs@.len(),
        i < n && key@ == pairs@[i as int].0@ ==> r == Some((pairs@[i as int].1, pairs@[i as int].2)),
        r is Some ==> exists|j: int|
            0 <= j < pairs@.len() && encode_utf8((#[trigger] pairs@[j]).0@) == encode_utf8(key@)
                && r == Some((pairs@[j].1, pairs@[j].2)),
        at is Some <==> i < n,
        at matches Some((k, loc)) ==> k@ == encode_utf8(pairs@[i as int].0@) && loc == (
            pairs@[i as int].1,
            pairs@[i as int].2,
        ),
{
    let recs = flat_index::pairs_records(pairs@);
    assert(recs.len() == pairs@.len());
    assert forall|a: int, b: int| 0 <= a < b < recs.len() implies bytes::bytes_lt(
        #[trigger] recs[a].0,
        #[trigger] recs[b].0,
    ) by {
        assert(recs[a].0 == encode_utf8(pairs@[a].0@));
        assert(recs[b].0 == encode_utf8(pairs@[b].0@));
    }
    if i < n {
        crate::sst_read::record_is_found(recs, i as int);
        assert(recs[i as int] == (
            encode_utf8(pairs@[i as int].0@),
            pairs@[i as int].1,
            pairs@[i as int].2,
        ));
    }
    if let Some(loc) = r {
        let rec = (encode_utf8(key@), loc.0, loc.1);
        assert(idx@.contains(rec));
        let j = choose|j: int| 0 <= j < recs.len() && recs[j] == rec;
        assert(encode_utf8(pairs@[j].0@) == encode_utf8(key@));
    }
}

/// An index tells apart the keys below a key and the others.
pub proof fn partition_tells_smaller_keys(idx: FlatIndex, key: &[u8], r: usize)
    requires
        forall|a: int, b: int|
            0 <= a < b < idx@.len() ==> bytes::bytes_lt(
                (#[trigger] idx@[a]).0,
                (#[trigger] idx@[b]).0,
            ),
        call_ensures(FlatIndex::partition_point, (&idx, key), r),
    ensures
        r <= idx@.len(),
        forall|i: int|
            0 <= i < idx@.len() ==> (i < r <==> bytes::bytes_lt((#[trigger] idx@[i]).0, key@)),
{
    assert(flat_index::keys_ascend(idx@));
    flat_index::ascending_is_in_order(idx@);
}

/// An index that was stored answers as it did before.
pub proof fn stored_index_answers_alike(
    idx: FlatIndex,
    stored: Vec<u8>,
    data: &[u8],
    back: Result<FlatIndex, LsmError>,
    key: &str,
    before: Option<(u64, u32)>,
    after: Option<(u64, u32)>,
    n: usize,
    m: usize,
    again: Vec<u8>,
)
    requires
        idx.offsets().len() <= u32::MAX,
        call_ensures(FlatIndex::encode, (&idx,), stored),
        data@ == stored@,
        call_ensures(FlatIndex::decode, (data,), back),
        call_ensures(FlatIndex::get, (&idx, key), before),
        call_ensures(FlatIndex::len, (&idx,), n),
        back matches Ok(b) ==> call_ensures(FlatIndex::get, (&b, key), after) && call_ensures(
            FlatIndex::len,
            (&b,),
            m,
        ) && call_ensures(FlatIndex::encode, (&b,), again),
    ensures
        back is Ok,
        after == before,
        m == n,
        again@ == stored@,
{
    flat_index::index_round_trip(idx.offsets(), idx.data());
    if let Ok(b) = back {
        flat_index::decoded_index_answers_alike(idx, b, encode_utf8(key@));
    }
}

/// An index without keys finds none.
pub proof fn empty_index_finds_nothing(
    idx: FlatIndex,
    key: &str,
    r: Option<(u64, u32)>,
    n: usize,
    none: bool,
)
    requires
        call_ensures(FlatIndex::empty, (), idx),
        call_ensures(FlatIndex::get, (&idx, key), r),
        call_ensures(FlatIndex::len, (&idx,), n),
        call_ensures(FlatIndex::is_empty, (&idx,), none),
    ensures
        r is None,
        n == 0,
        none,
{
}

/// Pages that were marked are read fast, if the map has words for the whole file and the range is in
/// the file; and what was read fast before still is.
pub proof fn marked_range_reads_fast(
    file_size: u64,
    page_size: u64,
    words: usize,
    m: &mut PageMap,
    offset: u64,
    len: u64,
    mapped_len: u64,
    r: PageScan,
    other: u64,
    other_len: u64,
    before: PageScan,
    after: PageScan,
)
    requires
        0 < page_size <= 0x7fff_ffff_ffff_ffff,
        call_ensures(page_map::page_word_count, (file_size, page_size), words),
        old(m).page_size == page_size,
        old(m).words@.len() == words,
        0 < len,
        offset + len <= file_size,
        call_ensures(PageMap::mark_pages_resident, (m, offset, len), ()),
        call_ensures(PageMap::can_fast_read_via_mmap, (&*final(m), offset, len, mapped_len), r),
        call_ensures(
            PageMap::can_fast_read_via_mmap,
            (&*old(m), other, other_len, mapped_len),
            before,
        ),
        call_ensures(
            PageMap::can_fast_read_via_mmap,
            (&*final(m), other, other_len, mapped_len),
            after,
        ),
    ensures
        r == PageScan::Fast,
        before == PageScan::Fast ==> after == PageScan::Fast,
{
    let was = *old(m);
    let is = *final(m);
    assert forall|p: int| #[trigger] was.in_range(p, offset as int, offset + len) implies was.covers(
        p,
    ) by {
        page_is_covered(p, file_size as int, page_size as int, offset as int, offset + len);
    }
    page_map::warm_range_reads_fast(was, is, offset as int, len as int, mapped_len as int, r);
    if before == PageScan::Fast {
        assert forall|p: int|
            other as int / page_size as int <= p && p * page_size < other + other_len implies #[trigger] is.marked(
            p,
        ) by {
            assert(was.marked(p));
        }
    }
}

proof fn page_is_covered(p: int, file_size: int, page_size: int, offset: int, end: int)
    requires
        page_size > 0,
        offset >= 0,
        offset / page_size <= p,
        p * page_size < end <= file_size,
    ensures
        0 <= p,
        p / 64 < page_map::div_up(page_map::div_up(file_size, page_size), 64),
{
    assert(offset / page_size >= 0) by (nonlinear_arith)
        requires
            offset >= 0,
            page_size > 0,
    ;
    let pages = page_map::div_up(file_size, page_size);
    assert(p < pages) by (nonlinear_arith)
        requires
            p * page_size < file_size,
            page_size > 0,
            pages == (file_size + page_size - 1) / page_size,
    ;
    assert(p / 64 < (pages + 63) / 64);
}

/// No range is read fast of a map in which nothing is marked.
pub proof fn unmarked_range_is_not_fast(
    page_size: u64,
    words: usize,
    ttl: u64,
    fresh: PageMap,
    offset: u64,
    len: u64,
    mapped_len: u64,
    r: PageScan,
)
    requires
        0 < page_size,
        call_ensures(PageMap::new, (page_size, words, ttl), fresh),
        0 < len,
        call_ensures(PageMap::can_fast_read_via_mmap, (&fresh, offset, len, mapped_len), r),
    ensures
        r != PageScan::Fast,
        r matches PageScan::Ask(q) ==> q == offset / page_size,
{
    let q = offset as int / page_size as int;
    assert(q * page_size <= offset) by (nonlinear_arith)
        requires
            q == offset as int / page_size as int,
            page_size > 0,
    ;
    assert(!fresh.marked(q));
}

/// What is marked is forgotten once its time has passed, and kept until then.
pub proof fn marks_are_forgotten_in_time(
    m: &mut PageMap,
    now: u64,
    offset: u64,
    len: u64,
    mapped_len: u64,
    r: PageScan,
)
    requires
        old(m).page_size > 0,
        now + old(m).ttl_secs <= u64::MAX,
        call_ensures(PageMap::maybe_cleanup, (m, now), ()),
        0 < len,
        call_ensures(PageMap::can_fast_read_via_mmap, (&*final(m), offset, len, mapped_len), r),
    ensures
        now > old(m).next_cleanup ==> r != PageScan::Fast,
        now > old(m).next_cleanup ==> final(m).next_cleanup == now + old(m).ttl_secs,
        now <= old(m).next_cleanup ==> *final(m) == *old(m),
        final(m).page_size == old(m).page_size,
        final(m).words@.len() == old(m).words@.len(),
{
    let page_size = final(m).page_size;
    let q = offset as int / page_size as int;
    assert(q * page_size <= offset) by (nonlinear_arith)
        requires
            q == offset as int / page_size as int,
            page_size > 0,
    ;
    if now > old(m).next_cleanup {
        assert(!final(m).marked(q));
    }
}

/// A page that is not in memory makes the read a slow one; one that is does not have to be asked for
/// again.
pub proof fn answered_page_is_remembered(
    m: &mut PageMap,
    page: u64,
    resident: bool,
    end: u64,
    mapped_len: u64,
    r: PageScan,
)
    requires
        call_ensures(PageMap::page_answered, (m, page, resident, end, mapped_len), r),
    ensures
        !resident ==> r == PageScan::Slow && *final(m) == *old(m),
        resident ==> final(m).marked(page as int),
        r matches PageScan::Ask(q) ==> q > page,
{
    assert(resident ==> final(m).marked(page as int));
}

/// The end of a range that is to be included is turned into one that is not: exactly the keys up to
/// the first lie before the second. A range without an end keeps none.
pub proof fn excluded_end_follows_the_included_one(end: &str, r: Option<String>, key: Seq<u8>)
    requires
        call_ensures(lsm_utils::exclusive_range_end, (end,), r),
    ensures
        r is None <==> end@.len() == 0,
        r matches Some(bound) ==> (bytes::bytes_lt(key, encode_utf8(bound@)) <==> !bytes::bytes_lt(
            encode_utf8(end@),
            key,
        )),
{
    if let Some(bound) = r {
        let e = encode_utf8(end@);
        next_behind(e, key);
        assert(encode_utf8(bound@) == e.push(0u8));
    }
}

proof fn next_behind(e: Seq<u8>, key: Seq<u8>)
    ensures
        bytes::bytes_lt(key, e.push(0u8)) <==> !bytes::bytes_lt(e, key),
    decreases e.len(),
{
    let longer = e.push(0u8);
    if e.len() == 0 {
        assert(longer.len() == 1 && longer[0] == 0u8);
        if key.len() > 0 {
            let kt = key.skip(1);
            let lt = longer.skip(1);
            assert(lt.len() == 0);
            bytes::bytes_lt_total(kt, lt);
        }
        bytes::bytes_lt_total(e, key);
        bytes::bytes_lt_total(key, longer);
    } else if key.len() > 0 {
        next_behind(e.skip(1), key.skip(1));
        assert(longer.skip(1) =~= e.skip(1).push(0u8));
        assert(longer[0] == e[0]);
    }
}

/// Two tables never have one file name, nor have two logs.
pub proof fn file_names_are_told_apart(
    level_a: usize,
    a: u64,
    level_b: usize,
    b: u64,
    name_a: String,
    name_b: String,
    log_a: String,
    log_b: String,
)
    requires
        call_ensures(lsm_utils::generate_sstable_filename, (level_a, a), name_a),
        call_ensures(lsm_utils::generate_sstable_filename, (level_b, b), name_b),
        call_ensures(lsm_utils::generate_wal_filename, (a,), log_a),
        call_ensures(lsm_utils::generate_wal_filename, (b,), log_b),
    ensures
        name_a@ == name_b@ <==> level_a == level_b && a == b,
        log_a@ == log_b@ <==> a == b,
{
    if name_a@ == name_b@ {
        lsm_utils::sstable_filenames_are_unique(level_a as nat, a as nat, level_b as nat, b as nat);
    }
    if log_a@ == log_b@ {
        lsm_utils::wal_filenames_are_unique(a as nat, b as nat);
    }
}

/// Spans of time are ordered, and a span is longer by what is added to it.
pub proof fn spans_are_ordered(
    a: Duration,
    b: Duration,
    sum: Duration,
    other_sum: Duration,
    below: bool,
    above: bool,
    grown: bool,
    zero: bool,
)
    requires
        a.nanos < 1_000_000_000,
        b.nanos < 1_000_000_000,
        call_ensures(Duration::plus, (a, b), sum),
        call_ensures(Duration::plus, (b, a), other_sum),
        call_ensures(Duration::less_than, (a, b), below),
        call_ensures(Duration::less_than, (b, a), above),
        call_ensures(Duration::less_than, (a, sum), grown),
        call_ensures(Duration::is_zero, (&b,), zero),
    ensures
        sum == other_sum,
        !(below && above),
        !below && !above <==> a == b,
        grown <==> !zero,
        a.secs < b.secs ==> below,
        a.secs == b.secs ==> (below <==> a.nanos < b.nanos),
        sum.nanos < 1_000_000_000,
        sum.secs * 1_000_000_000 + sum.nanos == a.secs * 1_000_000_000 + a.nanos + b.secs
            * 1_000_000_000 + b.nanos,
{
}

/// A span of so many milliseconds has as many seconds and left over milliseconds.
pub proof fn millis_are_seconds_and_rest(
    millis: u64,
    d: Duration,
    secs: u64,
    rest: u32,
    s: Duration,
    n: u64,
)
    requires
        call_ensures(Duration::from_millis, (millis,), d),
        call_ensures(Duration::as_secs, (&d,), secs),
        call_ensures(Duration::subsec_millis, (&d,), rest),
        call_ensures(Duration::from_secs, (n,), s),
        n == secs,
    ensures
        secs * 1000 + rest == millis,
        rest < 1000,
        s.secs == secs && s.nanos == 0,
        rest == 0 ==> s == d,
{
}

/// What was compressed is given back, whatever it is.
pub proof fn compressed_data_is_given_back(
    raw: &[u8],
    c: Result<Vec<u8>, LsmError>,
    packed: &[u8],
    d: Result<Vec<u8>, LsmError>,
)
    requires
        raw@.len() <= 0x4000_0000,
        call_ensures(snappy::snap_compress, (raw,), c),
        c matches Ok(v) ==> packed@ == v@,
        call_ensures(snappy::snap_decompress, (packed,), d),
    ensures
        c is Ok,
        d matches Ok(v) && v@ == raw@,
{
}

/// A read never reaches past the end of the file, and falls short only there.
pub proof fn reads_stop_at_the_end(file_size: u64, offset: u64, len: usize, r: usize)
    requires
        call_ensures(file_reader::readable_length, (file_size, offset, len), r),
    ensures
        r <= len,
        r > 0 ==> offset + r <= file_size,
        r < len ==> offset + r >= file_size,
{
}

/// Filling a buffer takes as much as there is and fits, and leaves the rest as it was.
pub proof fn buffer_is_filled_from_its_start(buf: &mut Vec<u8>, data: Vec<u8>, n: usize)
    requires
        call_ensures(file_reader::fill_buffer, (buf, &data), n),
    ensures
        n <= data@.len(),
        n <= old(buf)@.len(),
        n == data@.len() || n == old(buf)@.len(),
        final(buf)@.len() == old(buf)@.len(),
        forall|i: int| 0 <= i < n ==> #[trigger] final(buf)@[i] == data@[i],
        forall|i: int| n <= i < old(buf)@.len() ==> #[trigger] final(buf)@[i] == old(buf)@[i],
{
}

/// A read that is made in parts asks for what is missing, from where it is missing, until nothing is;
/// a part that is empty means that the file has ended.
pub proof fn parts_make_a_whole_read(
    offset: u64,
    len: u64,
    tells: bool,
    st: ReadExact,
    first: Option<(u64, u64)>,
    m: &mut ReadExact,
    n: u64,
    r: Result<(), LsmError>,
    next: Option<(u64, u64)>,
)
    requires
        call_ensures(ReadExact::begin, (offset, len, tells), st),
        call_ensures(ReadExact::next_read, (&st,), first),
        old(m).offset + old(m).len <= u64::MAX,
        old(m).pos < old(m).len,
        n <= old(m).len - old(m).pos,
        call_ensures(ReadExact::read_exact_at, (m, n), r),
        call_ensures(ReadExact::next_read, (&*final(m),), next),
    ensures
        first is None <==> len == 0,
        first matches Some(part) ==> part == (offset, len),
        r is Ok <==> n > 0,
        next is None <==> old(m).pos + n == old(m).len,
        next matches Some((at, missing)) ==> at == old(m).offset + old(m).pos + n && at + missing
            == old(m).offset + old(m).len,
        r matches Err(e) ==> e is Io,
{
}

/// A file is mapped only where it can be, and read otherwise; any other way of reading is kept.
pub proof fn mode_falls_back_to_reading(
    path: String,
    mode: SstableReadMode,
    ttl: u64,
    available: bool,
    reader: SstableFileReader,
    used: SstableReadMode,
    told: SstableReadMode,
    shown: &str,
    secs: u64,
)
    requires
        call_ensures(SstableFileReader::new, (path, mode, ttl, available), reader),
        call_ensures(SstableFileReader::mode, (&reader,), used),
        call_ensures(file_reader::effective_mode, (mode, available), told),
        call_ensures(SstableFileReader::path, (&reader,), shown),
        call_ensures(SstableFileReader::mincore_cache_ttl_secs, (&reader,), secs),
    ensures
        used == told,
        available ==> used == mode,
        !available ==> used != SstableReadMode::MmapHybrid,
        mode != SstableReadMode::MmapHybrid ==> used == mode,
        used == mode || used == SstableReadMode::PositionedRead,
        shown@ == path@,
        secs == ttl,
{
}

/// A file that is not open is opened where that is allowed, and refused otherwise.
pub proof fn closed_file_is_opened_or_refused(
    reader: SstableFileReader,
    is_open: bool,
    resilient: bool,
    r: Result<bool, LsmError>,
    e: LsmError,
)
    requires
        call_ensures(SstableFileReader::ensure_open, (&reader, is_open, resilient), r),
        call_ensures(SstableFileReader::not_open_error, (&reader,), e),
    ensures
        r is Ok <==> is_open || resilient,
        r matches Ok(open_it) ==> open_it == !is_open,
        r matches Err(why) ==> (why matches LsmError::Internal(m) && e matches LsmError::Internal(
            start,
        ) && start@.is_prefix_of(m@)),
{
    if let Err(LsmError::Internal(m)) = r {
        if let LsmError::Internal(start) = e {
            assert(m@.subrange(0, start@.len() as int) =~= start@);
        }
    }
}

/// Marking a range marks the pages of the range alone: one that begins on another page is not read
/// fast by it.
pub proof fn other_pages_are_not_marked(
    page_size: u64,
    words: usize,
    ttl: u64,
    fresh: PageMap,
    m: &mut PageMap,
    offset: u64,
    len: u64,
    other: u64,
    other_len: u64,
    mapped_len: u64,
    r: PageScan,
)
    requires
        0 < page_size,
        call_ensures(PageMap::new, (page_size, words, ttl), fresh),
        *old(m) == fresh,
        0 < len,
        0 < other_len,
        call_ensures(PageMap::mark_pages_resident, (m, offset, len), ()),
        call_ensures(
            PageMap::can_fast_read_via_mmap,
            (&*final(m), other, other_len, mapped_len),
            r,
        ),
        other / page_size < offset / page_size || other / page_size > (offset + len - 1)
            / page_size as int,
    ensures
        r != PageScan::Fast,
{
    let q = other as int / page_size as int;
    let s = page_size as int;
    assert(q * s <= other) by (nonlinear_arith)
        requires
            q == other as int / s,
            s > 0,
    ;
    assert(!fresh.marked(q));
    if final(m).marked(q) {
        assert(fresh.in_range(q, offset as int, offset + len));
        let end = offset + len;
        assert(q <= (end - 1) / s) by (nonlinear_arith)
            requires
                q * s < end,
                s > 0,
        ;
    }
}

} // verus!
