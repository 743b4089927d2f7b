//! What scans of a written table come to: the keys of a prefix or a range, with the values and the
//! marks that were written.

use crate::bytes;
use crate::flat_index;
use crate::seqs;
use crate::sst_answers::{self, EntryDecoder};
use crate::sst_lookup;
use crate::sst_query::{self, LayerRead};
use crate::sst_read::SSTableEntry;
use crate::sst_writer;
use crate::sstable::SSTable;
use crate::value::Value;
use vstd::prelude::*;
use vstd::string::*;
use vstd::utf8::*;

verus! {

proof fn readable_places(locs: Seq<(String, u64, u32)>, reads: Seq<LayerRead>) -> (at: Seq<int>)
    requires
        reads.len() <= locs.len(),
    ensures
        at.len() == sst_query::readable(locs, reads).len(),
        forall|k: int|
            0 <= k < at.len() ==> {
                let i = #[trigger] at[k];
                &&& 0 <= i < reads.len()
                &&& reads[i] is Some
                &&& sst_query::readable(locs, reads)[k] == (
                    locs[i].0@,
                    reads[i]->Some_0.0@,
                    reads[i]->Some_0.1,
                )
            },
        forall|k: int, l: int| 0 <= k < l < at.len() ==> #[trigger] at[k] < #[trigger] at[l],
        forall|i: int| 0 <= i < reads.len() && (#[trigger] reads[i]) is Some ==> at.contains(i),
    decreases reads.len(),
{
    if reads.len() == 0 {
        Seq::empty()
    } else {
        let less = reads.drop_last();
        let before = readable_places(locs, less);
        let n = reads.len() - 1;
        let at = if reads.last() is Some {
            before.push(n)
        } else {
            before
        };
        assert forall|k: int| 0 <= k < at.len() implies ({
            let i = #[trigger] at[k];
            &&& 0 <= i < reads.len()
            &&& reads[i] is Some
            &&& sst_query::readable(locs, reads)[k] == (
                locs[i].0@,
                reads[i]->Some_0.0@,
                reads[i]->Some_0.1,
            )
        }) by {
            if k < before.len() {
                assert(less[before[k]] == reads[before[k]]);
                assert(sst_query::readable(locs, reads)[k] == sst_query::readable(locs, less)[k]);
            }
        }
        assert forall|i: int| 0 <= i < reads.len() && (#[trigger] reads[i]) is Some implies at.contains(
            i,
        ) by {
            if i < n {
                assert(less[i] == reads[i]);
                let k = choose|k: int| 0 <= k < before.len() && before[k] == i;
                assert(at[k] == i);
            } else {
                assert(at[before.len() as int] == n);
            }
        }
        at
    }
}

/// The entries of a scan are those that could be read, each with the key of its location, the value
/// that was read there and its mark, in the order of the locations.
pub proof fn read_locations_are_given(
    locs: Vec<(String, u64, u32)>,
    reads: Vec<LayerRead>,
    r: Vec<(String, Value, bool)>,
)
    requires
        reads@.len() == locs@.len(),
        call_ensures(sst_query::layer_entries, (&locs, reads), r),
    ensures
        exists|at: Seq<int>|
            {
                &&& #[trigger] at.len() == r@.len()
                &&& forall|k: int|
                    0 <= k < at.len() ==> 0 <= #[trigger] at[k] < locs@.len() && r@[k].0@
                        == locs@[at[k]].0@ && (reads@[at[k]] matches Some(read) && r@[k].1@
                        == read.0@ && r@[k].2 == read.1)
                &&& forall|k: int, l: int|
                    0 <= k < l < at.len() ==> #[trigger] at[k] < #[trigger] at[l]
                &&& forall|i: int|
                    0 <= i < locs@.len() && (#[trigger] reads@[i]) is Some ==> at.contains(i)
            },
{
    let at = readable_places(locs@, reads@);
    let shown = sst_query::layer_view(r@);
    assert(shown.len() == r@.len());
    assert forall|k: int| 0 <= k < at.len() implies 0 <= #[trigger] at[k] < locs@.len()
        && r@[k].0@ == locs@[at[k]].0@ && (reads@[at[k]] matches Some(read) && r@[k].1@ == read.0@
        && r@[k].2 == read.1) by {
        assert(shown[k] == (r@[k].0@, r@[k].1@, r@[k].2));
    }
}

/// Where every location was read, entry `i` of a scan has the key of location `i`, and the value and
/// the mark that were read there.
pub proof fn whole_scan_is_given(
    locs: Vec<(String, u64, u32)>,
    reads: Vec<LayerRead>,
    r: Vec<(String, Value, bool)>,
)
    requires
        reads@.len() == locs@.len(),
        forall|i: int| 0 <= i < reads@.len() ==> (#[trigger] reads@[i]) is Some,
        call_ensures(sst_query::layer_entries, (&locs, reads), r),
    ensures
        r@.len() == locs@.len(),
        forall|i: int|
            0 <= i < locs@.len() ==> (#[trigger] r@[i]).0@ == locs@[i].0@ && r@[i].1@
                == reads@[i]->Some_0.0@ && r@[i].2 == reads@[i]->Some_0.1,
{
    all_readable(locs@, reads@);
    let shown = sst_query::layer_view(r@);
    assert(shown.len() == r@.len());
    assert forall|i: int| 0 <= i < locs@.len() implies (#[trigger] r@[i]).0@ == locs@[i].0@
        && r@[i].1@ == reads@[i]->Some_0.0@ && r@[i].2 == reads@[i]->Some_0.1 by {
        assert(shown[i] == (r@[i].0@, r@[i].1@, r@[i].2));
    }
}

proof fn all_readable(locs: Seq<(String, u64, u32)>, reads: Seq<LayerRead>)
    requires
        reads.len() <= locs.len(),
        forall|i: int| 0 <= i < reads.len() ==> (#[trigger] reads[i]) is Some,
    ensures
        sst_query::readable(locs, reads).len() == reads.len(),
        forall|i: int|
            0 <= i < reads.len() ==> #[trigger] sst_query::readable(locs, reads)[i] == (
                locs[i].0@,
                reads[i]->Some_0.0@,
                reads[i]->Some_0.1,
            ),
    decreases reads.len(),
{
    if reads.len() > 0 {
        let less = reads.drop_last();
        assert forall|i: int| 0 <= i < less.len() implies (#[trigger] less[i]) is Some by {
            assert(less[i] == reads[i]);
        }
        all_readable(locs, less);
        assert(reads.last() == reads[reads.len() - 1]);
        assert forall|i: int| 0 <= i < reads.len() implies #[trigger] sst_query::readable(
            locs,
            reads,
        )[i] == (locs[i].0@, reads[i]->Some_0.0@, reads[i]->Some_0.1) by {
            if i < less.len() {
                assert(less[i] == reads[i]);
                assert(sst_query::readable(locs, reads)[i] == sst_query::readable(locs, less)[i]);
            }
        }
    }
}

/// Every location was read from the file, and the value and the mark of its entry were taken.
pub open spec fn locations_read(
    file: Seq<u8>,
    decode: EntryDecoder,
    locs: Seq<(String, u64, u32)>,
    reads: Seq<LayerRead>,
    read: Seq<SSTableEntry>,
) -> bool {
    &&& reads.len() == locs.len()
    &&& read.len() == locs.len()
    &&& forall|i: int|
        0 <= i < locs.len() ==> sst_answers::fetched(
            file,
            decode,
            (#[trigger] locs[i]).1,
            locs[i].2,
            read[i],
        ) && reads[i] == Some((read[i].value, read[i].deleted))
}

/// The entries of `r` are those of `entries` for which `wanted` holds of their key, with the values
/// and the marks that their bytes stand for, in the order in which they were written.
pub open spec fn gives_written(
    entries: Seq<sst_writer::EntryView>,
    decode: EntryDecoder,
    wanted: spec_fn(Seq<char>) -> bool,
    r: Seq<(String, Value, bool)>,
) -> bool {
    exists|at: Seq<int>|
        {
            &&& #[trigger] at.len() == r.len()
            &&& forall|k: int|
                0 <= k < at.len() ==> 0 <= #[trigger] at[k] < entries.len() && wanted(
                    entries[at[k]].0,
                ) && r[k].0@ == entries[at[k]].0 && r[k].1@ == decode(entries[at[k]].1).value@
                    && r[k].2 == decode(entries[at[k]].1).deleted
            &&& forall|k: int, l: int| 0 <= k < l < at.len() ==> #[trigger] at[k] < #[trigger] at[l]
            &&& forall|i: int|
                0 <= i < entries.len() && wanted((#[trigger] entries[i]).0) ==> at.contains(i)
        }
}

proof fn kept_records_give_written(
    table: SSTable,
    file: Seq<u8>,
    entries: Seq<sst_writer::EntryView>,
    decode: EntryDecoder,
    keep: spec_fn(flat_index::IndexRecord) -> bool,
    wanted: spec_fn(Seq<char>) -> bool,
    locs: Vec<(String, u64, u32)>,
    reads: Vec<LayerRead>,
    read: Seq<SSTableEntry>,
    r: Vec<(String, Value, bool)>,
)
    requires
        sst_lookup::holds_entries(table, file, entries),
        file.len() <= u64::MAX - 8,
        sst_query::locs_view(locs@) == sst_query::locations(table.recs().filter(keep)),
        forall|i: int|
            0 <= i < entries.len() ==> keep(table.recs()[i]) == wanted((#[trigger] entries[i]).0),
        locations_read(file, decode, locs@, reads@, read),
        call_ensures(sst_query::layer_entries, (&locs, reads), r),
    ensures
        gives_written(entries, decode, wanted, r@),
{
    let recs = table.recs();
    let at = seqs::filter_places(recs, keep);
    let kept = recs.filter(keep);
    assert(sst_query::locs_view(locs@).len() == locs@.len());
    assert(sst_query::locations(kept).len() == kept.len());
    assert forall|i: int| 0 <= i < reads@.len() implies (#[trigger] reads@[i]) is Some by {
        assert(locs@[i] == locs@[i]);
    }
    whole_scan_is_given(locs, reads, r);
    assert(recs.len() == entries.len());
    assert forall|k: int| 0 <= k < at.len() implies 0 <= #[trigger] at[k] < entries.len()
        && wanted(entries[at[k]].0) && r@[k].0@ == entries[at[k]].0 && r@[k].1@ == decode(
        entries[at[k]].1,
    ).value@ && r@[k].2 == decode(entries[at[k]].1).deleted by {
        let i = at[k];
        let e = entries[i];
        assert(kept[k] == recs[i]);
        assert(sst_query::locs_view(locs@)[k] == (locs@[k].0@, locs@[k].1, locs@[k].2));
        assert(sst_query::locations(kept)[k] == (
            sst_query::key_text(recs[i].0),
            recs[i].1,
            recs[i].2,
        ));
        assert(sst_writer::leads_to(file, recs[i], entries[i]));
        sst_query::stored_key_is_read_back(e.0);
        assert(sst_answers::fetched(file, decode, locs@[k].1, locs@[k].2, read[k]));
        sst_answers::stored_entry_is_decoded(file, decode, recs[i], e, read[k]);
        assert(r@[k].0@ == locs@[k].0@);
    }
    assert forall|i: int| 0 <= i < entries.len() && wanted((#[trigger] entries[i]).0) implies at.contains(
        i,
    ) by {
        assert(keep(recs[i]));
    }
    assert(at.len() == r@.len());
}

/// A scan of a prefix of a table that was written and made ready, by a caller that can read its
/// file, gives each written entry whose key begins with the prefix, in key order, with the value
/// and the mark that were written.
pub proof fn prefix_scan_gives_what_was_written(
    table: SSTable,
    file: Seq<u8>,
    entries: Seq<sst_writer::EntryView>,
    decode: EntryDecoder,
    prefix: &str,
    locs: Vec<(String, u64, u32)>,
    reads: Vec<LayerRead>,
    read: Seq<SSTableEntry>,
    r: Vec<(String, Value, bool)>,
)
    requires
        sst_lookup::holds_entries(table, file, entries),
        file.len() <= u64::MAX - 8,
        call_ensures(SSTable::prefix_locations, (&table, prefix), locs),
        locations_read(file, decode, locs@, reads@, read),
        call_ensures(sst_query::layer_entries, (&locs, reads), r),
    ensures
        gives_written(
            entries,
            decode,
            |key: Seq<char>| encode_utf8(prefix@).is_prefix_of(encode_utf8(key)),
            r@,
        ),
{
    let pb = encode_utf8(prefix@);
    let recs = table.recs();
    let wanted = |key: Seq<char>| pb.is_prefix_of(encode_utf8(key));
    sst_lookup::records_ascend(file, recs, entries);
    flat_index::ascending_is_in_order(recs);
    let keep = sst_query::has_prefix(pb);
    assert forall|i: int| 0 <= i < entries.len() implies keep(recs[i]) == wanted(
        (#[trigger] entries[i]).0,
    ) by {
        assert(sst_writer::leads_to(file, recs[i], entries[i]));
        let k = recs[i].0;
        if pb.len() <= k.len() {
            assert(k.take(pb.len() as int) =~= k.subrange(0, pb.len() as int));
        }
    }
    kept_records_give_written(
        table,
        file,
        entries,
        decode,
        keep,
        wanted,
        locs,
        reads,
        read,
        r,
    );
}

/// A scan of a range of such a table gives each written entry whose key is neither before the start
/// nor behind the end, where there is one, in key order, with the value and the mark that were
/// written.
pub proof fn range_scan_gives_what_was_written(
    table: SSTable,
    file: Seq<u8>,
    entries: Seq<sst_writer::EntryView>,
    decode: EntryDecoder,
    start: &str,
    end: &str,
    locs: Vec<(String, u64, u32)>,
    reads: Vec<LayerRead>,
    read: Seq<SSTableEntry>,
    r: Vec<(String, Value, bool)>,
)
    requires
        sst_lookup::holds_entries(table, file, entries),
        file.len() <= u64::MAX - 8,
        call_ensures(SSTable::range_locations, (&table, start, end), locs),
        locations_read(file, decode, locs@, reads@, read),
        call_ensures(sst_query::layer_entries, (&locs, reads), r),
    ensures
        gives_written(
            entries,
            decode,
            |key: Seq<char>|
                !bytes::bytes_lt(encode_utf8(key), encode_utf8(start@)) && (end@.len() > 0
                    ==> !bytes::bytes_lt(encode_utf8(end@), encode_utf8(key))),
            r@,
        ),
{
    let (sb, eb) = (encode_utf8(start@), encode_utf8(end@));
    let recs = table.recs();
    let wanted = |key: Seq<char>|
        !bytes::bytes_lt(encode_utf8(key), sb) && (end@.len() > 0 ==> !bytes::bytes_lt(
            eb,
            encode_utf8(key),
        ));
    sst_query::encode_empty_iff(end@);
    sst_lookup::records_ascend(file, recs, entries);
    flat_index::ascending_is_in_order(recs);
    let keep = |rec: flat_index::IndexRecord| crate::lsm_utils::in_range(rec.0, sb, eb);
    assert forall|i: int| 0 <= i < entries.len() implies keep(recs[i]) == wanted(
        (#[trigger] entries[i]).0,
    ) by {
        assert(sst_writer::leads_to(file, recs[i], entries[i]));
    }
    kept_records_give_written(
        table,
        file,
        entries,
        decode,
        keep,
        wanted,
        locs,
        reads,
        read,
        r,
    );
}

/// The keys that a table's index tells of a prefix are those of the written entries that begin with
/// the prefix, in key order, deleted ones among them.
pub proof fn key_scan_gives_what_was_written(
    table: SSTable,
    file: Seq<u8>,
    entries: Seq<sst_writer::EntryView>,
    prefix: &str,
    keys: Vec<String>,
)
    requires
        sst_lookup::holds_entries(table, file, entries),
        call_ensures(SSTable::scan_prefix, (&table, prefix), keys),
    ensures
        exists|at: Seq<int>|
            {
                &&& #[trigger] at.len() == keys@.len()
                &&& forall|k: int|
                    0 <= k < at.len() ==> 0 <= #[trigger] at[k] < entries.len() && keys@[k]@
                        == entries[at[k]].0 && encode_utf8(prefix@).is_prefix_of(
                        encode_utf8(keys@[k]@),
                    )
                &&& forall|k: int, l: int|
                    0 <= k < l < at.len() ==> #[trigger] at[k] < #[trigger] at[l]
                &&& forall|i: int|
                    0 <= i < entries.len() && encode_utf8(prefix@).is_prefix_of(
                        encode_utf8((#[trigger] entries[i]).0),
                    ) ==> at.contains(i)
            },
{
    let pb = encode_utf8(prefix@);
    let recs = table.recs();
    sst_lookup::records_ascend(file, recs, entries);
    flat_index::ascending_is_in_order(recs);
    let keep = sst_query::has_prefix(pb);
    let kept = recs.filter(keep);
    let at = seqs::filter_places(recs, keep);
    let shown = keys@.map_values(|k: String| k@);
    let locs = sst_query::locations(kept);
    assert(shown == locs.map_values(|l: sst_query::Location| l.0));
    assert(shown.len() == keys@.len());
    assert(locs.map_values(|l: sst_query::Location| l.0).len() == kept.len());
    assert forall|k: int| 0 <= k < at.len() implies 0 <= #[trigger] at[k] < entries.len()
        && keys@[k]@ == entries[at[k]].0 && pb.is_prefix_of(encode_utf8(keys@[k]@)) by {
        let i = at[k];
        assert(kept[k] == recs[i]);
        assert(shown[k] == keys@[k]@);
        assert(locs[k].0 == sst_query::key_text(recs[i].0));
        assert(sst_writer::leads_to(file, recs[i], entries[i]));
        sst_query::stored_key_is_read_back(entries[i].0);
        assert(recs[i].0.take(pb.len() as int) =~= recs[i].0.subrange(0, pb.len() as int));
    }
    assert forall|i: int|
        0 <= i < entries.len() && pb.is_prefix_of(encode_utf8((#[trigger] entries[i]).0)) implies at.contains(
        i,
    ) by {
        assert(sst_writer::leads_to(file, recs[i], entries[i]));
        assert(recs[i].0.take(pb.len() as int) =~= recs[i].0.subrange(0, pb.len() as int));
        assert(keep(recs[i]));
    }
    assert(at.len() == keys@.len());
}

/// The key that follows in a table is the smallest written one that begins with the prefix and is
/// behind `after`; there is none exactly if no written key does and is.
pub proof fn following_key_is_the_next_one(
    table: SSTable,
    file: Seq<u8>,
    entries: Seq<sst_writer::EntryView>,
    prefix: &str,
    after: Option<&str>,
    r: Option<String>,
)
    requires
        sst_lookup::holds_entries(table, file, entries),
        call_ensures(SSTable::first_key_after, (&table, prefix, after), r),
    ensures
        match r {
            Some(key) => {
                &&& exists|i: int| 0 <= i < entries.len() && (#[trigger] entries[i]).0 == key@
                &&& encode_utf8(prefix@).is_prefix_of(encode_utf8(key@))
                &&& after matches Some(a) ==> bytes::bytes_lt(encode_utf8(a@), encode_utf8(key@))
                &&& forall|i: int|
                    0 <= i < entries.len() && encode_utf8(prefix@).is_prefix_of(
                        encode_utf8((#[trigger] entries[i]).0),
                    ) && (after matches Some(a) ==> bytes::bytes_lt(
                        encode_utf8(a@),
                        encode_utf8(entries[i].0),
                    )) ==> !bytes::bytes_lt(encode_utf8(entries[i].0), encode_utf8(key@))
            },
            None => forall|i: int|
                0 <= i < entries.len() ==> !(encode_utf8(prefix@).is_prefix_of(
                    encode_utf8((#[trigger] entries[i]).0),
                ) && (after matches Some(a) ==> bytes::bytes_lt(
                    encode_utf8(a@),
                    encode_utf8(entries[i].0),
                ))),
        },
{
    let pb = encode_utf8(prefix@);
    let recs = table.recs();
    let a = sst_query::optional_bytes(after);
    sst_lookup::records_ascend(file, recs, entries);
    flat_index::ascending_is_in_order(recs);
    assert forall|i: int| 0 <= i < entries.len() implies sst_query::follows(recs[i].0, pb, a) == (
    pb.is_prefix_of(encode_utf8((#[trigger] entries[i]).0)) && (after matches Some(b)
        ==> bytes::bytes_lt(encode_utf8(b@), encode_utf8(entries[i].0)))) && recs[i].0
        == encode_utf8(entries[i].0) by {
        assert(sst_writer::leads_to(file, recs[i], entries[i]));
        let k = recs[i].0;
        if pb.len() <= k.len() {
            assert(k.take(pb.len() as int) =~= k.subrange(0, pb.len() as int));
        }
    }
    if let Some(key) = r {
        let i = choose|i: int| #[trigger]
            sst_query::first_after(recs, pb, a, i) && key@ == sst_query::key_text(recs[i].0);
        sst_query::stored_key_is_read_back(entries[i].0);
        assert(entries[i].0 == key@);
        assert forall|j: int|
            0 <= j < entries.len() && pb.is_prefix_of(encode_utf8((#[trigger] entries[j]).0)) && (
            after matches Some(b) ==> bytes::bytes_lt(
                encode_utf8(b@),
                encode_utf8(entries[j].0),
            )) implies !bytes::bytes_lt(encode_utf8(entries[j].0), encode_utf8(key@)) by {
            assert(sst_query::follows(recs[j].0, pb, a));
            if j < i {
                assert(!sst_query::follows(recs[j].0, pb, a));
            } else if j > i {
                assert(!bytes::bytes_lt(recs[j].0, recs[i].0));
            } else {
                bytes::bytes_lt_irreflexive(recs[i].0);
            }
        }
    } else {
        assert forall|i: int| 0 <= i < entries.len() implies !(pb.is_prefix_of(
            encode_utf8((#[trigger] entries[i]).0),
        ) && (after matches Some(b) ==> bytes::bytes_lt(
            encode_utf8(b@),
            encode_utf8(entries[i].0),
        ))) by {
            assert(!sst_query::follows(recs[i].0, pb, a));
        }
    }
}

} // verus!
