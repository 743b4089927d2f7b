//! What the operations of a memtable come to, taken together: what was written is what is read,
//! scanned and counted.

use crate::bytes;
use crate::error::LsmError;
use crate::memtable::{self, Memtable, MemtableLookupResult, Pair, PutEffect};
use crate::seqs;
use crate::sst_query;
use crate::value::{self, Value};
use vstd::prelude::*;
use vstd::string::*;
use vstd::utf8::*;

verus! {

/// What was put under a key is what a lookup gives; a value of `Null` is told as a deleted key.
pub proof fn put_is_looked_up(
    m: &mut Memtable,
    key: &str,
    v: &Value,
    r: Result<PutEffect, LsmError>,
    found: Result<MemtableLookupResult, LsmError>,
    got: Result<Option<Value>, LsmError>,
    there: Result<bool, LsmError>,
    deleted: Result<bool, LsmError>,
)
    requires
        call_ensures(Memtable::put, (m, key, v), r),
        call_ensures(Memtable::lookup, (&*final(m), key), found),
        call_ensures(Memtable::get, (&*final(m), key), got),
        call_ensures(Memtable::key_exists, (&*final(m), key), there),
        call_ensures(Memtable::is_tombstone, (&*final(m), key), deleted),
    ensures
        r is Ok,
        if v@ is Null {
            &&& found matches Ok(MemtableLookupResult::Tombstone)
            &&& got matches Ok(None)
            &&& there == Ok::<bool, LsmError>(false)
            &&& deleted == Ok::<bool, LsmError>(true)
        } else {
            &&& found matches Ok(MemtableLookupResult::Found(f)) && f@ == v@
            &&& got matches Ok(Some(g)) && g@ == v@
            &&& there == Ok::<bool, LsmError>(true)
            &&& deleted == Ok::<bool, LsmError>(false)
        },
{
}

/// A deleted key has no value, whatever was put under it, and is told as deleted.
pub proof fn delete_is_looked_up(
    m: &mut Memtable,
    key: &str,
    r: Result<(), LsmError>,
    found: Result<MemtableLookupResult, LsmError>,
    got: Result<Option<Value>, LsmError>,
    there: Result<bool, LsmError>,
    deleted: Result<bool, LsmError>,
)
    requires
        call_ensures(Memtable::delete, (m, key), r),
        call_ensures(Memtable::lookup, (&*final(m), key), found),
        call_ensures(Memtable::get, (&*final(m), key), got),
        call_ensures(Memtable::key_exists, (&*final(m), key), there),
        call_ensures(Memtable::is_tombstone, (&*final(m), key), deleted),
    ensures
        r is Ok,
        found matches Ok(MemtableLookupResult::Tombstone),
        got matches Ok(None),
        there == Ok::<bool, LsmError>(false),
        deleted == Ok::<bool, LsmError>(true),
{
}

/// A fresh memtable, and one that was cleared, holds no key.
pub proof fn fresh_memtable_holds_nothing(
    config: &crate::engine_config::MemtableConfig,
    made: Result<Memtable, LsmError>,
    m: &mut Memtable,
    key: &str,
    before: Result<MemtableLookupResult, LsmError>,
    after: Result<MemtableLookupResult, LsmError>,
)
    requires
        call_ensures(Memtable::new, (config,), made),
        made matches Ok(fresh) ==> call_ensures(Memtable::lookup, (&fresh, key), before),
        call_ensures(Memtable::clear, (m,), ()),
        call_ensures(Memtable::lookup, (&*final(m), key), after),
    ensures
        made is Ok,
        before matches Ok(MemtableLookupResult::Missing),
        after matches Ok(MemtableLookupResult::Missing),
{
}

/// A put changes nothing of what other keys give.
pub proof fn put_leaves_other_keys(
    m: &mut Memtable,
    key: &str,
    v: &Value,
    r: Result<PutEffect, LsmError>,
    other: &str,
    before: Result<MemtableLookupResult, LsmError>,
    after: Result<MemtableLookupResult, LsmError>,
)
    requires
        other@ != key@,
        call_ensures(Memtable::put, (m, key, v), r),
        call_ensures(Memtable::lookup, (&*old(m), other), before),
        call_ensures(Memtable::lookup, (&*final(m), other), after),
    ensures
        match before {
            Ok(MemtableLookupResult::Found(b)) => after matches Ok(MemtableLookupResult::Found(a))
                && a@ == b@,
            Ok(MemtableLookupResult::Tombstone) => after matches Ok(
                MemtableLookupResult::Tombstone,
            ),
            Ok(MemtableLookupResult::Missing) => after matches Ok(MemtableLookupResult::Missing),
            Err(_) => false,
        },
{
}

/// A delete changes nothing of what other keys give.
pub proof fn delete_leaves_other_keys(
    m: &mut Memtable,
    key: &str,
    r: Result<(), LsmError>,
    other: &str,
    before: Result<MemtableLookupResult, LsmError>,
    after: Result<MemtableLookupResult, LsmError>,
)
    requires
        other@ != key@,
        call_ensures(Memtable::delete, (m, key), r),
        call_ensures(Memtable::lookup, (&*old(m), other), before),
        call_ensures(Memtable::lookup, (&*final(m), other), after),
    ensures
        match before {
            Ok(MemtableLookupResult::Found(b)) => after matches Ok(MemtableLookupResult::Found(a))
                && a@ == b@,
            Ok(MemtableLookupResult::Tombstone) => after matches Ok(
                MemtableLookupResult::Tombstone,
            ),
            Ok(MemtableLookupResult::Missing) => after matches Ok(MemtableLookupResult::Missing),
            Err(_) => false,
        },
{
}

/// What a put did is told by what a lookup gave before it.
pub proof fn put_effect_tells_what_was_there(
    m: &mut Memtable,
    key: &str,
    v: &Value,
    before: Result<MemtableLookupResult, LsmError>,
    r: Result<PutEffect, LsmError>,
)
    requires
        call_ensures(Memtable::lookup, (&*old(m), key), before),
        call_ensures(Memtable::put, (m, key, v), r),
    ensures
        r == Ok::<PutEffect, LsmError>(PutEffect::Inserted) <==> (before matches Ok(
            MemtableLookupResult::Missing,
        )),
        r == Ok::<PutEffect, LsmError>(PutEffect::UpdatedLive) <==> (before matches Ok(
            MemtableLookupResult::Found(_),
        )),
        r == Ok::<PutEffect, LsmError>(PutEffect::Resurrected) <==> (before matches Ok(
            MemtableLookupResult::Tombstone,
        )),
{
}

/// A key that was not held adds the bytes of the key and of the value to the size, and one entry.
pub proof fn new_key_adds_its_bytes(
    m: &mut Memtable,
    key: &str,
    v: &Value,
    r: Result<PutEffect, LsmError>,
    bytes: Vec<u8>,
    size_before: usize,
    size_after: usize,
    count_before: usize,
    count_after: usize,
)
    requires
        r == Ok::<PutEffect, LsmError>(PutEffect::Inserted),
        call_ensures(Memtable::put, (m, key, v), r),
        call_ensures(Value::to_bytes, (v,), bytes),
        call_ensures(Memtable::size, (&*old(m),), size_before),
        call_ensures(Memtable::size, (&*final(m),), size_after),
        call_ensures(Memtable::entry_count, (&*old(m),), count_before),
        call_ensures(Memtable::entry_count, (&*final(m),), count_after),
    ensures
        size_after == size_before + encode_utf8(key@).len() + bytes@.len(),
        count_after == count_before + 1,
{
    value::value_size_is_length(v@);
}

/// A second put under a key takes the place of the first one: together they add the bytes of the key
/// and of the second value to the size, and one entry.
pub proof fn later_put_counts_alone(
    m: &mut Memtable,
    again: &mut Memtable,
    key: &str,
    first: &Value,
    second: &Value,
    r: Result<PutEffect, LsmError>,
    s: Result<PutEffect, LsmError>,
    bytes: Vec<u8>,
    size_before: usize,
    size_after: usize,
    count_before: usize,
    count_after: usize,
)
    requires
        r == Ok::<PutEffect, LsmError>(PutEffect::Inserted),
        call_ensures(Memtable::put, (m, key, first), r),
        *old(again) == *final(m),
        call_ensures(Memtable::put, (again, key, second), s),
        call_ensures(Value::to_bytes, (second,), bytes),
        call_ensures(Memtable::size, (&*old(m),), size_before),
        call_ensures(Memtable::size, (&*final(again),), size_after),
        call_ensures(Memtable::entry_count, (&*old(m),), count_before),
        call_ensures(Memtable::entry_count, (&*final(again),), count_after),
    ensures
        size_after == size_before + encode_utf8(key@).len() + bytes@.len(),
        count_after == count_before + 1,
{
    value::value_size_is_length(second@);
}

/// The mark of a deleted key adds the bytes of the key and one to the size, and one entry, if the
/// key was not held; otherwise it takes the place of what was put before.
pub proof fn delete_counts_its_mark(
    m: &mut Memtable,
    again: &mut Memtable,
    key: &str,
    first: &Value,
    r: Result<PutEffect, LsmError>,
    d: Result<(), LsmError>,
    size_before: usize,
    size_after: usize,
    count_before: usize,
    count_after: usize,
)
    requires
        r == Ok::<PutEffect, LsmError>(PutEffect::Inserted),
        call_ensures(Memtable::put, (m, key, first), r),
        *old(again) == *final(m) || *old(again) == *old(m),
        call_ensures(Memtable::delete, (again, key), d),
        call_ensures(Memtable::size, (&*old(m),), size_before),
        call_ensures(Memtable::size, (&*final(again),), size_after),
        call_ensures(Memtable::entry_count, (&*old(m),), count_before),
        call_ensures(Memtable::entry_count, (&*final(again),), count_after),
    ensures
        size_after == size_before + encode_utf8(key@).len() + 1,
        count_after == count_before + 1,
{
}

/// A memtable has as many entries as keys that a lookup tells of.
pub proof fn entries_are_the_keys(m: Memtable, count: usize)
    requires
        m.wf(),
        call_ensures(Memtable::entry_count, (&m,), count),
    ensures
        count == m@.dom().len(),
        m@.dom().finite(),
{
    m.pairs_are_the_map();
    m.counts_are_exact();
    keys_are_counted(m.pairs());
}

proof fn keys_are_counted(pairs: Seq<Pair>)
    requires
        memtable::pairs_ascend(pairs),
    ensures
        memtable::as_map(pairs).dom().finite(),
        memtable::as_map(pairs).dom().len() == pairs.len(),
    decreases pairs.len(),
{
    if pairs.len() == 0 {
        assert(memtable::as_map(pairs).dom() =~= Set::empty());
    } else {
        let before = pairs.drop_last();
        assert(memtable::pairs_ascend(before));
        keys_are_counted(before);
        assert forall|i: int| 0 <= i < before.len() implies #[trigger] before[i].0
            != pairs.last().0 by {
            assert(before[i] == pairs[i]);
            bytes::bytes_lt_irreflexive(encode_utf8(pairs[i].0));
            assert(bytes::bytes_lt(
                encode_utf8(pairs[i].0),
                encode_utf8(pairs[pairs.len() - 1].0),
            ));
        }
        memtable::as_map_lacks(before, pairs.last().0);
        assert(memtable::as_map(pairs).dom() =~= memtable::as_map(before).dom().insert(
            pairs.last().0,
        ));
    }
}

proof fn layer_is_the_map(
    m: Memtable,
    keep: spec_fn(Pair) -> bool,
    wanted: spec_fn(Seq<char>) -> bool,
    entries: Seq<(String, Value, bool)>,
)
    requires
        m.wf(),
        forall|p: Pair| #[trigger] keep(p) == wanted(p.0),
        sst_query::layer_view(entries) == memtable::layer_of(m.pairs().filter(keep)),
    ensures
        forall|k: Seq<char>|
            (exists|i: int| 0 <= i < entries.len() && (#[trigger] entries[i]).0@ == k)
                <==> #[trigger] wanted(k) && m@.contains_key(k),
        forall|i: int|
            0 <= i < entries.len() ==> (#[trigger] entries[i]).1@ == m@[entries[i].0@]
                && entries[i].2 == (m@[entries[i].0@] is Null),
        forall|i: int, j: int|
            0 <= i < j < entries.len() ==> bytes::bytes_lt(
                encode_utf8((#[trigger] entries[i]).0@),
                encode_utf8((#[trigger] entries[j]).0@),
            ),
{
    let pairs = m.pairs();
    let kept = pairs.filter(keep);
    let shown = sst_query::layer_view(entries);
    m.pairs_are_the_map();
    memtable::as_map_holds(pairs);
    let at = seqs::filter_places(pairs, keep);
    assert(shown.len() == entries.len());
    assert(memtable::layer_of(kept).len() == kept.len());
    assert forall|i: int| 0 <= i < entries.len() implies (#[trigger] entries[i]).0@
        == pairs[at[i]].0 && entries[i].1@ == pairs[at[i]].1 && entries[i].2 == (
    pairs[at[i]].1 is Null) by {
        assert(shown[i] == (entries[i].0@, entries[i].1@, entries[i].2));
        assert(memtable::layer_of(kept)[i] == (kept[i].0, kept[i].1, kept[i].1 is Null));
        assert(pairs[at[i]] == kept[i]);
    }
    assert forall|i: int| 0 <= i < entries.len() implies (#[trigger] entries[i]).1@
        == m@[entries[i].0@] && entries[i].2 == (m@[entries[i].0@] is Null) by {
        let p = at[i];
        assert(memtable::as_map(pairs)[pairs[p].0] == pairs[p].1);
    }
    assert forall|k: Seq<char>|
        (exists|i: int| 0 <= i < entries.len() && (#[trigger] entries[i]).0@ == k)
            <==> #[trigger] wanted(k) && m@.contains_key(k) by {
        if exists|i: int| 0 <= i < entries.len() && (#[trigger] entries[i]).0@ == k {
            let i = choose|i: int| 0 <= i < entries.len() && (#[trigger] entries[i]).0@ == k;
            let p = at[i];
            assert(memtable::as_map(pairs).dom().contains(pairs[p].0));
            assert(keep(pairs[p]));
        }
        if wanted(k) && m@.contains_key(k) {
            let p = choose|p: int| 0 <= p < pairs.len() && pairs[p].0 == k;
            assert(keep(pairs[p]));
            assert(at.contains(p));
            let i = choose|i: int| 0 <= i < at.len() && at[i] == p;
            assert(shown.len() == at.len());
            assert(entries[i].0@ == k);
        }
    }
    assert forall|i: int, j: int| 0 <= i < j < entries.len() implies bytes::bytes_lt(
        encode_utf8((#[trigger] entries[i]).0@),
        encode_utf8((#[trigger] entries[j]).0@),
    ) by {
        assert(at[i] < at[j]);
        assert(bytes::bytes_lt(encode_utf8(pairs[at[i]].0), encode_utf8(pairs[at[j]].0)));
    }
}

/// A scan of a prefix for merging gives each held key that begins with the prefix, with its value
/// and whether it is deleted, in byte order.
pub proof fn prefix_layer_is_the_map(
    m: Memtable,
    prefix: &str,
    r: Result<Vec<(String, Value, bool)>, LsmError>,
)
    requires
        m.wf(),
        call_ensures(Memtable::scan_prefix_layer, (&m, prefix), r),
    ensures
        r matches Ok(entries) && {
            &&& forall|k: Seq<char>|
                (exists|i: int| 0 <= i < entries@.len() && (#[trigger] entries@[i]).0@ == k)
                    <==> encode_utf8(prefix@).is_prefix_of(#[trigger] encode_utf8(k))
                    && m@.contains_key(k)
            &&& forall|i: int|
                0 <= i < entries@.len() ==> (#[trigger] entries@[i]).1@ == m@[entries@[i].0@]
                    && entries@[i].2 == (m@[entries@[i].0@] is Null)
            &&& forall|i: int, j: int|
                0 <= i < j < entries@.len() ==> bytes::bytes_lt(
                    encode_utf8((#[trigger] entries@[i]).0@),
                    encode_utf8((#[trigger] entries@[j]).0@),
                )
        },
{
    let pb = encode_utf8(prefix@);
    let keep = |p: Pair| bytes::starts_with(encode_utf8(p.0), pb);
    let wanted = |k: Seq<char>| pb.is_prefix_of(encode_utf8(k));
    assert forall|p: Pair| #[trigger] keep(p) == wanted(p.0) by {
        let k = encode_utf8(p.0);
        if pb.len() <= k.len() {
            assert(k.take(pb.len() as int) =~= k.subrange(0, pb.len() as int));
        }
    }
    if let Ok(entries) = r {
        layer_is_the_map(m, keep, wanted, entries@);
        assert forall|k: Seq<char>|
            (exists|i: int| 0 <= i < entries@.len() && (#[trigger] entries@[i]).0@ == k)
                <==> pb.is_prefix_of(#[trigger] encode_utf8(k)) && m@.contains_key(k) by {
            assert(wanted(k) == pb.is_prefix_of(encode_utf8(k)));
        }
    }
}

/// A scan of a range for merging gives each held key that is neither before the start nor behind the
/// end, where there is one, with its value and whether it is deleted, in byte order.
pub proof fn range_layer_is_the_map(
    m: Memtable,
    start: &str,
    end: &str,
    r: Result<Vec<(String, Value, bool)>, LsmError>,
)
    requires
        m.wf(),
        call_ensures(Memtable::scan_range_layer, (&m, start, end), r),
    ensures
        r matches Ok(entries) && {
            &&& forall|k: Seq<char>|
                (exists|i: int| 0 <= i < entries@.len() && (#[trigger] entries@[i]).0@ == k)
                    <==> !bytes::bytes_lt(#[trigger] encode_utf8(k), encode_utf8(start@)) && (
                end@.len() > 0 ==> !bytes::bytes_lt(encode_utf8(end@), encode_utf8(k)))
                    && m@.contains_key(k)
            &&& forall|i: int|
                0 <= i < entries@.len() ==> (#[trigger] entries@[i]).1@ == m@[entries@[i].0@]
                    && entries@[i].2 == (m@[entries@[i].0@] is Null)
            &&& forall|i: int, j: int|
                0 <= i < j < entries@.len() ==> bytes::bytes_lt(
                    encode_utf8((#[trigger] entries@[i]).0@),
                    encode_utf8((#[trigger] entries@[j]).0@),
                )
        },
{
    let (sb, eb) = (encode_utf8(start@), encode_utf8(end@));
    sst_query::encode_empty_iff(end@);
    let keep = |p: Pair| crate::lsm_utils::in_range(encode_utf8(p.0), sb, eb);
    let wanted = |k: Seq<char>|
        !bytes::bytes_lt(encode_utf8(k), sb) && (end@.len() > 0 ==> !bytes::bytes_lt(
            eb,
            encode_utf8(k),
        ));
    if let Ok(entries) = r {
        layer_is_the_map(m, keep, wanted, entries@);
        assert forall|k: Seq<char>|
            (exists|i: int| 0 <= i < entries@.len() && (#[trigger] entries@[i]).0@ == k)
                <==> !bytes::bytes_lt(#[trigger] encode_utf8(k), sb) && (end@.len() > 0
                ==> !bytes::bytes_lt(eb, encode_utf8(k))) && m@.contains_key(k) by {
            assert(wanted(k) == (!bytes::bytes_lt(encode_utf8(k), sb) && (end@.len() > 0
                ==> !bytes::bytes_lt(eb, encode_utf8(k)))));
        }
    }
}

/// All entries are each held key with its value and whether it is deleted, in byte order: what a
/// flush writes to a table.
pub proof fn all_entries_are_the_map(m: Memtable, entries: Vec<(String, Value, bool)>)
    requires
        m.wf(),
        call_ensures(Memtable::get_all_entries, (&m,), entries),
    ensures
        forall|k: Seq<char>|
            (exists|i: int| 0 <= i < entries@.len() && (#[trigger] entries@[i]).0@ == k)
                <==> #[trigger] m@.contains_key(k),
        forall|i: int|
            0 <= i < entries@.len() ==> (#[trigger] entries@[i]).1@ == m@[entries@[i].0@]
                && entries@[i].2 == (m@[entries@[i].0@] is Null),
        forall|i: int, j: int|
            0 <= i < j < entries@.len() ==> bytes::bytes_lt(
                encode_utf8((#[trigger] entries@[i]).0@),
                encode_utf8((#[trigger] entries@[j]).0@),
            ),
{
    let keep = |p: Pair| true;
    let wanted = |k: Seq<char>| true;
    let pairs = m.pairs();
    assert forall|i: int| 0 <= i < pairs.len() implies (#[trigger] keep(pairs[i]) <==> 0 <= i
        < pairs.len()) by {}
    seqs::filter_span(pairs, keep, 0, pairs.len() as int);
    assert(pairs.subrange(0, pairs.len() as int) =~= pairs);
    layer_is_the_map(m, keep, wanted, entries@);
    assert forall|k: Seq<char>|
        (exists|i: int| 0 <= i < entries@.len() && (#[trigger] entries@[i]).0@ == k)
            <==> #[trigger] m@.contains_key(k) by {
        assert(wanted(k));
    }
}

/// The keys of the entries that are not deleted are exactly those, in the order of the entries.
pub proof fn live_entry_keys_are_kept(entries: Vec<(String, Value, bool)>, keys: Vec<String>)
    requires
        call_ensures(sst_query::live_entry_keys, (&entries,), keys),
    ensures
        exists|at: Seq<int>|
            {
                &&& #[trigger] at.len() == keys@.len()
                &&& forall|k: int|
                    0 <= k < at.len() ==> 0 <= #[trigger] at[k] < entries@.len()
                        && entries@[at[k]].0@ == keys@[k]@ && !entries@[at[k]].2
                &&& forall|k: int, l: int|
                    0 <= k < l < at.len() ==> #[trigger] at[k] < #[trigger] at[l]
                &&& forall|i: int|
                    0 <= i < entries@.len() && !(#[trigger] entries@[i]).2 ==> at.contains(i)
            },
{
    let shown = sst_query::layer_view(entries@);
    let at = sst_query::live_keys_places(shown);
    assert(keys@.map_values(|k: String| k@).len() == at.len());
    assert forall|k: int| 0 <= k < at.len() implies 0 <= #[trigger] at[k] < entries@.len()
        && entries@[at[k]].0@ == keys@[k]@ && !entries@[at[k]].2 by {
        assert(keys@.map_values(|k: String| k@)[k] == keys@[k]@);
        assert(shown[at[k]].0 == entries@[at[k]].0@);
    }
    assert forall|i: int| 0 <= i < entries@.len() && !(#[trigger] entries@[i]).2 implies at.contains(
        i,
    ) by {
        assert(shown[i].2 == entries@[i].2);
    }
}

} // verus!
