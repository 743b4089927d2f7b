//! What the figures and settings of a storage come to: rates, names, limits and file operations.

use crate::file_io::{self, AtomicStep, AtomicWrite, ListedEntry};
use crate::kv_error::F4KvsError;
use crate::lsm_stats::LsmStats;
use crate::ratio::Ratio;
use crate::storage_config::{self, StorageBackend, StorageConfig};
use crate::storage_stats;
use crate::text;
use vstd::prelude::*;
use vstd::string::*;

verus! {

/// A rate is the part by the whole, and zero where there is nothing.
pub proof fn rate_is_part_of_whole(part: u64, whole: u64, r: Ratio)
    requires
        call_ensures(Ratio::of, (part, whole), r),
    ensures
        r.whole > 0,
        whole > 0 ==> r.part * whole == part * r.whole,
        whole == 0 ==> r.part == 0,
{
    let (p, w) = (part as int, whole as int);
    assert(p * w == p * w);
}

/// The rates of an engine are the shares of their counters: hits in all lookups, hits of the memtable
/// in all hits, and bytes by operations.
pub proof fn engine_rates_are_shares(
    s: LsmStats,
    operations: u64,
    hits: Ratio,
    of_memtable: Ratio,
    read: Ratio,
    written: Ratio,
)
    requires
        s.total_reads + s.total_writes + s.total_deletes <= u64::MAX,
        s.memtable_hits + s.sstable_hits + s.misses <= u64::MAX,
        call_ensures(LsmStats::total_operations, (&s,), operations),
        call_ensures(LsmStats::hit_rate, (&s,), hits),
        call_ensures(LsmStats::memtable_hit_rate, (&s,), of_memtable),
        call_ensures(LsmStats::average_read_size, (&s,), read),
        call_ensures(LsmStats::average_write_size, (&s,), written),
    ensures
        operations == s.total_reads + s.total_writes + s.total_deletes,
        s.memtable_hits + s.sstable_hits + s.misses > 0 ==> hits.part == s.memtable_hits
            + s.sstable_hits && hits.whole == s.memtable_hits + s.sstable_hits + s.misses,
        s.memtable_hits + s.sstable_hits > 0 ==> of_memtable.part == s.memtable_hits
            && of_memtable.whole == s.memtable_hits + s.sstable_hits,
        s.total_reads > 0 ==> read.part == s.total_bytes_read && read.whole == s.total_reads,
        s.total_writes > 0 ==> written.part == s.total_bytes_written && written.whole
            == s.total_writes,
        s.memtable_hits + s.sstable_hits == 0 ==> hits.part == 0 && of_memtable.part == 0,
        hits.whole > 0 && of_memtable.whole > 0 && read.whole > 0 && written.whole > 0,
{
}

/// A configuration is accepted exactly if it names a directory, has a background thread, and its
/// caches together fit the memory that may be used, where that is limited.
pub proof fn configuration_is_accepted_within_limits(
    c: StorageConfig,
    r: Result<(), F4KvsError>,
)
    requires
        call_ensures(StorageConfig::validate, (&c,), r),
    ensures
        r is Ok <==> {
            &&& c.data_dir@.len() > 0
            &&& c.background_threads >= 1
            &&& c.max_memory_usage matches Some(max) ==> c.cache.block_cache_size
                + c.cache.row_cache_size + c.cache.index_cache_size + c.cache.filter_cache_size
                <= max
        },
        r matches Err(e) ==> e is Storage,
{
}

/// A backend is found again under the name that it is told by.
pub proof fn backend_is_named_by_its_text(
    b: StorageBackend,
    name: String,
    s: &str,
    r: Result<StorageBackend, F4KvsError>,
)
    requires
        call_ensures(StorageBackend::to_text, (&b,), name),
        s@ == name@,
        call_ensures(StorageBackend::named, (s,), r),
    ensures
        r == Ok::<StorageBackend, F4KvsError>(b),
{
    storage_config::backend_name_back(b);
}

/// Names that differ in the case of their letters alone name the same backend.
pub proof fn case_of_a_name_is_ignored(
    s: &str,
    t: &str,
    r: Result<StorageBackend, F4KvsError>,
    q: Result<StorageBackend, F4KvsError>,
)
    requires
        s@.len() == t@.len(),
        forall|i: int|
            0 <= i < s@.len() ==> (#[trigger] s@[i] == t@[i] || ('A' <= t@[i] && t@[i] <= 'Z'
                && s@[i] as u32 == t@[i] as u32 + 32)),
        call_ensures(StorageBackend::named, (s,), r),
        call_ensures(StorageBackend::named, (t,), q),
    ensures
        r is Ok <==> q is Ok,
        r is Ok ==> r == q,
{
    let (a, b) = (storage_config::lowered(s@), storage_config::lowered(t@));
    assert forall|i: int| 0 <= i < a.len() implies a[i] == b[i] by {
        assert(s@[i] == t@[i] || ('A' <= t@[i] && t@[i] <= 'Z' && s@[i] as u32 == t@[i] as u32
            + 32));
        assert(a[i] == storage_config::lower(s@[i]) && b[i] == storage_config::lower(t@[i]));
    }
    assert(a =~= b);
}

/// A file is written under another name first and moved to its own then: the write is done only once
/// both succeeded, and where the move fails what was written is taken away again.
pub proof fn file_appears_whole_or_not_at_all(
    stage: AtomicWrite,
    path: &str,
    temp_path: &str,
    outcome: Result<(), String>,
    r: AtomicStep,
)
    requires
        call_ensures(file_io::atomic_write, (stage, path, temp_path, outcome), r),
    ensures
        r is Done <==> stage == AtomicWrite::Moving && outcome is Ok,
        r is Move <==> stage == AtomicWrite::Writing && outcome is Ok,
        r is RemoveAndFail <==> stage == AtomicWrite::Moving && outcome is Err,
        r is Fail <==> stage == AtomicWrite::Writing && outcome is Err,
        r matches AtomicStep::Fail(e) ==> e is Io,
        r matches AtomicStep::RemoveAndFail(e) ==> e is Io,
{
}

proof fn file_places(entries: Seq<Result<ListedEntry, String>>) -> (at: Seq<int>)
    ensures
        at.len() == file_io::file_paths(entries).len(),
        forall|k: int|
            0 <= k < at.len() ==> 0 <= #[trigger] at[k] < entries.len() && (
            entries[at[k]] matches Ok(e) && e.is_file == Ok::<bool, String>(true) && e.path@
                == file_io::file_paths(entries)[k]),
        forall|k: int, l: int| 0 <= k < l < at.len() ==> #[trigger] at[k] < #[trigger] at[l],
        forall|i: int|
            0 <= i < entries.len() && ((#[trigger] entries[i]) matches Ok(e) && e.is_file == Ok::<
                bool,
                String,
            >(true)) ==> at.contains(i),
    decreases entries.len(),
{
    if entries.len() == 0 {
        Seq::empty()
    } else {
        let less = entries.drop_last();
        let before = file_places(less);
        let n = entries.len() - 1;
        let last = entries[n] matches Ok(e) && e.is_file == Ok::<bool, String>(true);
        let at = if last {
            before.push(n)
        } else {
            before
        };
        assert forall|k: int| 0 <= k < at.len() implies 0 <= #[trigger] at[k] < entries.len() && (
        entries[at[k]] matches Ok(e) && e.is_file == Ok::<bool, String>(true) && e.path@
            == file_io::file_paths(entries)[k]) by {
            if k < before.len() {
                assert(less[before[k]] == entries[before[k]]);
                assert(file_io::file_paths(entries)[k] == file_io::file_paths(less)[k]);
            }
        }
        assert forall|i: int|
            0 <= i < entries.len() && ((#[trigger] entries[i]) matches Ok(e) && e.is_file == Ok::<
                bool,
                String,
            >(true)) implies at.contains(i) by {
            if i < n {
                assert(less[i] == entries[i]);
                let k = choose|k: int| 0 <= k < before.len() && before[k] == i;
                assert(at[k] == i);
            } else {
                assert(at[before.len() as int] == n);
            }
        }
        at
    }
}

/// The files of a directory are the paths of those entries that are files, in their order; the listing
/// fails exactly if an entry, or what it is, could not be read.
pub proof fn only_files_are_listed(
    dir: &str,
    entries: Vec<Result<ListedEntry, String>>,
    r: Result<Vec<String>, F4KvsError>,
)
    requires
        call_ensures(file_io::list_files, (dir, &entries), r),
    ensures
        r is Ok <==> forall|i: int|
            0 <= i < entries@.len() ==> ((#[trigger] entries@[i]) matches Ok(e) && e.is_file is Ok),
        r matches Ok(files) ==> exists|at: Seq<int>|
            {
                &&& #[trigger] at.len() == files@.len()
                &&& forall|k: int|
                    0 <= k < at.len() ==> 0 <= #[trigger] at[k] < entries@.len() && (
                    entries@[at[k]] matches Ok(e) && e.is_file == Ok::<bool, String>(true)
                        && files@[k]@ == e.path@)
                &&& forall|k: int, l: int|
                    0 <= k < l < at.len() ==> #[trigger] at[k] < #[trigger] at[l]
                &&& forall|i: int|
                    0 <= i < entries@.len() && ((#[trigger] entries@[i]) matches Ok(e) && e.is_file
                        == Ok::<bool, String>(true)) ==> at.contains(i)
            },
{
    if let Ok(files) = r {
        let at = file_places(entries@);
        let shown = files@.map_values(|f: String| f@);
        assert(shown.len() == files@.len());
        assert forall|i: int| 0 <= i < entries@.len() implies ((#[trigger] entries@[i]) matches Ok(e)
            && e.is_file is Ok) by {
            assert(file_io::readable(entries@[i]));
        }
        assert forall|k: int| 0 <= k < at.len() implies 0 <= #[trigger] at[k] < entries@.len() && (
        entries@[at[k]] matches Ok(e) && e.is_file == Ok::<bool, String>(true) && files@[k]@
            == e.path@) by {
            assert(shown[k] == files@[k]@);
        }
        assert(at.len() == files@.len());
    } else {
        let k = choose|k: int|
            0 <= k < entries@.len() && !file_io::readable(#[trigger] entries@[k]);
        assert(!(entries@[k] matches Ok(e) && e.is_file is Ok));
    }
}

/// A failure of a file operation tells the path and the reason.
pub proof fn file_failures_tell_path_and_reason(
    operation: file_io::FileOperation,
    path: &str,
    reason: &str,
    r: F4KvsError,
)
    requires
        call_ensures(file_io::file_error, (operation, path, reason), r),
    ensures
        r matches F4KvsError::Io { message } && text::contains(message@, path@)
            && reason@.is_suffix_of(message@),
{
    if let F4KvsError::Io { message } = r {
        let lead = operation.words();
        let m = message@;
        assert(m.subrange(lead.len() as int, (lead.len() + path@.len()) as int) =~= path@);
        assert(text::part_at(m, path@, lead.len() as int));
        assert(m.subrange(m.len() - reason@.len(), m.len() as int) =~= reason@);
    }
}

/// What an adapted operation gives is what the operation gave; a failure becomes one of the storage
/// that ends with what was shown of it.
pub proof fn adapted_outcome_is_the_same<T>(
    outcome: Result<T, F4KvsError>,
    r: Result<T, F4KvsError>,
)
    requires
        call_ensures(storage_stats::adapted::<T>, (outcome,), r),
    ensures
        outcome is Ok ==> r == outcome,
        outcome matches Err(e) ==> (r matches Err(F4KvsError::Storage { message })
            && e.shown().is_suffix_of(message@)),
{
    if let Err(e) = outcome {
        if let Err(F4KvsError::Storage { message }) = r {
            let m = message@;
            assert(m.subrange(m.len() - e.shown().len(), m.len() as int) =~= e.shown());
        }
    }
}

/// The configuration that is made where none is given is accepted, and is that of a storage with one
/// column family.
pub proof fn default_configuration_is_accepted(c: StorageConfig, r: Result<(), F4KvsError>)
    requires
        call_ensures(<StorageConfig as Default>::default, (), c),
        call_ensures(StorageConfig::validate, (&c,), r),
    ensures
        r is Ok,
        c.column_families@.len() == 1,
        c.data_dir@.len() > 0,
        c.background_threads > 0,
{
    reveal_strlit("./f4kvs_data");
}

} // verus!
