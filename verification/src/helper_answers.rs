//! What the smaller operations of the engine come to, taken together.

use crate::block_cache::{self, BlockCache};
use crate::bloom_filter::BloomFilter;
use crate::bytes;
use crate::duration::Duration;
use crate::engine_config::MemtableConfig;
use crate::error::LsmError;
use crate::error_handling::{ErrorHandler, ErrorMetrics};
use crate::json::{self, JsonNumber, JsonValue, JsonView};
use crate::kv_error::F4KvsError;
use crate::memtable::{Memtable, MemtableLookupResult, PutEffect};
use crate::monitoring::{
    AlertCondition, AlertManager, AlertRule, AlertSeverity, HealthCheckResult, HealthChecker,
    MetricValue, MetricsCollector, NotificationChannel,
};
use crate::ratio::Ratio;
use crate::sst_query;
use crate::sst_writer::TableWriter;
use crate::sstable::SSTable;
use crate::stable_sort::{self, Stamped};
use crate::storage_config::{
    CompactionStrategy, CompactionStyle, EvictionPolicy, StorageBackend, StorageConfig,
};
use crate::storage_stats::{self, CacheMetrics, ColumnFamilyStats, IoMetrics, StorageStats};
use crate::storage_traits::{self, OptionalOperation};
use crate::text;
use crate::validation::{
    IntegrityValidator, KeyValidationConfig, ValidationConfig, ValidationManager,
    ValueValidationConfig,
};
use crate::value::{self, PartMemory, Value, ValueView};
use vstd::prelude::*;
use vstd::string::*;
use vstd::utf8::encode_utf8;

verus! {

/// A new cache holds nothing, and its rate of hits is the share of hits in all lookups.
pub proof fn new_cache_is_empty(
    max: usize,
    fresh: BlockCache,
    c: BlockCache,
    rate: Ratio,
    full: block_cache::CacheStats,
    size: usize,
)
    requires
        call_ensures(BlockCache::new, (max,), fresh),
        c@.hits + c@.misses <= u64::MAX,
        call_ensures(BlockCache::hit_rate, (&c,), rate),
        call_ensures(BlockCache::stats, (&c,), full),
    ensures
        fresh@.blocks.dom().len() == 0,
        fresh@.current_size == 0,
        fresh@.hits == 0 && fresh@.misses == 0,
        fresh@.max_size == max,
        rate == full.hit_rate,
        c@.hits + c@.misses > 0 ==> rate.part == c@.hits && rate.whole == c@.hits + c@.misses,
        c@.hits + c@.misses == 0 ==> rate.part == 0 && rate.whole > 0,
        full.block_count == c@.blocks.dom().len(),
        full.current_size == c@.current_size,
        full.max_size == c@.max_size,
{
}

/// A filter for so many keys has ten bits for each and holds none of them; its size in bytes is the
/// least that its bits fit in.
pub proof fn filter_is_sized_for_its_keys(
    n: usize,
    f: BloomFilter,
    size: usize,
    hashes: usize,
    bits: usize,
    none: bool,
    good: bool,
    packed: usize,
)
    requires
        call_ensures(BloomFilter::with_optimal_params, (n,), f),
        call_ensures(BloomFilter::size, (&f,), size),
        call_ensures(BloomFilter::hash_count, (&f,), hashes),
        call_ensures(BloomFilter::bits_len, (&f,), bits),
        call_ensures(BloomFilter::bits_is_empty, (&f,), none),
        call_ensures(BloomFilter::is_valid, (&f,), good),
        call_ensures(BloomFilter::size_bytes, (&f,), packed),
    ensures
        size == 10 * n,
        hashes == 7,
        bits == size,
        none <==> bits == 0,
        good <==> n > 0,
        packed * 8 >= size,
        packed > 0 ==> (packed - 1) * 8 < size,
{
}

/// Mending a filter makes its bits as many as they should be, and keeps those that it has; a filter
/// that needs no mending is left as it is.
pub proof fn mended_filter_keeps_its_bits(
    f: &mut BloomFilter,
    fixed: bool,
    before: usize,
    size: usize,
    after: usize,
    i: int,
)
    requires
        call_ensures(BloomFilter::bits_len, (&*old(f),), before),
        call_ensures(BloomFilter::size, (&*old(f),), size),
        call_ensures(BloomFilter::validate_and_fix_invariant, (f,), fixed),
        call_ensures(BloomFilter::bits_len, (&*final(f),), after),
    ensures
        fixed <==> before != size,
        after == size,
        0 <= i < before && i < size ==> final(f).bit_seq()[i] == old(f).bit_seq()[i],
        before <= i < size ==> !final(f).bit_seq()[i],
        !fixed ==> final(f).bit_seq() == old(f).bit_seq(),
{
}

/// A filter that was cleared rules every key out and keeps its size; one whose bits were cleared has
/// no size left.
pub proof fn cleared_filter_holds_nothing(
    f: &mut BloomFilter,
    g: &mut BloomFilter,
    size: usize,
    after: usize,
    i: int,
    none: bool,
    left: usize,
    good: bool,
)
    requires
        call_ensures(BloomFilter::size, (&*old(f),), size),
        call_ensures(BloomFilter::clear, (f,), ()),
        call_ensures(BloomFilter::size, (&*final(f),), after),
        call_ensures(BloomFilter::clear_bits, (g,), ()),
        call_ensures(BloomFilter::bits_is_empty, (&*final(g),), none),
        call_ensures(BloomFilter::size, (&*final(g),), left),
        call_ensures(BloomFilter::is_valid, (&*final(g),), good),
    ensures
        after == size,
        0 <= i < size ==> !final(f).bit_seq()[i],
        final(f).bit_seq().len() == size,
        none,
        left == 0,
        !good,
{
}

/// An operation has a first try exactly if one is allowed; what is recorded of recovery is counted,
/// and forgotten when the record is reset.
pub proof fn tries_are_allowed_and_counted(
    retries: u32,
    delay: u64,
    h: ErrorHandler,
    r: Result<u32, F4KvsError>,
    m: &mut ErrorMetrics,
    n: &mut ErrorMetrics,
)
    requires
        call_ensures(ErrorHandler::new, (retries, delay), h),
        call_ensures(ErrorHandler::first_attempt, (&h,), r),
        old(m).recovery_attempts < u64::MAX,
        call_ensures(ErrorMetrics::record_recovery_attempt, (m,), ()),
        call_ensures(ErrorMetrics::reset, (n,), ()),
    ensures
        h.max_retries == retries,
        h.retry_delay_ms == delay,
        r is Ok <==> retries > 0,
        r matches Ok(first) ==> first == 1,
        final(m).recovery_attempts == old(m).recovery_attempts + 1,
        final(m).total_errors == old(m).total_errors,
        final(n).recovery_attempts == 0,
        final(n).total_errors == 0,
{
}

/// A put that would overflow the counters of a memtable is not done; any other is done as `put` does
/// it, and tells whether the key was new, deleted or live before.
pub proof fn tried_put_is_looked_up(
    m: &mut Memtable,
    key: &str,
    v: &Value,
    before: Result<MemtableLookupResult, LsmError>,
    r: Option<PutEffect>,
    found: Result<MemtableLookupResult, LsmError>,
)
    requires
        call_ensures(Memtable::lookup, (&*old(m), key), before),
        call_ensures(Memtable::try_put, (m, key, v), r),
        call_ensures(Memtable::lookup, (&*final(m), key), found),
    ensures
        r is None ==> *final(m) == *old(m),
        r is Some && v@ is Null ==> (found matches Ok(MemtableLookupResult::Tombstone)),
        r is Some && !(v@ is Null) ==> (found matches Ok(MemtableLookupResult::Found(f)) && f@
            == v@),
        r == Some(PutEffect::Inserted) <==> r is Some && (before matches Ok(
            MemtableLookupResult::Missing,
        )),
        r == Some(PutEffect::Resurrected) <==> r is Some && (before matches Ok(
            MemtableLookupResult::Tombstone,
        )),
        r == Some(PutEffect::UpdatedLive) <==> r is Some && (before matches Ok(
            MemtableLookupResult::Found(_),
        )),
{
}

/// A memtable is full exactly when its size has reached what is configured.
pub proof fn full_memtable_has_reached_its_size(
    m: Memtable,
    size: usize,
    config: &MemtableConfig,
    full: bool,
)
    requires
        call_ensures(Memtable::size, (&m,), size),
        call_ensures(Memtable::config, (&m,), config),
        call_ensures(Memtable::is_full, (&m,), full),
    ensures
        full <==> size >= config.max_size,
{
}

/// Severities and conditions are told by words that tell them apart: a severity by a word with its own
/// first letter, and a condition by what has to be greater or less, and whether equal will do.
pub proof fn words_tell_apart(
    a: AlertSeverity,
    b: AlertSeverity,
    wa: &'static str,
    wb: &'static str,
    c: AlertCondition,
    d: AlertCondition,
    wc: &'static str,
    wd: &'static str,
)
    requires
        call_ensures(AlertSeverity::as_str, (&a,), wa),
        call_ensures(AlertSeverity::as_str, (&b,), wb),
        call_ensures(AlertCondition::phrase, (&c,), wc),
        call_ensures(AlertCondition::phrase, (&d,), wd),
    ensures
        wa@ == wb@ <==> a == b,
        wc@ == wd@ <==> c == d,
        a is Info <==> wa@[0] == 'i',
        a is Warning <==> wa@[0] == 'w',
        a is Critical <==> wa@[0] == 'c',
        a is Emergency <==> wa@[0] == 'e',
        c is GreaterThan || c is GreaterThanOrEqual <==> wc@.len() > 3 && wc@[3] == 'g',
        c is LessThan || c is LessThanOrEqual <==> wc@.len() > 3 && wc@[3] == 'l',
        c is GreaterThanOrEqual || c is LessThanOrEqual ==> wc@.len() > wd@.len() || d
            is GreaterThanOrEqual || d is LessThanOrEqual,
        c is EqualTo <==> wc@[0] == 'e',
        c is NotEqualTo <==> wc@[0] == 'd',
{
    reveal_strlit("info");
    reveal_strlit("warning");
    reveal_strlit("critical");
    reveal_strlit("emergency");
    reveal_strlit("is greater than");
    reveal_strlit("is less than");
    reveal_strlit("equals");
    reveal_strlit("does not equal");
    reveal_strlit("is greater than or equal to");
    reveal_strlit("is less than or equal to");
    if a != b {
        assert(wa@.len() != wb@.len() || wa@[0] != wb@[0]);
    }
    if c != d {
        assert(wc@.len() != wd@.len());
    }
}

/// What is added to a manager of alerts is kept behind what it has; a new one has nothing, nor have
/// a new collector and a new checker.
pub proof fn rules_and_channels_are_kept(
    fresh: AlertManager,
    m: &mut AlertManager,
    rule: AlertRule,
    n: &mut AlertManager,
    channel: NotificationChannel,
    collector: MetricsCollector,
    metrics: &Vec<MetricValue>,
    checker: HealthChecker,
    results: &Vec<HealthCheckResult>,
)
    requires
        call_ensures(AlertManager::new, (), fresh),
        call_ensures(AlertManager::add_rule, (m, rule), ()),
        call_ensures(AlertManager::add_notification_channel, (n, channel), ()),
        call_ensures(MetricsCollector::new, (), collector),
        call_ensures(MetricsCollector::get_metrics, (&collector,), metrics),
        call_ensures(HealthChecker::new, (), checker),
        call_ensures(HealthChecker::get_results, (&checker,), results),
    ensures
        fresh.rules@.len() == 0,
        fresh.channels@.len() == 0,
        final(m).rules@ == old(m).rules@.push(rule),
        final(m).channels == old(m).channels,
        final(n).channels@ == old(n).channels@.push(channel),
        final(n).rules == old(n).rules,
        metrics@.len() == 0,
        results@.len() == 0,
{
}

/// The keys of a table stand in its index in their order: a prefix starts where the keys before it
/// end, each place has its key, and all places are told.
pub proof fn index_places_have_their_keys(
    t: SSTable,
    prefix: &str,
    start: usize,
    pos: usize,
    at: Option<Vec<u8>>,
    key: &[u8],
    same: bool,
    all: Vec<(String, u64, u32)>,
    i: int,
)
    requires
        forall|a: int, b: int|
            0 <= a < b < t.index@.len() ==> bytes::bytes_lt(
                (#[trigger] t.index@[a]).0,
                (#[trigger] t.index@[b]).0,
            ),
        call_ensures(SSTable::index_start, (&t, prefix), start),
        call_ensures(SSTable::index_key_at, (&t, pos), at),
        call_ensures(SSTable::index_key_eq, (&t, pos, key), same),
        call_ensures(SSTable::all_locations, (&t,), all),
        0 <= i < t.index@.len(),
    ensures
        start <= t.index@.len(),
        i < start <==> bytes::bytes_lt(t.index@[i].0, encode_utf8(prefix@)),
        at is Some <==> pos < t.index@.len(),
        same <==> (at matches Some(k) && k@ == key@),
        pos == i ==> (at matches Some(k) && k@ == t.index@[i].0),
        all@.len() == t.index@.len(),
        all@[i].1 == t.index@[i].1 && all@[i].2 == t.index@[i].2,
{
    assert(crate::flat_index::keys_ascend(t.recs()));
    crate::flat_index::ascending_is_in_order(t.recs());
    let shown = sst_query::locs_view(all@);
    let wanted = sst_query::locations(t.recs());
    assert(shown.len() == all@.len());
    assert(wanted.len() == t.recs().len());
    assert(shown[i] == wanted[i]);
}

/// Choices of a configuration are told by names that tell them apart.
pub proof fn names_tell_choices_apart(
    a: CompactionStrategy,
    b: CompactionStrategy,
    na: String,
    nb: String,
    c: CompactionStyle,
    d: CompactionStyle,
    nc: String,
    nd: String,
    e: EvictionPolicy,
    f: EvictionPolicy,
    ne: String,
    nf: String,
)
    requires
        call_ensures(CompactionStrategy::to_text, (&a,), na),
        call_ensures(CompactionStrategy::to_text, (&b,), nb),
        call_ensures(CompactionStyle::to_text, (&c,), nc),
        call_ensures(CompactionStyle::to_text, (&d,), nd),
        call_ensures(EvictionPolicy::to_text, (&e,), ne),
        call_ensures(EvictionPolicy::to_text, (&f,), nf),
    ensures
        na@ == nb@ <==> a == b,
        nc@ == nd@ <==> c == d,
        ne@ == nf@ <==> e == f,
        a is SizeTiered <==> na@[0] == 's',
        a is LevelTiered <==> na@[0] == 'l',
        c is Level <==> nc@[0] == 'l',
        c is Universal <==> nc@[0] == 'u',
        e is Lru <==> ne@[1] == 'r',
        e is Lfu <==> ne@[1] == 'f',
        e is Ttl <==> ne@[0] == 't',
        e is Random <==> ne@[0] == 'r',
{
    reveal_strlit("size-tiered");
    reveal_strlit("level-tiered");
    reveal_strlit("time-windowed");
    reveal_strlit("level");
    reveal_strlit("universal");
    reveal_strlit("fifo");
    reveal_strlit("lru");
    reveal_strlit("lfu");
    reveal_strlit("ttl");
    reveal_strlit("random");
    reveal_strlit("no-eviction");
    if a != b {
        assert(na@[0] != nb@[0]);
    }
    if c != d {
        assert(nc@[0] != nd@[0]);
    }
    if e != f {
        assert(ne@.len() != nf@.len() || ne@[0] != nf@[0] || ne@[1] != nf@[1]);
    }
}

/// A configuration for tests is for the directory that it is given, and is accepted.
pub proof fn test_configuration_is_accepted(
    dir: String,
    c: StorageConfig,
    r: Result<(), F4KvsError>,
)
    requires
        call_ensures(StorageConfig::for_testing, (dir,), c),
        dir@.len() > 0,
        call_ensures(StorageConfig::validate, (&c,), r),
    ensures
        r is Ok,
        c.data_dir@ == dir@,
        c.backend == StorageBackend::LsmTree,
        c.column_families@.len() == 1,
{
}

/// The states of health are told by words that tell them apart, and a reason is told with them.
pub proof fn health_is_told_in_words(
    a: storage_stats::HealthStatus,
    b: storage_stats::HealthStatus,
    wa: String,
    wb: String,
    why: String,
    good: String,
    weak: String,
    bad: String,
)
    requires
        call_ensures(storage_stats::HealthStatus::to_text, (&a,), wa),
        call_ensures(storage_stats::HealthStatus::to_text, (&b,), wb),
        call_ensures(
            storage_traits::HealthStatus::to_text,
            (&storage_traits::HealthStatus::Healthy,),
            good,
        ),
        call_ensures(
            storage_traits::HealthStatus::to_text,
            (&storage_traits::HealthStatus::Degraded(why),),
            weak,
        ),
        call_ensures(
            storage_traits::HealthStatus::to_text,
            (&storage_traits::HealthStatus::Unhealthy(why),),
            bad,
        ),
    ensures
        wa@ == wb@ <==> a == b,
        a is Healthy <==> wa@[0] == 'h',
        a is Degraded <==> wa@[0] == 'd',
        a is Unhealthy <==> wa@[0] == 'u',
        good@[0] == 'h' && weak@[0] == 'd' && bad@[0] == 'u',
        text::contains(weak@, why@),
        text::contains(bad@, why@),
        weak@ != bad@,
        good@ != weak@ && good@ != bad@,
{
    reveal_strlit("healthy");
    reveal_strlit("degraded");
    reveal_strlit("unhealthy");
    reveal_strlit("degraded: ");
    reveal_strlit("unhealthy: ");
    if a != b {
        assert(wa@[0] != wb@[0]);
    }
    let i = weak@.len() - why@.len();
    assert(weak@.subrange(i, i + why@.len()) =~= why@);
    assert(text::part_at(weak@, why@, i));
    let j = bad@.len() - why@.len();
    assert(bad@.subrange(j, j + why@.len()) =~= why@);
    assert(text::part_at(bad@, why@, j));
    assert(weak@[0] == 'd' && bad@[0] == 'u' && good@[0] == 'h');
}

/// An operation that a backend does not have is refused by name.
pub proof fn missing_operations_are_refused(a: F4KvsError, b: F4KvsError)
    requires
        call_ensures(storage_traits::unsupported, (OptionalOperation::Clear,), a),
        call_ensures(storage_traits::unsupported, (OptionalOperation::Transactions,), b),
    ensures
        a matches F4KvsError::Storage { message: ma } && b matches F4KvsError::Storage {
            message: mb,
        } && ma@ != mb@,
{
    reveal_strlit("Clear operation not supported by this storage backend");
    reveal_strlit("Transactions not supported by this storage backend");
    if let F4KvsError::Storage { message: ma } = a {
        if let F4KvsError::Storage { message: mb } = b {
            assert(ma@[0] != mb@[0]);
        }
    }
}

/// The use of a cache is the share of its capacity; a rate is above a percentage, below it, or just
/// that, and what is below a percentage is below every higher one.
pub proof fn rates_are_compared(
    c: CacheMetrics,
    used: Ratio,
    r: Ratio,
    p: u64,
    q: u64,
    below: bool,
    above: bool,
    below_more: bool,
    above_more: bool,
)
    requires
        call_ensures(CacheMetrics::utilization, (&c,), used),
        call_ensures(Ratio::is_below, (&r, p), below),
        call_ensures(Ratio::is_above, (&r, p), above),
        call_ensures(Ratio::is_below, (&r, q), below_more),
        call_ensures(Ratio::is_above, (&r, q), above_more),
        p <= q,
        r.whole > 0,
    ensures
        c.capacity > 0 ==> used.part == c.usage && used.whole == c.capacity,
        c.capacity == 0 ==> used.part == 0,
        !(below && above),
        below ==> below_more,
        above_more ==> above,
        p == 0 ==> !below,
        p == 100 && r.part <= r.whole ==> !above,
        !below && !above <==> 100 * r.part == p * r.whole,
{
    assert(p * r.whole <= q * r.whole) by (nonlinear_arith)
        requires
            p <= q,
            r.whole > 0,
    ;
    assert(p == 0 ==> p * r.whole == 0) by (nonlinear_arith);
    assert(p == 100 ==> p * r.whole == 100 * r.whole) by (nonlinear_arith);
}

/// What was done in a time that is not zero is told as so much in that time, and a time of zero
/// changes nothing.
pub proof fn throughput_is_amount_in_time(m: &mut IoMetrics, time: Duration)
    requires
        call_ensures(IoMetrics::calculate_throughput, (m, time), ()),
    ensures
        time.secs == 0 && time.nanos == 0 ==> *final(m) == *old(m),
        time.secs > 0 || time.nanos > 0 ==> (final(m).ops_per_second matches Some(t) && t.amount
            == old(m).operation_count && t.duration == time),
        time.secs > 0 || time.nanos > 0 ==> (final(m).bytes_per_second matches Some(t) && t.amount
            == old(m).total_bytes && t.duration == time),
        final(m).operation_count == old(m).operation_count,
        final(m).total_bytes == old(m).total_bytes,
{
}

/// New statistics count nothing yet, and are of the time that they are made.
pub proof fn new_statistics_count_nothing(now: Duration, c: ColumnFamilyStats, s: StorageStats)
    requires
        call_ensures(ColumnFamilyStats::new, (now,), c),
        call_ensures(StorageStats::new, (now,), s),
    ensures
        c.key_count == 0 && c.size_bytes == 0 && c.read_ops == 0 && c.write_ops == 0
            && c.delete_ops == 0,
        c.last_updated == now,
        s.total_keys == 0 && s.total_size_bytes == 0 && s.cf_stats@.len() == 0,
        s.timestamp == now,
{
}

/// A manager checks what it is configured to check, and one that is made of rules is enabled.
pub proof fn manager_is_enabled_as_configured(
    key: KeyValidationConfig,
    value: ValueValidationConfig,
    made: ValidationManager,
    on: bool,
    config: ValidationConfig,
    given: ValidationManager,
    told: bool,
)
    requires
        call_ensures(ValidationManager::new, (key, value), made),
        call_ensures(ValidationManager::is_enabled, (&made,), on),
        call_ensures(ValidationManager::from_config, (config,), given),
        call_ensures(ValidationManager::is_enabled, (&given,), told),
    ensures
        on,
        told == config.enabled,
{
}

/// Data is accepted exactly if it is as long as it should be, and exactly if it is not empty.
pub proof fn data_of_the_right_size_is_accepted(
    data: &[u8],
    n: usize,
    of_size: Result<(), F4KvsError>,
    filled: Result<(), F4KvsError>,
)
    requires
        call_ensures(IntegrityValidator::validate_size, (data, n), of_size),
        call_ensures(IntegrityValidator::validate_not_empty, (data,), filled),
    ensures
        of_size is Ok <==> data@.len() == n,
        filled is Ok <==> data@.len() != 0,
        of_size matches Err(e) ==> e is Storage,
        filled matches Err(e) ==> e is Storage,
{
}

/// A value is null exactly if it is `Null`; values of two kinds have two names of kinds, each with the
/// letters that its kind begins with.
pub proof fn kinds_have_their_names(
    a: Value,
    b: Value,
    null: bool,
    ka: &'static str,
    kb: &'static str,
)
    requires
        call_ensures(Value::is_null, (&a,), null),
        call_ensures(Value::kind_name, (&a,), ka),
        call_ensures(Value::kind_name, (&b,), kb),
    ensures
        null <==> a@ is Null,
        ka@ == kb@ ==> (a@ is String <==> b@ is String) && (a@ is Int64 <==> b@ is Int64) && (
        a@ is UInt64 <==> b@ is UInt64) && (a@ is Float64 <==> b@ is Float64) && (a@ is Bool
            <==> b@ is Bool) && (a@ is Bytes <==> b@ is Bytes) && (a@ is Json <==> b@ is Json) && (
        a@ is Null <==> b@ is Null),
        a@ is String && b@ is String ==> ka@ == kb@,
        a@ is String <==> ka@[0] == 'S',
        a@ is Int64 <==> ka@[0] == 'I',
        a@ is UInt64 <==> ka@[0] == 'U',
        a@ is Float64 <==> ka@[0] == 'F',
        a@ is Bool || a@ is Bytes <==> ka@[0] == 'B',
        a@ is Bytes <==> ka@[0] == 'B' && ka@[1] == 'y',
        a@ is Json <==> ka@[0] == 'J',
        a@ is Null <==> ka@[0] == 'N',
{
    reveal_strlit("String");
    reveal_strlit("Int64");
    reveal_strlit("UInt64");
    reveal_strlit("Float64");
    reveal_strlit("Bool");
    reveal_strlit("Bytes");
    reveal_strlit("Json");
    reveal_strlit("Null");
    if ka@ == kb@ {
        assert(ka@.len() == kb@.len());
        assert(ka@[0] == kb@[0]);
    }
}

/// What was read of a JSON text is a value exactly if the text was read to its end, and what is left
/// over is told.
pub proof fn text_is_read_to_its_end(
    doc: JsonValue,
    rest: String,
    whole: Result<Value, F4KvsError>,
    part: Result<Value, F4KvsError>,
    m: String,
    none: Result<Value, F4KvsError>,
)
    requires
        call_ensures(Value::from_parsed, (Ok((doc, None)),), whole),
        call_ensures(Value::from_parsed, (Ok((doc, Some(rest))),), part),
        call_ensures(Value::from_parsed, (Err(m),), none),
    ensures
        part is Err,
        none matches Err(F4KvsError::Serialization { message }) && message@ == m@,
        whole is Ok ==> (part matches Err(F4KvsError::Serialization { message }) && message@
            == rest@),
{
}

/// A copy of a document is the document, and is as deep.
pub proof fn copied_document_is_the_same(
    j: JsonValue,
    copy: JsonValue,
    deep: usize,
    deep_too: usize,
)
    requires
        call_ensures(json::copy_document, (&j,), copy),
        call_ensures(json::depth_of, (&j,), deep),
        call_ensures(json::depth_of, (&copy,), deep_too),
    ensures
        copy@ == j@,
        deep == deep_too,
        deep >= 1,
        !(j@ is Array) && !(j@ is Object) ==> deep == 1,
{
}

/// A number that is kept as a floating point number is given as its own bits.
pub proof fn float_is_given_as_it_is(bits: u64, r: u64)
    requires
        call_ensures(JsonNumber::as_float_bits, (&JsonNumber::Float(bits),), r),
    ensures
        r == bits,
{
}

proof fn more_parts_need_more(parts: Seq<PartMemory>, p: PartMemory)
    ensures
        value::parts_memory(parts.push(p)) == value::parts_memory(parts) + p.adds(),
{
    assert(parts.push(p).drop_last() =~= parts);
    assert(parts.push(p).last() == p);
}

/// An array is not told to need less for a part more, nor for more room.
pub proof fn larger_arrays_need_no_less(
    capacity: usize,
    more: usize,
    parts: Vec<PartMemory>,
    longer: Vec<PartMemory>,
    p: PartMemory,
    r: usize,
    with_part: usize,
    with_room: usize,
)
    requires
        capacity <= more,
        longer@ == parts@.push(p),
        call_ensures(value::estimate_array, (capacity, &parts), r),
        call_ensures(value::estimate_array, (capacity, &longer), with_part),
        call_ensures(value::estimate_array, (more, &parts), with_room),
    ensures
        with_part >= r,
        with_room >= r,
        p matches PartMemory::Text(n) ==> (with_part < usize::MAX ==> with_part == r + n),
        p is Number && with_part < usize::MAX ==> with_part == r + 8,
        p is Object && with_part < usize::MAX ==> with_part == r + 64,
        vstd::layout::size_of::<serde_json::Value>() <= usize::MAX ==> r
            >= vstd::layout::size_of::<serde_json::Value>(),
{
    more_parts_need_more(parts@, p);
    let each = vstd::layout::size_of::<serde_json::Value>();
    assert(capacity * each <= more * each) by (nonlinear_arith)
        requires
            capacity <= more,
            each >= 0,
    ;
    assert(capacity * each >= 0) by (nonlinear_arith)
        requires
            each >= 0,
            capacity >= 0,
    ;
}

/// A text or bytes are told to need a byte for each of theirs more; numbers and truth values need
/// what they need whatever they are.
pub proof fn longer_values_need_more(
    a: Value,
    b: Value,
    ra: usize,
    rb: usize,
)
    requires
        call_ensures(Value::memory_size, (&a,), ra),
        call_ensures(Value::memory_size, (&b,), rb),
    ensures
        a@ matches ValueView::String(s) ==> (b@ matches ValueView::String(t) ==> (encode_utf8(
            s,
        ).len() <= encode_utf8(t).len() ==> ra <= rb)),
        a@ matches ValueView::Bytes(s) ==> (b@ matches ValueView::Bytes(t) ==> (s.len() <= t.len()
            ==> ra <= rb)),
        a@ matches ValueView::Bytes(s) ==> ra >= s.len() || ra == usize::MAX,
        a@ is Int64 || a@ is UInt64 || a@ is Float64 ==> ra == 8,
        a@ is Bool ==> ra == 1,
{
}

/// A table is written entry by entry: an entry is in the block that is being filled until the block
/// is written, and the finished data holds what the blocks hold.
pub proof fn entries_fill_blocks(
    fresh: TableWriter,
    w: &mut TableWriter,
    key: &str,
    data: &[u8],
    r: Result<(), LsmError>,
    x: &mut TableWriter,
    flushed: Result<(), LsmError>,
)
    requires
        call_ensures(TableWriter::start, (), fresh),
        call_ensures(TableWriter::add_entry, (w, key, data), r),
        *old(x) == *final(w),
        call_ensures(TableWriter::write_snappy_block, (x,), flushed),
    ensures
        fresh@.block.len() == 0 && fresh@.recs.len() == 0 && fresh@.pending.len() == 0,
        old(w)@.block.len() < 32768 ==> {
            &&& r is Ok
            &&& final(w)@.out == old(w)@.out
            &&& final(w)@.recs == old(w)@.recs
            &&& final(w)@.pending.len() == old(w)@.pending.len() + 1
            &&& final(w)@.block.len() > old(w)@.block.len()
            &&& old(w)@.block.is_prefix_of(final(w)@.block)
        },
        old(w)@.block.len() >= 32768 && r is Ok ==> {
            &&& final(w)@.out.len() > old(w)@.out.len()
            &&& final(w)@.recs.len() == old(w)@.recs.len() + old(w)@.pending.len()
            &&& final(w)@.pending.len() == 1
        },
        r is Err ==> final(w)@ == old(w)@,
        r is Ok && flushed is Ok ==> final(x)@.block.len() == 0 && final(x)@.pending.len() == 0,
        r is Ok && flushed is Ok ==> final(x)@.recs.len() == old(w)@.recs.len() + old(w)@.pending.len()
            + 1,
        flushed is Ok ==> old(w)@.out.is_prefix_of(final(x)@.out),
        flushed is Err ==> final(x)@ == final(w)@,
{
    bytes::u32_back(data@.len() as u32);
    let b = old(w)@.block;
    if b.len() < 32768 {
        assert(final(w)@.block.subrange(0, b.len() as int) =~= b);
    }
    bytes::u32_back(b.len() as u32);
    let o = old(w)@.out;
    if flushed is Ok {
        assert(final(x)@.out.subrange(0, o.len() as int) =~= o);
    }
}

/// Sorting by a stamp gives the same items, none before one of a lower stamp, and leaves items of one
/// stamp in their order.
pub proof fn sorted_items_ascend<T: Stamped>(
    items: Vec<T>,
    r: Vec<T>,
    stamp: u64,
    keep: spec_fn(T) -> bool,
)
    requires
        forall|x: T| #[trigger] keep(x) <==> x.stamp_of() == stamp,
        call_ensures(stable_sort::sort_by_stamp::<T>, (items,), r),
    ensures
        r@.len() == items@.len(),
        forall|i: int, j: int|
            0 <= i < j < r@.len() ==> (#[trigger] r@[i]).stamp_of() <= (
            #[trigger] r@[j]).stamp_of(),
        forall|i: int| 0 <= i < r@.len() ==> items@.contains(#[trigger] r@[i]),
        forall|i: int| 0 <= i < items@.len() ==> r@.contains(#[trigger] items@[i]),
        r@.filter(keep) == items@.filter(keep),
{
    assert forall|i: int| 0 <= i < r@.len() implies items@.contains(#[trigger] r@[i]) by {
        stable_sort::sorted_item_was_there(items@, r@, i);
    }
    assert forall|i: int| 0 <= i < items@.len() implies r@.contains(#[trigger] items@[i]) by {
        stable_sort::item_is_kept(items@, r@, i);
    }
    assert(stable_sort::at_stamp(r@, stamp) == stable_sort::at_stamp(items@, stamp));
    filter_is_at_stamp(r@, stamp, keep);
    filter_is_at_stamp(items@, stamp, keep);
}

proof fn filter_is_at_stamp<T: Stamped>(items: Seq<T>, stamp: u64, keep: spec_fn(T) -> bool)
    requires
        forall|x: T| #[trigger] keep(x) <==> x.stamp_of() == stamp,
    ensures
        items.filter(keep) == stable_sort::at_stamp(items, stamp),
    decreases items.len(),
{
    reveal(Seq::filter);
    if items.len() > 0 {
        filter_is_at_stamp(items.drop_last(), stamp, keep);
        assert(keep(items.last()) <==> items.last().stamp_of() == stamp);
    }
}

/// A document that was read from bytes is the value that it is when it is read from a text.
pub proof fn bytes_are_read_as_texts_are(
    data: &[u8],
    doc: JsonValue,
    of_bytes: Result<Value, F4KvsError>,
    of_text: Result<Value, F4KvsError>,
)
    requires
        json::json_parsed_bytes(data@) == Ok::<JsonView, Seq<char>>(doc@),
        call_ensures(Value::from_json_bytes, (data,), of_bytes),
        call_ensures(Value::from_parsed, (Ok((doc, None)),), of_text),
    ensures
        of_bytes is Ok <==> of_text is Ok,
        of_bytes matches Ok(v) ==> (of_text matches Ok(w) && w@ == v@),
{
}

/// An object is not told to need less for a member more; a text needs at least its bytes.
pub proof fn larger_objects_need_no_less(
    parts: Vec<(usize, PartMemory)>,
    longer: Vec<(usize, PartMemory)>,
    key: usize,
    p: PartMemory,
    r: usize,
    more: usize,
    j: JsonValue,
    of: PartMemory,
)
    requires
        longer@ == parts@.push((key, p)),
        call_ensures(value::estimate_object, (&parts,), r),
        call_ensures(value::estimate_object, (&longer,), more),
        call_ensures(PartMemory::of, (&j,), of),
    ensures
        more >= r,
        more >= key || more == usize::MAX,
        j@ matches JsonView::String(s) ==> (of matches PartMemory::Text(n) && n >= encode_utf8(
            s,
        ).len()),
        j@ is Object <==> of is Object,
        j@ is Number <==> of is Number,
{
    assert(longer@.drop_last() =~= parts@);
    assert(longer@.last() == (key, p));
    let each = vstd::layout::size_of::<String>() + vstd::layout::size_of::<serde_json::Value>();
    let n = parts@.len();
    assert((n + 1) * each == n * each + each) by (nonlinear_arith);
    members_need_something(parts@);
    assert(n * each >= 0) by (nonlinear_arith)
        requires
            n >= 0,
            each >= 0,
    ;
}

proof fn members_need_something(parts: Seq<(usize, PartMemory)>)
    ensures
        value::members_memory(parts) >= 0,
    decreases parts.len(),
{
    if parts.len() > 0 {
        members_need_something(parts.drop_last());
    }
}

/// A finished table holds everything that was written before, and a place for each entry.
pub proof fn finished_table_has_all_places(
    w: TableWriter,
    r: Result<(Vec<u8>, Vec<(String, u64, u32)>), LsmError>,
)
    requires
        w@.block.len() == 0 <==> w@.pending.len() == 0,
        call_ensures(TableWriter::finish, (w,), r),
    ensures
        w@.block.len() <= 0x4000_0000 ==> r is Ok,
        r matches Ok((out, pairs)) ==> w@.out.is_prefix_of(out@) && pairs@.len() == w@.recs.len()
            + w@.pending.len(),
{
    if let Ok((out, pairs)) = r {
        let recs = crate::flat_index::pairs_records(pairs@);
        assert(recs.len() == pairs@.len());
        assert(out@.subrange(0, w@.out.len() as int) =~= w@.out);
    }
}

/// A table tells the time at which it was last used, and whether it holds blocks.
pub proof fn table_tells_its_last_use(
    t: &mut SSTable,
    now: u64,
    told: u64,
    blocks: bool,
)
    requires
        call_ensures(SSTable::update_last_access, (t, now), ()),
        call_ensures(SSTable::last_access, (&*final(t),), told),
        call_ensures(SSTable::is_block_compressed, (&*final(t),), blocks),
    ensures
        told == now,
        blocks == old(t).block_compressed,
        final(t).index == old(t).index,
        final(t).is_ready == old(t).is_ready,
{
}

} // verus!
