//! Statistics of a storage. Rates are exact fractions; measured rates in floating point are held by
//! their bits.

use crate::duration::Duration;
use crate::kv_error::F4KvsError;
use crate::ratio::Ratio;
use crate::text::cat;
use vstd::prelude::*;
use vstd::string::*;

verus! {

/// How healthy a storage is.
#[derive(Debug, Clone, Copy, PartialEq, Eq, Structural)]
pub enum HealthStatus {
    /// All is well.
    Healthy,
    /// There are issues, but it works.
    Degraded,
    /// There are critical issues.
    Unhealthy,
}

impl HealthStatus {
    /// The name of the status.
    pub fn to_text(&self) -> (r: String)
        ensures
            r@ == match *self {
                HealthStatus::Healthy => "healthy"@,
                HealthStatus::Degraded => "degraded"@,
                HealthStatus::Unhealthy => "unhealthy"@,
            },
    {
        match self {
            HealthStatus::Healthy => "healthy".to_owned(),
            HealthStatus::Degraded => "degraded".to_owned(),
            HealthStatus::Unhealthy => "unhealthy".to_owned(),
        }
    }
}

/// Counters of a cache.
#[derive(Debug, Clone, Copy, PartialEq, Eq, Structural)]
pub struct CacheMetrics {
    /// Room in bytes.
    pub capacity: u64,
    /// Taken room in bytes.
    pub usage: u64,
    /// Lookups that found something.
    pub hit_count: u64,
    /// Lookups that found nothing.
    pub miss_count: u64,
    /// The part of the lookups that found something.
    pub hit_rate: Ratio,
    /// Entries that were dropped for room.
    pub eviction_count: u64,
}

impl CacheMetrics {
    /// The defaults.
    pub open spec fn default_value() -> CacheMetrics {
        CacheMetrics {
            capacity: 0,
            usage: 0,
            hit_count: 0,
            miss_count: 0,
            hit_rate: (Ratio { part: 0, whole: 1 }),
            eviction_count: 0,
        }
    }
}

impl Default for CacheMetrics {
    fn default() -> (r: Self)
        ensures
            r == CacheMetrics::default_value(),
    {
        CacheMetrics {
            capacity: 0,
            usage: 0,
            hit_count: 0,
            miss_count: 0,
            hit_rate: Ratio { part: 0, whole: 1 },
            eviction_count: 0,
        }
    }
}

impl CacheMetrics {
    /// Takes the hit rate from the counters.
    pub fn calculate_hit_rate(&mut self)
        requires
            old(self).hit_count + old(self).miss_count <= u64::MAX,
        ensures
            *final(self) == (CacheMetrics {
                hit_rate: Ratio::of_parts(
                    old(self).hit_count as int,
                    old(self).hit_count + old(self).miss_count,
                ),
                ..*old(self)
            }),
    {
        self.hit_rate = Ratio::of(self.hit_count, self.hit_count + self.miss_count);
    }

    /// The part of the room that is taken.
    pub fn utilization(&self) -> (r: Ratio)
        ensures
            r == Ratio::of_parts(self.usage as int, self.capacity as int),
    {
        Ratio::of(self.usage, self.capacity)
    }
}

/// Counters of the caches.
#[derive(Debug, Clone, Copy, PartialEq, Eq, Structural)]
pub struct CacheStats {
    /// The block cache.
    pub block_cache: CacheMetrics,
    /// The filter cache.
    pub bloom_cache: CacheMetrics,
    /// The write buffer.
    pub write_buffer: CacheMetrics,
}

impl CacheStats {
    /// The defaults.
    pub open spec fn default_value() -> CacheStats {
        CacheStats {
            block_cache: CacheMetrics::default_value(),
            bloom_cache: CacheMetrics::default_value(),
            write_buffer: CacheMetrics::default_value(),
        }
    }
}

impl Default for CacheStats {
    fn default() -> (r: Self)
        ensures
            r == CacheStats::default_value(),
    {
        CacheStats {
            block_cache: CacheMetrics::default(),
            bloom_cache: CacheMetrics::default(),
            write_buffer: CacheMetrics::default(),
        }
    }
}

/// Statistics of bloom filters.
#[derive(Debug, Clone, Copy, PartialEq, Eq, Structural)]
pub struct BloomFilterStats {
    /// Whether there are filters.
    pub enabled: bool,
    /// Bits for each key.
    pub bits_per_key: u32,
    /// Bits of the rate of false positives.
    pub false_positive_rate: u64,
    /// Number of filters.
    pub filter_count: u64,
    /// Bits of all filters.
    pub total_bits: u64,
}

impl Default for BloomFilterStats {
    fn default() -> (r: Self)
        ensures
            r == (BloomFilterStats {
                enabled: false,
                bits_per_key: 0,
                false_positive_rate: 0,
                filter_count: 0,
                total_bits: 0,
            }),
    {
        BloomFilterStats {
            enabled: false,
            bits_per_key: 0,
            false_positive_rate: 0,
            filter_count: 0,
            total_bits: 0,
        }
    }
}

/// So much in so long a time.
#[derive(Debug, Clone, Copy, PartialEq, Eq, Structural)]
pub struct Throughput {
    /// How much.
    pub amount: u64,
    /// In how long a time.
    pub duration: Duration,
}

/// Statistics of reads, writes or syncs.
#[derive(Debug, Clone, Copy, PartialEq, Eq, Structural)]
pub struct IoMetrics {
    /// Number of operations.
    pub operation_count: u64,
    /// Their bytes.
    pub total_bytes: u64,
    /// Their duration in milliseconds.
    pub total_time_ms: u64,
    /// Milliseconds for each operation.
    pub avg_latency_ms: Ratio,
    /// Duration of the slowest operation in milliseconds.
    pub max_latency_ms: u64,
    /// Duration of the fastest operation in milliseconds; the largest number before the first one.
    pub min_latency_ms: u64,
    /// Operations over the last period that was measured.
    pub ops_per_second: Option<Throughput>,
    /// Bytes over the last period that was measured.
    pub bytes_per_second: Option<Throughput>,
}

impl IoMetrics {
    /// The defaults.
    pub open spec fn default_value() -> IoMetrics {
        IoMetrics {
            operation_count: 0,
            total_bytes: 0,
            total_time_ms: 0,
            avg_latency_ms: (Ratio { part: 0, whole: 1 }),
            max_latency_ms: 0,
            min_latency_ms: u64::MAX,
            ops_per_second: None,
            bytes_per_second: None,
        }
    }
}

impl Default for IoMetrics {
    fn default() -> (r: Self)
        ensures
            r == IoMetrics::default_value(),
    {
        IoMetrics {
            operation_count: 0,
            total_bytes: 0,
            total_time_ms: 0,
            avg_latency_ms: Ratio { part: 0, whole: 1 },
            max_latency_ms: 0,
            min_latency_ms: u64::MAX,
            ops_per_second: None,
            bytes_per_second: None,
        }
    }
}

impl IoMetrics {
    /// Counts an operation.
    pub fn record_operation(&mut self, bytes: u64, latency_ms: u64)
        requires
            old(self).operation_count < u64::MAX,
            old(self).total_bytes + bytes <= u64::MAX,
            old(self).total_time_ms + latency_ms <= u64::MAX,
        ensures
            *final(self) == (IoMetrics {
                operation_count: (old(self).operation_count + 1) as u64,
                total_bytes: (old(self).total_bytes + bytes) as u64,
                total_time_ms: (old(self).total_time_ms + latency_ms) as u64,
                avg_latency_ms: (Ratio {
                    part: (old(self).total_time_ms + latency_ms) as u64,
                    whole: (old(self).operation_count + 1) as u64,
                }),
                max_latency_ms: if latency_ms > old(self).max_latency_ms {
                    latency_ms
                } else {
                    old(self).max_latency_ms
                },
                min_latency_ms: if latency_ms < old(self).min_latency_ms {
                    latency_ms
                } else {
                    old(self).min_latency_ms
                },
                ..*old(self)
            }),
    {
        self.operation_count = self.operation_count + 1;
        self.total_bytes = self.total_bytes + bytes;
        self.total_time_ms = self.total_time_ms + latency_ms;
        if latency_ms > self.max_latency_ms {
            self.max_latency_ms = latency_ms;
        }
        if latency_ms < self.min_latency_ms {
            self.min_latency_ms = latency_ms;
        }
        self.avg_latency_ms = Ratio::of(self.total_time_ms, self.operation_count);
    }

    /// Measures over a period; an empty one measures nothing.
    pub fn calculate_throughput(&mut self, duration: Duration)
        ensures
            *final(self) == if duration.secs == 0 && duration.nanos == 0 {
                *old(self)
            } else {
                IoMetrics {
                    ops_per_second: Some(
                        Throughput { amount: old(self).operation_count, duration },
                    ),
                    bytes_per_second: Some(Throughput { amount: old(self).total_bytes, duration }),
                    ..*old(self)
                }
            },
    {
        if !duration.is_zero() {
            self.ops_per_second = Some(Throughput { amount: self.operation_count, duration });
            self.bytes_per_second = Some(Throughput { amount: self.total_bytes, duration });
        }
    }
}

/// The latencies of all operations lie between the fastest and the slowest one.
pub proof fn latency_bounds_widen(before: IoMetrics, after: IoMetrics, latency_ms: u64)
    requires
        after.max_latency_ms == (if latency_ms > before.max_latency_ms {
            latency_ms
        } else {
            before.max_latency_ms
        }),
        after.min_latency_ms == (if latency_ms < before.min_latency_ms {
            latency_ms
        } else {
            before.min_latency_ms
        }),
    ensures
        after.min_latency_ms <= latency_ms <= after.max_latency_ms,
        after.min_latency_ms <= before.min_latency_ms,
        before.max_latency_ms <= after.max_latency_ms,
{
}

/// Statistics of input and output.
#[derive(Debug, Clone, Copy, PartialEq, Eq, Structural)]
pub struct IoStats {
    /// Reads.
    pub read_stats: IoMetrics,
    /// Writes.
    pub write_stats: IoMetrics,
    /// Compactions.
    pub compaction_stats: IoMetrics,
}

impl IoStats {
    /// The defaults.
    pub open spec fn default_value() -> IoStats {
        IoStats {
            read_stats: IoMetrics::default_value(),
            write_stats: IoMetrics::default_value(),
            compaction_stats: IoMetrics::default_value(),
        }
    }
}

impl Default for IoStats {
    fn default() -> (r: Self)
        ensures
            r == IoStats::default_value(),
    {
        IoStats {
            read_stats: IoMetrics::default(),
            write_stats: IoMetrics::default(),
            compaction_stats: IoMetrics::default(),
        }
    }
}

/// Statistics of a level of the merge tree.
#[derive(Debug, Clone, Copy, PartialEq, Eq, Structural)]
pub struct LevelStats {
    /// The level, from 0 on.
    pub level: u32,
    /// Number of files.
    pub files: u32,
    /// Their size in bytes.
    pub size_bytes: u64,
    /// Bits of the compaction score.
    pub score: u64,
    /// Bits of the average read latency in milliseconds.
    pub read_latency_ms: u64,
    /// Bits of the write amplification.
    pub write_amplification: u64,
}

/// Statistics of compactions. Points in time are spans since the epoch.
#[derive(Debug, Clone)]
pub struct CompactionStats {
    /// The levels.
    pub levels: Vec<LevelStats>,
    /// Compactions that wait.
    pub pending_compactions: u32,
    /// Compactions that run.
    pub running_compactions: u32,
    /// Compactions that were done.
    pub total_compactions: u64,
    /// Bytes that were compacted.
    pub total_bytes_compacted: u64,
    /// Duration of all compactions in milliseconds.
    pub total_compaction_time_ms: u64,
    /// Bits of the average duration in milliseconds.
    pub avg_compaction_time_ms: u64,
    /// When the last compaction was.
    pub last_compaction: Option<Duration>,
}

impl CompactionStats {
    /// It holds the defaults.
    pub open spec fn is_default(self) -> bool {
        &&& self.levels@.len() == 0
        &&& self.pending_compactions == 0
        &&& self.running_compactions == 0
        &&& self.total_compactions == 0
        &&& self.total_bytes_compacted == 0
        &&& self.total_compaction_time_ms == 0
        &&& self.avg_compaction_time_ms == 0
        &&& self.last_compaction is None
    }
}

impl Default for CompactionStats {
    fn default() -> (r: Self)
        ensures
            r.is_default(),
    {
        CompactionStats {
            levels: Vec::new(),
            pending_compactions: 0,
            running_compactions: 0,
            total_compactions: 0,
            total_bytes_compacted: 0,
            total_compaction_time_ms: 0,
            avg_compaction_time_ms: 0,
            last_compaction: None,
        }
    }
}

/// Statistics of memory.
#[derive(Debug, Clone, Copy, PartialEq, Eq, Structural)]
pub struct MemoryStats {
    /// Memory in use in bytes.
    pub total_memory_usage: u64,
    /// Of that, the active memtable.
    pub memtable_usage: u64,
    /// Of that, full memtables.
    pub immutable_memtable_usage: u64,
    /// Of that, the block cache.
    pub block_cache_usage: u64,
    /// Of that, the index cache.
    pub index_cache_usage: u64,
    /// Of that, the filter cache.
    pub filter_cache_usage: u64,
    /// Of that, everything else.
    pub other_usage: u64,
    /// Limit in bytes.
    pub memory_limit: Option<u64>,
    /// The part of the limit that is in use.
    pub utilization: Ratio,
}

impl MemoryStats {
    /// The defaults.
    pub open spec fn default_value() -> MemoryStats {
        MemoryStats {
            total_memory_usage: 0,
            memtable_usage: 0,
            immutable_memtable_usage: 0,
            block_cache_usage: 0,
            index_cache_usage: 0,
            filter_cache_usage: 0,
            other_usage: 0,
            memory_limit: None,
            utilization: (Ratio { part: 0, whole: 1 }),
        }
    }
}

impl Default for MemoryStats {
    fn default() -> (r: Self)
        ensures
            r == MemoryStats::default_value(),
    {
        MemoryStats {
            total_memory_usage: 0,
            memtable_usage: 0,
            immutable_memtable_usage: 0,
            block_cache_usage: 0,
            index_cache_usage: 0,
            filter_cache_usage: 0,
            other_usage: 0,
            memory_limit: None,
            utilization: Ratio { part: 0, whole: 1 },
        }
    }
}

impl MemoryStats {
    /// All parts together.
    pub open spec fn sum(self) -> int {
        self.memtable_usage + self.immutable_memtable_usage + self.block_cache_usage
            + self.index_cache_usage + self.filter_cache_usage + self.other_usage
    }

    /// Takes the total from its parts, and the utilization where there is a limit.
    pub fn calculate_total(&mut self)
        requires
            old(self).sum() <= u64::MAX,
        ensures
            *final(self) == (MemoryStats {
                total_memory_usage: old(self).sum() as u64,
                utilization: match old(self).memory_limit {
                    Some(limit) => Ratio::of_parts(old(self).sum(), limit as int),
                    None => old(self).utilization,
                },
                ..*old(self)
            }),
    {
        self.total_memory_usage = self.memtable_usage + self.immutable_memtable_usage
            + self.block_cache_usage + self.index_cache_usage + self.filter_cache_usage
            + self.other_usage;
        if let Some(limit) = self.memory_limit {
            self.utilization = Ratio::of(self.total_memory_usage, limit);
        }
    }
}

/// Statistics of the log. Points in time are spans since the epoch.
#[derive(Debug, Clone, Copy)]
pub struct WALStats {
    /// Whether there is a log.
    pub enabled: bool,
    /// Number of the current segment.
    pub current_segment: u64,
    /// Number of segments.
    pub total_segments: u32,
    /// Size of the log in bytes.
    pub total_size_bytes: u64,
    /// Entries that were written.
    pub entries_written: u64,
    /// Entries that were flushed.
    pub entries_flushed: u64,
    /// Number of flushes.
    pub flush_count: u64,
    /// Number of syncs.
    pub sync_count: u64,
    /// When the last flush was.
    pub last_flush: Option<Duration>,
    /// When the last sync was.
    pub last_sync: Option<Duration>,
    /// Bits of the average duration of a flush in milliseconds.
    pub avg_flush_time_ms: u64,
    /// Bits of the average duration of a sync in milliseconds.
    pub avg_sync_time_ms: u64,
}

impl Default for WALStats {
    fn default() -> (r: Self)
        ensures
            r == (WALStats {
                enabled: false,
                current_segment: 0,
                total_segments: 0,
                total_size_bytes: 0,
                entries_written: 0,
                entries_flushed: 0,
                flush_count: 0,
                sync_count: 0,
                last_flush: None,
                last_sync: None,
                avg_flush_time_ms: 0,
                avg_sync_time_ms: 0,
            }),
    {
        WALStats {
            enabled: false,
            current_segment: 0,
            total_segments: 0,
            total_size_bytes: 0,
            entries_written: 0,
            entries_flushed: 0,
            flush_count: 0,
            sync_count: 0,
            last_flush: None,
            last_sync: None,
            avg_flush_time_ms: 0,
            avg_sync_time_ms: 0,
        }
    }
}

/// Statistics of a column family. Points in time are spans since the epoch.
#[derive(Debug, Clone)]
pub struct ColumnFamilyStats {
    /// Its name.
    pub name: String,
    /// Number of keys.
    pub key_count: u64,
    /// Its size in bytes.
    pub size_bytes: u64,
    /// Number of reads.
    pub read_ops: u64,
    /// Number of writes.
    pub write_ops: u64,
    /// Number of deletes.
    pub delete_ops: u64,
    /// Bits of the average size of a key in bytes.
    pub avg_key_size: u64,
    /// Bits of the average size of a value in bytes.
    pub avg_value_size: u64,
    /// When it was changed last.
    pub last_updated: Duration,
}

impl ColumnFamilyStats {
    /// There are no statistics yet.
    pub fn new(now: Duration) -> (r: Self)
        ensures
            r.name@.len() == 0,
            r.key_count == 0,
            r.size_bytes == 0,
            r.read_ops == 0,
            r.write_ops == 0,
            r.delete_ops == 0,
            r.avg_key_size == 0,
            r.avg_value_size == 0,
            r.last_updated == now,
    {
        ColumnFamilyStats {
            name: String::new(),
            key_count: 0,
            size_bytes: 0,
            read_ops: 0,
            write_ops: 0,
            delete_ops: 0,
            avg_key_size: 0,
            avg_value_size: 0,
            last_updated: now,
        }
    }
}

/// Indicators of health.
#[derive(Debug, Clone)]
pub struct HealthStats {
    /// The status.
    pub overall_health: HealthStatus,
    /// Number of errors.
    pub error_count: u64,
    /// Number of warnings.
    pub warning_count: u64,
    /// The last error.
    pub last_error: Option<String>,
    /// For how many seconds the storage has been running.
    pub uptime_seconds: u64,
    /// Number of errors in the background.
    pub background_errors: u64,
    /// How often damaged data was found.
    pub corruption_count: u64,
}

impl HealthStats {
    /// It holds the defaults.
    pub open spec fn is_default(self) -> bool {
        &&& self.overall_health == HealthStatus::Healthy
        &&& self.error_count == 0
        &&& self.warning_count == 0
        &&& self.last_error is None
        &&& self.uptime_seconds == 0
        &&& self.background_errors == 0
        &&& self.corruption_count == 0
    }
}

impl Default for HealthStats {
    fn default() -> (r: Self)
        ensures
            r.is_default(),
    {
        HealthStats {
            overall_health: HealthStatus::Healthy,
            error_count: 0,
            warning_count: 0,
            last_error: None,
            uptime_seconds: 0,
            background_errors: 0,
            corruption_count: 0,
        }
    }
}

/// Statistics of a storage.
#[derive(Debug, Clone)]
pub struct StorageStats {
    /// Number of keys.
    pub total_keys: u64,
    /// Size of all data in bytes.
    pub total_size_bytes: u64,
    /// The caches.
    pub cache_stats: CacheStats,
    /// Input and output.
    pub io_stats: IoStats,
    /// Compaction.
    pub compaction_stats: CompactionStats,
    /// The column families.
    pub cf_stats: Vec<ColumnFamilyStats>,
    /// Memory.
    pub memory_stats: MemoryStats,
    /// The log.
    pub wal_stats: Option<WALStats>,
    /// Health.
    pub health: HealthStats,
    /// When the statistics were taken, since the epoch.
    pub timestamp: Duration,
}

impl Ratio {
    /// The rate is below this many hundredths.
    pub open spec fn below(self, percent: int) -> bool {
        self.part * 100 < percent * self.whole
    }

    /// The rate is above this many hundredths.
    pub open spec fn above(self, percent: int) -> bool {
        self.part * 100 > percent * self.whole
    }

    /// Whether the rate is below this many hundredths.
    pub fn is_below(&self, percent: u64) -> (r: bool)
        ensures
            r == self.below(percent as int),
    {
        let whole: u128 = self.whole as u128;
        let p: u128 = percent as u128;
        assert(p * whole <= 0xffff_ffff_ffff_ffff * 0xffff_ffff_ffff_ffff) by (nonlinear_arith)
            requires
                p <= 0xffff_ffff_ffff_ffff,
                whole <= 0xffff_ffff_ffff_ffff,
        ;
        (self.part as u128) * 100 < p * whole
    }

    /// Whether the rate is above this many hundredths.
    pub fn is_above(&self, percent: u64) -> (r: bool)
        ensures
            r == self.above(percent as int),
    {
        let whole: u128 = self.whole as u128;
        let p: u128 = percent as u128;
        assert(p * whole <= 0xffff_ffff_ffff_ffff * 0xffff_ffff_ffff_ffff) by (nonlinear_arith)
            requires
                p <= 0xffff_ffff_ffff_ffff,
                whole <= 0xffff_ffff_ffff_ffff,
        ;
        (self.part as u128) * 100 > p * whole
    }
}

impl StorageStats {
    /// There are no statistics yet.
    pub fn new(now: Duration) -> (r: Self)
        ensures
            r.total_keys == 0,
            r.total_size_bytes == 0,
            r.cf_stats@.len() == 0,
            r.wal_stats is None,
            r.cache_stats == CacheStats::default_value(),
            r.io_stats == IoStats::default_value(),
            r.compaction_stats.is_default(),
            r.memory_stats == MemoryStats::default_value(),
            r.health.is_default(),
            r.timestamp == now,
    {
        StorageStats {
            total_keys: 0,
            total_size_bytes: 0,
            cache_stats: CacheStats::default(),
            io_stats: IoStats::default(),
            compaction_stats: CompactionStats::default(),
            cf_stats: Vec::new(),
            memory_stats: MemoryStats::default(),
            wal_stats: None,
            health: HealthStats::default(),
            timestamp: now,
        }
    }

    /// The status that the statistics call for: damaged data or more than ten background errors
    /// are critical; any of those, a low hit rate or little free memory are issues.
    pub open spec fn health_due(self) -> HealthStatus {
        if self.health.corruption_count > 0 || self.health.background_errors > 10 {
            HealthStatus::Unhealthy
        } else if self.cache_stats.block_cache.hit_rate.below(50) || self.memory_stats.utilization.above(
            90,
        ) || self.health.background_errors > 0 {
            HealthStatus::Degraded
        } else {
            HealthStatus::Healthy
        }
    }

    /// Takes the status from the statistics.
    pub fn update_health(&mut self)
        ensures
            final(self).health.overall_health == old(self).health_due(),
            *final(self) == (StorageStats {
                health: (HealthStats {
                    overall_health: old(self).health_due(),
                    ..old(self).health
                }),
                ..*old(self)
            }),
    {
        let issues: bool = self.cache_stats.block_cache.hit_rate.is_below(50)
            || self.memory_stats.utilization.is_above(90) || self.health.background_errors > 0
            || self.health.corruption_count > 0;
        self.health.overall_health = if self.health.corruption_count > 0
            || self.health.background_errors > 10 {
            HealthStatus::Unhealthy
        } else if issues {
            HealthStatus::Degraded
        } else {
            HealthStatus::Healthy
        };
    }
}

/// Statistics as the core interface tells them.
#[derive(Debug, Clone, Copy, PartialEq, Eq, Structural)]
pub struct CoreStorageStats {
    /// Number of keys.
    pub key_count: u64,
    /// Memory in use in bytes.
    pub memory_usage: u64,
    /// Number of operations.
    pub total_operations: u64,
    /// Number of reads.
    pub get_operations: u64,
    /// Number of writes.
    pub put_operations: u64,
    /// Number of deletes.
    pub delete_operations: u64,
    /// Number of scans.
    pub scan_operations: u64,
    /// Average size of a key in bytes.
    pub average_key_size: Ratio,
    /// Average size of a value in bytes.
    pub average_value_size: Ratio,
    /// Largest memory use in bytes.
    pub peak_memory_usage: u64,
    /// Cache lookups that found something.
    pub cache_hits: u64,
    /// Cache lookups that found nothing.
    pub cache_misses: u64,
}

/// The statistics as the core interface tells them. Deletes and scans are not counted apart, and
/// the size of keys is not known.
pub fn core_stats(stats: &StorageStats) -> (r: CoreStorageStats)
    requires
        stats.io_stats.read_stats.operation_count + stats.io_stats.write_stats.operation_count
            <= u64::MAX,
    ensures
        r == (CoreStorageStats {
            key_count: stats.total_keys,
            memory_usage: stats.memory_stats.total_memory_usage,
            total_operations: (stats.io_stats.read_stats.operation_count
                + stats.io_stats.write_stats.operation_count) as u64,
            get_operations: stats.io_stats.read_stats.operation_count,
            put_operations: stats.io_stats.write_stats.operation_count,
            delete_operations: 0,
            scan_operations: 0,
            average_key_size: (Ratio { part: 0, whole: 1 }),
            average_value_size: Ratio::of_parts(
                stats.total_size_bytes as int,
                stats.total_keys as int,
            ),
            peak_memory_usage: stats.memory_stats.total_memory_usage,
            cache_hits: stats.cache_stats.block_cache.hit_count,
            cache_misses: stats.cache_stats.block_cache.miss_count,
        }),
{
    CoreStorageStats {
        key_count: stats.total_keys,
        memory_usage: stats.memory_stats.total_memory_usage,
        total_operations: stats.io_stats.read_stats.operation_count
            + stats.io_stats.write_stats.operation_count,
        get_operations: stats.io_stats.read_stats.operation_count,
        put_operations: stats.io_stats.write_stats.operation_count,
        delete_operations: 0,
        scan_operations: 0,
        average_key_size: Ratio { part: 0, whole: 1 },
        average_value_size: Ratio::of(stats.total_size_bytes, stats.total_keys),
        peak_memory_usage: stats.memory_stats.total_memory_usage,
        cache_hits: stats.cache_stats.block_cache.hit_count,
        cache_misses: stats.cache_stats.block_cache.miss_count,
    }
}

/// An error of the storage below, as the core interface reports it.
pub fn adapter_error(e: &F4KvsError) -> (r: F4KvsError)
    ensures
        r.is_storage("Storage error: "@ + e.shown()),
{
    F4KvsError::Storage { message: cat("Storage error: ", e.to_text().as_str()) }
}

/// The outcome of an operation of the storage below, as the core interface reports it.
pub fn adapted<T>(outcome: Result<T, F4KvsError>) -> (r: Result<T, F4KvsError>)
    ensures
        match outcome {
            Ok(value) => r == Ok::<T, F4KvsError>(value),
            Err(e) => r matches Err(out) && out.is_storage("Storage error: "@ + e.shown()),
        },
{
    match outcome {
        Ok(value) => Ok(value),
        Err(e) => Err(adapter_error(&e)),
    }
}

} // verus!
