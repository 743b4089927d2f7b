//! Configuration of storage backends. Settings in floating point are held by their bits.

use crate::duration::Duration;
use crate::kv_error::F4KvsError;
use crate::text::{cat, chars_of};
use crate::validation::ValidationConfig;
use vstd::prelude::*;
use vstd::string::*;

verus! {

/// The bits of 10.
pub const TEN_BITS: u64 = 0x4024_0000_0000_0000;

/// The bits of 0.7.
pub const SEVEN_TENTHS_BITS: u64 = 0x3FE6_6666_6666_6666;

/// The bits of 0.8.
pub const EIGHT_TENTHS_BITS: u64 = 0x3FE9_9999_9999_999A;

/// Kinds of storage.
#[derive(Debug, Clone, Copy, PartialEq, Eq, Structural)]
pub enum StorageBackend {
    /// In memory only.
    Memory,
    /// A log-structured merge tree.
    LsmTree,
    /// Partitions with a log.
    Partitioned,
    /// Plain files.
    FileSystem,
    /// Columns and time series.
    Analytics,
}

/// An upper-case ASCII letter in lower case; every other character as it is.
pub open spec fn lower(c: char) -> char {
    if 'A' <= c && c <= 'Z' {
        ((c as u32) + 32) as char
    } else {
        c
    }
}

/// A text with its ASCII letters in lower case.
pub open spec fn lowered(t: Seq<char>) -> Seq<char> {
    t.map_values(|c: char| lower(c))
}

/// The kind of storage that a text names, in any case.
pub open spec fn backend_named(t: Seq<char>) -> Option<StorageBackend> {
    let name = lowered(t);
    if name == "memory"@ {
        Some(StorageBackend::Memory)
    } else if name == "lsm-tree"@ || name == "lsm_tree"@ || name == "lsmtree"@ {
        Some(StorageBackend::LsmTree)
    } else if name == "partitioned"@ {
        Some(StorageBackend::Partitioned)
    } else if name == "filesystem"@ || name == "fs"@ {
        Some(StorageBackend::FileSystem)
    } else if name == "analytics"@ {
        Some(StorageBackend::Analytics)
    } else {
        None
    }
}

fn lower_char(c: char) -> (r: char)
    ensures
        r == lower(c),
{
    match c {
        'A' => 'a',
        'B' => 'b',
        'C' => 'c',
        'D' => 'd',
        'E' => 'e',
        'F' => 'f',
        'G' => 'g',
        'H' => 'h',
        'I' => 'i',
        'J' => 'j',
        'K' => 'k',
        'L' => 'l',
        'M' => 'm',
        'N' => 'n',
        'O' => 'o',
        'P' => 'p',
        'Q' => 'q',
        'R' => 'r',
        'S' => 's',
        'T' => 't',
        'U' => 'u',
        'V' => 'v',
        'W' => 'w',
        'X' => 'x',
        'Y' => 'y',
        'Z' => 'z',
        _ => c,
    }
}

/// Whether a text is this name, in any case.
fn is_name(t: &Vec<char>, name: &str) -> (r: bool)
    ensures
        r == (lowered(t@) == name@),
{
    let n = chars_of(name);
    if n.len() != t.len() {
        assert(lowered(t@).len() != name@.len());
        return false;
    }
    let mut i: usize = 0;
    while i < t.len()
        invariant
            i <= t@.len(),
            n@ == name@,
            n@.len() == t@.len(),
            forall|j: int| 0 <= j < i ==> lower(#[trigger] t@[j]) == name@[j],
        decreases t@.len() - i,
    {
        if lower_char(t[i]) != n[i] {
            assert(lowered(t@)[i as int] != name@[i as int]);
            return false;
        }
        i = i + 1;
    }
    assert(lowered(t@) =~= name@);
    true
}

impl StorageBackend {
    /// The name of the kind.
    pub open spec fn name_of(self) -> Seq<char> {
        match self {
            StorageBackend::Memory => "memory"@,
            StorageBackend::LsmTree => "lsm-tree"@,
            StorageBackend::Partitioned => "partitioned"@,
            StorageBackend::FileSystem => "filesystem"@,
            StorageBackend::Analytics => "analytics"@,
        }
    }

    /// The name of the kind.
    pub fn to_text(&self) -> (r: String)
        ensures
            r@ == self.name_of(),
    {
        match self {
            StorageBackend::Memory => "memory".to_owned(),
            StorageBackend::LsmTree => "lsm-tree".to_owned(),
            StorageBackend::Partitioned => "partitioned".to_owned(),
            StorageBackend::FileSystem => "filesystem".to_owned(),
            StorageBackend::Analytics => "analytics".to_owned(),
        }
    }

    /// The kind that a text names, in any case.
    pub fn named(s: &str) -> (r: Result<StorageBackend, F4KvsError>)
        ensures
            match (r, backend_named(s@)) {
                (Ok(b), Some(n)) => b == n,
                (Err(e), None) => e.is_storage("Unknown storage backend: "@ + s@),
                _ => false,
            },
    {
        let t = chars_of(s);
        if is_name(&t, "memory") {
            Ok(StorageBackend::Memory)
        } else if is_name(&t, "lsm-tree") || is_name(&t, "lsm_tree") || is_name(&t, "lsmtree") {
            Ok(StorageBackend::LsmTree)
        } else if is_name(&t, "partitioned") {
            Ok(StorageBackend::Partitioned)
        } else if is_name(&t, "filesystem") || is_name(&t, "fs") {
            Ok(StorageBackend::FileSystem)
        } else if is_name(&t, "analytics") {
            Ok(StorageBackend::Analytics)
        } else {
            Err(F4KvsError::Storage { message: cat("Unknown storage backend: ", s) })
        }
    }
}

impl std::str::FromStr for StorageBackend {
    type Err = F4KvsError;

    fn from_str(s: &str) -> (r: Result<StorageBackend, F4KvsError>)
        ensures
            match (r, backend_named(s@)) {
                (Ok(b), Some(n)) => b == n,
                (Err(e), None) => e.is_storage("Unknown storage backend: "@ + s@),
                _ => false,
            },
    {
        StorageBackend::named(s)
    }
}

/// Each kind is found again by its name.
pub proof fn backend_name_back(b: StorageBackend)
    ensures
        backend_named(b.name_of()) == Some(b),
{
    reveal_strlit("memory");
    reveal_strlit("lsm-tree");
    reveal_strlit("lsm_tree");
    reveal_strlit("lsmtree");
    reveal_strlit("partitioned");
    reveal_strlit("filesystem");
    reveal_strlit("fs");
    reveal_strlit("analytics");
    let name = b.name_of();
    assert(lowered(name) =~= name);
    match b {
        StorageBackend::Memory => {},
        StorageBackend::LsmTree => {
            assert(name.len() == 8 && "memory"@.len() == 6);
        },
        StorageBackend::Partitioned => {
            assert(name.len() == 11);
        },
        StorageBackend::FileSystem => {
            assert(name.len() == 10);
        },
        StorageBackend::Analytics => {
            assert(name.len() == 9);
        },
    }
}

/// How tables are merged.
#[derive(Debug, Clone, Copy, PartialEq, Eq, Structural)]
pub enum CompactionStrategy {
    /// Tables of similar size together.
    SizeTiered,
    /// Level by level.
    LevelTiered,
    /// By time windows.
    TimeWindowed,
}

impl CompactionStrategy {
    /// The name of the strategy.
    pub fn to_text(&self) -> (r: String)
        ensures
            r@ == match *self {
                CompactionStrategy::SizeTiered => "size-tiered"@,
                CompactionStrategy::LevelTiered => "level-tiered"@,
                CompactionStrategy::TimeWindowed => "time-windowed"@,
            },
    {
        match self {
            CompactionStrategy::SizeTiered => "size-tiered".to_owned(),
            CompactionStrategy::LevelTiered => "level-tiered".to_owned(),
            CompactionStrategy::TimeWindowed => "time-windowed".to_owned(),
        }
    }
}

/// How compaction works.
#[derive(Debug, Clone, Copy, PartialEq, Eq, Structural)]
pub enum CompactionStyle {
    /// Level by level.
    Level,
    /// All tables together.
    Universal,
    /// Oldest first.
    FIFO,
}

impl CompactionStyle {
    /// The name of the style.
    pub fn to_text(&self) -> (r: String)
        ensures
            r@ == match *self {
                CompactionStyle::Level => "level"@,
                CompactionStyle::Universal => "universal"@,
                CompactionStyle::FIFO => "fifo"@,
            },
    {
        match self {
            CompactionStyle::Level => "level".to_owned(),
            CompactionStyle::Universal => "universal".to_owned(),
            CompactionStyle::FIFO => "fifo".to_owned(),
        }
    }
}

/// Which entries leave a full memory storage.
#[derive(Debug, Clone, Copy, PartialEq, Eq, Structural)]
pub enum EvictionPolicy {
    /// The one that was not used for longest.
    Lru,
    /// The one that was used least often.
    Lfu,
    /// The one whose time is up.
    Ttl,
    /// Any.
    Random,
    /// No entry leaves.
    NoEviction,
}

impl EvictionPolicy {
    /// The name of the policy.
    pub fn to_text(&self) -> (r: String)
        ensures
            r@ == match *self {
                EvictionPolicy::Lru => "lru"@,
                EvictionPolicy::Lfu => "lfu"@,
                EvictionPolicy::Ttl => "ttl"@,
                EvictionPolicy::Random => "random"@,
                EvictionPolicy::NoEviction => "no-eviction"@,
            },
    {
        match self {
            EvictionPolicy::Lru => "lru".to_owned(),
            EvictionPolicy::Lfu => "lfu".to_owned(),
            EvictionPolicy::Ttl => "ttl".to_owned(),
            EvictionPolicy::Random => "random".to_owned(),
            EvictionPolicy::NoEviction => "no-eviction".to_owned(),
        }
    }
}

/// Configuration of the merge tree.
#[derive(Debug, Clone)]
pub struct LsmTreeConfig {
    /// Largest size of a memtable in bytes.
    pub memtable_size: u64,
    /// Number of full memtables from which on compaction starts.
    pub immutable_memtable_limit: u32,
    /// Size of a table in bytes.
    pub sstable_size: u64,
    /// Number of levels.
    pub levels: u32,
    /// Bits of the factor from level to level.
    pub level_size_multiplier: u64,
    /// How values of one key are merged, if they are.
    pub merge_operator: Option<String>,
    /// How tables are merged.
    pub compaction_strategy: CompactionStrategy,
}

impl LsmTreeConfig {
    /// It holds the defaults.
    pub open spec fn is_default(self) -> bool {
        &&& self.memtable_size == 67_108_864
        &&& self.immutable_memtable_limit == 2
        &&& self.sstable_size == 67_108_864
        &&& self.levels == 7
        &&& self.level_size_multiplier == TEN_BITS
        &&& self.merge_operator is None
        &&& self.compaction_strategy == CompactionStrategy::LevelTiered
    }
}

impl Default for LsmTreeConfig {
    fn default() -> (r: Self)
        ensures
            r.is_default(),
    {
        LsmTreeConfig {
            memtable_size: 67_108_864,
            immutable_memtable_limit: 2,
            sstable_size: 67_108_864,
            levels: 7,
            level_size_multiplier: TEN_BITS,
            merge_operator: None,
            compaction_strategy: CompactionStrategy::LevelTiered,
        }
    }
}

/// Configuration of memory storage.
#[derive(Debug, Clone, Copy, PartialEq, Eq)]
pub struct MemoryConfig {
    /// Largest memory use in bytes.
    pub max_memory_usage: Option<u64>,
    /// Which entries leave.
    pub eviction_policy: EvictionPolicy,
    /// Whether entries may expire.
    pub ttl_enabled: bool,
    /// Whether entries are handed to persistence.
    pub enable_persistence: bool,
}

impl Default for MemoryConfig {
    fn default() -> (r: Self)
        ensures
            r == (MemoryConfig {
                max_memory_usage: Some(1_073_741_824),
                eviction_policy: EvictionPolicy::Lru,
                ttl_enabled: true,
                enable_persistence: true,
            }),
    {
        MemoryConfig {
            max_memory_usage: Some(1_073_741_824),
            eviction_policy: EvictionPolicy::Lru,
            ttl_enabled: true,
            enable_persistence: true,
        }
    }
}

/// Configuration of the buffer pool in front of persistent storage.
#[derive(Debug, Clone, Copy)]
pub struct BufferPoolConfig {
    /// Size of the cache in bytes.
    pub cache_size: u64,
    /// Most entries of the cache.
    pub max_entries: usize,
    /// How many writes are made together.
    pub write_batch_size: usize,
    /// Interval between background flushes.
    pub write_interval: Duration,
    /// Whether a write may be acknowledged before it is durable.
    pub enable_write_back: bool,
    /// Whether a write waits until it is durable all the same.
    pub force_durable_puts: bool,
    /// Whether often-used keys are kept.
    pub enable_hot_key_detection: bool,
    /// From how many uses on a key is often used.
    pub hot_key_threshold: u64,
    /// Over how many uses that is counted.
    pub hot_key_window_size: usize,
    /// Whether partitions are cached apart.
    pub enable_partition_aware: bool,
    /// Whether neighbours are read ahead.
    pub enable_prefetch: bool,
    /// How many neighbours.
    pub prefetch_window: usize,
    /// Bits of the confidence from which on neighbours are read ahead.
    pub prefetch_threshold: u64,
    /// Whether rarely used keys are kept out.
    pub enable_admission_filter: bool,
    /// Whether recent keys are loaded on startup.
    pub enable_cache_warming: bool,
    /// How many recent keys.
    pub cache_warming_keys: usize,
    /// Whether the cache size adapts.
    pub enable_autotuning: bool,
    /// Interval in seconds in which it adapts.
    pub autotuning_interval_secs: u64,
}

impl BufferPoolConfig {
    /// The defaults.
    pub open spec fn default_value() -> BufferPoolConfig {
        BufferPoolConfig {
            cache_size: 268_435_456,
            max_entries: 10000,
            write_batch_size: 100,
            write_interval: (Duration { secs: 0, nanos: 100_000_000 }),
            enable_write_back: true,
            force_durable_puts: false,
            enable_hot_key_detection: true,
            hot_key_threshold: 10,
            hot_key_window_size: 1000,
            enable_partition_aware: false,
            enable_prefetch: false,
            prefetch_window: 3,
            prefetch_threshold: SEVEN_TENTHS_BITS,
            enable_admission_filter: false,
            enable_cache_warming: false,
            cache_warming_keys: 1000,
            enable_autotuning: false,
            autotuning_interval_secs: 60,
        }
    }
}

impl Default for BufferPoolConfig {
    fn default() -> (r: Self)
        ensures
            r == BufferPoolConfig::default_value(),
    {
        BufferPoolConfig {
            cache_size: 268_435_456,
            max_entries: 10000,
            write_batch_size: 100,
            write_interval: Duration { secs: 0, nanos: 100_000_000 },
            enable_write_back: true,
            force_durable_puts: false,
            enable_hot_key_detection: true,
            hot_key_threshold: 10,
            hot_key_window_size: 1000,
            enable_partition_aware: false,
            enable_prefetch: false,
            prefetch_window: 3,
            prefetch_threshold: SEVEN_TENTHS_BITS,
            enable_admission_filter: false,
            enable_cache_warming: false,
            cache_warming_keys: 1000,
            enable_autotuning: false,
            autotuning_interval_secs: 60,
        }
    }
}

/// When data moves between fast and slow storage.
#[derive(Debug, Clone, Copy)]
pub struct TieringPolicy {
    /// Uses per minute from which on data is hot.
    pub hot_threshold: u64,
    /// Uses per hour from which on data is warm.
    pub warm_threshold: u64,
    /// Uses per day from which on data is cold.
    pub cold_threshold: u64,
    /// Interval in which data moves.
    pub tiering_interval: Duration,
    /// Whether data moves in the background.
    pub background_tiering: bool,
}

impl Default for TieringPolicy {
    fn default() -> (r: Self)
        ensures
            r == (TieringPolicy {
                hot_threshold: 100,
                warm_threshold: 10,
                cold_threshold: 1,
                tiering_interval: (Duration { secs: 300, nanos: 0 }),
                background_tiering: true,
            }),
    {
        TieringPolicy {
            hot_threshold: 100,
            warm_threshold: 10,
            cold_threshold: 1,
            tiering_interval: Duration { secs: 300, nanos: 0 },
            background_tiering: true,
        }
    }
}

/// Configuration of partitioned storage.
#[derive(Debug, Clone, Copy, PartialEq, Eq)]
pub struct PartitionedStorageConfig {
    /// Largest size of a partition in bytes.
    pub max_partition_size: u64,
    /// Most partitions.
    pub max_partitions: u32,
    /// Whether keys are spread by their hash.
    pub partition_key_hash: bool,
    /// Bits of the share of the largest size from which on a partition is split.
    pub auto_split_threshold: u64,
    /// Copies of each partition.
    pub replication_factor: u32,
}

impl PartitionedStorageConfig {
    /// The defaults.
    pub open spec fn default_value() -> PartitionedStorageConfig {
        PartitionedStorageConfig {
            max_partition_size: 104_857_600,
            max_partitions: 256,
            partition_key_hash: true,
            auto_split_threshold: EIGHT_TENTHS_BITS,
            replication_factor: 1,
        }
    }
}

impl Default for PartitionedStorageConfig {
    fn default() -> (r: Self)
        ensures
            r == PartitionedStorageConfig::default_value(),
    {
        PartitionedStorageConfig {
            max_partition_size: 104_857_600,
            max_partitions: 256,
            partition_key_hash: true,
            auto_split_threshold: EIGHT_TENTHS_BITS,
            replication_factor: 1,
        }
    }
}

/// Configuration of the log.
#[derive(Debug, Clone)]
pub struct WALConfig {
    /// Whether there is a log.
    pub enabled: bool,
    /// Its directory; below the data directory where there is none.
    pub dir: Option<String>,
    /// Size of a segment in bytes.
    pub segment_size: u64,
    /// Size of the write buffer.
    pub buffer_size: usize,
    /// Interval between flushes.
    pub flush_interval: Duration,
    /// Interval between syncs.
    pub sync_interval: Duration,
    /// Most segments that are kept.
    pub max_segments: u32,
    /// Whether entries have checksums.
    pub enable_checksums: bool,
}

impl WALConfig {
    /// It holds the defaults.
    pub open spec fn is_default(self) -> bool {
        &&& self.enabled
        &&& self.dir is None
        &&& self.segment_size == 104_857_600
        &&& self.buffer_size == 1000
        &&& self.flush_interval == (Duration { secs: 1, nanos: 0 })
        &&& self.sync_interval == (Duration { secs: 5, nanos: 0 })
        &&& self.max_segments == 100
        &&& self.enable_checksums
    }
}

impl Default for WALConfig {
    fn default() -> (r: Self)
        ensures
            r.is_default(),
    {
        WALConfig {
            enabled: true,
            dir: None,
            segment_size: 104_857_600,
            buffer_size: 1000,
            flush_interval: Duration { secs: 1, nanos: 0 },
            sync_interval: Duration { secs: 5, nanos: 0 },
            max_segments: 100,
            enable_checksums: true,
        }
    }
}

/// Configuration of the caches.
#[derive(Debug, Clone, Copy, PartialEq, Eq)]
pub struct CacheConfig {
    /// Size of the block cache in bytes.
    pub block_cache_size: u64,
    /// Size of the row cache in bytes.
    pub row_cache_size: u64,
    /// Size of the index cache in bytes.
    pub index_cache_size: u64,
    /// Size of the filter cache in bytes.
    pub filter_cache_size: u64,
    /// Whether there are bloom filters.
    pub enable_bloom_filters: bool,
    /// Bits of a bloom filter for each key.
    pub bloom_filter_bits_per_key: u32,
}

impl CacheConfig {
    /// The size of all caches together.
    pub open spec fn total(self) -> int {
        self.block_cache_size + self.row_cache_size + self.index_cache_size + self.filter_cache_size
    }
}

impl CacheConfig {
    /// The defaults.
    pub open spec fn default_value() -> CacheConfig {
        CacheConfig {
            block_cache_size: 268_435_456,
            row_cache_size: 134_217_728,
            index_cache_size: 67_108_864,
            filter_cache_size: 33_554_432,
            enable_bloom_filters: true,
            bloom_filter_bits_per_key: 10,
        }
    }
}

impl Default for CacheConfig {
    fn default() -> (r: Self)
        ensures
            r == CacheConfig::default_value(),
    {
        CacheConfig {
            block_cache_size: 268_435_456,
            row_cache_size: 134_217_728,
            index_cache_size: 67_108_864,
            filter_cache_size: 33_554_432,
            enable_bloom_filters: true,
            bloom_filter_bits_per_key: 10,
        }
    }
}

/// Configuration of compaction.
#[derive(Debug, Clone, Copy, PartialEq, Eq)]
pub struct CompactionConfig {
    /// Most compactions at a time.
    pub max_background_compactions: u32,
    /// Most flushes at a time.
    pub max_background_flushes: u32,
    /// Files of the first level from which on it is compacted.
    pub level0_file_num_compaction_trigger: u32,
    /// Files of the first level from which on writes are slowed down.
    pub level0_slowdown_writes_trigger: u32,
    /// Files of the first level from which on writes stop.
    pub level0_stop_writes_trigger: u32,
    /// Size of the base level in bytes.
    pub max_bytes_for_level_base: u64,
    /// Bits of the factor from level to level.
    pub max_bytes_for_level_multiplier: u64,
    /// Size of a file of the base level in bytes.
    pub target_file_size_base: u64,
    /// The factor of file sizes from level to level.
    pub target_file_size_multiplier: i32,
    /// How compaction works.
    pub compaction_style: CompactionStyle,
}

impl CompactionConfig {
    /// The defaults.
    pub open spec fn default_value() -> CompactionConfig {
        CompactionConfig {
            max_background_compactions: 1,
            max_background_flushes: 1,
            level0_file_num_compaction_trigger: 4,
            level0_slowdown_writes_trigger: 20,
            level0_stop_writes_trigger: 36,
            max_bytes_for_level_base: 268_435_456,
            max_bytes_for_level_multiplier: TEN_BITS,
            target_file_size_base: 67_108_864,
            target_file_size_multiplier: 1,
            compaction_style: CompactionStyle::Level,
        }
    }
}

impl Default for CompactionConfig {
    fn default() -> (r: Self)
        ensures
            r == CompactionConfig::default_value(),
    {
        CompactionConfig {
            max_background_compactions: 1,
            max_background_flushes: 1,
            level0_file_num_compaction_trigger: 4,
            level0_slowdown_writes_trigger: 20,
            level0_stop_writes_trigger: 36,
            max_bytes_for_level_base: 268_435_456,
            max_bytes_for_level_multiplier: TEN_BITS,
            target_file_size_base: 67_108_864,
            target_file_size_multiplier: 1,
            compaction_style: CompactionStyle::Level,
        }
    }
}

/// Configuration of a storage.
#[derive(Debug, Clone)]
pub struct StorageConfig {
    /// The kind of storage.
    pub backend: StorageBackend,
    /// Directory of the data.
    pub data_dir: String,
    /// The log.
    pub wal: WALConfig,
    /// The caches.
    pub cache: CacheConfig,
    /// Compaction.
    pub compaction: CompactionConfig,
    /// Column families that are created on startup.
    pub column_families: Vec<String>,
    /// Largest memory use in bytes.
    pub max_memory_usage: Option<u64>,
    /// Number of background threads.
    pub background_threads: u32,
    /// Interval in which metrics are collected.
    pub metrics_interval: Duration,
    /// The merge tree.
    pub lsm_tree: Option<LsmTreeConfig>,
    /// Partitioned storage.
    pub partitioned: Option<PartitionedStorageConfig>,
    /// The buffer pool.
    pub buffer_pool: Option<BufferPoolConfig>,
    /// Validation of keys and values.
    pub validation: Option<ValidationConfig>,
}

impl Default for StorageConfig {
    fn default() -> (r: Self)
        ensures
            r.backend == StorageBackend::LsmTree,
            r.data_dir@ == "./f4kvs_data"@,
            r.column_families@.len() == 1,
            r.column_families@[0]@ == "default"@,
            r.max_memory_usage is None,
            r.background_threads == 4,
            r.metrics_interval == (Duration { secs: 30, nanos: 0 }),
            r.wal.is_default(),
            r.cache == CacheConfig::default_value(),
            r.compaction == CompactionConfig::default_value(),
            r.lsm_tree matches Some(tree) && tree.is_default(),
            r.partitioned == Some(PartitionedStorageConfig::default_value()),
            r.buffer_pool == Some(BufferPoolConfig::default_value()),
            r.validation matches Some(checks) && checks.is_default(),
            r.config_fault() is None,
    {
        let mut column_families: Vec<String> = Vec::new();
        column_families.push("default".to_owned());
        proof {
            reveal_strlit("./f4kvs_data");
        }
        StorageConfig {
            backend: StorageBackend::LsmTree,
            data_dir: "./f4kvs_data".to_owned(),
            wal: WALConfig::default(),
            cache: CacheConfig::default(),
            compaction: CompactionConfig::default(),
            column_families,
            max_memory_usage: None,
            background_threads: 4,
            metrics_interval: Duration { secs: 30, nanos: 0 },
            lsm_tree: Some(LsmTreeConfig::default()),
            partitioned: Some(PartitionedStorageConfig::default()),
            buffer_pool: Some(BufferPoolConfig::default()),
            validation: Some(ValidationConfig::default()),
        }
    }
}

impl StorageConfig {
    /// What is wrong with the configuration, if anything is.
    pub open spec fn config_fault(self) -> Option<Seq<char>> {
        if self.data_dir@.len() == 0 {
            Some("data_dir cannot be empty"@)
        } else if self.background_threads == 0 {
            Some("background_threads must be at least 1"@)
        } else {
            match self.max_memory_usage {
                Some(max) => if self.cache.total() > max {
                    Some("Total cache size exceeds max_memory_usage"@)
                } else {
                    None
                },
                None => None,
            }
        }
    }

    /// Accepts the configuration, or says what is wrong with it first.
    pub fn validate(&self) -> (r: Result<(), F4KvsError>)
        requires
            self.data_dir@.len() > 0 && self.background_threads > 0 && self.max_memory_usage is Some
                ==> self.cache.total() <= u64::MAX,
        ensures
            match self.config_fault() {
                Some(m) => r matches Err(e) && e.is_storage(m),
                None => r is Ok,
            },
    {
        if self.data_dir.as_str().is_empty() {
            return Err(F4KvsError::storage("data_dir cannot be empty"));
        }
        if self.background_threads == 0 {
            return Err(F4KvsError::storage("background_threads must be at least 1"));
        }
        if let Some(max_memory) = self.max_memory_usage {
            let total_cache_size: u64 = self.cache.block_cache_size + self.cache.row_cache_size
                + self.cache.index_cache_size + self.cache.filter_cache_size;
            if total_cache_size > max_memory {
                return Err(F4KvsError::storage("Total cache size exceeds max_memory_usage"));
            }
        }
        Ok(())
    }

    /// A configuration with small caches and segments, for tests in this directory.
    pub fn for_testing(data_dir: String) -> (r: Self)
        ensures
            r.data_dir@ == data_dir@,
            r.cache == (CacheConfig {
                block_cache_size: 1_048_576,
                row_cache_size: 1_048_576,
                index_cache_size: 1_048_576,
                filter_cache_size: 1_048_576,
                enable_bloom_filters: true,
                bloom_filter_bits_per_key: 10,
            }),
            r.wal.segment_size == 1_048_576,
            (WALConfig { segment_size: 104_857_600, ..r.wal }).is_default(),
            r.backend == StorageBackend::LsmTree,
            r.compaction == CompactionConfig::default_value(),
            r.column_families@.len() == 1,
            r.column_families@[0]@ == "default"@,
            r.max_memory_usage is None,
            r.background_threads == 4,
            r.metrics_interval == (Duration { secs: 30, nanos: 0 }),
            r.lsm_tree matches Some(tree) && tree.is_default(),
            r.partitioned == Some(PartitionedStorageConfig::default_value()),
            r.buffer_pool == Some(BufferPoolConfig::default_value()),
            r.validation matches Some(checks) && checks.is_default(),
            data_dir@.len() > 0 ==> r.config_fault() is None,
    {
        let mut config = StorageConfig::default();
        config.data_dir = data_dir;
        config.cache = CacheConfig {
            block_cache_size: 1_048_576,
            row_cache_size: 1_048_576,
            index_cache_size: 1_048_576,
            filter_cache_size: 1_048_576,
            enable_bloom_filters: true,
            bloom_filter_bits_per_key: 10,
        };
        config.wal.segment_size = 1_048_576;
        config
    }
}

} // verus!
