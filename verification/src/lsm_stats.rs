//! Statistics of the engine.

use crate::ratio::Ratio;
use vstd::prelude::*;
use vstd::string::*;

verus! {

/// Statistics of compactions. Rates that are measured in floating point are held by their bits.
#[derive(Debug, Clone, Copy, PartialEq, Eq)]
pub struct CompactionMetrics {
    /// Number of compactions.
    pub total_compactions: u64,
    /// Entries that were looked at.
    pub total_entries_processed: u64,
    /// Entries that were dropped, being deleted or outdated.
    pub total_entries_removed: u64,
    /// Bytes that were freed.
    pub total_space_reclaimed: u64,
    /// Duration of all compactions in milliseconds.
    pub total_compaction_duration_ms: u64,
    /// Bits of the average duration in milliseconds.
    pub avg_compaction_duration_ms: u64,
    /// Bits of the write amplification.
    pub write_amplification: u64,
    /// Number of levels that were compacted.
    pub levels_compacted: u64,
    /// Number of tables that were merged.
    pub sstables_merged: u64,
}

impl CompactionMetrics {
    /// The defaults.
    pub open spec fn default_value() -> CompactionMetrics {
        CompactionMetrics {
            total_compactions: 0,
            total_entries_processed: 0,
            total_entries_removed: 0,
            total_space_reclaimed: 0,
            total_compaction_duration_ms: 0,
            avg_compaction_duration_ms: 0,
            write_amplification: 0,
            levels_compacted: 0,
            sstables_merged: 0,
        }
    }
}

impl Default for CompactionMetrics {
    fn default() -> (r: Self)
        ensures
            r == CompactionMetrics::default_value(),
    {
        CompactionMetrics {
            total_compactions: 0,
            total_entries_processed: 0,
            total_entries_removed: 0,
            total_space_reclaimed: 0,
            total_compaction_duration_ms: 0,
            avg_compaction_duration_ms: 0,
            write_amplification: 0,
            levels_compacted: 0,
            sstables_merged: 0,
        }
    }
}

/// Statistics of memtables. Rates that are measured in floating point are held by their bits.
#[derive(Debug, Clone, Copy, PartialEq, Eq)]
pub struct MemtableMetrics {
    /// Size of the active memtable in bytes.
    pub active_memtable_size: u64,
    /// Entries of the active memtable.
    pub active_memtable_entries: u64,
    /// Number of memtables that wait to be flushed.
    pub immutable_memtable_count: u64,
    /// Their size in bytes.
    pub immutable_memtable_size: u64,
    /// Number of flushes.
    pub flush_count: u64,
    /// Bits of the average duration of a flush in milliseconds.
    pub avg_flush_duration_ms: u64,
    /// When the last flush was.
    pub last_flush_time: Option<u64>,
}

impl MemtableMetrics {
    /// The defaults.
    pub open spec fn default_value() -> MemtableMetrics {
        MemtableMetrics {
            active_memtable_size: 0,
            active_memtable_entries: 0,
            immutable_memtable_count: 0,
            immutable_memtable_size: 0,
            flush_count: 0,
            avg_flush_duration_ms: 0,
            last_flush_time: None,
        }
    }
}

impl Default for MemtableMetrics {
    fn default() -> (r: Self)
        ensures
            r == MemtableMetrics::default_value(),
    {
        MemtableMetrics {
            active_memtable_size: 0,
            active_memtable_entries: 0,
            immutable_memtable_count: 0,
            immutable_memtable_size: 0,
            flush_count: 0,
            avg_flush_duration_ms: 0,
            last_flush_time: None,
        }
    }
}

/// Statistics of the tables of a level.
#[derive(Debug, Clone)]
pub struct LevelMetrics {
    /// The level, from 0 on.
    pub level: usize,
    /// Number of tables.
    pub sstable_count: u64,
    /// Their size in bytes.
    pub total_size_bytes: u64,
    /// Average size of a table in bytes.
    pub avg_sstable_size_bytes: u64,
    /// Smallest key.
    pub smallest_key: Option<String>,
    /// Largest key.
    pub largest_key: Option<String>,
}

impl Default for LevelMetrics {
    fn default() -> (r: Self)
        ensures
            r.level == 0,
            r.sstable_count == 0,
            r.total_size_bytes == 0,
            r.avg_sstable_size_bytes == 0,
            r.smallest_key is None,
            r.largest_key is None,
    {
        LevelMetrics {
            level: 0,
            sstable_count: 0,
            total_size_bytes: 0,
            avg_sstable_size_bytes: 0,
            smallest_key: None,
            largest_key: None,
        }
    }
}

/// Statistics of the engine.
#[derive(Debug, Clone)]
pub struct LsmStats {
    /// Number of keys.
    pub total_keys: u64,
    /// Number of reads.
    pub total_reads: u64,
    /// Number of writes.
    pub total_writes: u64,
    /// Number of deletes.
    pub total_deletes: u64,
    /// Bytes that were written.
    pub total_bytes_written: u64,
    /// Bytes that were read.
    pub total_bytes_read: u64,
    /// Reads that a memtable served.
    pub memtable_hits: u64,
    /// Reads that a table served.
    pub sstable_hits: u64,
    /// Reads that found nothing.
    pub misses: u64,
    /// Memory in use in bytes.
    pub memory_usage: u64,
    /// Disk space in use in bytes.
    pub disk_usage: u64,
    /// Number of tables.
    pub sstable_count: u64,
    /// Number of levels.
    pub level_count: u64,
    /// Number of compactions.
    pub compaction_count: u64,
    /// When the last compaction was.
    pub last_compaction: Option<u64>,
    /// Statistics of compactions.
    pub compaction_metrics: CompactionMetrics,
    /// Statistics of memtables.
    pub memtable_metrics: MemtableMetrics,
    /// Statistics of each level.
    pub level_metrics: Vec<LevelMetrics>,
}

impl Default for LsmStats {
    fn default() -> (r: Self)
        ensures
            r.total_keys == 0,
            r.total_reads == 0,
            r.total_writes == 0,
            r.total_deletes == 0,
            r.total_bytes_written == 0,
            r.total_bytes_read == 0,
            r.memtable_hits == 0,
            r.sstable_hits == 0,
            r.misses == 0,
            r.memory_usage == 0,
            r.disk_usage == 0,
            r.sstable_count == 0,
            r.level_count == 0,
            r.compaction_count == 0,
            r.last_compaction is None,
            r.level_metrics@.len() == 0,
            r.compaction_metrics == CompactionMetrics::default_value(),
            r.memtable_metrics == MemtableMetrics::default_value(),
    {
        LsmStats {
            total_keys: 0,
            total_reads: 0,
            total_writes: 0,
            total_deletes: 0,
            total_bytes_written: 0,
            total_bytes_read: 0,
            memtable_hits: 0,
            sstable_hits: 0,
            misses: 0,
            memory_usage: 0,
            disk_usage: 0,
            sstable_count: 0,
            level_count: 0,
            compaction_count: 0,
            last_compaction: None,
            compaction_metrics: CompactionMetrics::default(),
            memtable_metrics: MemtableMetrics::default(),
            level_metrics: Vec::new(),
        }
    }
}

impl LsmStats {
    /// The counters are so far from their limits that they can be added up.
    pub open spec fn counters_fit(self) -> bool {
        &&& self.total_reads + self.total_writes + self.total_deletes <= u64::MAX
        &&& self.memtable_hits + self.sstable_hits + self.misses <= u64::MAX
    }

    /// Reads, writes and deletes together.
    pub fn total_operations(&self) -> (r: u64)
        requires
            self.counters_fit(),
        ensures
            r == self.total_reads + self.total_writes + self.total_deletes,
    {
        self.total_reads + self.total_writes + self.total_deletes
    }

    /// The part of the requests that were served.
    pub fn hit_rate(&self) -> (r: Ratio)
        requires
            self.counters_fit(),
        ensures
            r == Ratio::of_parts(
                self.memtable_hits + self.sstable_hits,
                self.memtable_hits + self.sstable_hits + self.misses,
            ),
    {
        let total_hits: u64 = self.memtable_hits + self.sstable_hits;
        Ratio::of(total_hits, total_hits + self.misses)
    }

    /// The part of the served requests that a memtable served.
    pub fn memtable_hit_rate(&self) -> (r: Ratio)
        requires
            self.counters_fit(),
        ensures
            r == Ratio::of_parts(
                self.memtable_hits as int,
                self.memtable_hits + self.sstable_hits,
            ),
    {
        Ratio::of(self.memtable_hits, self.memtable_hits + self.sstable_hits)
    }

    /// Bytes for each read.
    pub fn average_read_size(&self) -> (r: Ratio)
        ensures
            r == Ratio::of_parts(self.total_bytes_read as int, self.total_reads as int),
    {
        Ratio::of(self.total_bytes_read, self.total_reads)
    }

    /// Bytes for each write.
    pub fn average_write_size(&self) -> (r: Ratio)
        ensures
            r == Ratio::of_parts(self.total_bytes_written as int, self.total_writes as int),
    {
        Ratio::of(self.total_bytes_written, self.total_writes)
    }
}

} // verus!
