//! Configuration of tables, memtables and the write-ahead log.

use crate::duration::Duration;
use vstd::prelude::*;
use vstd::string::*;

verus! {

/// How table files are read.
#[derive(Debug, Clone, Copy, PartialEq, Eq, Structural)]
pub enum SstableReadMode {
    /// Seek, then read, under an exclusive lock.
    SeekRead,
    /// Positioned reads.
    PositionedRead,
    /// Memory-mapped reads of resident pages, positioned reads otherwise.
    MmapHybrid,
}

/// Table configuration.
#[derive(Debug, Clone, Copy)]
pub struct SstableConfig {
    /// How files are read.
    pub read_mode: SstableReadMode,
    /// For how many seconds a page counts as resident.
    pub mincore_cache_ttl_secs: u64,
    /// Whether files that were closed are opened again.
    pub enable_resilient_handling: bool,
    /// How often a read is tried.
    pub file_retry_attempts: u32,
    /// Delay between tries in milliseconds.
    pub retry_delay_ms: u64,
}

impl Default for SstableConfig {
    fn default() -> (r: Self)
        ensures
            r.read_mode == SstableReadMode::PositionedRead,
            r.mincore_cache_ttl_secs == 60,
            r.enable_resilient_handling,
            r.file_retry_attempts == 3,
            r.retry_delay_ms == 100,
    {
        SstableConfig {
            read_mode: SstableReadMode::PositionedRead,
            mincore_cache_ttl_secs: 60,
            enable_resilient_handling: true,
            file_retry_attempts: 3,
            retry_delay_ms: 100,
        }
    }
}

/// Memtable configuration.
#[derive(Debug, Clone, Copy)]
pub struct MemtableConfig {
    /// Size in bytes at which a memtable is full.
    pub max_size: usize,
}

impl Default for MemtableConfig {
    fn default() -> (r: Self)
        ensures
            r.max_size == 67_108_864,
    {
        MemtableConfig { max_size: 67_108_864 }
    }
}

/// When log writes reach the disk.
#[derive(Debug, Clone, Copy, PartialEq, Eq, Structural)]
pub enum WalSyncMode {
    /// Whenever the system writes them.
    Never,
    /// The buffer is handed to the system.
    Flush,
    /// Synced before the write is acknowledged.
    Fsync,
    /// Synced in the background.
    FsyncAsync,
}

/// Which log backend is used.
#[derive(Debug, Clone, Copy, PartialEq, Eq, Structural)]
pub enum WalEngine {
    /// Segment files.
    Segment,
    /// Frame files.
    Frame,
    /// Micro-files behind a durable index.
    Indexed,
}

/// Log configuration.
#[derive(Debug)]
pub struct WalConfig {
    /// Directory of the log files.
    pub dir: String,
    /// Backend.
    pub engine: WalEngine,
    /// When writes reach the disk.
    pub sync_mode: WalSyncMode,
    /// Size of a segment in bytes.
    pub segment_size: u64,
    /// Page size of the frame backend in bytes.
    pub frame_page_size: usize,
    /// Number of frames of an indexed segment.
    pub indexed_frame_count: u32,
    /// Interval between flushes.
    pub flush_interval: Duration,
    /// Whether writes are committed in groups.
    pub group_commit_enabled: bool,
    /// How long a group waits at most.
    pub group_commit_max_wait: Duration,
    /// After how long without a new write a group is committed.
    pub group_commit_idle_flush: Option<Duration>,
    /// Size at which a group is committed.
    pub group_commit_max_batch_size: usize,
    /// Whether a grouped write waits until it is committed.
    pub group_commit_wait_durable: bool,
}

impl WalConfig {
    /// Both configurations hold the same settings.
    pub open spec fn same_as(self, other: WalConfig) -> bool {
        &&& self.dir@ == other.dir@
        &&& self == (WalConfig { dir: self.dir, ..other })
    }
}

impl Clone for WalConfig {
    fn clone(&self) -> (r: Self)
        ensures
            r.same_as(*self),
    {
        WalConfig {
            dir: self.dir.clone(),
            engine: self.engine,
            sync_mode: self.sync_mode,
            segment_size: self.segment_size,
            frame_page_size: self.frame_page_size,
            indexed_frame_count: self.indexed_frame_count,
            flush_interval: self.flush_interval,
            group_commit_enabled: self.group_commit_enabled,
            group_commit_max_wait: self.group_commit_max_wait,
            group_commit_idle_flush: self.group_commit_idle_flush,
            group_commit_max_batch_size: self.group_commit_max_batch_size,
            group_commit_wait_durable: self.group_commit_wait_durable,
        }
    }
}

impl Default for WalConfig {
    fn default() -> (r: Self)
        ensures
            r.dir@ == "wal"@,
            r.engine == WalEngine::Segment,
            r.sync_mode == WalSyncMode::Flush,
            r.segment_size == 67_108_864,
            r.frame_page_size == 4096,
            r.indexed_frame_count == 4096,
            r.flush_interval == (Duration { secs: 1, nanos: 0 }),
            !r.group_commit_enabled,
            r.group_commit_max_wait == (Duration { secs: 0, nanos: 10_000_000 }),
            r.group_commit_idle_flush is None,
            r.group_commit_max_batch_size == 100,
            r.group_commit_wait_durable,
    {
        WalConfig {
            dir: "wal".to_owned(),
            engine: WalEngine::Segment,
            sync_mode: WalSyncMode::Flush,
            segment_size: 67_108_864,
            frame_page_size: 4096,
            indexed_frame_count: 4096,
            flush_interval: Duration { secs: 1, nanos: 0 },
            group_commit_enabled: false,
            group_commit_max_wait: Duration { secs: 0, nanos: 10_000_000 },
            group_commit_idle_flush: None,
            group_commit_max_batch_size: 100,
            group_commit_wait_durable: true,
        }
    }
}

} // verus!
