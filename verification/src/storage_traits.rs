//! Types of the storage interface.

use crate::kv_error::F4KvsError;
use crate::text::cat;
use vstd::prelude::*;
use vstd::string::*;

verus! {

/// When a write is acknowledged.
#[derive(Debug, Clone, Copy, PartialEq, Eq, Structural)]
pub enum WriteDurability {
    /// Once it was accepted; it may not be durable yet.
    Acknowledged,
    /// Once it is durable.
    Durable,
}

/// How healthy a storage says it is.
#[derive(Debug, Clone, PartialEq, Eq)]
pub enum HealthStatus {
    /// All is well.
    Healthy,
    /// There are issues, but it works.
    Degraded(String),
    /// There are critical issues.
    Unhealthy(String),
}

impl HealthStatus {
    /// The status as text, with its reason.
    pub fn to_text(&self) -> (r: String)
        ensures
            r@ == match *self {
                HealthStatus::Healthy => "healthy"@,
                HealthStatus::Degraded(reason) => "degraded: "@ + reason@,
                HealthStatus::Unhealthy(reason) => "unhealthy: "@ + reason@,
            },
    {
        match self {
            HealthStatus::Healthy => "healthy".to_owned(),
            HealthStatus::Degraded(reason) => cat("degraded: ", reason.as_str()),
            HealthStatus::Unhealthy(reason) => cat("unhealthy: ", reason.as_str()),
        }
    }
}

/// Statistics of a level. The score is held by its bits.
#[derive(Debug, Clone, Copy, PartialEq, Eq, Structural)]
pub struct LevelStats {
    /// The level.
    pub level: u32,
    /// Number of files.
    pub files: u32,
    /// Their size in bytes.
    pub size_bytes: u64,
    /// Bits of the compaction score.
    pub score: u64,
}

/// Statistics of compaction.
#[derive(Debug, Clone)]
pub struct CompactionStats {
    /// The levels.
    pub levels: Vec<LevelStats>,
    /// Compactions that wait.
    pub pending_compactions: u32,
    /// Compactions that run.
    pub running_compactions: u32,
    /// Bytes that were compacted.
    pub total_bytes_compacted: u64,
    /// Duration of all compactions in milliseconds.
    pub total_compaction_time_ms: u64,
}

/// Configuration of compaction.
#[derive(Debug, Clone, Copy, PartialEq, Eq, Structural)]
pub struct CompactionConfig {
    /// Most compactions at a time.
    pub max_background_compactions: u32,
    /// Size of the base level in bytes.
    pub max_bytes_for_level_base: u64,
    /// Files of the first level from which on it is compacted.
    pub level0_file_num_compaction_trigger: u32,
    /// Files of the first level from which on writes are slowed down.
    pub level0_slowdown_writes_trigger: u32,
    /// Files of the first level from which on writes stop.
    pub level0_stop_writes_trigger: u32,
}

impl Default for CompactionConfig {
    fn default() -> (r: Self)
        ensures
            r == (CompactionConfig {
                max_background_compactions: 1,
                max_bytes_for_level_base: 268_435_456,
                level0_file_num_compaction_trigger: 4,
                level0_slowdown_writes_trigger: 20,
                level0_stop_writes_trigger: 36,
            }),
    {
        CompactionConfig {
            max_background_compactions: 1,
            max_bytes_for_level_base: 268_435_456,
            level0_file_num_compaction_trigger: 4,
            level0_slowdown_writes_trigger: 20,
            level0_stop_writes_trigger: 36,
        }
    }
}

/// An operation that a storage may leave out.
#[derive(Debug, Clone, Copy, PartialEq, Eq, Structural)]
pub enum OptionalOperation {
    /// Removing all data.
    Clear,
    /// Transactions.
    Transactions,
}

/// The error of an operation that a storage leaves out.
pub fn unsupported(operation: OptionalOperation) -> (r: F4KvsError)
    ensures
        r.is_storage(
            match operation {
                OptionalOperation::Clear =>
                    "Clear operation not supported by this storage backend"@,
                OptionalOperation::Transactions =>
                    "Transactions not supported by this storage backend"@,
            },
        ),
{
    match operation {
        OptionalOperation::Clear => F4KvsError::storage(
            "Clear operation not supported by this storage backend",
        ),
        OptionalOperation::Transactions => F4KvsError::storage(
            "Transactions not supported by this storage backend",
        ),
    }
}

} // verus!
