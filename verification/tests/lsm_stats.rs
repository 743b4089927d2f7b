//! Counters of the engine.

use f4kvs_lsm::lsm_stats::{CompactionMetrics, LevelMetrics, LsmStats, MemtableMetrics};
use f4kvs_lsm::ratio::Ratio;

fn rate(r: Ratio) -> f64 {
    r.part as f64 / r.whole as f64
}

#[test]
fn test_lsm_stats_default() {
    let stats: LsmStats = Default::default();

    assert_eq!(stats.total_keys, 0);
    assert_eq!(stats.total_reads, 0);
    assert_eq!(stats.total_writes, 0);
    assert_eq!(stats.total_deletes, 0);
    assert!(stats.compaction_metrics.total_compactions == 0);
}

#[test]
fn test_lsm_stats_total_operations_empty() {
    let stats = LsmStats::default();

    assert_eq!(stats.total_operations(), 0);
}

#[test]
fn test_lsm_stats_total_operations_with_data() {
    let mut stats = LsmStats::default();
    stats.total_reads = 100;
    stats.total_writes = 50;
    stats.total_deletes = 25;

    assert_eq!(stats.total_operations(), 175);
}

#[test]
fn test_lsm_stats_hit_rate_zero_requests() {
    let stats = LsmStats::default();

    assert_eq!(rate(stats.hit_rate()), 0.0);
}

#[test]
fn test_lsm_stats_hit_rate_with_hits() {
    let mut stats = LsmStats::default();
    stats.memtable_hits = 80;
    stats.sstable_hits = 20;
    stats.misses = 100;

    let hit_rate = stats.hit_rate();

    assert_eq!(rate(hit_rate), 0.5);
}

#[test]
fn test_lsm_stats_hit_rate_all_hits() {
    let mut stats = LsmStats::default();
    stats.memtable_hits = 90;
    stats.sstable_hits = 10;

    assert_eq!(rate(stats.hit_rate()), 1.0);
}

#[test]
fn test_lsm_stats_hit_rate_no_hits() {
    let mut stats = LsmStats::default();
    stats.misses = 50;

    assert_eq!(rate(stats.hit_rate()), 0.0);
}

#[test]
fn test_lsm_stats_memtable_hit_rate() {
    let mut stats = LsmStats::default();
    stats.memtable_hits = 75;
    stats.sstable_hits = 25;

    assert_eq!(rate(stats.memtable_hit_rate()), 0.75);
}

#[test]
fn test_lsm_stats_memtable_hit_rate_no_hits() {
    let stats = LsmStats::default();

    assert_eq!(rate(stats.memtable_hit_rate()), 0.0);
}

#[test]
fn test_compaction_metrics_default() {
    let metrics = CompactionMetrics::default();

    assert_eq!(metrics.total_compactions, 0);
    assert_eq!(f64::from_bits(metrics.avg_compaction_duration_ms), 0.0);
    assert_eq!(f64::from_bits(metrics.write_amplification), 0.0);
}

#[test]
fn test_compaction_metrics_with_data() {
    let mut metrics = CompactionMetrics::default();
    metrics.total_compactions = 10;
    metrics.total_entries_processed = 10000;
    metrics.total_entries_removed = 500;
    metrics.total_space_reclaimed = 1_000_000;
    metrics.avg_compaction_duration_ms = f64::to_bits(250.5);
    metrics.write_amplification = f64::to_bits(1.5);

    assert_eq!(metrics.total_compactions, 10);
    assert_eq!(metrics.total_entries_processed, 10000);
    assert_eq!(metrics.total_space_reclaimed, 1_000_000);
}

#[test]
fn test_memtable_metrics_default() {
    let metrics = MemtableMetrics::default();

    assert_eq!(metrics.active_memtable_size, 0);
    assert_eq!(metrics.flush_count, 0);
    assert_eq!(f64::from_bits(metrics.avg_flush_duration_ms), 0.0);
}

#[test]
fn test_memtable_metrics_with_data() {
    let mut metrics = MemtableMetrics::default();
    metrics.active_memtable_size = 1_048_576;
    metrics.active_memtable_entries = 10000;
    metrics.flush_count = 25;
    metrics.avg_flush_duration_ms = f64::to_bits(50.3);

    assert_eq!(metrics.active_memtable_size, 1_048_576);
    assert_eq!(metrics.flush_count, 25);
}

#[test]
fn test_level_metrics_default() {
    let metrics = LevelMetrics::default();

    assert_eq!(metrics.level, 0);
    assert_eq!(metrics.sstable_count, 0);
    assert!(metrics.smallest_key.is_none());
    assert!(metrics.largest_key.is_none());
}

#[test]
fn test_level_metrics_with_data() {
    let mut metrics = LevelMetrics::default();
    metrics.level = 2;
    metrics.sstable_count = 5;
    metrics.total_size_bytes = 10_000_000;
    metrics.avg_sstable_size_bytes = 2_000_000;
    metrics.smallest_key = Some("a".to_string());
    metrics.largest_key = Some("z".to_string());

    assert_eq!(metrics.level, 2);
    assert_eq!(metrics.sstable_count, 5);
    assert_eq!(metrics.total_size_bytes, 10_000_000);
}

#[test]
fn test_lsm_stats_clone() {
    let mut stats = LsmStats::default();
    stats.total_writes = 200;

    let cloned = stats.clone();

    assert_eq!(cloned.total_writes, stats.total_writes);
}

#[test]
fn test_lsm_stats_debug_formatting() {
    let mut stats = LsmStats::default();
    stats.total_keys = 100;

    let debug_str = format!("{:?}", stats);
    assert!(debug_str.contains("LsmStats"));
}

#[test]
fn test_compaction_metrics_clone() {
    let mut metrics = CompactionMetrics::default();
    metrics.total_compactions = 5;

    let cloned = metrics.clone();
    assert_eq!(cloned.total_compactions, 5);
}

#[test]
fn test_memtable_metrics_clone() {
    let mut metrics = MemtableMetrics::default();
    metrics.flush_count = 10;

    let cloned = metrics.clone();
    assert_eq!(cloned.flush_count, 10);
}

#[test]
fn test_level_metrics_clone() {
    let mut metrics = LevelMetrics::default();
    metrics.level = 1;
    metrics.smallest_key = Some("a".to_string());

    let cloned = metrics.clone();
    assert_eq!(cloned.level, 1);
    assert_eq!(cloned.smallest_key, Some("a".to_string()));
}

#[test]
fn test_lsm_stats_all_metrics_zero() {
    let stats = LsmStats::default();

    assert_eq!(stats.total_keys, 0);
    assert_eq!(stats.total_reads, 0);
    assert_eq!(stats.total_writes, 0);
    assert_eq!(stats.total_deletes, 0);
    assert_eq!(stats.total_bytes_written, 0);
    assert_eq!(stats.total_bytes_read, 0);
    assert_eq!(stats.memtable_hits, 0);
    assert_eq!(stats.sstable_hits, 0);
    assert_eq!(stats.misses, 0);
}

#[test]
fn test_lsm_stats_with_all_metrics() {
    let mut stats = LsmStats::default();
    stats.total_keys = 10000;
    stats.total_reads = 50000;
    stats.total_writes = 25000;
    stats.total_deletes = 5000;
    stats.total_bytes_written = 1_000_000_000;
    stats.total_bytes_read = 5_000_000_000;
    stats.memtable_hits = 30000;
    stats.sstable_hits = 15000;
    stats.misses = 5000;

    assert_eq!(stats.total_operations(), 80000);
    assert_eq!(rate(stats.hit_rate()), 0.9);
}

#[test]
fn test_compaction_metrics_amplification() {
    let mut metrics = CompactionMetrics::default();
    metrics.total_entries_processed = 1000;
    metrics.write_amplification = f64::to_bits(2.0);

    assert_eq!(f64::from_bits(metrics.write_amplification), 2.0);
}

#[test]
fn test_level_metrics_no_keys() {
    let metrics = LevelMetrics::default();

    assert!(metrics.smallest_key.is_none());
    assert!(metrics.largest_key.is_none());
}

#[test]
fn test_compaction_metrics_all_zero_values() {
    let metrics = CompactionMetrics::default();

    assert_eq!(metrics.total_entries_processed, 0);
    assert_eq!(metrics.total_entries_removed, 0);
    assert_eq!(metrics.total_space_reclaimed, 0);
    assert_eq!(metrics.total_compaction_duration_ms, 0);
}

#[test]
fn test_memtable_metrics_all_zero_values() {
    let metrics = MemtableMetrics::default();

    assert_eq!(metrics.active_memtable_size, 0);
    assert_eq!(metrics.active_memtable_entries, 0);
    assert_eq!(metrics.immutable_memtable_count, 0);
}

#[test]
fn test_lsm_stats_operations_calculation() {
    let mut stats = LsmStats::default();

    let test_cases = vec![
        (0, 0, 0, 0),
        (10, 0, 0, 10),
        (5, 5, 0, 10),
        (3, 2, 5, 10),
        (100, 200, 50, 350),
    ];

    for (reads, writes, deletes, expected_total) in test_cases {
        stats.total_reads = reads;
        stats.total_writes = writes;
        stats.total_deletes = deletes;

        assert_eq!(stats.total_operations(), expected_total);
    }
}

#[test]
fn test_compaction_metrics_average_calculation() {
    let mut metrics = CompactionMetrics::default();

    metrics.avg_compaction_duration_ms = f64::to_bits(150.75);
    assert_eq!(f64::from_bits(metrics.avg_compaction_duration_ms), 150.75);
}

#[test]
fn test_memtable_metrics_flush_timing() {
    let mut metrics = MemtableMetrics::default();

    assert!(metrics.last_flush_time.is_none());

    metrics.last_flush_time = Some(1234567890);
    assert_eq!(metrics.last_flush_time, Some(1234567890));
}

#[test]
fn test_level_metrics_key_range() {
    let mut metrics = LevelMetrics::default();

    metrics.smallest_key = Some("a".to_string());
    metrics.largest_key = Some("z".to_string());

    assert_eq!(metrics.smallest_key, Some("a".to_string()));
    assert_eq!(metrics.largest_key, Some("z".to_string()));
}

#[test]
fn test_lsm_stats_partial_metrics() {
    let mut stats = LsmStats::default();

    stats.total_writes = 100;

    assert_eq!(stats.total_operations(), 100);
    assert_eq!(rate(stats.hit_rate()), 0.0);
}

#[test]
fn test_compaction_metrics_sstable_merging() {
    let mut metrics = CompactionMetrics::default();

    metrics.sstables_merged = 5;
    metrics.levels_compacted = 2;

    assert_eq!(metrics.sstables_merged, 5);
    assert_eq!(metrics.levels_compacted, 2);
}

#[test]
fn test_memtable_metrics_immutables() {
    let mut metrics = MemtableMetrics::default();

    metrics.immutable_memtable_count = 3;
    metrics.immutable_memtable_size = 5_000_000;

    assert_eq!(metrics.immutable_memtable_count, 3);
    assert_eq!(metrics.immutable_memtable_size, 5_000_000);
}

#[test]
fn test_lsm_stats_level_metrics_empty() {
    let stats = LsmStats::default();

    assert!(stats.level_metrics.is_empty());
}

#[test]
fn test_compaction_metrics_duration_calculation() {
    let mut metrics = CompactionMetrics::default();

    metrics.total_compaction_duration_ms = 15000;
    assert_eq!(metrics.total_compaction_duration_ms, 15000);
}

#[test]
fn test_lsm_stats_clone_preserves_all_fields() {
    let mut stats = LsmStats::default();
    stats.total_keys = 1234;
    stats.compaction_metrics.total_compactions = 567;

    let cloned = stats.clone();

    assert_eq!(cloned.total_keys, stats.total_keys);
    assert_eq!(
        cloned.compaction_metrics.total_compactions,
        stats.compaction_metrics.total_compactions
    );
}

#[test]
fn test_lsm_stats_hit_rate_edge_cases() {
    let mut stats = LsmStats::default();

    stats.memtable_hits = 100;
    stats.sstable_hits = 50;
    assert_eq!(rate(stats.hit_rate()), 1.0);

    stats.memtable_hits = 0;
    stats.sstable_hits = 0;
    stats.misses = 100;
    assert_eq!(rate(stats.hit_rate()), 0.0);
}

#[test]
fn test_compaction_metrics_write_amplification_zero() {
    let metrics = CompactionMetrics::default();

    assert_eq!(f64::from_bits(metrics.write_amplification), 0.0);
}

#[test]
fn sizes_are_averaged() {
    let mut stats = LsmStats::default();
    assert_eq!(stats.average_read_size(), Ratio { part: 0, whole: 1 });
    assert_eq!(stats.average_write_size(), Ratio { part: 0, whole: 1 });
    stats.total_bytes_read = 300;
    stats.total_reads = 4;
    stats.total_bytes_written = 50;
    stats.total_writes = 5;
    assert_eq!(rate(stats.average_read_size()), 75.0);
    assert_eq!(rate(stats.average_write_size()), 10.0);
}
