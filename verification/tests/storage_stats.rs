//! Statistics of a storage.

use f4kvs_lsm::duration::Duration;
use f4kvs_lsm::kv_error::F4KvsError;
use f4kvs_lsm::ratio::Ratio;
use f4kvs_lsm::storage_stats::{
    adapted, core_stats, CacheMetrics, HealthStatus, IoMetrics, MemoryStats, StorageStats,
    Throughput,
};
use f4kvs_lsm::storage_traits::{
    unsupported, CompactionConfig, HealthStatus as TraitHealthStatus, OptionalOperation,
};

fn rate(r: Ratio) -> f64 {
    r.part as f64 / r.whole as f64
}

#[test]
fn test_cache_metrics() {
    let mut metrics = CacheMetrics {
        hit_count: 80,
        miss_count: 20,
        capacity: 1000,
        usage: 750,
        ..Default::default()
    };

    metrics.calculate_hit_rate();
    assert_eq!(rate(metrics.hit_rate), 0.8);
    assert_eq!(rate(metrics.utilization()) * 100.0, 75.0);
}

#[test]
fn test_io_metrics() {
    let mut metrics = IoMetrics::default();

    metrics.record_operation(100, 10);
    assert_eq!(metrics.operation_count, 1);
    assert_eq!(metrics.total_bytes, 100);
    assert_eq!(rate(metrics.avg_latency_ms), 10.0);
    assert_eq!(metrics.min_latency_ms, 10);
    assert_eq!(metrics.max_latency_ms, 10);

    metrics.record_operation(200, 20);
    assert_eq!(metrics.operation_count, 2);
    assert_eq!(metrics.total_bytes, 300);
    assert_eq!(rate(metrics.avg_latency_ms), 15.0);
    assert_eq!(metrics.min_latency_ms, 10);
    assert_eq!(metrics.max_latency_ms, 20);
}

#[test]
fn test_memory_stats() {
    let mut stats = MemoryStats {
        memtable_usage: 100,
        block_cache_usage: 200,
        index_cache_usage: 50,
        memory_limit: Some(1000),
        ..Default::default()
    };

    stats.calculate_total();
    assert_eq!(stats.total_memory_usage, 350);
    assert_eq!(rate(stats.utilization) * 100.0, 35.0);
}

#[test]
fn rates_of_nothing_are_nothing() {
    let mut metrics = CacheMetrics::default();
    metrics.calculate_hit_rate();
    assert_eq!(rate(metrics.hit_rate), 0.0);
    assert_eq!(rate(metrics.utilization()), 0.0);

    let mut stats = MemoryStats { memory_limit: Some(0), other_usage: 5, ..Default::default() };
    stats.calculate_total();
    assert_eq!(rate(stats.utilization), 0.0);

    let mut unlimited = MemoryStats {
        other_usage: 5,
        utilization: Ratio { part: 1, whole: 2 },
        ..Default::default()
    };
    unlimited.calculate_total();
    assert_eq!(unlimited.total_memory_usage, 5);
    assert_eq!(unlimited.utilization, Ratio { part: 1, whole: 2 });
}

#[test]
fn throughput_needs_time() {
    let mut metrics = IoMetrics::default();
    metrics.record_operation(500, 1);
    metrics.calculate_throughput(Duration::from_secs(0));
    assert_eq!(metrics.ops_per_second, None);
    metrics.calculate_throughput(Duration::from_secs(2));
    assert_eq!(
        metrics.bytes_per_second,
        Some(Throughput { amount: 500, duration: Duration::from_secs(2) })
    );
}

#[test]
fn health_follows_the_statistics() {
    let mut stats = StorageStats::new(Duration::from_secs(9));
    assert_eq!(stats.timestamp, Duration::from_secs(9));
    stats.update_health();
    assert_eq!(stats.health.overall_health, HealthStatus::Degraded);

    stats.cache_stats.block_cache.hit_rate = Ratio { part: 1, whole: 2 };
    stats.memory_stats.utilization = Ratio { part: 9, whole: 10 };
    stats.update_health();
    assert_eq!(stats.health.overall_health, HealthStatus::Healthy);

    stats.memory_stats.utilization = Ratio { part: 901, whole: 1000 };
    stats.update_health();
    assert_eq!(stats.health.overall_health, HealthStatus::Degraded);

    stats.memory_stats.utilization = Ratio { part: 0, whole: 1 };
    stats.health.background_errors = 10;
    stats.update_health();
    assert_eq!(stats.health.overall_health, HealthStatus::Degraded);
    stats.health.background_errors = 11;
    stats.update_health();
    assert_eq!(stats.health.overall_health, HealthStatus::Unhealthy);

    stats.health.background_errors = 0;
    stats.health.corruption_count = 1;
    stats.update_health();
    assert_eq!(stats.health.overall_health, HealthStatus::Unhealthy);
    assert_eq!(stats.health.overall_health.to_text(), "unhealthy");
}

#[test]
fn the_core_interface_sees_reads_and_writes() {
    let mut stats = StorageStats::new(Duration::from_secs(0));
    stats.total_keys = 4;
    stats.total_size_bytes = 10;
    stats.io_stats.read_stats.record_operation(1, 1);
    stats.io_stats.write_stats.record_operation(1, 1);
    stats.io_stats.write_stats.record_operation(1, 1);
    stats.cache_stats.block_cache.hit_count = 7;
    stats.memory_stats.total_memory_usage = 99;
    let core = core_stats(&stats);
    assert_eq!(core.key_count, 4);
    assert_eq!(core.total_operations, 3);
    assert_eq!(core.get_operations, 1);
    assert_eq!(core.put_operations, 2);
    assert_eq!(core.delete_operations, 0);
    assert_eq!(rate(core.average_value_size), 2.5);
    assert_eq!(core.peak_memory_usage, 99);
    assert_eq!(core.cache_hits, 7);
}

#[test]
fn errors_cross_the_adapter_with_their_text() {
    assert_eq!(adapted::<u32>(Ok(7)).unwrap(), 7);
    match adapted::<u32>(Err(F4KvsError::io("gone"))) {
        Err(F4KvsError::Storage { message }) => {
            assert_eq!(message, "Storage error: I/O error: gone");
        }
        other => panic!("{other:?}"),
    }
    assert_eq!(
        unsupported(OptionalOperation::Clear).to_text(),
        "Storage error: Clear operation not supported by this storage backend"
    );
    assert_eq!(
        unsupported(OptionalOperation::Transactions).to_text(),
        "Storage error: Transactions not supported by this storage backend"
    );
}

#[test]
fn statuses_and_defaults_of_the_interface() {
    assert_eq!(TraitHealthStatus::Healthy.to_text(), "healthy");
    assert_eq!(TraitHealthStatus::Degraded("slow".to_string()).to_text(), "degraded: slow");
    assert_eq!(TraitHealthStatus::Unhealthy("down".to_string()).to_text(), "unhealthy: down");
    assert_eq!(CompactionConfig::default().level0_stop_writes_trigger, 36);
    assert_eq!(CompactionConfig::default().max_bytes_for_level_base, 256 * 1024 * 1024);
}
