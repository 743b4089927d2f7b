//! Metrics, alerts and health checks.

use f4kvs_lsm::duration::Duration;
use f4kvs_lsm::monitoring::{
    collect_metrics, find_metric, perform_health_checks, AlertCondition, AlertManager, AlertRule,
    AlertSeverity, AlertStatus, AlertThresholds, Delivery, HealthChecker, MetricsCollector,
    MonitoringConfig, NotificationChannel, NotificationType, Reading, Verdict, HISTORY_LIMIT,
};
use f4kvs_lsm::ratio::Ratio;
use f4kvs_lsm::storage_stats::{HealthStatus, StorageStats};

fn secs(n: u64) -> Duration {
    Duration::from_secs(n)
}

fn rule(id: &str, metric: &str) -> AlertRule {
    AlertRule {
        id: id.to_string(),
        name: "high use".to_string(),
        metric_name: metric.to_string(),
        condition: AlertCondition::GreaterThan,
        threshold: f64::to_bits(80.0),
        duration: secs(0),
        severity: AlertSeverity::Critical,
        enabled: true,
        notification_channels: Vec::new(),
    }
}

fn verdict(breached: bool) -> Verdict {
    Verdict { breached, value_text: "90.5".to_string(), threshold_text: "80".to_string() }
}

fn channel(kind: NotificationType, enabled: bool) -> NotificationChannel {
    NotificationChannel {
        id: "c".to_string(),
        name: "channel".to_string(),
        channel_type: kind,
        config: Vec::new(),
        enabled,
    }
}

#[test]
fn test_alert_thresholds_default() {
    let thresholds = AlertThresholds::default();
    assert_eq!(f64::from_bits(thresholds.memory_warning_threshold), 80.0);
    assert_eq!(f64::from_bits(thresholds.memory_critical_threshold), 95.0);
    assert_eq!(f64::from_bits(thresholds.cache_hit_rate_warning_threshold), 70.0);
    assert_eq!(f64::from_bits(thresholds.cache_hit_rate_critical_threshold), 50.0);
}

#[test]
fn test_alert_manager() {
    let manager = AlertManager::new();
    let alerts = manager.get_active_alerts();
    assert!(alerts.is_empty());
}

#[test]
fn test_metrics_collector() {
    let collector = MetricsCollector::new();
    let metrics = collector.get_metrics();
    assert!(metrics.is_empty());
}

#[test]
fn test_health_checker() {
    let checker = HealthChecker::new();
    let results = checker.get_results();
    assert!(results.is_empty());
}

#[test]
fn a_breach_raises_one_alert() {
    let mut collector = MetricsCollector::default();
    collector.update_metrics(&vec![("memory".to_string(), f64::to_bits(90.5))], secs(1234));

    let mut manager = AlertManager::default();
    manager.add_rule(rule("r1", "memory"));
    manager.add_rule(rule("r2", "nothing"));
    let mut off = rule("r3", "memory");
    off.enabled = false;
    manager.add_rule(off);
    manager.add_rule(rule("r4", "memory"));
    let verdicts = vec![verdict(true), verdict(true), verdict(true), verdict(false)];

    let raised = manager.evaluate_alerts(collector.get_metrics(), &verdicts, secs(2000));
    assert_eq!(raised.len(), 1);
    assert_eq!(raised[0].id, "r1_1234");
    assert_eq!(
        raised[0].message,
        "memory is greater than 80 (current: 90.5, threshold: 80)"
    );
    assert_eq!(raised[0].status, AlertStatus::Firing);
    assert_eq!(raised[0].triggered_at, secs(2000));
    assert_eq!(f64::from_bits(raised[0].current_value), 90.5);

    assert!(manager.evaluate_alerts(collector.get_metrics(), &verdicts, secs(2001)).is_empty());
    collector.update_metrics(&vec![("memory".to_string(), f64::to_bits(91.0))], secs(1240));
    let again = manager.evaluate_alerts(collector.get_metrics(), &verdicts, secs(2002));
    assert_eq!(again[0].id, "r1_1240");
    assert_eq!(manager.get_active_alerts().len(), 2);
    assert_eq!(manager.history.len(), 2);
    manager.alerts[0].status = AlertStatus::Resolved;
    assert_eq!(manager.get_active_alerts().len(), 1);
    manager.alerts[1].status = AlertStatus::Suppressed;
    assert!(manager.get_active_alerts().is_empty());
}

#[test]
fn notifications_go_to_channels_in_use() {
    let mut collector = MetricsCollector::new();
    collector.update_metrics(&vec![("m".to_string(), 0)], secs(1));
    let mut manager = AlertManager::new();
    manager.add_rule(rule("r", "m"));
    for level in ["error", "warn", "info", "other"] {
        let kind = NotificationType::Log { level: level.to_string() };
        manager.add_notification_channel(channel(kind, true));
    }
    let kind = NotificationType::Log { level: "error".to_string() };
    manager.add_notification_channel(channel(kind, false));
    manager.add_notification_channel(channel(
        NotificationType::Webhook { url: "http://hook".to_string(), headers: Vec::new() },
        true,
    ));
    manager.add_notification_channel(channel(
        NotificationType::Email {
            smtp_server: "smtp".to_string(),
            recipients: vec!["a@b".to_string(), "c@d".to_string()],
        },
        true,
    ));
    manager.add_notification_channel(channel(
        NotificationType::Slack { webhook_url: "http://s".to_string(), channel: "ops".to_string() },
        true,
    ));
    let raised = manager.evaluate_alerts(collector.get_metrics(), &vec![verdict(true)], secs(2));
    let text = raised[0].message.clone();
    let line = format!("ALERT: {text}");
    let sent = manager.send_notifications(&raised[0]);
    assert_eq!(sent.len(), 7);
    assert!(matches!(&sent[0], Delivery::LogError(t) if *t == line));
    assert!(matches!(&sent[1], Delivery::LogWarn(t) if *t == line));
    assert!(matches!(&sent[2], Delivery::LogInfo(t) if *t == line));
    assert!(matches!(&sent[3], Delivery::LogDebug(t) if *t == line));
    assert!(matches!(&sent[4], Delivery::Webhook { url, message }
        if url == "http://hook" && *message == text));
    assert!(matches!(&sent[5], Delivery::Email { smtp_server, recipients, message }
        if smtp_server == "smtp" && recipients.len() == 2 && recipients[1] == "c@d"
            && *message == text));
    assert!(matches!(&sent[6], Delivery::Slack { channel, message }
        if channel == "ops" && *message == text));
}

#[test]
fn the_last_value_of_a_metric_counts() {
    let mut collector = MetricsCollector::new();
    collector.update_metrics(&vec![("a".to_string(), 1), ("b".to_string(), 2)], secs(1));
    collector.update_metrics(&vec![("a".to_string(), 3), ("a".to_string(), 4)], secs(2));
    assert_eq!(collector.get_metrics().len(), 2);
    assert_eq!(find_metric(collector.get_metrics(), "a").unwrap().value, 4);
    assert_eq!(find_metric(collector.get_metrics(), "b").unwrap().last_updated, secs(1));
    assert!(find_metric(collector.get_metrics(), "c").is_none());
    assert_eq!(collector.history.len(), 2);
    assert_eq!(collector.history[1].metrics, vec![("a".to_string(), 4), ("b".to_string(), 2)]);
    for i in 0..HISTORY_LIMIT as u64 {
        collector.update_metrics(&Vec::new(), secs(10 + i));
    }
    assert_eq!(collector.history.len(), HISTORY_LIMIT);
    assert_eq!(collector.history[0].timestamp, secs(10));
}

#[test]
fn health_checks_follow_their_limits() {
    let mut stats = StorageStats::new(secs(0));
    stats.memory_stats.utilization = Ratio { part: 96, whole: 100 };
    stats.cache_stats.block_cache.hit_rate = Ratio { part: 69, whole: 100 };
    stats.health.error_count = 11;
    let results = perform_health_checks(&stats, "96.0", "69.0", secs(5));
    assert_eq!(results[0].status, HealthStatus::Unhealthy);
    assert_eq!(results[0].message, "Memory usage: 96.0%");
    assert_eq!(results[1].status, HealthStatus::Degraded);
    assert_eq!(results[1].message, "Cache hit rate: 69.0%");
    assert_eq!(results[2].status, HealthStatus::Degraded);
    assert_eq!(results[2].message, "Error count: 11");
    assert_eq!(results[2].duration, Duration::from_millis(1));

    let mut checker = HealthChecker::default();
    for result in results {
        checker.add_result(result);
    }
    stats.memory_stats.utilization = Ratio { part: 95, whole: 100 };
    stats.cache_stats.block_cache.hit_rate = Ratio { part: 7, whole: 10 };
    stats.health.error_count = 51;
    for result in perform_health_checks(&stats, "95.0", "70.0", secs(6)) {
        checker.add_result(result);
    }
    let last = checker.get_results();
    assert_eq!(last.len(), 3);
    assert_eq!(last[0].status, HealthStatus::Degraded);
    assert_eq!(last[1].status, HealthStatus::Healthy);
    assert_eq!(last[2].status, HealthStatus::Unhealthy);
    assert_eq!(checker.history.len(), 6);
    assert_eq!(last[0].timestamp, secs(6));
}

#[test]
fn the_statistics_become_metrics() {
    let mut stats = StorageStats::new(secs(0));
    stats.total_keys = 5;
    stats.health.overall_health = HealthStatus::Unhealthy;
    let metrics = collect_metrics(&stats);
    assert_eq!(metrics.len(), 12);
    assert_eq!(metrics[0], ("storage_total_keys".to_string(), Reading::Count(5)));
    assert_eq!(metrics[10], ("storage_health_status".to_string(), Reading::Count(3)));
    assert_eq!(metrics[6], ("storage_read_ops_per_second".to_string(), Reading::PerSecond(None)));
}

#[test]
fn names_and_defaults() {
    assert_eq!(AlertSeverity::Info.as_str(), "info");
    assert_eq!(AlertSeverity::Warning.as_str(), "warning");
    assert_eq!(AlertSeverity::Critical.as_str(), "critical");
    assert_eq!(AlertSeverity::Emergency.as_str(), "emergency");
    assert!(AlertSeverity::Warning < AlertSeverity::Emergency);
    assert_eq!(AlertCondition::LessThanOrEqual.phrase(), "is less than or equal to");
    assert_eq!(AlertCondition::NotEqualTo.phrase(), "does not equal");
    let config = MonitoringConfig::default();
    assert_eq!(config.metrics_interval, secs(10));
    assert_eq!(config.alert_evaluation_interval, secs(5));
    assert!(config.enable_alerting);
}
