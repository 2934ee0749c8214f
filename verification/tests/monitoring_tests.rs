use phira_mp_plugin::monitoring::{
    push_bounded, HealthMonitor, HealthStatus, HealthThresholds, MetricLevel, MetricsCollector,
    PluginMetrics, RequestTracker,
};
use std::collections::VecDeque;
use std::time::Duration;

#[test]
fn test_health_status() {
    let thresholds = HealthThresholds::default();
    let mut metrics = PluginMetrics::new("test_plugin".to_string());

    metrics.update_memory_usage(300 * 1024 * 1024); // 300 MB (> critical)
    let status = HealthStatus::from_metrics(&metrics, &thresholds);
    assert_eq!(status, HealthStatus::Critical);

    metrics.update_memory_usage(150 * 1024 * 1024); // 150 MB (> warning, < critical)
    let status = HealthStatus::from_metrics(&metrics, &thresholds);
    assert_eq!(status, HealthStatus::Warning);

    metrics.update_memory_usage(50 * 1024 * 1024); // 50 MB (< warning)
    let status = HealthStatus::from_metrics(&metrics, &thresholds);
    assert_eq!(status, HealthStatus::Healthy);
}

#[test]
fn test_metrics_collector() {
    let mut collector = MetricsCollector::new(10, Duration::from_secs(1));

    collector.register_plugin("test_plugin".to_string());

    collector.update_memory_usage("test_plugin", 1024 * 1024);

    let metrics = collector.get_plugin_metrics("test_plugin");
    assert!(metrics.is_some());
    assert_eq!(metrics.unwrap().memory_usage, 1024 * 1024);

    collector.unregister_plugin("test_plugin");
    assert!(collector.get_plugin_metrics("test_plugin").is_none());
}

#[test]
fn test_plugin_metrics() {
    let mut metrics = PluginMetrics::new("test_plugin".to_string());

    metrics.update_memory_usage(1024 * 1024); // 1 MB
    metrics.update_cpu_level(MetricLevel::Normal);

    let tracker = metrics.start_request();
    assert_eq!(metrics.active_requests, 1);
    let _ = tracker.elapsed();
    metrics.end_request(MetricLevel::Normal, MetricLevel::Normal);

    assert_eq!(metrics.memory_usage, 1024 * 1024);
    assert_eq!(metrics.active_requests, 0);
    assert_eq!(metrics.total_requests, 1);
}

#[test]
fn the_worst_dimension_decides_the_health() {
    let thresholds = HealthThresholds::default();
    assert_eq!(thresholds.warning_memory, 128 * 1024 * 1024);
    assert_eq!(thresholds.critical_memory, 256 * 1024 * 1024);
    let levels = [MetricLevel::Normal, MetricLevel::Warning, MetricLevel::Critical];
    let memories = [0u64, 128 * 1024 * 1024 + 1, 256 * 1024 * 1024 + 1];
    for (mi, memory) in memories.iter().enumerate() {
        for (ci, cpu) in levels.iter().enumerate() {
            for (ei, error) in levels.iter().enumerate() {
                for (li, latency) in levels.iter().enumerate() {
                    let mut metrics = PluginMetrics::new("p".to_string());
                    metrics.memory_usage = *memory;
                    metrics.cpu_level = *cpu;
                    metrics.error_level = *error;
                    metrics.latency_level = *latency;
                    let worst = mi.max(ci).max(ei).max(li);
                    let expected = match worst {
                        0 => HealthStatus::Healthy,
                        1 => HealthStatus::Warning,
                        _ => HealthStatus::Critical,
                    };
                    assert_eq!(HealthStatus::from_metrics(&metrics, &thresholds), expected);
                }
            }
        }
    }
    // The thresholds themselves are not exceeded.
    let mut metrics = PluginMetrics::new("p".to_string());
    metrics.memory_usage = 256 * 1024 * 1024;
    assert_eq!(HealthStatus::from_metrics(&metrics, &thresholds), HealthStatus::Warning);
    metrics.memory_usage = 128 * 1024 * 1024;
    assert_eq!(HealthStatus::from_metrics(&metrics, &thresholds), HealthStatus::Healthy);
}

#[test]
fn statuses_have_names() {
    assert_eq!(HealthStatus::Healthy.as_str(), "healthy");
    assert_eq!(HealthStatus::Warning.as_str(), "warning");
    assert_eq!(HealthStatus::Critical.as_str(), "critical");
    assert_eq!(HealthStatus::Unknown.as_str(), "unknown");
}

#[test]
fn a_bounded_history_keeps_the_newest_entries() {
    let mut history: VecDeque<u32> = VecDeque::new();
    for i in 1..=5 {
        push_bounded(&mut history, i, 3);
    }
    assert_eq!(history, VecDeque::from(vec![3, 4, 5]));
    push_bounded(&mut history, 6, 1);
    assert_eq!(history, VecDeque::from(vec![6]));
    push_bounded(&mut history, 7, 0);
    assert!(history.is_empty());
    push_bounded(&mut history, 8, 2);
    assert_eq!(history, VecDeque::from(vec![8]));
}

#[test]
fn snapshots_are_taken_when_the_interval_has_passed() {
    let mut collector = MetricsCollector::new(2, Duration::from_secs(1));
    collector.register_plugin("a".to_string());
    collector.register_plugin("b".to_string());
    collector.update_memory_usage("a", 10);
    assert!(!collector.collect_metrics_after(Duration::from_nanos(999_999_999)));
    assert!(collector.get_history().is_empty());
    assert!(!collector.collect_metrics());
    assert!(collector.collect_metrics_after(Duration::from_secs(1)));
    collector.update_memory_usage("a", 20);
    assert!(collector.collect_metrics_after(Duration::from_secs(2)));
    collector.update_memory_usage("a", 30);
    assert!(collector.collect_metrics_after(Duration::from_secs(3)));
    let history = collector.get_history();
    assert_eq!(history.len(), 2);
    assert_eq!(history[0][0].memory_usage, 20);
    assert_eq!(history[1][0].memory_usage, 30);
    assert_eq!(history[1][1].plugin_name, "b");
    let stats = collector.stats(4);
    assert_eq!(stats.tracked_plugins, 2);
    assert_eq!(stats.history_size, 2);
    assert_eq!(stats.max_history_size, 2);
    assert_eq!(stats.subscribers, 4);
}

#[test]
fn requests_are_counted_per_plugin() {
    let mut collector = MetricsCollector::new(1, Duration::from_secs(1));
    collector.register_plugin("a".to_string());
    assert!(collector.start_request("nobody").is_none());
    let tracker = collector.start_request("a").unwrap();
    assert_eq!(tracker.plugin_name(), "a");
    assert_eq!(collector.get_plugin_metrics("a").unwrap().active_requests, 1);
    collector.update_cpu_level("a", MetricLevel::Warning);
    collector.update_cpu_level("nobody", MetricLevel::Critical);
    assert_eq!(collector.get_plugin_metrics("a").unwrap().cpu_level, MetricLevel::Warning);
    assert!(collector.end_request("a", MetricLevel::Critical, MetricLevel::Normal));
    assert!(!collector.end_request("nobody", MetricLevel::Normal, MetricLevel::Normal));
    assert_eq!(collector.get_plugin_metrics("a").unwrap().active_requests, 0);
    assert_eq!(collector.get_plugin_metrics("a").unwrap().total_requests, 1);
    assert_eq!(collector.get_plugin_metrics("a").unwrap().latency_level, MetricLevel::Critical);
    assert_eq!(collector.get_all_metrics().len(), 1);
    // Registering again starts from nothing.
    collector.register_plugin("a".to_string());
    assert_eq!(collector.get_plugin_metrics("a").unwrap().active_requests, 0);
    assert_eq!(collector.get_all_metrics().len(), 1);
    let tracker = RequestTracker::new("x".to_string());
    assert_eq!(tracker.plugin_name(), "x");
    let mut metrics = PluginMetrics::new("m".to_string());
    metrics.end_request(MetricLevel::Warning, MetricLevel::Critical);
    assert_eq!(metrics.active_requests, 0);
    assert_eq!(metrics.total_requests, 1);
    assert_eq!(metrics.latency_level, MetricLevel::Warning);
    assert_eq!(metrics.error_level, MetricLevel::Critical);
    assert!(!metrics.is_stale(Duration::from_secs(3600)));
    assert!(PluginMetrics::is_stale_at(Duration::from_nanos(1_000_000_001), Duration::from_secs(1)));
    assert!(!PluginMetrics::is_stale_at(Duration::from_secs(1), Duration::from_secs(1)));
    assert!(!PluginMetrics::is_stale_at(Duration::from_millis(999), Duration::from_secs(1)));
    assert_eq!(metrics.snapshot().total_requests, 1);
}

#[test]
fn the_monitor_judges_every_plugin_and_keeps_a_history() {
    let mut collector = MetricsCollector::new(1, Duration::from_secs(1));
    collector.register_plugin("ok".to_string());
    collector.register_plugin("warm".to_string());
    collector.register_plugin("hot".to_string());
    collector.update_cpu_level("warm", MetricLevel::Warning);
    collector.update_memory_usage("hot", 300 * 1024 * 1024);
    collector.update_cpu_level("hot", MetricLevel::Normal);

    let mut monitor = HealthMonitor::new(HealthThresholds::default(), 2);
    assert_eq!(monitor.get_plugin_health(&collector, "ok"), HealthStatus::Healthy);
    assert_eq!(monitor.get_plugin_health(&collector, "warm"), HealthStatus::Warning);
    assert_eq!(monitor.get_plugin_health(&collector, "hot"), HealthStatus::Critical);
    assert_eq!(monitor.get_plugin_health(&collector, "gone"), HealthStatus::Unknown);
    assert!(monitor.get_health_history().is_empty());

    let statuses = monitor.check_health(&collector);
    assert_eq!(
        statuses,
        vec![
            ("ok".to_string(), HealthStatus::Healthy),
            ("warm".to_string(), HealthStatus::Warning),
            ("hot".to_string(), HealthStatus::Critical),
        ]
    );
    assert_eq!(monitor.get_health_history().len(), 1);
    assert_eq!(monitor.get_critical_plugins(&collector), vec!["hot".to_string()]);
    let stats = monitor.stats(&collector);
    assert_eq!(stats.total_plugins, 3);
    assert_eq!(stats.healthy, 1);
    assert_eq!(stats.warning, 1);
    assert_eq!(stats.critical, 1);
    assert_eq!(stats.unknown, 0);
    assert_eq!(stats.history_size, 2);
    assert_eq!(monitor.get_health_history()[1], statuses);
}
