use agenticgen::metrics::CollectorConfig;
use agenticgen::metrics::MetricType;
use agenticgen::metrics::MetricsCollector;

#[test]
fn test_counter_operations() {
    let mut collector = MetricsCollector::new();

    collector.increment_counter("test_counter");
    assert_eq!(collector.get_counter("test_counter"), Some(1));

    collector.add_counter("test_counter", 5);
    assert_eq!(collector.get_counter("test_counter"), Some(6));
}

#[test]
fn test_gauge_operations() {
    let mut collector = MetricsCollector::new();

    collector.set_gauge("test_gauge", 42);
    assert_eq!(collector.get_gauge("test_gauge"), Some(42));

    collector.set_gauge("test_gauge", 100);
    assert_eq!(collector.get_gauge("test_gauge"), Some(100));
}

#[test]
fn test_histogram_operations() {
    let mut collector = MetricsCollector::new();

    for i in 1..=100 {
        collector.record_histogram("test_histogram", i);
    }

    let stats = collector.get_histogram_stats("test_histogram").unwrap();
    assert_eq!(stats.count, 100);
    assert_eq!(stats.min, 1);
    assert_eq!(stats.max, 100);
}

#[test]
fn percentiles_follow_the_nearest_rank_rule() {
    let mut collector = MetricsCollector::new();
    for i in 1..=100 {
        collector.record_histogram("ranked", i);
    }
    let stats = collector.get_histogram_stats("ranked").unwrap();
    assert_eq!(stats.p50, 50);
    assert_eq!(stats.p95, 95);
    assert_eq!(stats.p99, 99);
    assert_eq!(stats.p999, 100);

    let mut single = MetricsCollector::new();
    single.record_histogram("one", 7);
    let stats = single.get_histogram_stats("one").unwrap();
    assert_eq!(stats.p50, 7);
    assert_eq!(stats.p999, 7);
}

#[test]
fn histogram_keeps_values_in_order() {
    let mut collector = MetricsCollector::new();
    collector.record_histogram("scrambled", 5);
    collector.record_histogram("scrambled", 1);
    collector.record_histogram("scrambled", 3);
    collector.record_histogram("scrambled", 3);
    let values = collector.histogram_values("scrambled").unwrap();
    assert_eq!(values, vec![1, 3, 3, 5]);
    let stats = collector.get_histogram_stats("scrambled").unwrap();
    assert_eq!(stats.min, 1);
    assert_eq!(stats.max, 5);
    assert_eq!(stats.count, 4);
}

#[test]
fn unknown_names_are_absent() {
    let collector = MetricsCollector::new();
    assert_eq!(collector.get_counter("missing"), None);
    assert_eq!(collector.get_gauge("missing"), None);
    assert!(collector.get_histogram_stats("missing").is_none());
    assert!(collector.histogram_values("missing").is_none());
}

#[test]
fn counters_wrap_like_a_register() {
    let mut collector = MetricsCollector::new();
    collector.add_counter("spin", u64::MAX);
    assert_eq!(collector.get_counter("spin"), Some(u64::MAX));
    collector.add_counter("spin", 1);
    assert_eq!(collector.get_counter("spin"), Some(0));
    collector.add_counter("spin", 9);
    assert_eq!(collector.get_counter("spin"), Some(9));
}

#[test]
fn timing_lands_in_the_millisecond_histogram() {
    let mut collector = MetricsCollector::new();
    collector.record_timing("test_operation", 10);
    collector.record_timing("test_operation", 20);
    let stats = collector.get_histogram_stats("test_operation_ms").unwrap();
    assert_eq!(stats.count, 2);
    assert_eq!(stats.min, 10);
    assert_eq!(stats.max, 20);
    assert!(collector.get_histogram_stats("test_operation").is_none());
}

#[test]
fn collector_counts_its_own_writes() {
    let mut collector = MetricsCollector::new();
    collector.increment_counter("a");
    collector.set_gauge("b", 1);
    collector.record_histogram("c", 1);
    let internal = collector.get_internal_metrics();
    assert_eq!(internal.total_metrics, 3);
    assert_eq!(internal.flush_count, 0);
    let snapshot = collector.get_internal_metrics_at(u64::MAX);
    assert_eq!(snapshot.total_metrics, 3);
}

#[test]
fn reset_all_forgets_every_metric() {
    let mut collector = MetricsCollector::new();
    collector.increment_counter("a");
    collector.set_gauge("b", 2);
    collector.record_histogram("c", 3);
    collector.reset_all();
    assert_eq!(collector.get_counter("a"), None);
    assert_eq!(collector.get_gauge("b"), None);
    assert!(collector.get_histogram_stats("c").is_none());
    assert_eq!(collector.get_internal_metrics().total_metrics, 0);
}

#[test]
fn reset_metric_zeroes_cells_and_drops_histograms() {
    let mut collector = MetricsCollector::new();
    collector.add_counter("hits", 9);
    collector.set_gauge("depth", 4);
    collector.record_histogram("lat", 100);

    collector.reset_metric("hits", MetricType::Counter);
    assert_eq!(collector.get_counter("hits"), Some(0));

    collector.reset_metric("depth", MetricType::Gauge);
    assert_eq!(collector.get_gauge("depth"), Some(0));

    collector.reset_metric("lat", MetricType::Histogram);
    assert!(collector.get_histogram_stats("lat").is_none());

    // Resetting what never existed stays absent.
    collector.reset_metric("ghostly", MetricType::Counter);
    assert_eq!(collector.get_counter("ghostly"), None);
}

#[test]
fn all_cells_come_back_with_their_names() {
    let mut collector = MetricsCollector::new();
    collector.add_counter("x", 1);
    collector.add_counter("y", 2);
    collector.set_gauge("z", 3);
    let counters = collector.get_all_counters();
    assert_eq!(counters.len(), 2);
    assert!(counters.iter().any(|c| c.name == "x" && c.value == 1));
    assert!(counters.iter().any(|c| c.name == "y" && c.value == 2));
    let gauges = collector.get_all_gauges();
    assert_eq!(gauges.len(), 1);
    assert_eq!(gauges[0].name, "z");
    assert_eq!(gauges[0].value, 3);
}

#[test]
fn custom_configuration_is_kept() {
    let config = CollectorConfig {
        buffer_size: 16,
        flush_interval_ms: 5,
        enable_simd: false,
        histogram_significant_digits: 2,
    };
    let collector = MetricsCollector::with_config(config);
    assert_eq!(collector.config, config);
    let stock = CollectorConfig::default();
    assert_eq!(stock.buffer_size, 10000);
    assert_eq!(stock.flush_interval_ms, 100);
    assert_eq!(stock.histogram_significant_digits, 3);
}
