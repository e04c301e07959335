use geo_sidecar::metrics::MetricsCollector;

#[test]
fn empty_collector_reports_zeroes() {
    let collector = MetricsCollector::new();
    let snapshot = collector.get_snapshot();
    assert_eq!(snapshot.total_requests, 0);
    assert_eq!(snapshot.successful_requests, 0);
    assert_eq!(snapshot.failed_requests, 0);
    assert_eq!(snapshot.avg_latency_micros, 0);
    // The "no data" sentinel must not leak as a huge minimum.
    assert_eq!(snapshot.min_latency_micros, 0);
    assert_eq!(snapshot.max_latency_micros, 0);
}

#[test]
fn three_records() {
    let mut collector = MetricsCollector::new();
    collector.record_request(300, true);
    collector.record_request(100, false);
    collector.record_request(200, true);
    let snapshot = collector.get_snapshot();
    assert_eq!(snapshot.total_requests, 3);
    assert_eq!(snapshot.successful_requests, 2);
    assert_eq!(snapshot.failed_requests, 1);
    assert_eq!(snapshot.successful_requests + snapshot.failed_requests, snapshot.total_requests);
    assert_eq!(snapshot.avg_latency_micros, 200);
    assert_eq!(snapshot.min_latency_micros, 100);
    assert_eq!(snapshot.max_latency_micros, 300);
}

#[test]
fn average_truncates_to_whole_microseconds() {
    let mut collector = MetricsCollector::new();
    collector.record_request(100, true);
    collector.record_request(101, true);
    let snapshot = collector.get_snapshot();
    assert_eq!(snapshot.avg_latency_micros, 100);
}

#[test]
fn reset_forgets_everything() {
    let mut collector = MetricsCollector::new();
    collector.record_request(500, false);
    collector.reset();
    let snapshot = collector.get_snapshot();
    assert_eq!(snapshot.total_requests, 0);
    assert_eq!(snapshot.failed_requests, 0);
    assert_eq!(snapshot.min_latency_micros, 0);
    assert_eq!(snapshot.max_latency_micros, 0);
}

#[test]
fn sentinel_valued_record_is_still_the_minimum() {
    let mut collector = MetricsCollector::new();
    // A genuine record whose latency equals the internal "no data" sentinel
    // must be reported as the minimum, not masked to zero.
    collector.record_request(u64::MAX, false);
    let snapshot = collector.get_snapshot();
    assert_eq!(snapshot.total_requests, 1);
    assert_eq!(snapshot.min_latency_micros, u64::MAX);
    assert_eq!(snapshot.max_latency_micros, u64::MAX);
}
