use comic_cache::{throughput_label, ThroughputAggregator};

#[test]
fn idle_window_publishes_zero() {
    let mut a = ThroughputAggregator::new_at(10_000);
    assert_eq!(a.tick_at(10_999), None);
    assert_eq!(a.tick_at(11_000), Some(0));
    assert_eq!(a.tick_at(13_500), Some(0));
}

#[test]
fn rate_divides_by_elapsed_milliseconds() {
    let mut a = ThroughputAggregator::new_at(0);
    assert_eq!(a.record_at(3000, 200), None);
    assert_eq!(a.record_at(3000, 900), None);
    assert_eq!(a.record_at(3000, 2500), Some(3600));
    assert_eq!(a.accumulated, 0);
    assert_eq!(a.window_start_ms, 2500);
}

#[test]
fn clock_going_back_does_not_publish() {
    let mut a = ThroughputAggregator::new_at(5000);
    assert_eq!(a.record_at(10, 1000), None);
    assert_eq!(a.accumulated, 10);
}

#[test]
fn accumulation_saturates() {
    let mut a = ThroughputAggregator::new_at(0);
    a.record_at(u64::MAX, 1);
    a.record_at(5, 2);
    assert_eq!(a.accumulated, u64::MAX);
}

#[test]
fn window_of_one_and_a_half_seconds() {
    let mut a = ThroughputAggregator::new_at(0);
    assert_eq!(a.record_at(3000, 1500), Some(2000));
    let mut b = ThroughputAggregator::new_at(0);
    assert_eq!(b.record_at(1, 1999), Some(0));
    assert_eq!(b.record_at(u64::MAX, 2998), None);
    assert_eq!(b.tick_at(3999), Some(u64::MAX / 2));
}

#[test]
fn live_clock_aggregator_starts_empty() {
    let mut a = ThroughputAggregator::new();
    assert_eq!(a.accumulated, 0);
    assert!(a.window_start_ms > 0);
    let first = a.tick();
    assert!(first.is_none() || first == Some(0));
    a.record(100);
    assert!(a.accumulated == 100 || a.accumulated == 0);
}

#[test]
fn label_shows_unit_per_second() {
    assert_eq!(throughput_label(1_500_000_000), "1 GB/s");
    assert_eq!(throughput_label(0), "0 B/s");
}
