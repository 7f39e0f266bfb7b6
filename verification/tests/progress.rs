use vanity_core::progress::{
    push_sample, update_due, ProgressTracker, MEDIAN_MIN_SAMPLES, MIN_ELAPSED_NANOS, RATE_WINDOW,
    UPDATE_INTERVAL_NANOS,
};

#[test]
fn update_due_boundaries() {
    assert!(!update_due(0));
    assert!(!update_due(MIN_ELAPSED_NANOS));
    assert!(!update_due(UPDATE_INTERVAL_NANOS - 1));
    assert!(update_due(UPDATE_INTERVAL_NANOS));
    assert!(update_due(UPDATE_INTERVAL_NANOS + 1));
}

#[test]
fn tuning_constants() {
    assert_eq!(RATE_WINDOW, 5);
    assert_eq!(MEDIAN_MIN_SAMPLES, 3);
    assert_eq!(UPDATE_INTERVAL_NANOS, 500_000_000);
}

#[test]
fn push_sample_keeps_recent_window() {
    let mut window: Vec<u64> = Vec::new();
    for s in 1..=5u64 {
        push_sample(&mut window, s);
    }
    assert_eq!(window, vec![1, 2, 3, 4, 5]);
    push_sample(&mut window, 6);
    assert_eq!(window, vec![2, 3, 4, 5, 6]);
    push_sample(&mut window, 7);
    assert_eq!(window, vec![3, 4, 5, 6, 7]);
}

#[test]
fn push_sample_holds_rate_samples() {
    let mut window: Vec<f64> = Vec::new();
    push_sample(&mut window, 1.5);
    push_sample(&mut window, 2.5);
    assert_eq!(window, vec![1.5, 2.5]);
}

#[test]
fn new_tracker_starts_at_zero_and_running() {
    let t = ProgressTracker::new(4);
    assert_eq!(t.snapshot(), (0, 0, 4));
    assert!(t.is_running());
}

#[test]
fn record_accumulates_totals() {
    let mut t = ProgressTracker::new(8);
    t.record_processed(3, 5);
    t.record_processed(2, 1);
    assert_eq!(t.snapshot(), (5, 6, 8));
}

#[test]
fn record_order_does_not_change_totals() {
    let deltas = [(3usize, 5usize), (2, 1), (7, 0), (0, 11)];
    let mut a = ProgressTracker::new(1);
    for &(s, d) in deltas.iter() {
        a.record_processed(s, d);
    }
    let mut b = ProgressTracker::new(1);
    for &(s, d) in deltas.iter().rev() {
        b.record_processed(s, d);
    }
    assert_eq!(a.snapshot(), b.snapshot());
    assert_eq!(a.snapshot(), (12, 17, 1));
}

#[test]
fn stop_clears_liveness_flag() {
    let mut t = ProgressTracker::new(2);
    t.stop();
    assert!(!t.is_running());
    assert_eq!(t.snapshot(), (0, 0, 2));
}

#[test]
fn start_sets_liveness_flag() {
    let mut t = ProgressTracker::new(2);
    t.stop();
    t.start();
    assert!(t.is_running());
}

#[test]
fn reset_zeroes_counters_and_stops() {
    let mut t = ProgressTracker::new(3);
    t.record_processed(10, 20);
    t.reset();
    assert!(!t.is_running());
    assert_eq!(t.snapshot(), (0, 0, 3));
    t.record_processed(1, 1);
    let (seeds, addresses, _) = t.snapshot();
    assert_eq!(seeds, 1);
    assert_eq!(addresses, 1);
}
