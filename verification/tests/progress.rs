use download_manager_engine::clock::{Duration, Instant};
use download_manager_engine::progress::{
    ProgressConfigError, ProgressPolicy, SpeedEstimator, ceil_div, rate, rates_are_stable,
};

fn at(start: Instant, span: Duration) -> Instant {
    start.checked_add(span).expect("representable instant")
}

#[test]
fn policy_bounds_event_and_smoothing_cadence() {
    assert_eq!(
        ProgressPolicy::new(Duration::from_millis(99), Duration::from_secs(5)),
        Err(ProgressConfigError::InvalidEventInterval)
    );
    assert_eq!(
        ProgressPolicy::new(Duration::from_secs(2), Duration::from_secs(1)),
        Err(ProgressConfigError::InvalidSpeedWindow)
    );
    assert!(ProgressPolicy::new(Duration::from_millis(100), Duration::from_secs(1)).is_ok());
}

#[test]
fn smoothed_speed_and_eta_require_stable_known_progress() {
    let start = Instant::now();
    let mut estimator = SpeedEstimator::new(Duration::from_secs(5)).expect("estimator");
    assert_eq!(
        estimator
            .sample_at(0, Some(5_000), start)
            .speed_bytes_per_second(),
        None
    );
    let _ = estimator.sample_at(1_000, Some(5_000), at(start, Duration::from_secs(1)));
    let estimate = estimator.sample_at(2_000, Some(5_000), at(start, Duration::from_secs(2)));
    assert_eq!(estimate.speed_bytes_per_second(), Some(1_000));
    assert_eq!(estimate.eta_seconds(), Some(3));
    assert!(estimate.is_stable());

    let unknown = estimator.sample_at(3_000, None, at(start, Duration::from_secs(3)));
    assert_eq!(unknown.speed_bytes_per_second(), Some(1_000));
    assert_eq!(unknown.eta_seconds(), None);
}

#[test]
fn unstable_stalled_and_regressed_samples_hide_eta() {
    let start = Instant::now();
    let mut estimator = SpeedEstimator::new(Duration::from_secs(10)).expect("estimator");
    let _ = estimator.sample_at(0, Some(10_000), start);
    let _ = estimator.sample_at(100, Some(10_000), at(start, Duration::from_secs(1)));
    let unstable = estimator.sample_at(5_100, Some(10_000), at(start, Duration::from_secs(2)));
    assert!(unstable.speed_bytes_per_second().is_some());
    assert_eq!(unstable.eta_seconds(), None);
    assert!(!unstable.is_stable());

    estimator.reset();
    let _ = estimator.sample_at(5_100, Some(10_000), at(start, Duration::from_secs(3)));
    let _ = estimator.sample_at(5_100, Some(10_000), at(start, Duration::from_secs(4)));
    let stalled = estimator.sample_at(5_100, Some(10_000), at(start, Duration::from_secs(5)));
    assert_eq!(stalled.speed_bytes_per_second(), Some(0));
    assert_eq!(stalled.eta_seconds(), None);

    let regressed = estimator.sample_at(10, Some(10_000), at(start, Duration::from_secs(6)));
    assert_eq!(regressed.speed_bytes_per_second(), None);
    assert_eq!(regressed.eta_seconds(), None);
}

#[test]
fn completion_reports_zero_eta_without_inventing_a_rate() {
    let mut estimator = SpeedEstimator::new(Duration::from_secs(5)).expect("estimator");
    let complete = estimator.sample(0, Some(0));
    assert_eq!(complete.speed_bytes_per_second(), None);
    assert_eq!(complete.eta_seconds(), Some(0));
}

#[test]
fn speed_window_bounds_are_enforced() {
    assert!(SpeedEstimator::new(Duration::from_millis(999)).is_err());
    assert!(SpeedEstimator::new(Duration::from_secs(61)).is_err());
    assert!(SpeedEstimator::new(Duration::from_secs(60)).is_ok());
}

#[test]
fn rate_formula_is_exact_and_capped() {
    assert_eq!(rate(1_500, Duration::from_millis(1_500)), 1_000);
    assert_eq!(rate(1, Duration::from_secs(3)), 0);
    assert_eq!(rate(5, Duration::from_nanos(0)), 0);
    assert_eq!(rate(u64::MAX, Duration::from_nanos(1)), 9_007_199_254_740_991);
    assert_eq!(ceil_div(7, 2), 4);
    assert_eq!(ceil_div(8, 2), 4);
    assert!(rates_are_stable(&[0, 0]));
    assert!(rates_are_stable(&[10, 40]));
    assert!(!rates_are_stable(&[10, 41]));
    assert!(!rates_are_stable(&[0, 5]));
    assert!(!rates_are_stable(&[5]));
}

#[test]
fn same_instant_sample_replaces_the_previous_one() {
    let start = Instant::from_nanos_since_epoch(10_000_000_000);
    let mut estimator = SpeedEstimator::new(Duration::from_secs(5)).expect("estimator");
    let _ = estimator.sample_at(0, None, start);
    let _ = estimator.sample_at(500, None, at(start, Duration::from_secs(1)));
    let _ = estimator.sample_at(1_000, None, at(start, Duration::from_secs(1)));
    let estimate = estimator.sample_at(2_000, None, at(start, Duration::from_secs(2)));
    assert_eq!(estimate.speed_bytes_per_second(), Some(1_000));
}

#[test]
fn a_reset_estimator_behaves_as_a_fresh_one() {
    let start = Instant::from_nanos_since_epoch(1_000_000_000_000);
    let mut used = SpeedEstimator::new(Duration::from_secs(5)).expect("estimator");
    let _ = used.sample_at(0, Some(10_000), start);
    let _ = used.sample_at(4_000, Some(10_000), at(start, Duration::from_secs(1)));
    used.reset();
    let mut fresh = SpeedEstimator::new(Duration::from_secs(5)).expect("estimator");
    let later = at(start, Duration::from_secs(10));
    for (step, bytes) in [(0u64, 4_000u64), (1, 5_000), (2, 6_000), (3, 6_500), (4, 7_000)] {
        let now = at(later, Duration::from_secs(step));
        assert_eq!(used.sample_at(bytes, Some(10_000), now), fresh.sample_at(bytes, Some(10_000), now));
    }
}

#[test]
fn clock_samples_never_go_backwards() {
    let mut clock = download_manager_engine::clock::MonotonicClock::start();
    let first = clock.now();
    let second = clock.now();
    assert!(second >= first);
    let mut estimator = SpeedEstimator::new(Duration::from_secs(5)).expect("estimator");
    let estimate = estimator.sample(0, Some(100));
    assert_eq!(estimate.speed_bytes_per_second(), None);
}
