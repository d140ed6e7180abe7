use lite_server::outlier::{EjectionConfig, OutlierState};
use lite_server::time::Duration;

const MS: u128 = 1_000_000;

fn breaker_cfg() -> EjectionConfig {
    EjectionConfig {
        error_threshold: 1,
        timeout: Duration::from_millis(200),
        max_percent: 50,
        max_timeout: Duration::from_millis(2_000),
    }
}

#[test]
fn test_outlier_eject_after_consecutive_errors() {
    let mut outlier = OutlierState::new(3);
    assert!(!outlier.is_ejected(0));

    outlier.record_error(0);
    outlier.record_error(0);
    assert!(!outlier.is_ejected(0));

    outlier.record_error(0);
    assert!(outlier.is_ejected(0));
}

#[test]
fn test_outlier_never_ejects_when_threshold_zero() {
    let cfg = EjectionConfig {
        error_threshold: 0,
        timeout: Duration::from_secs(30),
        max_percent: 50,
        max_timeout: Duration::from_secs(300),
    };
    let mut outlier = OutlierState::with_config(2, &cfg);
    for _ in 0..10 {
        assert!(!outlier.record_error(0), "threshold 0 must never eject");
    }
    assert!(!outlier.is_ejected(0));
}

#[test]
fn test_outlier_ejects_at_configured_threshold() {
    let cfg = EjectionConfig {
        error_threshold: 2,
        timeout: Duration::from_secs(30),
        max_percent: 50,
        max_timeout: Duration::from_secs(300),
    };
    let mut outlier = OutlierState::with_config(1, &cfg);
    assert!(!outlier.record_error(0)); // 1st error, below threshold 2
    assert!(outlier.record_error(0)); // 2nd error → eject
    assert!(outlier.is_ejected(0));
}

#[test]
fn test_outlier_consecutive_errors_accessor() {
    let mut outlier = OutlierState::new(2);
    assert_eq!(outlier.consecutive_errors(0), 0);
    outlier.record_error(0);
    outlier.record_error(0);
    assert_eq!(outlier.consecutive_errors(0), 2);
    outlier.record_success(0);
    assert_eq!(outlier.consecutive_errors(0), 0);
    // Unknown index reads as 0 rather than panicking.
    assert_eq!(outlier.consecutive_errors(99), 0);
}

#[test]
fn test_outlier_reset_clears_count_and_ejection() {
    let mut outlier = OutlierState::new(1);
    outlier.record_error(0);
    outlier.record_error(0);
    outlier.record_error(0);
    assert!(outlier.is_ejected(0));
    outlier.reset(0);
    assert!(!outlier.is_ejected(0));
    assert_eq!(outlier.consecutive_errors(0), 0);
    // Unknown index is a no-op.
    outlier.reset(99);
}

#[test]
fn test_outlier_reset_error_count_keeps_ejection() {
    let mut outlier = OutlierState::new(1);
    outlier.record_error(0);
    outlier.record_error(0);
    outlier.record_error(0);
    assert!(outlier.is_ejected(0));
    outlier.reset_error_count(0);
    assert_eq!(outlier.consecutive_errors(0), 0);
    assert!(outlier.is_ejected(0), "ejection must survive error-count reset");
}

#[test]
fn half_open_probe_failure_reopens_with_longer_backoff() {
    let mut outlier = OutlierState::with_config(1, &breaker_cfg());
    assert!(outlier.record_error_at(0, 0));
    assert!(outlier.is_ejected_at(0, 199 * MS));
    assert!(!outlier.is_ejected_at(0, 300 * MS), "half-open once the backoff is over");

    assert!(outlier.record_error_at(0, 300 * MS), "a failed probe is a new ejection");
    assert!(outlier.is_ejected_at(0, 300 * MS));
    assert!(outlier.is_ejected_at(0, 699 * MS), "the second ejection lasts twice as long");
    assert!(!outlier.is_ejected_at(0, 700 * MS));
    assert_eq!(outlier.backoff(2).nanos, outlier.backoff(1).nanos * 2);
}

#[test]
fn half_open_probe_success_closes_and_resets_backoff_series() {
    let mut outlier = OutlierState::with_config(1, &breaker_cfg());
    outlier.record_error_at(0, 0);
    assert!(!outlier.is_ejected_at(0, 300 * MS));

    outlier.record_success(0);
    assert!(!outlier.is_ejected_at(0, 300 * MS));
    assert_eq!(outlier.consecutive_errors(0), 0);

    outlier.record_error_at(0, 400 * MS);
    assert!(outlier.is_ejected_at(0, 599 * MS));
    assert!(!outlier.is_ejected_at(0, 600 * MS), "the next ejection starts at the base again");
}

#[test]
fn backoff_capped_at_max_timeout() {
    let cfg = EjectionConfig {
        error_threshold: 1,
        timeout: Duration::from_millis(50),
        max_percent: 50,
        max_timeout: Duration::from_millis(120),
    };
    let mut outlier = OutlierState::with_config(1, &cfg);
    let mut now: u128 = 0;
    for (round, expected_ms) in [50u128, 100, 120, 120].iter().enumerate() {
        outlier.record_error_at(0, now);
        assert!(outlier.is_ejected_at(0, now), "round {round}: must be ejected");
        assert!(outlier.is_ejected_at(0, now + expected_ms * MS - 1), "round {round}");
        now = now + (expected_ms + 30) * MS;
        assert!(!outlier.is_ejected_at(0, now), "round {round}: must be half-open (cap=120ms)");
    }
}

#[test]
fn closed_worker_success_clears_errors_without_touching_series() {
    let mut outlier = OutlierState::with_config(1, &breaker_cfg());
    outlier.record_error(0);
    assert!(outlier.is_ejected(0));
    outlier.reset(0);
    outlier.record_success(0);
    assert!(!outlier.is_ejected(0));
    assert_eq!(outlier.consecutive_errors(0), 0);
}

#[test]
fn test_record_error_returns_true_only_on_new_ejection() {
    let mut outlier = OutlierState::new(1);
    assert!(!outlier.record_error(0), "below threshold");
    assert!(!outlier.record_error(0), "below threshold");
    assert!(outlier.record_error(0), "third consecutive error ejects");
    assert!(!outlier.record_error(0), "already ejected — not a new ejection");
}

#[test]
fn test_outlier_success_resets_error_count() {
    let mut outlier = OutlierState::new(2);
    outlier.record_error(0);
    outlier.record_error(0);
    outlier.record_success(0);
    outlier.record_error(0);
    outlier.record_error(0);
    assert!(!outlier.is_ejected(0), "should not eject after reset");
    outlier.record_error(0);
    assert!(outlier.is_ejected(0), "should eject after 3 consecutive errors post-reset");
}

#[test]
fn test_outlier_active_count() {
    let mut outlier = OutlierState::new(3);
    assert_eq!(outlier.active_count(), 3);
    assert_eq!(outlier.len(), 3);
    for _ in 0..3 {
        outlier.record_error(0);
    }
    assert_eq!(outlier.active_count(), 2);
}

#[test]
fn test_outlier_max_ejection_percent() {
    // 4 workers, max 50% ejection = max 2 ejected
    let mut outlier = OutlierState::new(4);
    for i in 0..2 {
        for _ in 0..3 {
            outlier.record_error(i);
        }
    }
    assert!(outlier.is_ejected(0));
    assert!(outlier.is_ejected(1));
    for _ in 0..3 {
        outlier.record_error(2);
    }
    assert!(!outlier.is_ejected(2), "should respect max_ejection_percent");
}

#[test]
fn default_limits_are_three_errors_and_half_the_workers() {
    let d = EjectionConfig::default();
    assert_eq!(d.error_threshold, 3);
    assert_eq!(d.timeout, Duration::from_secs(30));
    assert_eq!(d.max_percent, 50);
    assert_eq!(d.max_timeout, Duration::from_secs(300));
}

#[test]
fn backoff_doubles_up_to_its_limit() {
    let outlier = OutlierState::new(1);
    let secs: Vec<u128> = (0..8).map(|s| outlier.backoff(s).nanos / 1_000_000_000).collect();
    assert_eq!(secs, vec![30, 30, 60, 120, 240, 300, 300, 300]);
    assert_eq!(outlier.backoff(usize::MAX), Duration::from_secs(300));
}

#[test]
fn a_second_look_changes_nothing() {
    let mut outlier = OutlierState::with_config(2, &breaker_cfg());
    outlier.record_error_at(1, 5 * MS);
    for t in [5u128, 100, 204, 205, 206] {
        let first = outlier.is_ejected_at(1, t * MS);
        assert_eq!(first, outlier.is_ejected_at(1, t * MS));
        assert!(!outlier.is_ejected_at(0, t * MS));
        assert!(!outlier.is_ejected_at(7, t * MS), "unknown workers are not ejected");
    }
}
