use lite_server::health::{
    after_probe, begin_probe, escalate_to_kill, probe_uid, HealthConfig, Probe, ReloadSignal,
};
use lite_server::outlier::{EjectionConfig, OutlierState};
use lite_server::time::Duration;

fn eager(workers: usize) -> OutlierState {
    OutlierState::with_config(
        workers,
        &EjectionConfig {
            error_threshold: 1,
            timeout: Duration::from_secs(60),
            max_percent: 100,
            max_timeout: Duration::from_secs(300),
        },
    )
}

#[test]
fn test_health_checker_escalates_to_kill() {
    // The first failed probe ejects, the second asks for a replacement.
    let mut outlier = eager(1);
    let first = after_probe(&mut outlier, 0, Probe::Failed, 2, true, "m", "1", 0);
    assert!(first.ejected && !first.passed && !first.healthy);
    assert!(first.respawn.is_none());
    let second = after_probe(&mut outlier, 0, Probe::Failed, 2, true, "m", "1", 1);
    assert!(!second.ejected);
    let sig = second.respawn.expect("kill escalation must signal respawn");
    assert_eq!(sig.model_name, "m");
    assert_eq!(sig.version, "1");
    assert_eq!(sig.worker_id, 0);
    assert_eq!(sig.reason, "health_check");
    assert!(outlier.is_ejected_at(0, 1), "the worker stays ejected");
    assert_eq!(outlier.consecutive_errors(0), 0, "the count starts again");
}

#[test]
fn test_health_checker_no_kill_when_threshold_zero() {
    let mut outlier = OutlierState::new(1);
    for t in 0..10 {
        let r = after_probe(&mut outlier, 0, Probe::Failed, 0, true, "m", "1", t);
        assert!(r.respawn.is_none(), "kill_threshold=0 must never signal respawn");
    }
}

#[test]
fn replacing_needs_someone_to_do_it() {
    let mut outlier = eager(1);
    for t in 0..5 {
        let r = after_probe(&mut outlier, 0, Probe::AnsweredError, 2, false, "m", "1", t);
        assert!(r.respawn.is_none());
    }
    assert_eq!(outlier.consecutive_errors(0), 5);
    assert!(escalate_to_kill(&mut outlier, 0, 9, true, "m", "1").is_none());
    assert!(escalate_to_kill(&mut outlier, 0, 5, true, "m", "1").is_some());
}

#[test]
fn a_good_answer_clears_the_count() {
    let mut outlier = OutlierState::new(1);
    after_probe(&mut outlier, 0, Probe::Failed, 3, true, "m", "1", 0);
    after_probe(&mut outlier, 0, Probe::Failed, 3, true, "m", "1", 1);
    let r = after_probe(&mut outlier, 0, Probe::Answered, 3, true, "m", "1", 2);
    assert!(r.passed && r.healthy);
    assert_eq!(outlier.consecutive_errors(0), 0);
}

#[test]
fn an_answered_probe_ends_the_ejection_early() {
    let minute: u128 = 60_000_000_000;
    let mut outlier = eager(2);
    outlier.record_error_at(0, 0);
    outlier.record_error_at(1, 0);
    assert!(begin_probe(&mut outlier, 0, 1), "the ejection has just begun");
    let r = after_probe(&mut outlier, 0, Probe::Answered, 0, true, "m", "1", 2);
    assert!(r.passed && r.healthy && !r.ejected && r.respawn.is_none());
    assert!(!outlier.is_ejected_at(0, 2));
    assert!(outlier.is_ejected_at(1, 2), "the other worker stays ejected");
    assert_eq!(outlier.consecutive_errors(0), 0);
    // The circuit is as good as new: the next ejection lasts as long as a first one.
    outlier.record_error_at(0, 10);
    assert!(outlier.is_ejected_at(0, 10 + minute - 1));
    assert!(!outlier.is_ejected_at(0, 10 + minute));
    // A probe that is answered with an error ends nothing.
    let r = after_probe(&mut outlier, 1, Probe::AnsweredError, 0, true, "m", "1", 3);
    assert!(!r.passed && !r.healthy);
}

#[test]
fn test_health_check_interval_zero_skips_checker() {
    let mut c = HealthConfig {
        interval: Duration::zero(),
        probe_timeout: Duration::from_secs(1),
        kill_threshold: 3,
    };
    assert!(!c.is_active());
    assert!(c.kill_never_runs());
    c.interval = Duration::from_millis(1);
    assert!(c.is_active());
    assert!(!c.kill_never_runs());
    c.interval = Duration::zero();
    c.kill_threshold = 0;
    assert!(!c.kill_never_runs());
}

#[test]
fn signals_name_their_version() {
    let s = ReloadSignal { model_name: "m".to_string(), version: "2".to_string() };
    assert_eq!((s.model_name.as_str(), s.version.as_str()), ("m", "2"));
}

#[test]
fn a_probe_decides_on_an_ejection_that_is_over() {
    let minute: u128 = 60_000_000_000;
    let mut outlier = eager(1);
    outlier.record_error_at(0, 0);
    assert!(begin_probe(&mut outlier, 0, minute - 1));
    assert!(!begin_probe(&mut outlier, 0, minute));
    let r = after_probe(&mut outlier, 0, Probe::Failed, 0, true, "m", "1", minute);
    assert!(r.ejected && !r.healthy, "the trial failed");
    assert!(begin_probe(&mut outlier, 0, 3 * minute - 1), "the next ejection is twice as long");
    assert!(!begin_probe(&mut outlier, 0, 3 * minute));
    let r = after_probe(&mut outlier, 0, Probe::Answered, 0, true, "m", "1", 3 * minute);
    assert!(r.passed && r.healthy);
    assert_eq!(probe_uid("m", "1", 12), "health-m-1-12");
}
