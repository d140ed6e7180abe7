use bytes::Bytes;
use lite_server::collector::{
    check_queue_timeout, compute_adaptive_timeout, compute_jittered_max_requests, jittered,
    BatchCollector, Checked, Collected, CollectorConfig, QueueTimeoutAction,
};
use lite_server::message::QueueItem;
use lite_server::time::Duration;

const MS: u128 = 1_000_000;

fn item(uid: &str, enqueued_at: u128) -> QueueItem<u32> {
    QueueItem {
        uid: uid.to_string(),
        data: Bytes::new(),
        meta: None,
        reply: 5,
        inflight_guard: None,
        enqueued_at,
    }
}

#[test]
fn test_adaptive_timeout_full_batch() {
    let base = Duration::from_millis(50);
    let min = Duration::from_millis(1);
    let result = compute_adaptive_timeout(8, 0, 8, base, min, 10);
    assert_eq!(result, Duration::zero(), "full batch should dispatch immediately");
}

#[test]
fn test_adaptive_timeout_low_load() {
    let base = Duration::from_millis(50);
    let min = Duration::from_millis(1);
    // Empty batch, no queue -> should use ~full timeout
    let result = compute_adaptive_timeout(0, 0, 8, base, min, 10);
    assert!(result >= Duration::from_millis(49), "low load should use near-full timeout");
    assert!(result.nanos <= base.nanos + Duration::from_micros(1).nanos,
        "should never exceed base timeout");
    assert_eq!(result, base);
}

#[test]
fn test_adaptive_timeout_high_queue_pressure() {
    let base = Duration::from_millis(50);
    let min = Duration::from_millis(1);
    // Empty batch but queue depth exceeds threshold -> should use min timeout
    let result = compute_adaptive_timeout(1, 20, 8, base, min, 10);
    assert_eq!(result, min, "high queue pressure should use min timeout");
}

#[test]
fn test_adaptive_timeout_fill_pressure() {
    let base = Duration::from_millis(50);
    let min = Duration::from_millis(1);
    // Batch 50% full -> timeout should be significantly reduced
    let result = compute_adaptive_timeout(4, 0, 8, base, min, 10);
    assert!(result < base, "50% fill should reduce timeout");
    assert!(result >= min, "should respect min timeout");
}

#[test]
fn test_adaptive_timeout_respects_minimum() {
    let base = Duration::from_secs(1);
    let min = Duration::from_millis(5);
    let result = compute_adaptive_timeout(7, 100, 8, base, min, 10);
    assert!(result >= min, "should never go below min_timeout");
    assert!(result.nanos < base.nanos / 2, "extreme pressure should significantly reduce timeout");
}

#[test]
fn test_adaptive_timeout_zero_threshold() {
    let base = Duration::from_millis(50);
    let min = Duration::from_millis(1);
    // queue_threshold=0 disables queue pressure consideration
    let result = compute_adaptive_timeout(1, 100, 8, base, min, 0);
    assert!(result > min, "zero threshold should ignore queue depth");
}

#[test]
fn test_adaptive_timeout_monotonic() {
    // More queue pressure should always yield <= less pressure
    let base = Duration::from_millis(100);
    let min = Duration::from_millis(1);
    let t1 = compute_adaptive_timeout(2, 0, 8, base, min, 10);
    let t2 = compute_adaptive_timeout(2, 5, 8, base, min, 10);
    let t3 = compute_adaptive_timeout(2, 10, 8, base, min, 10);
    assert!(t1 >= t2, "increasing queue depth should reduce timeout");
    assert!(t2 >= t3, "increasing queue depth should reduce timeout");
}

#[test]
fn the_wait_falls_with_the_batch() {
    let base = Duration::from_millis(100);
    let min = Duration::from_millis(1);
    for depth in [0, 3, 9] {
        for n in 0..8 {
            assert!(
                compute_adaptive_timeout(n + 1, depth, 8, base, min, 10)
                    <= compute_adaptive_timeout(n, depth, 8, base, min, 10)
            );
        }
    }
}

#[test]
fn test_jitter_zero_means_exact() {
    // When jitter is 0, should return exact max_requests
    assert_eq!(compute_jittered_max_requests(100, 0), 100);
    assert_eq!(compute_jittered_max_requests(1, 0), 1);
}

#[test]
fn test_jitter_disabled_when_max_requests_zero() {
    // When max_requests is 0 (disabled), jitter has no effect
    assert_eq!(compute_jittered_max_requests(0, 10), 0);
    assert_eq!(compute_jittered_max_requests(0, 0), 0);
}

#[test]
fn test_jittered_max_requests_within_range() {
    // With max_requests=100, jitter=10, result should be in [90, 110]
    for _ in 0..200 {
        let result = compute_jittered_max_requests(100, 10);
        assert!((90..=110).contains(&result),
            "jittered value {} out of expected range [90, 110]", result);
    }
}

#[test]
fn test_jittered_max_requests_never_zero() {
    // Even with large jitter and small max_requests, result should be >= 1
    for _ in 0..100 {
        let result = compute_jittered_max_requests(1, 5);
        assert!(result >= 1, "jittered value must be >= 1, got {}", result);
    }
}

#[test]
fn test_jittered_max_requests_varies() {
    // Multiple calls should produce different values (probabilistic)
    let mut seen = std::collections::HashSet::new();
    for _ in 0..100 {
        seen.insert(compute_jittered_max_requests(100, 20));
    }
    assert!(seen.len() > 1, "jitter should produce varied values, got {:?}", seen);
}

#[test]
fn an_offset_moves_the_limit_and_leaves_one() {
    assert_eq!(jittered(100, 7), 107);
    assert_eq!(jittered(100, -7), 93);
    assert_eq!(jittered(3, -3), 1);
    assert_eq!(jittered(3, -40), 1);
}

#[test]
fn b1_check_queue_timeout_rejects_expired_when_reject() {
    let r = check_queue_timeout(
        item("late", 0),
        Duration::from_millis(100),
        QueueTimeoutAction::Reject,
        2000 * MS,
    );
    match r {
        Checked::Refused(d) => {
            assert_eq!(d.to, 5);
            assert_eq!(d.response.uid, "late");
            assert_eq!(d.response.single.status.unwrap().message, "503", "reject maps to 503");
        }
        Checked::Fresh(_) => panic!("expired item must be rejected"),
    }
}

#[test]
fn b1_check_queue_timeout_passes_within_deadline() {
    let r = check_queue_timeout(
        item("ok", 7),
        Duration::from_secs(10),
        QueueTimeoutAction::Reject,
        7,
    );
    assert!(matches!(r, Checked::Fresh(_)), "fresh item must not be rejected");
}

#[test]
fn b1_check_queue_timeout_delay_does_not_reject() {
    let r = check_queue_timeout(
        item("late", 0),
        Duration::from_millis(100),
        QueueTimeoutAction::Delay,
        5000 * MS,
    );
    assert!(matches!(r, Checked::Fresh(_)), "Delay action must not reject even when expired");
}

#[test]
fn b1_check_queue_timeout_disabled_when_zero() {
    let r = check_queue_timeout(
        item("late", 0),
        Duration::zero(),
        QueueTimeoutAction::Reject,
        5000 * MS,
    );
    assert!(matches!(r, Checked::Fresh(_)), "queue_timeout=0 must not reject");
}

fn config(max_batch_size: usize, wait_ms: u64) -> CollectorConfig {
    CollectorConfig {
        max_batch_size,
        base_timeout: Duration::from_millis(wait_ms),
        adaptive: false,
        min_timeout: Duration::from_millis(1),
        queue_threshold: 10,
        queue_timeout: Duration::from_millis(100),
        queue_timeout_action: QueueTimeoutAction::Reject,
    }
}

#[test]
fn a_full_batch_is_sent_at_once() {
    let mut c = BatchCollector::new(config(2, 50));
    assert!(c.deadline().is_none());
    assert!(matches!(c.on_item(item("a", 0), 10, 0), Collected::Waits));
    assert_eq!(c.deadline(), Some(10 + 50 * MS));
    match c.on_item(item("b", 0), 20, 0) {
        Collected::Send(batch) => {
            let uids: Vec<&str> = batch.iter().map(|i| i.uid.as_str()).collect();
            assert_eq!(uids, vec!["a", "b"]);
        }
        _ => panic!("two requests fill the batch"),
    }
    assert!(c.deadline().is_none());
}

#[test]
fn a_part_batch_is_sent_at_its_deadline() {
    let mut c = BatchCollector::new(config(4, 50));
    assert!(c.on_deadline().is_none());
    assert!(matches!(c.on_item(item("a", 0), 0, 0), Collected::Waits));
    let sent = c.on_deadline().unwrap();
    assert_eq!(sent.len(), 1);
    assert!(c.on_closed().is_none());
}

#[test]
fn closing_sends_what_is_left() {
    let mut c = BatchCollector::new(config(4, 50));
    assert!(matches!(c.on_item(item("a", 0), 0, 0), Collected::Waits));
    assert_eq!(c.on_closed().unwrap().len(), 1);
    assert!(c.on_closed().is_none());
}

#[test]
fn expired_requests_join_no_batch() {
    let mut c = BatchCollector::new(config(2, 50));
    match c.on_item(item("late", 0), 200 * MS, 0) {
        Collected::Refused(d) => assert_eq!(d.response.uid, "late"),
        _ => panic!("it waited too long"),
    }
    assert!(c.on_deadline().is_none());
}

#[test]
fn the_batches_of_a_run_are_its_requests_in_order() {
    let mut c = BatchCollector::new(config(3, 50));
    let mut batches: Vec<Vec<QueueItem<u32>>> = Vec::new();
    let mut refused = Vec::new();
    for (n, uid) in ["a", "b", "late", "c", "d", "e", "f", "g", "h"].iter().enumerate() {
        let now = if *uid == "late" { 200 * MS } else { 0 };
        match c.on_item(item(uid, 0), now, 0) {
            Collected::Send(b) => batches.push(b),
            Collected::Refused(d) => refused.push(d.response.uid),
            Collected::Waits => {}
        }
        if n == 4 {
            batches.extend(c.on_deadline());
        }
    }
    batches.extend(c.on_closed());
    assert_eq!(refused, vec!["late"]);
    let sizes: Vec<usize> = batches.iter().map(Vec::len).collect();
    assert_eq!(sizes, vec![3, 1, 3, 1]);
    let uids: Vec<String> = batches.into_iter().flatten().map(|i| i.uid).collect();
    assert_eq!(uids, vec!["a", "b", "c", "d", "e", "f", "g", "h"]);
}
