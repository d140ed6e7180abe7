use bytes::Bytes;
use lite_server::message::{InflightGuard, QueueItem, RequestMeta};
use lite_server::outlier::{EjectionConfig, OutlierState};
use lite_server::picker::BalanceConfig;
use lite_server::priority::Received;
use lite_server::queue::{
    model_version_key, parse_model_version_key, InferenceQueue, QueueError,
};
use lite_server::time::Duration;
use std::sync::Arc;

fn item(uid: &str, headers: &[(&str, &str)]) -> QueueItem<u32> {
    QueueItem {
        uid: uid.to_string(),
        data: Bytes::new(),
        meta: Some(Arc::new(RequestMeta {
            sequence_id: None,
            headers: headers.iter().map(|(k, v)| (k.to_string(), v.to_string())).collect(),
        })),
        reply: 0,
        inflight_guard: None,
        enqueued_at: 0,
    }
}

fn two_worker_queue(capacity: usize) -> (InferenceQueue<u32>, usize) {
    let mut queue = InferenceQueue::new();
    let r = queue.register_model("m", "1", capacity, 2, OutlierState::new(2));
    assert!(r.replaced.is_none());
    (queue, r.slot)
}

fn next_uid(queue: &mut InferenceQueue<u32>, slot: usize) -> Option<String> {
    match queue.receive(slot) {
        Received::Item(i) => Some(i.uid),
        _ => None,
    }
}

#[test]
fn model_version_key_format() {
    assert_eq!(model_version_key("my_model", "1"), "my_model\x001");
    assert_eq!(model_version_key("resnet", "v2"), "resnet\x00v2");
    assert_eq!(model_version_key("", ""), "\x00");
}

#[test]
fn model_version_key_roundtrip() {
    let test_cases = vec![
        ("simple", "1"),
        ("bert_base_2024", "03_v1"),
        ("my-model", "1.0.0-beta"),
    ];
    for (model, version) in test_cases {
        let key = model_version_key(model, version);
        let (parsed_model, parsed_version) = parse_model_version_key(&key);
        assert_eq!(parsed_model, model,
            "model_name roundtrip failed for '{}_{}'", model, version);
        assert_eq!(parsed_version, version,
            "version roundtrip failed for '{}_{}'", model, version);
    }
}

#[test]
fn model_version_key_single_allocation() {
    let key = model_version_key("model", "1");
    assert_eq!(key.len(), key.capacity(), "no over-allocation");
}

#[test]
fn keys_without_a_separator_name_no_version() {
    assert_eq!(parse_model_version_key("plain"), ("plain", ""));
    assert_eq!(parse_model_version_key("m\x00a\x00b"), ("m", "a\x00b"));
    assert_ne!(model_version_key("a", "b_c"), model_version_key("a_b", "c"));
}

#[test]
fn model_version_key_used_in_try_submit() {
    let mut queue: InferenceQueue<u32> = InferenceQueue::new();
    queue.register_model("test_model", "1", 10, 0, OutlierState::new(0));
    assert!(queue.has_queue("test_model", "1"));
    assert!(!queue.has_queue("test_model", "2"));
}

#[test]
fn test_get_outlier_state_nonexistent() {
    let queue: InferenceQueue<u32> = InferenceQueue::new();
    assert!(queue.get_outlier_state("no_such_model", "1").is_none());
}

#[test]
fn test_outlier_state_shared_between_register_and_accessor() {
    let (mut queue, slot) = two_worker_queue(10);
    for _ in 0..3 {
        queue.outlier_mut(slot).unwrap().record_error(0);
    }
    let seen = queue.get_outlier_state("m", "1").unwrap();
    assert_eq!(seen.active_count(), 1);
    assert_eq!(seen.consecutive_errors(0), 3);
}

#[test]
fn try_submit_rejects_direct_pin_out_of_range() {
    let (mut queue, _) = two_worker_queue(10);
    let err = queue.try_submit("m", "1", item("p", &[("x-lite-worker-id", "5")])).unwrap_err();
    assert!(matches!(err, QueueError::InvalidWorker(_)), "got {err:?}");
    // The refusal takes no place: a sound request is accepted afterwards.
    assert!(queue.try_submit("m", "1", item("ok", &[])).is_ok());
}

#[test]
fn try_submit_rejects_direct_pin_to_ejected_worker() {
    let (mut queue, slot) = two_worker_queue(10);
    for _ in 0..EjectionConfig::default().error_threshold {
        queue.outlier_mut(slot).unwrap().record_error(1);
    }
    let err = queue.try_submit("m", "1", item("p", &[("x-lite-worker-id", "1")])).unwrap_err();
    assert!(matches!(err, QueueError::InvalidWorker(_)), "got {err:?}");
    assert!(queue.try_submit("m", "1", item("ok", &[("x-lite-worker-id", "0")])).is_ok());
}

#[test]
fn circuits_keep_their_own_time_in_an_older_queue() {
    let mut queue: InferenceQueue<u32> = InferenceQueue::new();
    let backoff = Duration::from_millis(400);
    while queue.now() <= 2 * backoff.nanos {}
    let circuits = OutlierState::with_config(
        2,
        &EjectionConfig {
            error_threshold: 1,
            timeout: backoff,
            max_percent: 50,
            max_timeout: Duration::from_secs(5),
        },
    );
    let slot = queue.register_model("m", "1", 10, 2, circuits).slot;
    let state = queue.get_outlier_state_mut("m", "1").unwrap();
    assert!(state.record_error(1));
    // The queue is older than the ejection lasts, and the worker stays ejected.
    let err = queue.try_submit("m", "1", item("p", &[("x-lite-worker-id", "1")])).unwrap_err();
    assert!(matches!(err, QueueError::InvalidWorker(_)), "got {err:?}");
    assert!(queue.get_outlier_state_mut("m", "1").unwrap().is_ejected(1));
    // Once its time has passed it is taken again.
    while queue.get_outlier_state_mut("m", "1").unwrap().is_ejected(1) {}
    assert!(queue.try_submit("m", "1", item("p", &[("x-lite-worker-id", "1")])).is_ok());
    assert_eq!(queue.depth(slot), 1);
}

#[test]
fn circuits_that_were_open_before_stay_open() {
    let mut circuits = OutlierState::new(2);
    let at = circuits.now();
    for _ in 0..3 {
        circuits.record_error_at(1, at);
    }
    let mut queue: InferenceQueue<u32> = InferenceQueue::new();
    queue.register_model("m", "1", 10, 2, circuits);
    let minute = Duration::from_secs(60).nanos;
    let pinned = || item("p", &[("x-lite-worker-id", "1")]);
    assert!(queue.try_submit("m", "1", pinned()).is_err());
    assert!(queue.try_submit_at("m", "1", pinned(), at + minute / 2 - 1).is_err());
    assert!(queue.try_submit_at("m", "1", pinned(), at + minute / 2).is_ok());
}

#[test]
fn circuits_are_told_by_name() {
    let (mut queue, slot) = two_worker_queue(4);
    assert!(queue.get_outlier_state_mut("m", "2").is_none());
    for _ in 0..3 {
        queue.get_outlier_state_mut("m", "1").unwrap().record_error(0);
    }
    assert!(queue.get_outlier_state_mut("m", "1").unwrap().is_ejected(0));
    assert!(queue.outlier_mut(slot).unwrap().is_ejected(0));
    queue.get_outlier_state_mut("m", "1").unwrap().reset(0);
    assert!(!queue.get_outlier_state_mut("m", "1").unwrap().is_ejected(0));
}

#[test]
fn queues_are_given_back_with_their_last_request() {
    let (mut queue, first) = two_worker_queue(4);
    assert!(queue.has_number());
    queue.try_submit("m", "1", item("a", &[])).unwrap();
    queue.try_submit("m", "1", item("b", &[])).unwrap();
    let guard = match queue.receive(first) {
        Received::Item(i) => i.inflight_guard.unwrap(),
        _ => panic!("two requests wait"),
    };
    // The queue loses its name while one request is under way.
    let second = queue.register_model("m", "1", 4, 2, OutlierState::new(2)).slot;
    assert!(queue.outlier_mut(first).is_some(), "it is kept for the request under way");
    queue.release(guard);
    assert!(queue.outlier_mut(first).is_none(), "it is given back");
    assert!(matches!(queue.receive(first), Received::Closed));
    assert_eq!(queue.depth(first), 0);
    // What still names its slot reaches no other queue.
    queue.try_submit("m", "1", item("c", &[])).unwrap();
    queue.release(InflightGuard { slot: first });
    let handle = queue.begin_drain("m", "1").unwrap();
    assert_eq!(handle.slot_number(), second);
    assert!(!queue.is_idle(&handle));
    // An idle queue is given back as soon as it loses its name.
    let third = queue.register_model("n", "1", 4, 2, OutlierState::new(2)).slot;
    assert!(third != first && third != second);
    let idle = queue.begin_drain("n", "1").unwrap();
    assert!(queue.is_idle(&idle));
    assert!(queue.outlier_mut(third).is_none());
    assert!(queue.outlier_mut(second).is_some());
}

#[test]
fn submitting_to_an_unknown_version_is_refused() {
    let (mut queue, _) = two_worker_queue(10);
    let err = queue.try_submit("m", "2", item("a", &[])).unwrap_err();
    assert!(matches!(err, QueueError::NotFound));
}

#[test]
fn a_full_queue_refuses_and_keeps_its_requests() {
    let (mut queue, slot) = two_worker_queue(1);
    assert!(queue.try_submit_at("m", "1", item("a", &[]), 7).is_ok());
    let err = queue.try_submit_at("m", "1", item("b", &[]), 8).unwrap_err();
    assert!(matches!(err, QueueError::Full));
    assert_eq!(queue.depth(slot), 1);
    match queue.receive(slot) {
        Received::Item(i) => {
            assert_eq!(i.uid, "a");
            queue.release(i.inflight_guard.unwrap());
        }
        _ => panic!("one request is waiting"),
    }
    assert_eq!(queue.depth(slot), 0);
    assert!(queue.try_submit_at("m", "1", item("c", &[]), 9).is_ok());
}

#[test]
fn urgent_requests_leave_first() {
    let (mut queue, slot) = two_worker_queue(8);
    queue.try_submit("m", "1", item("low", &[])).unwrap();
    queue.try_submit("m", "1", item("high", &[("x-lite-priority", "9")])).unwrap();
    queue.try_submit("m", "1", item("mid", &[("x-lite-priority", "5")])).unwrap();
    assert_eq!(next_uid(&mut queue, slot).as_deref(), Some("high"));
    assert_eq!(next_uid(&mut queue, slot).as_deref(), Some("mid"));
    assert_eq!(next_uid(&mut queue, slot).as_deref(), Some("low"));
    assert!(matches!(queue.receive(slot), Received::Nothing));
}

#[test]
fn test_begin_drain_rejects_new_but_completes_inflight() {
    let (mut queue, slot) = two_worker_queue(8);
    queue.try_submit("m", "1", item("a", &[])).unwrap();
    let handle = queue.begin_drain("m", "1").expect("the version is there");
    assert_eq!(handle.slot_number(), slot);
    assert!(!queue.has_queue("m", "1"));
    assert!(matches!(queue.try_submit("m", "1", item("b", &[])), Err(QueueError::NotFound)));
    assert!(!queue.is_idle(&handle), "one request is under way");

    let guard: InflightGuard = match queue.receive(slot) {
        Received::Item(i) => {
            assert_eq!(i.uid, "a");
            i.inflight_guard.unwrap()
        }
        _ => panic!("the accepted request is still handed out"),
    };
    assert!(!queue.is_idle(&handle));
    queue.release(guard);
    assert!(queue.is_idle(&handle));
    assert!(matches!(queue.receive(slot), Received::Closed));
}

#[test]
fn test_begin_drain_idle_queue_drains_immediately() {
    let (mut queue, _) = two_worker_queue(8);
    let handle = queue.begin_drain("m", "1").unwrap();
    assert!(queue.is_idle(&handle));
    assert!(queue.begin_drain("m", "1").is_none(), "it is gone");
}

#[test]
fn registering_again_replaces_the_queue() {
    let (mut queue, first) = two_worker_queue(8);
    queue.try_submit("m", "1", item("old", &[])).unwrap();
    let r = queue.register_model("m", "1", 8, 1, OutlierState::new(1));
    assert_eq!(r.replaced, Some(first));
    assert_ne!(r.slot, first);
    let dropped: Vec<&str> = r.dropped.iter().map(|i| i.uid.as_str()).collect();
    assert_eq!(dropped, vec!["old"]);
    assert!(matches!(queue.receive(first), Received::Closed));
    queue.try_submit("m", "1", item("new", &[])).unwrap();
    assert_eq!(next_uid(&mut queue, r.slot).as_deref(), Some("new"));
}

#[test]
fn versions_do_not_share_a_queue() {
    let (mut queue, one) = two_worker_queue(8);
    let two = queue.register_model("m", "2", 8, 1, OutlierState::new(1)).slot;
    queue.try_submit("m", "2", item("x", &[])).unwrap();
    assert_eq!(queue.depth(one), 0);
    assert_eq!(queue.depth(two), 1);
}

#[test]
fn refusals_have_their_words() {
    assert_eq!(QueueError::Closed.message(), "queue closed");
    assert_eq!(QueueError::NotFound.message(), "queue not found for model");
    assert_eq!(QueueError::Full.message(), "queue full");
    assert_eq!(
        QueueError::InvalidWorker("no such worker".to_string()).message(),
        "invalid direct worker pin: no such worker"
    );
}

#[test]
fn the_balance_is_kept() {
    let q: InferenceQueue<u32> = InferenceQueue::new();
    assert_eq!(q.balance(), BalanceConfig::default());
    let mut b = BalanceConfig::default();
    b.abs_threshold = 9;
    let q: InferenceQueue<u32> = InferenceQueue::with_balance(b);
    assert_eq!(q.balance().abs_threshold, 9);
    let earlier = q.now();
    assert!(q.now() >= earlier);
}

#[test]
fn requests_are_counted_until_they_are_released() {
    let (mut queue, slot) = two_worker_queue(4);
    assert!(queue.try_submit("m", "1", item("a", &[])).is_ok());
    assert!(queue.try_submit("m", "1", item("b", &[])).is_ok());
    let handle = queue.begin_drain("m", "1").unwrap();
    assert_eq!(handle.slot_number(), slot);
    for _ in 0..2 {
        assert!(!queue.is_idle(&handle));
        match queue.receive(slot) {
            Received::Item(i) => queue.release(i.inflight_guard.unwrap()),
            _ => panic!("a request waits"),
        }
    }
    assert!(queue.is_idle(&handle));
    assert!(matches!(queue.receive(slot), Received::Closed));
}
