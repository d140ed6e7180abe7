use bytes::Bytes;
use lite_server::batch::{
    build_request, check_max_requests, choose_worker, effective_timeout, fail_batch_items,
    new_batch_uid, settle, Attempts, BatchError, NextStep, RequestPayload, WorkerReply,
    ZMQ_RESPONSE_TIMEOUT_SECS,
};
use lite_server::message::{
    batch_item_to_single_response, BatchItemResponse, InflightGuard, Metrics, QueueItem,
    RequestMeta, SingleResponse, Status,
};
use lite_server::outlier::OutlierState;
use lite_server::picker::{add_load, remove_load, BalanceConfig};
use lite_server::time::Duration;
use std::sync::Arc;

fn item(uid: &str, reply: u32) -> QueueItem<u32> {
    QueueItem {
        uid: uid.to_string(),
        data: Bytes::from(format!("data of {uid}")),
        meta: None,
        reply,
        inflight_guard: Some(InflightGuard { slot: reply as usize }),
        enqueued_at: 0,
    }
}

fn answer(uid: &str, code: &str) -> BatchItemResponse {
    BatchItemResponse {
        uid: uid.to_string(),
        data: Bytes::from(format!("answer to {uid}")),
        headers: Vec::new(),
        status: Some(Status { code: code.to_string(), message: String::new() }),
        status_code: 200,
        media_type: "application/json".to_string(),
    }
}

fn single(code: &str, status_code: i32) -> SingleResponse {
    SingleResponse {
        data: Bytes::from_static(b"payload"),
        headers: vec![("x-a".to_string(), "1".to_string())],
        status: Some(Status { code: code.to_string(), message: "why".to_string() }),
        status_code,
        media_type: "text/plain".to_string(),
    }
}

#[test]
fn test_request_timeout_zero_is_disabled() {
    let timeout = Duration::zero();
    assert!(timeout.is_zero());
    assert!(!timeout.gt(&Duration::zero()));
}

#[test]
fn test_request_timeout_positive_is_enabled() {
    let timeout = Duration::from_secs(30);
    assert!(!timeout.is_zero());
    assert!(timeout.gt(&Duration::zero()));
}

#[test]
fn test_b2_request_timeout_capped_at_zmq_response_timeout() {
    let zmq_timeout = Duration::from_secs(ZMQ_RESPONSE_TIMEOUT_SECS);

    let configured: f64 = 120.0;
    let request_timeout = Duration::from_secs(configured as u64);

    let expected = request_timeout;
    let actual_effective = std::cmp::min(request_timeout, zmq_timeout);
    assert_eq!(
        actual_effective, expected,
        "effective timeout ({:?}) != configured request_timeout ({:?}); the limit is {:?}",
        actual_effective, expected, zmq_timeout
    );
    assert_eq!(effective_timeout(request_timeout), expected);
    assert_eq!(effective_timeout(Duration::zero()), zmq_timeout);
    assert_eq!(effective_timeout(Duration::from_secs(1000)), Duration::from_secs(1000));
}

#[test]
fn test_queue_item_data_is_bytes() {
    let data = Bytes::from(vec![1u8, 2, 3, 4]);
    let mut item = item("test", 0);
    item.data = data.clone();
    let cloned_data = item.data.clone();
    assert_eq!(item.data.as_ptr(), cloned_data.as_ptr(),
        "Bytes::clone should share the same buffer (zero-copy)");
    // What goes to the worker shares it too.
    match build_request(&[item], String::new()).payload {
        RequestPayload::Single(d) => assert_eq!(d.as_ptr(), data.as_ptr()),
        _ => panic!("one request is sent alone"),
    }
}

#[test]
fn test_bytes_clone_is_refcount_not_data_copy() {
    let payload = vec![0u8; 4096]; // 4KB payload
    let data = Bytes::from(payload);
    let ptr = data.as_ptr();

    let clones: Vec<Bytes> = (0..10).map(|_| data.clone()).collect();

    for (i, clone) in clones.iter().enumerate() {
        assert_eq!(clone.as_ptr(), ptr,
            "clone[{}] should share the same buffer, not copy", i);
    }
    assert_eq!(data.as_ptr(), ptr);
}

#[test]
fn test_bytes_to_vec_for_protobuf() {
    let data = Bytes::from(vec![10u8, 20, 30]);
    let vec_data: Vec<u8> = data.to_vec();
    assert_eq!(vec_data, vec![10, 20, 30]);

    let mut one = item("u", 0);
    one.data = data.clone();
    match build_request(&[one], String::new()).payload {
        RequestPayload::Single(d) => assert_eq!(d, Bytes::from_static(&[10, 20, 30])),
        _ => panic!("one request is sent alone"),
    }
}

#[test]
fn test_queue_item_with_meta_bytes_shares_buffer() {
    let payload_bytes = Bytes::from(vec![1u8; 1024]);
    let meta = Arc::new(RequestMeta { sequence_id: None, headers: Vec::new() });
    let mut item = item("u1", 0);
    item.data = payload_bytes.clone();
    item.meta = Some(meta);

    let data_clone = item.data.clone();
    assert_eq!(item.data.as_ptr(), data_clone.as_ptr());

    let meta_clone = item.meta.clone();
    assert!(Arc::ptr_eq(item.meta.as_ref().unwrap(), meta_clone.as_ref().unwrap()));
}

#[test]
fn test_bytes_from_bytes_is_zero_copy_equivalent_to_clone() {
    let payload = Bytes::from(vec![0u8; 512]);
    let via_from = Bytes::from(payload.clone());
    let via_clone = payload.clone();

    assert_eq!(payload.as_ptr(), via_from.as_ptr());
    assert_eq!(payload.as_ptr(), via_clone.as_ptr());
    assert_eq!(via_from, via_clone);
}

#[test]
fn test_queue_item_meta_is_arc() {
    let meta = RequestMeta {
        sequence_id: None,
        headers: vec![("content-type".to_string(), "application/json".to_string())],
    };
    let mut item = item("test", 0);
    item.meta = Some(Arc::new(meta));
    let meta_clone = item.meta.clone();
    assert!(Arc::ptr_eq(item.meta.as_ref().unwrap(), meta_clone.as_ref().unwrap()),
        "Arc<RequestMeta> clone should share the same allocation");
    let sent = build_request(&[item], String::new());
    assert!(Arc::ptr_eq(&sent.meta.unwrap(), meta_clone.as_ref().unwrap()));
}

#[test]
fn test_arc_meta_batch_clone_is_cheap() {
    let meta = Arc::new(RequestMeta {
        sequence_id: None,
        headers: (0..50).map(|i| (format!("header-{}", i), format!("value-{}", i))).collect(),
    });

    let items: Vec<(String, Arc<RequestMeta>)> = (0..100)
        .map(|i| (format!("uid-{}", i), Arc::clone(&meta)))
        .collect();

    for (uid, item_meta) in &items {
        assert!(Arc::ptr_eq(item_meta, &meta),
            "batch item {} should share meta via Arc", uid);
    }
}

#[test]
fn test_batch_item_to_single_propagates_per_item_fields() {
    let headers = vec![("x-item".to_string(), "bad".to_string())];
    let item = BatchItemResponse {
        uid: "u1".to_string(),
        data: Bytes::from_static(b"{\"error\":\"bad\"}"),
        status: Some(Status { code: "Ok".to_string(), message: String::new() }),
        status_code: 400,
        media_type: "text/html".to_string(),
        headers,
    };

    let resp = batch_item_to_single_response("u1".to_string(), Some(&item), None);
    let single = resp.single;
    assert_eq!(single.status.unwrap().code, "Ok");
    assert_eq!(single.status_code, 400);
    assert_eq!(single.media_type, "text/html");
    assert_eq!(
        single.headers.iter().find(|(k, _)| k == "x-item").map(|(_, v)| v.as_str()),
        Some("bad")
    );
    assert_eq!(single.data, Bytes::from_static(b"{\"error\":\"bad\"}"));
    assert_eq!(single.data.as_ptr(), item.data.as_ptr());
}

#[test]
fn test_batch_item_to_single_missing_item_is_error() {
    let resp = batch_item_to_single_response("u2".to_string(), None, None);
    let status = resp.single.status.unwrap();
    assert_eq!(status.code, "Error");
    assert_eq!(status.message, "missing in batch response");
    assert!(resp.metrics.is_none());
    let resp = batch_item_to_single_response(
        "u2".to_string(),
        None,
        Some(Metrics { encoded: vec![1] }),
    );
    assert!(resp.metrics.is_none());
    assert!(resp.single.data.is_empty());
}

#[test]
fn test_batch_send_with_bytes_data() {
    let mut one = item("req-1", 7);
    one.data = Bytes::from(r#"{"input":"hello"}"#.as_bytes().to_vec());
    let sent = build_request(&[one], "unused".to_string());
    assert_eq!(sent.uid, "req-1");
    match sent.payload {
        RequestPayload::Single(d) => {
            assert_eq!(d, Bytes::from_static(r#"{"input":"hello"}"#.as_bytes()))
        }
        _ => panic!("one request is sent alone"),
    }
}

#[test]
fn batches_are_sent_in_order_under_their_own_id() {
    let uid = new_batch_uid();
    assert!(uid.starts_with("batch-"));
    assert_eq!(uid.len(), "batch-".len() + 36);
    assert_ne!(uid, new_batch_uid());
    let sent = build_request(&[item("a", 0), item("b", 1)], uid.clone());
    assert_eq!(sent.uid, uid);
    match sent.payload {
        RequestPayload::Batch(items) => {
            let uids: Vec<&str> = items.iter().map(|i| i.uid.as_str()).collect();
            assert_eq!(uids, vec!["a", "b"]);
            assert_eq!(items[1].data, Bytes::from_static(b"data of b"));
        }
        _ => panic!("two requests make a batch"),
    }
}

#[test]
fn every_request_gets_its_own_answer() {
    let mut outlier = OutlierState::new(1);
    let mut batch = vec![item("a", 1), item("b", 2)];
    let s = settle(
        &mut batch,
        WorkerReply::Batch {
            items: vec![answer("b", "Ok"), answer("a", "Ok")],
            metrics: Some(Metrics { encoded: vec![9] }),
        },
        0,
        &mut outlier,
        0,
    );
    assert!(s.outcome.is_ok());
    assert!(batch.is_empty());
    assert_eq!(s.deliveries.len(), 2);
    assert_eq!(s.deliveries[0].to, 1);
    assert_eq!(s.deliveries[0].response.single.data, Bytes::from_static(b"answer to a"));
    assert_eq!(s.deliveries[1].response.single.data, Bytes::from_static(b"answer to b"));
    assert_eq!(s.deliveries[1].response.metrics.as_ref().unwrap().encoded, vec![9]);
    assert_eq!(s.deliveries[1].guard.as_ref().unwrap().slot, 2);
}

#[test]
fn a_missing_or_failed_answer_blames_the_worker() {
    let mut outlier = OutlierState::new(1);
    let mut batch = vec![item("a", 1), item("b", 2)];
    let s = settle(
        &mut batch,
        WorkerReply::Batch { items: vec![answer("a", "Ok")], metrics: None },
        0,
        &mut outlier,
        0,
    );
    let e = s.outcome.unwrap_err();
    assert_eq!(e.message, "one or more batch items failed");
    assert!(batch.is_empty(), "nothing is sent again");
    assert_eq!(s.deliveries[1].response.single.status.as_ref().unwrap().code, "Error");
    assert_eq!(outlier.consecutive_errors(0), 1);
}

#[test]
fn client_errors_are_passed_on_and_not_tried_again() {
    let mut outlier = OutlierState::new(1);
    let mut batch = vec![item("a", 1)];
    let s = settle(
        &mut batch,
        WorkerReply::Single { response: single("Error", 422), metrics: None },
        0,
        &mut outlier,
        0,
    );
    assert_eq!(s.outcome.unwrap_err().message, "request-level error");
    assert!(batch.is_empty());
    assert_eq!(s.deliveries[0].response.single.status_code, 422);
    assert_eq!(s.deliveries[0].response.single.headers.len(), 1);
}

#[test]
fn a_client_error_goes_to_every_request_of_the_batch() {
    let mut outlier = OutlierState::new(1);
    let mut batch = vec![item("a", 1), item("b", 2), item("c", 3)];
    let s = settle(
        &mut batch,
        WorkerReply::Single {
            response: single("Error", 400),
            metrics: Some(Metrics { encoded: vec![7] }),
        },
        0,
        &mut outlier,
        0,
    );
    assert_eq!(s.outcome.unwrap_err().message, "request-level error");
    assert!(batch.is_empty());
    assert_eq!(s.deliveries.len(), 3);
    for (d, (uid, to)) in s.deliveries.iter().zip([("a", 1), ("b", 2), ("c", 3)]) {
        assert_eq!((d.response.uid.as_str(), d.to), (uid, to));
        assert_eq!(d.guard.as_ref().unwrap().slot, to as usize);
        assert_eq!(d.response.single.status_code, 400);
        assert_eq!(d.response.single.data, Bytes::from_static(b"payload"));
        assert_eq!(d.response.metrics.as_ref().unwrap().encoded, vec![7]);
    }
}

#[test]
fn one_answer_to_several_requests_answers_none_of_them() {
    let mut outlier = OutlierState::new(2);
    let mut batch = vec![item("a", 1), item("b", 2)];
    let reply = WorkerReply::Single { response: single("Ok", 200), metrics: None };
    let s = settle(&mut batch, reply, 0, &mut outlier, 0);
    let e = s.outcome.unwrap_err();
    assert_eq!(e.message, "unexpected response type");
    assert!(s.deliveries.is_empty());
    assert_eq!(batch.len(), 2, "both are sent again");
    assert_eq!(outlier.consecutive_errors(0), 1);
    let mut alone = vec![item("a", 1)];
    let reply = WorkerReply::Single { response: single("Ok", 200), metrics: None };
    let s = settle(&mut alone, reply, 0, &mut outlier, 0);
    assert!(s.outcome.is_ok() && alone.is_empty());
    assert_eq!((s.deliveries.len(), s.deliveries[0].to), (1, 1));
    assert_eq!(s.deliveries[0].response.single.status_code, 200);
}

#[test]
fn worker_errors_leave_the_batch_for_another_worker() {
    for reply in [
        WorkerReply::Single { response: single("Error", 500), metrics: None },
        WorkerReply::Unexpected,
        WorkerReply::TimedOut,
        WorkerReply::Failed("socket".to_string()),
    ] {
        let mut outlier = OutlierState::new(2);
        let mut batch = vec![item("a", 1)];
        let s = settle(&mut batch, reply, 1, &mut outlier, 0);
        let e = s.outcome.unwrap_err();
        assert_eq!(e.worker_idx, 1);
        assert_eq!(batch.len(), 1);
        assert!(s.deliveries.is_empty());
        assert_eq!(outlier.consecutive_errors(1), 1);
        let told = fail_batch_items(&mut batch, &e);
        assert_eq!(told.len(), 1);
        assert_eq!(told[0].to, 1);
        let status = told[0].response.single.status.as_ref().unwrap();
        match e.message.as_str() {
            "why" => {
                assert_eq!(told[0].response.single.status_code, 500);
                assert_eq!(told[0].response.single.data, Bytes::from_static(b"payload"));
            }
            "request timeout" => assert_eq!(status.code, "Timeout"),
            m => {
                assert!(m == "unexpected response type" || m == "socket");
                assert_eq!(status.code, "Error");
                assert_eq!(status.message, m);
            }
        }
    }
}

#[test]
fn the_third_error_ejects_the_worker() {
    let mut outlier = OutlierState::new(2);
    for n in 1..=3 {
        let mut batch = vec![item("a", 1)];
        let s = settle(&mut batch, WorkerReply::TimedOut, 0, &mut outlier, 0);
        assert_eq!(s.ejected, n == 3);
    }
}

fn blame(worker_idx: usize) -> BatchError {
    BatchError { worker_idx, code: "Error".to_string(), message: "x".to_string(), single: None }
}

#[test]
fn test_b1_retry_mechanism_dead_code() {
    // Two workers: the first fails, the second is tried and answers.
    let mut a = Attempts::new(2, 3);
    assert!(matches!(a.after_try(Err(blame(0)), 1), NextStep::TryAgain));
    assert_eq!(a.excluded, vec![0]);
    assert!(matches!(a.after_try(Ok(()), 0), NextStep::Done { succeeded: true }));
}

#[test]
fn a_retry_reaches_the_second_worker_and_its_answer_the_caller() {
    let mut outlier = OutlierState::new(2);
    let mut loads: Vec<usize> = vec![0, 0];
    let mut attempts = Attempts::new(2, 3);
    let mut batch = vec![item("b1-test", 5)];
    let mut tried: Vec<usize> = Vec::new();
    let mut answers = Vec::new();
    loop {
        let hits = vec![None];
        let w = choose_worker(
            &batch,
            &loads,
            &mut outlier,
            &attempts.excluded,
            &hits,
            BalanceConfig::default(),
            0,
        );
        tried.push(w);
        add_load(&mut loads, w);
        let request = build_request(&batch, new_batch_uid());
        assert_eq!(request.uid, "b1-test");
        // The worker that is tried first fails, the other one answers.
        let reply = if tried.len() == 1 {
            WorkerReply::Single { response: single("Error", 500), metrics: None }
        } else {
            let mut good = single("Ok", 200);
            good.data = Bytes::from_static(b"{\"ok\":true}");
            WorkerReply::Single { response: good, metrics: None }
        };
        let settled = settle(&mut batch, reply, w, &mut outlier, 0);
        remove_load(&mut loads, w);
        answers.extend(settled.deliveries);
        match attempts.after_try(settled.outcome, batch.len()) {
            NextStep::TryAgain => continue,
            NextStep::Done { succeeded } => {
                assert!(succeeded);
                break;
            }
            NextStep::Fail(e) => panic!("{}", e.message),
        }
    }
    assert_eq!(tried.len(), 2);
    assert_ne!(tried[0], tried[1]);
    assert_eq!(loads, vec![0, 0]);
    assert_eq!(answers.len(), 1);
    assert_eq!((answers[0].to, answers[0].response.uid.as_str()), (5, "b1-test"));
    assert_eq!(answers[0].response.single.data, Bytes::from_static(b"{\"ok\":true}"));
    assert_eq!(answers[0].response.single.status.as_ref().unwrap().code, "Ok");
}

#[test]
fn the_last_failure_is_reported_when_tries_run_out() {
    let mut a = Attempts::new(3, 2);
    assert!(matches!(a.after_try(Err(blame(0)), 1), NextStep::TryAgain));
    match a.after_try(Err(blame(2)), 1) {
        NextStep::Fail(e) => assert_eq!(e.worker_idx, 2),
        _ => panic!("two tries are all"),
    }
    let mut alone = Attempts::new(1, 5);
    assert!(matches!(alone.after_try(Err(blame(0)), 1), NextStep::Fail(_)));
    let mut delivered = Attempts::new(2, 2);
    assert!(matches!(delivered.after_try(Err(blame(0)), 0), NextStep::Done { succeeded: false }));
}

#[test]
fn test_check_max_requests_sends_signal() {
    let mut counter: usize = 0;
    assert!(!check_max_requests(&mut counter, 3, 5), "should not signal yet");
    assert!(check_max_requests(&mut counter, 3, 5));
    assert_eq!(counter, 6);
}

#[test]
fn test_check_max_requests_disabled_when_zero() {
    let mut counter: usize = 0;
    for _ in 0..10 {
        assert!(!check_max_requests(&mut counter, 1, 0));
    }
    assert_eq!(counter, 0, "counter should not increment when disabled");
}

#[test]
fn test_check_max_requests_only_signals_once() {
    let mut counter: usize = 0;
    let signals = (0..5).filter(|_| check_max_requests(&mut counter, 3, 5)).count();
    assert_eq!(signals, 1, "should not send duplicate signals");
}

#[test]
fn test_check_max_requests_batch_size_exact() {
    let mut counter: usize = 0;
    assert!(check_max_requests(&mut counter, 10, 10));
}
