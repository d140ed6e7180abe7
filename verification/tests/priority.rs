use bytes::Bytes;
use lite_server::message::{item_priority, QueueItem, RequestMeta};
use lite_server::priority::{PriorityQueue, Received};
use std::sync::Arc;

fn b1_item(uid: &str, priority_header: Option<i32>) -> QueueItem<()> {
    let mut headers = Vec::new();
    if let Some(p) = priority_header {
        headers.push(("x-lite-priority".to_string(), p.to_string()));
    }
    QueueItem {
        uid: uid.to_string(),
        data: Bytes::new(),
        meta: Some(Arc::new(RequestMeta { sequence_id: None, headers })),
        reply: (),
        inflight_guard: None,
        enqueued_at: 0,
    }
}

fn next(q: &mut PriorityQueue<QueueItem<()>>) -> Option<String> {
    match q.receive() {
        Received::Item(i) => Some(i.uid),
        _ => None,
    }
}

#[test]
fn b1_priority_channel_dispatches_highest_priority_first() {
    let mut q = PriorityQueue::new(8);
    assert!(q.try_send(b1_item("low", Some(0)), 0));
    assert!(q.try_send(b1_item("high", Some(9)), 9));
    assert!(q.try_send(b1_item("mid", Some(5)), 5));
    assert_eq!(next(&mut q).unwrap(), "high");
    assert_eq!(next(&mut q).unwrap(), "mid");
    assert_eq!(next(&mut q).unwrap(), "low");
}

#[test]
fn b1_priority_channel_fifo_tiebreak_within_same_priority() {
    let mut q = PriorityQueue::new(8);
    assert!(q.try_send(b1_item("a", Some(1)), 1));
    assert!(q.try_send(b1_item("b", Some(1)), 1));
    assert!(q.try_send(b1_item("c", Some(1)), 1));
    assert_eq!(next(&mut q).unwrap(), "a");
    assert_eq!(next(&mut q).unwrap(), "b");
    assert_eq!(next(&mut q).unwrap(), "c");
}

#[test]
fn b1_priority_channel_cap_returns_full() {
    let mut q = PriorityQueue::new(1);
    assert!(q.try_send(b1_item("x", None), 0));
    assert_eq!(q.len(), 1);
    assert!(!q.try_send(b1_item("y", None), 0));
    assert_eq!(q.len(), 1);
}

#[test]
fn b1_priority_channel_close_returns_none_after_drain() {
    let mut q = PriorityQueue::new(8);
    assert!(q.try_send(b1_item("x", None), 0));
    q.drop_sender();
    assert!(next(&mut q).is_some(), "drain remaining item");
    assert!(matches!(q.receive(), Received::Closed));
}

#[test]
fn b1_item_priority_reads_header_default_zero() {
    assert_eq!(item_priority(&b1_item("x", Some(7))), 7);
    assert_eq!(item_priority(&b1_item("x", None)), 0);
}

#[test]
fn a_queue_stays_open_for_its_other_senders() {
    let mut q: PriorityQueue<u8> = PriorityQueue::new(2);
    q.add_sender();
    q.drop_sender();
    assert!(matches!(q.receive(), Received::Nothing));
    q.drop_sender();
    assert!(matches!(q.receive(), Received::Closed));
}

#[test]
fn negative_priorities_leave_last() {
    let mut q: PriorityQueue<&str> = PriorityQueue::new(4);
    q.try_send("late", -3);
    q.try_send("first", 0);
    q.try_send("second", 0);
    let mut order = Vec::new();
    while let Received::Item(s) = q.receive() {
        order.push(s);
    }
    assert_eq!(order, vec!["first", "second", "late"]);
}

#[test]
fn unreadable_priorities_count_as_zero() {
    let mut i = b1_item("x", None);
    for (text, want) in [("-7", -7), ("+7", 7), ("abc", 0), ("99999999999", 0), ("", 0), (" 7", 0)] {
        i.meta = Some(Arc::new(RequestMeta {
            sequence_id: None,
            headers: vec![("x-lite-priority".to_string(), text.to_string())],
        }));
        assert_eq!(item_priority(&i), want, "{text:?}");
    }
    i.meta = None;
    assert_eq!(item_priority(&i), 0);
}

#[test]
fn all_items_come_out_in_their_order() {
    let mut q: PriorityQueue<u8> = PriorityQueue::new(4);
    for (n, p) in [(1, 0), (2, 9), (3, 5)] {
        q.try_send(n, p);
    }
    assert_eq!(q.take_all(), vec![1, 2, 3]);
    assert_eq!(q.len(), 0);
    assert!(matches!(q.receive(), Received::Nothing));
}

#[test]
fn equals_keep_their_order_over_a_whole_run() {
    let mut q: PriorityQueue<(i32, u8)> = PriorityQueue::new(16);
    for (n, p) in [5, 0, 5, 9, 0, 5, 9, 0].into_iter().enumerate() {
        q.try_send((p, n as u8), p);
    }
    let mut order = Vec::new();
    while let Received::Item(x) = q.receive() {
        order.push(x);
    }
    let wanted = vec![(9, 3), (9, 6), (5, 0), (5, 2), (5, 5), (0, 1), (0, 4), (0, 7)];
    assert_eq!(order, wanted);
}
