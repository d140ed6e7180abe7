use lite_server::batch::{batch_affinity, batch_direct_pin, choose_worker};
use lite_server::message::{QueueItem, RequestMeta};
use lite_server::outlier::{EjectionConfig, OutlierState};
use lite_server::picker::{
    add_load, affinity_overloaded, choose_between, pick_worker, pick_worker_least_loaded,
    power_of_two_pick, remove_load, rendezvous_pick, update_worker_saturation, Affinity, BalanceConfig, Ratio,
};
use std::collections::hash_map::DefaultHasher;
use std::hash::{Hash, Hasher};
use std::sync::Arc;

fn eject(outlier: &mut OutlierState, idx: usize) {
    for _ in 0..EjectionConfig::default().error_threshold {
        outlier.record_error(idx);
    }
    assert!(outlier.is_ejected(idx), "test setup: worker {idx} should be ejected");
}

fn meta_with_headers(headers: &[(&str, &str)]) -> Arc<RequestMeta> {
    Arc::new(RequestMeta {
        sequence_id: None,
        headers: headers.iter().map(|(k, v)| (k.to_string(), v.to_string())).collect(),
    })
}

fn hint_item(uid: &str, meta: Arc<RequestMeta>) -> QueueItem<()> {
    QueueItem {
        uid: uid.to_string(),
        data: bytes::Bytes::new(),
        meta: Some(meta),
        reply: (),
        inflight_guard: None,
        enqueued_at: 0,
    }
}

fn affinity(seq: &str, preferred: Option<usize>) -> Option<Affinity> {
    Some(Affinity { seq: seq.to_string(), preferred })
}

#[test]
fn pick_worker_non_affinity_matches_least_loaded() {
    let bal = BalanceConfig::default();
    let mut outlier = OutlierState::new(4);
    let inflight = [3, 1, 2, 0];
    let now = outlier.now();
    for exclude in [vec![], vec![3usize], vec![1usize, 2]] {
        let got = pick_worker(&inflight, &mut outlier, &exclude, None, bal, now);
        let want = pick_worker_least_loaded(&inflight, &mut outlier, &exclude, now);
        assert_eq!(got, want, "non-affinity must match least-loaded (exclude={exclude:?})");
    }
    // with one ejected worker too
    let mut outlier2 = OutlierState::new(4);
    eject(&mut outlier2, 0);
    let inflight2 = [0, 5, 5, 5];
    let now2 = outlier2.now();
    let got = pick_worker(&inflight2, &mut outlier2, &[], None, bal, now2);
    let want = pick_worker_least_loaded(&inflight2, &mut outlier2, &[], now2);
    assert_eq!(got, want);
}

#[test]
fn pick_worker_affinity_honors_healthy_preferred() {
    let bal = BalanceConfig::default();
    let mut outlier = OutlierState::new(3);
    let inflight = [0, 0, 0]; // balanced → preferred not overloaded
    let now = outlier.now();
    assert_eq!(pick_worker(&inflight, &mut outlier, &[], affinity("s1", Some(2)), bal, now), 2);
}

#[test]
fn pick_worker_affinity_falls_back_when_preferred_ejected() {
    let bal = BalanceConfig::default();
    let mut outlier = OutlierState::new(3);
    eject(&mut outlier, 1); // preferred worker ejected
    let inflight = [0, 0, 0];
    let now = outlier.now();
    let chosen = pick_worker(&inflight, &mut outlier, &[], affinity("s1", Some(1)), bal, now);
    assert_ne!(chosen, 1, "must not route to an ejected preferred worker");
    // The fallback is deterministic for the same sequence.
    let chosen2 = pick_worker(&inflight, &mut outlier, &[], affinity("s1", Some(1)), bal, now);
    assert_eq!(chosen, chosen2);
}

#[test]
fn pick_worker_affinity_power_of_two_when_overloaded() {
    // preferred=0 at load 10, others idle → far beyond abs threshold (2)
    let bal = BalanceConfig { abs_threshold: 2, rel_threshold: Ratio { num: 3, den: 2 } };
    let mut outlier = OutlierState::new(3);
    let inflight = [10, 0, 0];
    let now = outlier.now();
    let chosen = pick_worker(&inflight, &mut outlier, &[], affinity("s1", Some(0)), bal, now);
    assert_ne!(chosen, 0, "an overloaded preferred worker must be abandoned");
    assert!(chosen == 1 || chosen == 2);
}

#[test]
fn rendezvous_is_deterministic_and_skips_ejected() {
    let mut outlier = OutlierState::new(4);
    eject(&mut outlier, 0);
    let now = outlier.now();
    let a = rendezvous_pick("seq-a", 4, &mut outlier, &[], now).unwrap();
    let b = rendezvous_pick("seq-a", 4, &mut outlier, &[], now).unwrap();
    assert_eq!(a, b, "same sequence → same worker (deterministic)");
    assert_ne!(a, 0, "an ejected worker is never chosen");
}

#[test]
fn batch_affinity_uses_affinity_key_when_no_sequence_id() {
    let batch = vec![hint_item("a", meta_with_headers(&[("x-lite-affinity-key", "tenant-42")]))];
    let aff = batch_affinity(&batch, &[None]).expect("affinity from header key");
    assert_eq!(aff.seq, "tenant-42");
    assert_eq!(aff.preferred, None);
}

#[test]
fn batch_affinity_sequence_id_wins_over_affinity_key() {
    let meta = RequestMeta {
        sequence_id: Some("seq-1".to_string()),
        headers: vec![("x-lite-affinity-key".to_string(), "k".to_string())],
    };
    let batch = vec![hint_item("a", Arc::new(meta))];
    let aff = batch_affinity(&batch, &[Some(2)]).unwrap();
    assert_eq!(aff.seq, "seq-1");
    assert_eq!(aff.preferred, Some(2));
}

#[test]
fn affinity_key_routes_deterministically_via_rendezvous() {
    let mut outlier = OutlierState::new(4);
    let inflight = [0; 4];
    let now = outlier.now();
    let mut pick = |uid: &str| {
        let batch = vec![hint_item(uid, meta_with_headers(&[("x-lite-affinity-key", "tenant-42")]))];
        let aff = batch_affinity(&batch, &[None]);
        pick_worker(&inflight, &mut outlier, &[], aff, BalanceConfig::default(), now)
    };
    assert_eq!(pick("a"), pick("b"));
}

#[test]
fn batch_direct_pin_requires_unanimous() {
    let single = vec![hint_item("a", meta_with_headers(&[("x-lite-worker-id", "1")]))];
    assert_eq!(batch_direct_pin(&single), Some(1));

    let conflict = vec![
        hint_item("a", meta_with_headers(&[("x-lite-worker-id", "0")])),
        hint_item("b", meta_with_headers(&[("x-lite-worker-id", "1")])),
    ];
    assert_eq!(batch_direct_pin(&conflict), None);

    let mixed = vec![
        hint_item("a", meta_with_headers(&[("x-lite-worker-id", "1")])),
        hint_item("b", meta_with_headers(&[])),
    ];
    assert_eq!(batch_direct_pin(&mixed), Some(1));
}

#[test]
fn test_pick_worker_skips_ejected() {
    let mut outlier = OutlierState::new(3);
    eject(&mut outlier, 0);
    let now = outlier.now();
    let picked = pick_worker_least_loaded(&[0, 0, 0], &mut outlier, &[], now);
    assert!(picked == 1 || picked == 2, "should skip ejected worker, got {}", picked);
}

#[test]
fn test_pick_worker_least_loaded_skips_ejected() {
    let mut outlier = OutlierState::new(3);
    eject(&mut outlier, 0);
    let now = outlier.now();
    let picked = pick_worker_least_loaded(&[0, 5, 1], &mut outlier, &[], now);
    assert_eq!(picked, 2, "should pick lowest-load active worker");
}

#[test]
fn test_pick_worker_all_ejected_falls_back() {
    let mut outlier = OutlierState::new(2);
    for i in 0..2 {
        for _ in 0..3 {
            outlier.record_error(i);
        }
    }
    let now = outlier.now();
    let picked = pick_worker_least_loaded(&[0, 0], &mut outlier, &[], now);
    assert_eq!(picked, 1, "second worker should still be active");
}

#[test]
fn test_pick_worker_single_worker_ignores_outlier() {
    let mut outlier = OutlierState::new(1);
    for _ in 0..3 {
        outlier.record_error(0);
    }
    let now = outlier.now();
    let picked = pick_worker_least_loaded(&[0], &mut outlier, &[], now);
    assert_eq!(picked, 0, "single worker should always return 0");
}

#[test]
fn ties_go_to_the_first_worker() {
    let mut outlier = OutlierState::new(4);
    let now = outlier.now();
    assert_eq!(pick_worker_least_loaded(&[2, 1, 1, 1], &mut outlier, &[], now), 1);
    assert_eq!(pick_worker_least_loaded(&[2, 1, 1, 1], &mut outlier, &[1], now), 2);
}

#[test]
fn overload_is_over_either_threshold() {
    let mut outlier = OutlierState::new(2);
    let now = outlier.now();
    let bal = BalanceConfig::default();
    assert!(!affinity_overloaded(&[2, 0], &mut outlier, &[], 0, bal, now));
    assert!(affinity_overloaded(&[3, 0], &mut outlier, &[], 0, bal, now));
    let wide = BalanceConfig { abs_threshold: 100, rel_threshold: Ratio { num: 3, den: 2 } };
    assert!(!affinity_overloaded(&[6, 4], &mut outlier, &[], 0, wide, now));
    assert!(affinity_overloaded(&[7, 4], &mut outlier, &[], 0, wide, now));
}

#[test]
fn the_second_draw_comes_from_the_other_workers() {
    let loads = [5, 9, 1, 7];
    let live = [0, 1, 3];
    // The second number counts the workers but the first one drawn.
    assert_eq!(choose_between(&loads, &live, 0, 0), 0);
    assert_eq!(choose_between(&loads, &live, 1, 0), 0);
    assert_eq!(choose_between(&loads, &live, 1, 1), 3);
    assert_eq!(choose_between(&loads, &live, 2, 1), 3);
}

#[test]
fn power_of_two_takes_only_available_workers() {
    let mut outlier = OutlierState::new(4);
    eject(&mut outlier, 2);
    let now = outlier.now();
    for _ in 0..50 {
        let w = power_of_two_pick(&[1, 1, 0, 9], &mut outlier, &[0], now);
        assert_eq!(w, 1, "of 1 and 3 the first carries less");
    }
}

#[test]
fn power_of_two_draws_vary() {
    let mut outlier = OutlierState::new(8);
    let now = outlier.now();
    let mut seen = [false; 8];
    for _ in 0..400 {
        seen[power_of_two_pick(&[1; 8], &mut outlier, &[], now)] = true;
    }
    assert!(seen.iter().filter(|s| **s).count() > 1);
}

#[test]
fn sequences_stay_unless_their_worker_is_lost() {
    let mut outlier = OutlierState::new(5);
    let now = outlier.now();
    let mut used = [false; 5];
    for i in 0..40 {
        let seq = format!("sequence-{i}");
        let before = rendezvous_pick(&seq, 5, &mut outlier, &[], now).unwrap();
        used[before] = true;
        let after = rendezvous_pick(&seq, 5, &mut outlier, &[3], now).unwrap();
        if before != 3 {
            assert_eq!(before, after);
        } else {
            assert_ne!(after, 3);
        }
    }
    assert!(used.iter().filter(|u| **u).count() > 1, "the weights spread the sequences");
    assert_eq!(rendezvous_pick("s", 2, &mut outlier, &[0, 1], now), None);
}

#[test]
fn a_pin_decides_before_the_load() {
    let mut outlier = OutlierState::new(3);
    let now = outlier.now();
    let bal = BalanceConfig::default();
    let pinned = vec![hint_item("a", meta_with_headers(&[("x-lite-worker-id", "2")]))];
    let free = vec![hint_item("a", meta_with_headers(&[]))];
    assert_eq!(choose_worker(&pinned, &[0, 0, 9], &mut outlier, &[], &[None], bal, now), 2);
    assert_eq!(choose_worker(&free, &[1, 0, 9], &mut outlier, &[], &[None], bal, now), 1);
    // A worker that failed once is not asked again, and no worker beyond the last.
    assert_ne!(choose_worker(&pinned, &[0, 0, 9], &mut outlier, &[2], &[None], bal, now), 2);
    let beyond = vec![hint_item("a", meta_with_headers(&[("x-lite-worker-id", "7")]))];
    assert_eq!(choose_worker(&beyond, &[1, 0, 9], &mut outlier, &[], &[None], bal, now), 1);
}

#[test]
fn saturation_is_the_highest_load() {
    assert_eq!(update_worker_saturation(&[]), 0);
    assert_eq!(update_worker_saturation(&[0, 0]), 0);
    assert_eq!(update_worker_saturation(&[2, 7, 3]), 7);
}

#[test]
fn weights_are_hashes_of_the_sequence_and_the_worker() {
    check_weights("seq-a");
    for i in 0..50 {
        check_weights(&format!("sequence {i} é"));
    }
}

fn check_weights(seq: &str) {
    let mut outlier = OutlierState::new(7);
    let now = outlier.now();
    let mut best: Option<(u64, usize)> = None;
    for i in 0..7usize {
        let mut h = DefaultHasher::new();
        seq.hash(&mut h);
        i.hash(&mut h);
        let v = h.finish();
        if best.map(|(b, _)| v > b).unwrap_or(true) {
            best = Some((v, i));
        }
    }
    assert_eq!(rendezvous_pick(seq, 7, &mut outlier, &[], now), best.map(|b| b.1));
}

#[test]
fn loads_are_counted_and_given_back() {
    let mut loads = vec![0, 3];
    add_load(&mut loads, 0);
    add_load(&mut loads, 1);
    assert_eq!(loads, vec![1, 4]);
    remove_load(&mut loads, 1);
    remove_load(&mut loads, 0);
    assert_eq!(loads, vec![0, 3]);
}

#[test]
fn a_batch_that_failed_goes_elsewhere() {
    let mut outlier = OutlierState::new(3);
    eject(&mut outlier, 1);
    let now = outlier.now();
    let pinned = vec![hint_item("a", meta_with_headers(&[("x-lite-worker-id", "0")]))];
    let keyed = vec![hint_item("b", meta_with_headers(&[("x-lite-affinity-key", "k")]))];
    let plain = vec![hint_item("c", meta_with_headers(&[]))];
    for batch in [pinned, keyed, plain] {
        let w = choose_worker(&batch, &[0, 0, 9], &mut outlier, &[0], &[None], BalanceConfig::default(), now);
        assert_eq!(w, 2);
    }
}
