use lite_server::options::{
    already_running_message, overrides, runtime_kind, RuntimeKind, ServeSlot, ServerOptions,
};
use lite_server::text::{
    ends_with, find_char, from_chars, parse_i32, parse_unsigned, push_dec, push_hex, same_text,
    starts_with, to_chars, trim,
};
use lite_server::time::{Clock, Duration};

fn nothing() -> ServerOptions<f64> {
    ServerOptions {
        config: None,
        port: None,
        host: None,
        model_repo: None,
        threads: None,
        timeout: None,
        log_level: None,
        log_info_output: None,
        log_error_output: None,
        log_rotation: None,
        metrics_port: None,
        no_metrics: None,
        grpc_port: None,
        no_grpc: None,
        no_streaming_metrics: None,
        max_queue_size: None,
        max_requests: None,
        max_requests_jitter: None,
        request_timeout: None,
        health_check_interval: None,
        graceful_timeout: None,
        keepalive_timeout: None,
        ejection_error_threshold: None,
        ejection_timeout: None,
        ejection_max_percent: None,
        ejection_max_timeout: None,
        max_retries: None,
        startup_timeout: None,
        health_check_timeout: None,
        health_check_kill_threshold: None,
        worker_kill_timeout: None,
        hook_http_timeout: None,
    }
}

#[test]
fn options_override_what_they_name() {
    let mut o = nothing();
    o.config = Some("c.yaml".to_string());
    o.port = Some(9000);
    o.no_grpc = Some(true);
    o.no_metrics = Some(false);
    o.max_retries = Some(4);
    o.request_timeout = Some(1.5);
    o.keepalive_timeout = Some(0.0);
    let (config, cli) = overrides(o);
    assert_eq!(config.as_deref(), Some("c.yaml"));
    assert_eq!(cli.port, Some(9000));
    assert!(cli.no_grpc);
    assert!(!cli.no_metrics);
    assert!(!cli.no_streaming_metrics);
    assert_eq!(cli.tunables.max_retries, Some(4));
    assert_eq!(cli.tunables.request_timeout, Some(1.5));
    assert_eq!(cli.keepalive_timeout, Some(0.0));
    assert!(cli.host.is_none() && cli.tunables.recycle_max_percent.is_none());
}

#[test]
fn threads_decide_on_the_runtime() {
    assert_eq!(runtime_kind(Some(1)), RuntimeKind::CurrentThread);
    assert_eq!(runtime_kind(Some(4)), RuntimeKind::MultiThread { workers: Some(4) });
    assert_eq!(runtime_kind(None), RuntimeKind::MultiThread { workers: None });
}

#[test]
fn one_server_runs_at_a_time() {
    let mut slot: ServeSlot<u8> = ServeSlot::new();
    assert_eq!(slot.take_stop(), None);
    assert_eq!(slot.claim(1), Ok(()));
    assert_eq!(slot.claim(2), Err(2));
    assert_eq!(slot.take_stop(), Some(1));
    assert_eq!(slot.claim(3), Ok(()));
    slot.clear();
    assert_eq!(slot.take_stop(), None);
    assert!(!already_running_message().is_empty());
}

#[test]
fn texts_are_cut_and_read() {
    let c = |s: &str| to_chars(s);
    assert_eq!(from_chars(trim(&c(" \t a b \n"))), "a b");
    assert_eq!(from_chars(trim(&c("\u{a0}x\u{3000}"))), "x");
    assert_eq!(find_char(&c("a=b"), '='), 1);
    assert_eq!(find_char(&c("ab"), '='), 2);
    assert!(starts_with(&c("bytes=1"), "bytes="));
    assert!(!starts_with(&c("byte"), "bytes="));
    assert!(ends_with(&c("a/bidi"), "/bidi"));
    assert!(same_text("a", "a") && !same_text("a", "b"));
    assert_eq!(parse_unsigned(&c("42"), 42), Some(42));
    assert_eq!(parse_unsigned(&c("43"), 42), None);
    assert_eq!(parse_unsigned(&c("-1"), 42), None);
    assert_eq!(parse_unsigned(&c(""), 42), None);
    assert_eq!(parse_unsigned(&c("18446744073709551615"), u64::MAX), Some(u64::MAX));
    assert_eq!(parse_unsigned(&c("18446744073709551616"), u64::MAX), None);
    assert_eq!(parse_i32(&c("-2147483648")), Some(i32::MIN));
    assert_eq!(parse_i32(&c("2147483648")), None);
    let mut s = String::new();
    push_hex(&mut s, 0);
    push_hex(&mut s, 0xdead_beef);
    push_dec(&mut s, 0);
    push_dec(&mut s, u64::MAX);
    assert_eq!(s, "0deadbeef018446744073709551615");
}

#[test]
fn time_goes_on() {
    let clock = Clock::start();
    let first = clock.now();
    while clock.now() == first {}
    assert!(clock.now() > first);
    assert!(clock.now() < Duration::from_secs(3_600).nanos);
    let later = Clock::start();
    assert!(later.now() <= clock.now());
    let ms = Duration::from_millis(2);
    assert_eq!(ms.nanos, 2_000_000);
    assert_eq!(Duration::from_micros(3).nanos, 3_000);
    assert_eq!(Duration::from_nanos(7).nanos, 7);
    assert_eq!(ms.longer(Duration::from_secs(1)), Duration::from_secs(1));
    assert_eq!(ms.shorter(Duration::from_secs(1)), ms);
}

#[test]
fn clock_readings_leave_room_for_long_waits() {
    let now = Clock::start().now();
    assert!(now < (1u128 << 64) * 1_000_000_000);
    let wait = Duration::from_secs(u64::MAX).nanos;
    assert_eq!(now.checked_add(wait), Some(now + wait));
}
