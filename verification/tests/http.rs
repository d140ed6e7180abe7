use lite_server::http::{
    announces_close, body_timeout_applies, choose_listener, connection_plan, custom_route_target,
    draining_rejects, fallback_protocol, is_transient_accept_error, is_transient_with, layers,
    logged_forwarded_for, map_route_body_error, max_body_bytes, may_compress, needs_admission,
    tcp_keepalive, try_acquire, AcceptErrorKind, AcceptStep, Accepted, ApiProtocol, BodyError, Connections,
    Layer, LayerConfig, Listener, ShortageErrors, ROUTE_BODY_LIMIT,
};
use lite_server::ids::{choose_request_id, request_id};
use lite_server::time::Duration;

#[test]
fn f07_accept_error_classification() {
    // Transient: fd exhaustion / interrupted / aborted handshake.
    for raw in [libc::EMFILE, libc::ENFILE, libc::ENOBUFS, libc::ENOMEM] {
        assert!(
            is_transient_accept_error(AcceptErrorKind::Other, Some(raw)),
            "raw {raw} must be transient"
        );
    }
    assert!(is_transient_accept_error(AcceptErrorKind::Interrupted, None));
    assert!(is_transient_accept_error(AcceptErrorKind::ConnectionAborted, None));
    // Fatal: permission / address errors.
    for raw in [libc::EPERM, libc::EACCES, libc::EBADF] {
        assert!(
            !is_transient_accept_error(AcceptErrorKind::Other, Some(raw)),
            "raw {raw} must be fatal"
        );
    }
}

#[test]
fn shortage_is_told_by_its_number() {
    let s = ShortageErrors { process_files: 1, system_files: 2, buffers: 3, memory: 4 };
    for e in 1..=4 {
        assert!(is_transient_with(AcceptErrorKind::Other, Some(e), s));
    }
    assert!(!is_transient_with(AcceptErrorKind::Other, Some(5), s));
    assert!(!is_transient_with(AcceptErrorKind::Other, None, s));
}

#[test]
fn f07_transient_accept_errors_are_retried_not_fatal() {
    let mut c = Connections::new(0);
    for _ in 0..3 {
        assert_eq!(
            c.on_accept(Accepted::Failed { transient: true }),
            AcceptStep::RetryAfter(Duration::from_millis(50))
        );
    }
    assert_eq!(c.on_accept(Accepted::Shutdown), AcceptStep::Drain);
}

#[test]
fn f07_fatal_accept_error_ends_the_loop() {
    let mut c = Connections::new(0);
    assert_eq!(c.on_accept(Accepted::Failed { transient: false }), AcceptStep::Fail);
}

#[test]
fn connections_stay_within_their_limit() {
    let mut c = Connections::new(2);
    assert_eq!(c.on_accept(Accepted::Connection), AcceptStep::Serve);
    assert_eq!(c.on_accept(Accepted::Connection), AcceptStep::Serve);
    assert_eq!(c.on_accept(Accepted::Connection), AcceptStep::Drop);
    c.on_closed();
    assert_eq!(c.on_accept(Accepted::Connection), AcceptStep::Serve);
    let mut any = Connections::new(0);
    for _ in 0..100 {
        assert_eq!(any.on_accept(Accepted::Connection), AcceptStep::Serve);
    }
}

#[test]
fn paths_have_a_protocol_and_a_model() {
    assert_eq!(fallback_protocol("/v2/models/m"), ApiProtocol::Kserve);
    assert_eq!(fallback_protocol("/v2"), ApiProtocol::Legacy);
    assert_eq!(fallback_protocol("/predict"), ApiProtocol::Legacy);
    let t = |p: &str| custom_route_target(p);
    assert_eq!(t("/v2/models/m/a/b"), Some(("m".to_string(), "a/b".to_string())));
    assert_eq!(t("/v2/models/m/"), Some(("m".to_string(), "".to_string())));
    assert_eq!(t("/v2/models/m"), None);
    assert_eq!(t("/v2/models//a"), None);
    assert_eq!(t("/v1/models/m/a"), None);
}

#[test]
fn bodies_are_bounded() {
    assert_eq!(ROUTE_BODY_LIMIT, 10 * 1024 * 1024);
    assert_eq!(map_route_body_error(true), BodyError::TooLarge { max_size: 10 * 1024 * 1024 });
    assert_eq!(map_route_body_error(false), BodyError::Unreadable);
    assert_eq!(max_body_bytes(None), 64 * 1024 * 1024);
    assert_eq!(max_body_bytes(Some(5)), 5);
    assert!(body_timeout_applies("/v2/models/m/infer"));
    assert!(!body_timeout_applies("/v2/models/m/bidi"));
}

#[test]
fn probes_are_answered_while_draining() {
    for p in ["/livez", "/readyz", "/startupz", "/health", "/v2/health/live", "/v2/health/ready"] {
        assert!(!draining_rejects(true, p), "{p}");
    }
    assert!(draining_rejects(true, "/v2/models/m/infer"));
    assert!(!draining_rejects(false, "/v2/models/m/infer"));
}

#[test]
fn p_flow_admission_exempts_health_under_cap() {
    assert!(needs_admission(1, false, true));
    assert!(!needs_admission(1, false, false));
    assert!(!needs_admission(1, true, true));
}

#[test]
fn p_flow_admission_unlimited_when_cap_zero() {
    assert!(!needs_admission(0, false, true));
}

#[test]
fn test_disable_keepalive_middleware_adds_connection_close() {
    assert!(announces_close(200));
    assert!(!announces_close(101));
}

#[test]
fn streams_are_not_compressed() {
    assert!(may_compress(None));
    assert!(may_compress(Some("application/json")));
    assert!(!may_compress(Some("text/event-stream")));
    assert!(!may_compress(Some("text/event-stream; charset=utf-8")));
    assert!(!may_compress(Some("application/x-lite-bidi")));
}

#[test]
fn logged_addresses_are_short() {
    assert_eq!(logged_forwarded_for("  10.0.0.1 "), "10.0.0.1");
    assert_eq!(logged_forwarded_for(&"x".repeat(100)), "x".repeat(64));
}

fn plain() -> LayerConfig {
    LayerConfig {
        max_request_body_bytes: None,
        request_body_timeout: None,
        keepalive: true,
        compression: false,
    }
}

#[test]
fn refusals_pass_the_outer_layers() {
    let all = layers(plain());
    let at = |l: Layer| all.iter().position(|x| *x == l).unwrap();
    assert_eq!(all[0], Layer::BodyLimit(64 * 1024 * 1024));
    assert!(at(Layer::AccessControl) < at(Layer::DrainingGate));
    assert!(at(Layer::DrainingGate) < at(Layer::Admission));
    assert!(at(Layer::Admission) < at(Layer::Cors));
    assert!(at(Layer::Cors) < at(Layer::Observability));
    assert_eq!(all.last(), Some(&Layer::Inflight));
    assert!(!all.contains(&Layer::CloseConnections));
    assert!(!all.contains(&Layer::Compression));
}

#[test]
fn layers_follow_the_configuration() {
    let mut c = plain();
    c.keepalive = false;
    c.compression = true;
    c.request_body_timeout = Some(Duration::from_secs(5));
    c.max_request_body_bytes = Some(7);
    let all = layers(c);
    assert_eq!(all[0], Layer::BodyLimit(7));
    assert_eq!(all[1], Layer::BodyTimeout(Duration::from_secs(5)));
    assert!(all.contains(&Layer::CloseConnections));
    assert!(all.contains(&Layer::Compression));
    assert_eq!(all.len(), 12);
}

#[test]
fn listeners_and_connections_are_planned() {
    assert_eq!(choose_listener(true, true), Listener::UnixSocket);
    assert_eq!(choose_listener(false, true), Listener::Tls);
    assert_eq!(choose_listener(false, false), Listener::Tcp);
    let s = Duration::from_secs;
    let p = connection_plan(None, Some(s(1)), Some(s(2)));
    assert!(p.http1_only && p.header_read_timeout.is_none());
    assert_eq!(p.http2_keepalive_interval, Some(s(1)));
    let p = connection_plan(Some(s(9)), None, Some(s(2)));
    assert_eq!(p.header_read_timeout, Some(s(9)));
    assert!(!p.http1_only && p.http2_keepalive_timeout.is_none());
    let p = connection_plan(Some(s(9)), Some(s(1)), Some(s(2)));
    assert_eq!(p.http2_keepalive_timeout, Some(s(2)));
    let k = tcp_keepalive();
    assert_eq!((k.time, k.interval, k.retries), (s(60), s(10), 3));
}

#[test]
fn test_x_client_request_id_propagation() {
    assert_eq!(request_id(Some("my-trace-123")).text(), "my-trace-123");
    assert_eq!(choose_request_id(Some("abc"), "new".to_string()).text(), "abc");
}

#[test]
fn test_x_client_request_id_too_long() {
    let long = "a".repeat(513);
    let id = request_id(Some(&long)).text();
    assert_ne!(id, long);
    assert_eq!(id.len(), 36);
}

#[test]
fn test_x_client_request_id_empty_falls_back_to_uuid() {
    let id = request_id(Some("")).text();
    assert_eq!(id.len(), 36);
    assert_eq!(id.matches('-').count(), 4);
    assert_ne!(id, request_id(None).text());
    assert_eq!(choose_request_id(None, "new".to_string()).text(), "new");
}

#[test]
fn places_are_taken_up_to_the_cap() {
    assert_eq!(try_acquire(0, 2), Some(1));
    assert_eq!(try_acquire(1, 2), Some(2));
    assert_eq!(try_acquire(2, 2), None);
    assert_eq!(try_acquire(usize::MAX, usize::MAX), None);
}

#[test]
fn new_identifiers_are_random_uuids_in_lower_case() {
    for _ in 0..50 {
        let id = request_id(None).text();
        assert_eq!(id.len(), 36);
        for (i, c) in id.chars().enumerate() {
            match i {
                8 | 13 | 18 | 23 => assert_eq!(c, '-'),
                14 => assert_eq!(c, '4'),
                19 => assert!("89ab".contains(c)),
                _ => assert!(c.is_ascii_digit() || ('a'..='f').contains(&c)),
            }
        }
    }
}
