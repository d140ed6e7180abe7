use lite_server::routes::{access_log_target, routes, Features, Handler, Method};

#[test]
fn test_access_log_target_inference_endpoints() {
    assert_eq!(access_log_target("/v2/models/m/infer"), Some(("m", None)));
    assert_eq!(access_log_target("/v2/models/m/events"), Some(("m", None)));
    assert_eq!(access_log_target("/v2/models/m/stream"), Some(("m", None)));
    assert_eq!(access_log_target("/v2/models/m/bidi"), Some(("m", None)));
    assert_eq!(access_log_target("/v2/models/m/decoupled"), Some(("m", None)));
    assert_eq!(access_log_target("/v2/models/m/decoupled-stream"), Some(("m", None)));
    assert_eq!(
        access_log_target("/v2/models/m/versions/2/infer"),
        Some(("m", Some("2")))
    );
    assert_eq!(
        access_log_target("/v2/models/m/versions/2/events"),
        Some(("m", Some("2")))
    );
    assert_eq!(
        access_log_target("/v2/models/m/versions/2/bidi"),
        Some(("m", Some("2")))
    );
    assert_eq!(
        access_log_target("/v2/models/m/versions/2/decoupled"),
        Some(("m", Some("2")))
    );
    assert_eq!(
        access_log_target("/v2/models/m/versions/2/decoupled-stream"),
        Some(("m", Some("2")))
    );
}

#[test]
fn test_access_log_target_skips_admin_and_non_model_paths() {
    assert_eq!(access_log_target("/v2/models/m/ready"), None);
    assert_eq!(access_log_target("/v2/models/m/health"), None);
    assert_eq!(access_log_target("/v2/models/m/routing"), None);
    assert_eq!(access_log_target("/v2/models/m/versions"), None);
    assert_eq!(access_log_target("/v2/models/m/versions/2/ready"), None);
    assert_eq!(access_log_target("/v2/repository/index"), None);
    assert_eq!(access_log_target("/health"), None);
    assert_eq!(access_log_target("/v2/models/"), None);
    assert_eq!(access_log_target("/v2"), None);
    assert_eq!(access_log_target("/v2/health/live"), None);
    assert_eq!(access_log_target("/v2/health/ready"), None);
    assert_eq!(access_log_target("/v2/models/m"), None);
    assert_eq!(access_log_target("/v2/models/m/versions/2"), None);
    assert_eq!(access_log_target("/v2/repository/models/m/load"), None); // bare load
    assert_eq!(access_log_target("/v2/models/m/generate"), Some(("m", None)));
    assert_eq!(access_log_target("/v2/models/m/generate_stream"), Some(("m", None)));
    assert_eq!(
        access_log_target("/v2/models/m/versions/2/generate_stream"),
        Some(("m", Some("2")))
    );
}

#[test]
fn test_access_log_target_custom_route_tails() {
    // Custom @route declarations fall through to the fallback handler;
    // they belong to the model pipeline and are logged (active version).
    assert_eq!(access_log_target("/v2/models/m/summarize"), Some(("m", None)));
    assert_eq!(access_log_target("/v2/models/m/a/b"), Some(("m", None)));
}

fn all_on() -> Features {
    Features {
        timeline: true,
        alerts: true,
        version_compare: true,
        streaming: true,
        sse: true,
        websocket_streaming: true,
        decoupled: true,
        http_bidi: true,
    }
}

fn all_off() -> Features {
    Features {
        timeline: false,
        alerts: false,
        version_compare: false,
        streaming: false,
        sse: false,
        websocket_streaming: false,
        decoupled: false,
        http_bidi: false,
    }
}

fn has(f: Features, method: Method, path: &str, handler: Handler) -> bool {
    routes(f).iter().any(|r| r.method == method && r.path == path && r.handler == handler)
}

#[test]
fn core_routes_are_mounted_without_any_feature() {
    let off = all_off();
    assert!(has(off, Method::Get, "/health", Handler::Health));
    assert!(has(off, Method::Post, "/v2/models/:model_name/infer", Handler::Infer));
    assert!(has(off, Method::Get, "/v2", Handler::ServerMetadata));
    for r in routes(off) {
        assert!(routes(all_on()).iter().any(|s| s.path == r.path && s.method == r.method));
    }
}

#[test]
fn streaming_routes_need_their_switches() {
    let mut f = all_on();
    assert!(has(f, Method::Post, "/v2/models/:model_name/events", Handler::SseInfer));
    f.sse = false;
    assert!(!has(f, Method::Post, "/v2/models/:model_name/events", Handler::SseInfer));
    f.sse = true;
    f.streaming = false;
    assert!(!has(f, Method::Post, "/v2/models/:model_name/events", Handler::SseInfer));
    f = all_on();
    f.decoupled = false;
    assert!(!routes(f).iter().any(|r| r.path.contains("decoupled")));
    assert!(routes(all_on()).iter().any(|r| r.path.contains("decoupled")));
}

#[test]
fn no_route_is_mounted_twice() {
    let all = routes(all_on());
    for (i, r) in all.iter().enumerate() {
        for s in &all[i + 1..] {
            assert!(r.path != s.path || r.method != s.method, "{:?} {}", r.method, r.path);
        }
    }
}

#[test]
fn what_is_switched_on_is_mounted() {
    let all = routes(all_on());
    for h in [Handler::Timeline, Handler::Alerts, Handler::CompareVersions, Handler::GenerateStream]
    {
        assert!(all.iter().any(|r| r.handler == h));
    }
    let mut f = all_off();
    f.streaming = true;
    f.http_bidi = true;
    assert!(has(f, Method::Post, "/v2/models/:model_name/bidi", Handler::Bidi));
    assert_eq!(routes(f).len(), routes(all_off()).len() + 2);
}
