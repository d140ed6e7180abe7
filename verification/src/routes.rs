//! The routes of the server.

use crate::text::{find, find_char, has_prefix, starts_with, to_chars};
use vstd::prelude::*;

verus! {

/// The parts of `s` between its slashes.
pub open spec fn segments(s: Seq<char>) -> Seq<Seq<char>>
    decreases s.len(),
{
    let i = find(s, '/');
    if 0 <= i < s.len() {
        seq![s.subrange(0, i)] + segments(s.subrange(i + 1, s.len() as int))
    } else {
        seq![s]
    }
}

/// Whether a path ends in one of the operations that run a model.
pub open spec fn is_inference_leaf(s: Seq<char>) -> bool {
    ||| s == "infer"@
    ||| s == "events"@
    ||| s == "stream"@
    ||| s == "bidi"@
    ||| s == "decoupled"@
    ||| s == "decoupled-stream"@
    ||| s == "generate"@
    ||| s == "generate_stream"@
}

/// Whether a path ends in one of the operations that manage a model.
pub open spec fn is_admin_leaf(s: Seq<char>) -> bool {
    ||| s == "ready"@
    ||| s == "health"@
    ||| s == "routing"@
    ||| s == "activate"@
    ||| s == "compare"@
    ||| s == "reload"@
}

/// The model, and the version where the path names one, that a request is
/// logged for: requests that run a model, by a fixed or by a custom route.
pub open spec fn log_target(path: Seq<char>) -> Option<(Seq<char>, Option<Seq<char>>)> {
    let prefix = "/v2/models/"@;
    let parts = segments(path.subrange(prefix.len() as int, path.len() as int));
    let model = parts[0];
    if !has_prefix(path, prefix) || model.len() == 0 || parts.len() == 1 {
        None
    } else if parts[1] == "versions"@ {
        if parts.len() == 4 && parts[2].len() > 0 && is_inference_leaf(parts[3]) {
            Some((model, Some(parts[2])))
        } else {
            None
        }
    } else if parts.len() == 2 && is_admin_leaf(parts[1]) {
        None
    } else {
        Some((model, None))
    }
}

/// Where the parts of `s` begin and end.
fn split(s: &[char], from: usize) -> (r: Vec<(usize, usize)>)
    requires
        from <= s@.len(),
    ensures
        ({
            let parts = segments(s@.subrange(from as int, s@.len() as int));
            &&& r@.len() == parts.len()
            &&& r@.len() >= 1
            &&& forall|i: int|
                0 <= i < r@.len() ==> {
                    &&& from <= (#[trigger] r@[i]).0 <= r@[i].1 <= s@.len()
                    &&& s@.subrange(r@[i].0 as int, r@[i].1 as int) == parts[i]
                }
        }),
{
    let ghost n = s@.len() as int;
    let ghost all = segments(s@.subrange(from as int, n));
    let mut out: Vec<(usize, usize)> = Vec::new();
    let mut at: usize = from;
    loop
        invariant
            from <= at <= n,
            n == s@.len(),
            all == segments(s@.subrange(from as int, n)),
            out@.len() + segments(s@.subrange(at as int, n)).len() == all.len(),
            forall|i: int|
                0 <= i < segments(s@.subrange(at as int, n)).len() ==> #[trigger] segments(
                    s@.subrange(at as int, n),
                )[i] == all[out@.len() + i],
            forall|i: int|
                0 <= i < out@.len() ==> {
                    &&& from <= (#[trigger] out@[i]).0 <= out@[i].1 <= s@.len()
                    &&& s@.subrange(out@[i].0 as int, out@[i].1 as int) == all[i]
                },
        decreases n - at,
    {
        let ghost rest = s@.subrange(at as int, n);
        let ghost k = out@.len() as int;
        let tail = vstd::slice::slice_subrange(s, at, s.len());
        assert(tail@ == rest);
        let i: usize = find_char(tail, '/');
        assert(segments(rest)[0] == all[k + 0]);
        if i >= tail.len() {
            proof {
                assert(segments(rest) =~= seq![rest]);
                assert(s@.subrange(at as int, n) == all[k]);
            }
            out.push((at, s.len()));
            return out;
        }
        proof {
            assert(rest.subrange(0, i as int) =~= s@.subrange(at as int, at + i));
            assert(rest.subrange(i + 1, rest.len() as int) =~= s@.subrange(at + i + 1, n));
            let later = segments(s@.subrange(at + i + 1, n));
            assert(segments(rest) =~= seq![rest.subrange(0, i as int)] + later);
            assert forall|j: int| 0 <= j < later.len() implies #[trigger] later[j] == all[k + 1
                + j] by {
                assert(segments(rest)[j + 1] == later[j]);
            }
        }
        out.push((at, at + i));
        at = at + i + 1;
    }
}

fn part_is(s: &[char], part: (usize, usize), word: &str) -> (r: bool)
    requires
        part.0 <= part.1 <= s@.len(),
    ensures
        r == (s@.subrange(part.0 as int, part.1 as int) == word@),
{
    let w = to_chars(word);
    crate::text::same_chars(vstd::slice::slice_subrange(s, part.0, part.1), w.as_slice())
}

fn part_is_inference(s: &[char], part: (usize, usize)) -> (r: bool)
    requires
        part.0 <= part.1 <= s@.len(),
    ensures
        r == is_inference_leaf(s@.subrange(part.0 as int, part.1 as int)),
{
    part_is(s, part, "infer") || part_is(s, part, "events") || part_is(s, part, "stream")
        || part_is(s, part, "bidi") || part_is(s, part, "decoupled") || part_is(
        s,
        part,
        "decoupled-stream",
    ) || part_is(s, part, "generate") || part_is(s, part, "generate_stream")
}

fn part_is_admin(s: &[char], part: (usize, usize)) -> (r: bool)
    requires
        part.0 <= part.1 <= s@.len(),
    ensures
        r == is_admin_leaf(s@.subrange(part.0 as int, part.1 as int)),
{
    part_is(s, part, "ready") || part_is(s, part, "health") || part_is(s, part, "routing")
        || part_is(s, part, "activate") || part_is(s, part, "compare") || part_is(
        s,
        part,
        "reload",
    )
}

/// The model, and the version where the path names one, that a request is
/// logged for.
pub fn access_log_target(path: &str) -> (r: Option<(&str, Option<&str>)>)
    ensures
        match r {
            Some((m, None)) => log_target(path@) == Some((m@, None::<Seq<char>>)),
            Some((m, Some(v))) => log_target(path@) == Some((m@, Some(v@))),
            None => log_target(path@) is None,
        },
{
    let chars = to_chars(path);
    let s = chars.as_slice();
    if !starts_with(s, "/v2/models/") {
        return None;
    }
    proof {
        reveal_strlit("/v2/models/");
    }
    let parts = split(s, 11);
    let first = parts[0];
    if first.0 == first.1 || parts.len() == 1 {
        return None;
    }
    assert(s@.subrange(first.0 as int, first.1 as int).len() > 0);
    let model = path.substring_char(first.0, first.1);
    if part_is(s, parts[1], "versions") {
        if parts.len() == 4 && parts[2].0 < parts[2].1 && part_is_inference(s, parts[3]) {
            let v = path.substring_char(parts[2].0, parts[2].1);
            return Some((model, Some(v)));
        }
        return None;
    }
    if parts.len() == 2 && part_is_admin(s, parts[1]) {
        return None;
    }
    Some((model, None))
}

#[derive(Debug, Clone, Copy, PartialEq, Eq, Structural)]
pub enum Method {
    Get,
    Post,
    Put,
    Delete,
}

/// What serves a route.
#[derive(Debug, Clone, Copy, PartialEq, Eq, Structural)]
pub enum Handler {
    Health,
    Livez,
    Readyz,
    Startupz,
    Info,
    Metrics,
    ServerMetadata,
    ModelMetadata,
    VersionMetadata,
    ListModels,
    ListVersions,
    ModelReady,
    VersionReady,
    ModelHealth,
    VersionHealth,
    RepositoryIndex,
    LoadModel,
    LoadVersion,
    UnloadModel,
    UnloadVersion,
    ReloadModel,
    ReloadVersion,
    Upload,
    Download,
    ListFiles,
    DeleteVersion,
    ActivateVersion,
    SetRouting,
    Infer,
    InferVersion,
    Generate,
    GenerateVersion,
    Timeline,
    TimelineModel,
    TimelineVersion,
    Alerts,
    CompareVersions,
    SseInfer,
    SseInferVersion,
    GenerateStream,
    GenerateStreamVersion,
    SseDecoupled,
    SseDecoupledVersion,
    WsStream,
    WsStreamVersion,
    WsDecoupled,
    WsDecoupledVersion,
    Bidi,
    BidiVersion,
}

/// A route: requests with this method whose path has this form.
#[derive(Debug, Clone, Copy)]
pub struct Route {
    pub method: Method,
    pub path: &'static str,
    pub handler: Handler,
}

/// What a server offers beside its core.
#[derive(Debug, Clone, Copy, PartialEq, Eq, Structural)]
pub struct Features {
    pub timeline: bool,
    pub alerts: bool,
    pub version_compare: bool,
    pub streaming: bool,
    pub sse: bool,
    pub websocket_streaming: bool,
    pub decoupled: bool,
    pub http_bidi: bool,
}

/// The routes that every server has.
#[verifier::opaque]
pub open spec fn core_routes() -> Seq<Route> {
    seq![
        Route { method: Method::Get, path: "/health", handler: Handler::Health },
        Route { method: Method::Get, path: "/livez", handler: Handler::Livez },
        Route { method: Method::Get, path: "/readyz", handler: Handler::Readyz },
        Route { method: Method::Get, path: "/startupz", handler: Handler::Startupz },
        Route { method: Method::Get, path: "/info", handler: Handler::Info },
        Route { method: Method::Get, path: "/metrics", handler: Handler::Metrics },
        Route { method: Method::Get, path: "/v2", handler: Handler::ServerMetadata },
        Route { method: Method::Get, path: "/v2/health/live", handler: Handler::Livez },
        Route { method: Method::Get, path: "/v2/health/ready", handler: Handler::Readyz },
        Route { method: Method::Get, path: "/v2/models/:model_name", handler: Handler::ModelMetadata },
        Route { method: Method::Get, path: "/v2/models/:model_name/versions/:version", handler: Handler::VersionMetadata },
        Route { method: Method::Get, path: "/v2/models", handler: Handler::ListModels },
        Route { method: Method::Get, path: "/v2/models/:model_name/versions", handler: Handler::ListVersions },
        Route { method: Method::Get, path: "/v2/models/:model_name/ready", handler: Handler::ModelReady },
        Route { method: Method::Get, path: "/v2/models/:model_name/versions/:version/ready", handler: Handler::VersionReady },
        Route { method: Method::Get, path: "/v2/models/:model_name/health", handler: Handler::ModelHealth },
        Route { method: Method::Get, path: "/v2/models/:model_name/versions/:version/health", handler: Handler::VersionHealth },
        Route { method: Method::Post, path: "/v2/repository/index", handler: Handler::RepositoryIndex },
        Route { method: Method::Post, path: "/v2/repository/models/:model_name/load", handler: Handler::LoadModel },
        Route { method: Method::Post, path: "/v2/repository/models/:model_name/versions/:version/load", handler: Handler::LoadVersion },
        Route { method: Method::Post, path: "/v2/repository/models/:model_name/unload", handler: Handler::UnloadModel },
        Route { method: Method::Post, path: "/v2/repository/models/:model_name/versions/:version/unload", handler: Handler::UnloadVersion },
        Route { method: Method::Post, path: "/v2/models/:model_name/reload", handler: Handler::ReloadModel },
        Route { method: Method::Post, path: "/v2/models/:model_name/versions/:version/reload", handler: Handler::ReloadVersion },
        Route { method: Method::Post, path: "/v2/repository/models/:model_name/versions/:version/upload", handler: Handler::Upload },
        Route { method: Method::Get, path: "/v2/repository/models/:model_name/versions/:version/download", handler: Handler::Download },
        Route { method: Method::Get, path: "/v2/repository/models/:model_name/versions/:version/files", handler: Handler::ListFiles },
        Route { method: Method::Delete, path: "/v2/models/:model_name/versions/:version", handler: Handler::DeleteVersion },
        Route { method: Method::Post, path: "/v2/models/:model_name/versions/:version/activate", handler: Handler::ActivateVersion },
        Route { method: Method::Put, path: "/v2/models/:model_name/routing", handler: Handler::SetRouting },
        Route { method: Method::Post, path: "/v2/models/:model_name/infer", handler: Handler::Infer },
        Route { method: Method::Post, path: "/v2/models/:model_name/versions/:version/infer", handler: Handler::InferVersion },
        Route { method: Method::Post, path: "/v2/models/:model_name/generate", handler: Handler::Generate },
        Route { method: Method::Post, path: "/v2/models/:model_name/versions/:version/generate", handler: Handler::GenerateVersion },
    ]
}

/// The routes of the metrics over time.
#[verifier::opaque]
pub open spec fn timeline_routes() -> Seq<Route> {
    seq![
        Route { method: Method::Get, path: "/metrics/timeline", handler: Handler::Timeline },
        Route { method: Method::Get, path: "/metrics/timeline/:model_name", handler: Handler::TimelineModel },
        Route { method: Method::Get, path: "/metrics/timeline/:model_name/versions/:version", handler: Handler::TimelineVersion },
    ]
}

/// The route of the alerts.
#[verifier::opaque]
pub open spec fn alert_routes() -> Seq<Route> {
    seq![
        Route { method: Method::Get, path: "/metrics/alerts", handler: Handler::Alerts },
    ]
}

/// The route that compares versions.
#[verifier::opaque]
pub open spec fn compare_routes() -> Seq<Route> {
    seq![
        Route { method: Method::Get, path: "/v2/models/:model_name/compare", handler: Handler::CompareVersions },
    ]
}

/// The routes of streams of events.
#[verifier::opaque]
pub open spec fn sse_routes() -> Seq<Route> {
    seq![
        Route { method: Method::Post, path: "/v2/models/:model_name/events", handler: Handler::SseInfer },
        Route { method: Method::Post, path: "/v2/models/:model_name/versions/:version/events", handler: Handler::SseInferVersion },
        Route { method: Method::Post, path: "/v2/models/:model_name/generate_stream", handler: Handler::GenerateStream },
        Route { method: Method::Post, path: "/v2/models/:model_name/versions/:version/generate_stream", handler: Handler::GenerateStreamVersion },
    ]
}

/// The routes of decoupled streams of events.
#[verifier::opaque]
pub open spec fn sse_decoupled_routes() -> Seq<Route> {
    seq![
        Route { method: Method::Post, path: "/v2/models/:model_name/decoupled", handler: Handler::SseDecoupled },
        Route { method: Method::Post, path: "/v2/models/:model_name/versions/:version/decoupled", handler: Handler::SseDecoupledVersion },
    ]
}

/// The routes of streams over WebSockets.
#[verifier::opaque]
pub open spec fn ws_routes() -> Seq<Route> {
    seq![
        Route { method: Method::Get, path: "/v2/models/:model_name/stream", handler: Handler::WsStream },
        Route { method: Method::Get, path: "/v2/models/:model_name/versions/:version/stream", handler: Handler::WsStreamVersion },
    ]
}

/// The routes of decoupled streams over WebSockets.
#[verifier::opaque]
pub open spec fn ws_decoupled_routes() -> Seq<Route> {
    seq![
        Route { method: Method::Get, path: "/v2/models/:model_name/decoupled-stream", handler: Handler::WsDecoupled },
        Route { method: Method::Get, path: "/v2/models/:model_name/versions/:version/decoupled-stream", handler: Handler::WsDecoupledVersion },
    ]
}

/// The routes of two-way streams.
#[verifier::opaque]
pub open spec fn bidi_routes() -> Seq<Route> {
    seq![
        Route { method: Method::Post, path: "/v2/models/:model_name/bidi", handler: Handler::Bidi },
        Route { method: Method::Post, path: "/v2/models/:model_name/versions/:version/bidi", handler: Handler::BidiVersion },
    ]
}

/// The routes of a server.
pub open spec fn route_table(f: Features) -> Seq<Route> {
    core_routes() + (if f.timeline {
        timeline_routes()
    } else {
        seq![]
    }) + (if f.alerts {
        alert_routes()
    } else {
        seq![]
    }) + (if f.version_compare {
        compare_routes()
    } else {
        seq![]
    }) + (if f.streaming && f.sse {
        sse_routes()
    } else {
        seq![]
    }) + (if f.streaming && f.sse && f.decoupled {
        sse_decoupled_routes()
    } else {
        seq![]
    }) + (if f.streaming && f.websocket_streaming {
        ws_routes()
    } else {
        seq![]
    }) + (if f.streaming && f.websocket_streaming && f.decoupled {
        ws_decoupled_routes()
    } else {
        seq![]
    }) + (if f.streaming && f.http_bidi {
        bidi_routes()
    } else {
        seq![]
    })
}

fn core_list() -> (r: Vec<Route>)
    ensures
        r@ == core_routes(),
{
    let out = vec![
        Route { method: Method::Get, path: "/health", handler: Handler::Health },
        Route { method: Method::Get, path: "/livez", handler: Handler::Livez },
        Route { method: Method::Get, path: "/readyz", handler: Handler::Readyz },
        Route { method: Method::Get, path: "/startupz", handler: Handler::Startupz },
        Route { method: Method::Get, path: "/info", handler: Handler::Info },
        Route { method: Method::Get, path: "/metrics", handler: Handler::Metrics },
        Route { method: Method::Get, path: "/v2", handler: Handler::ServerMetadata },
        Route { method: Method::Get, path: "/v2/health/live", handler: Handler::Livez },
        Route { method: Method::Get, path: "/v2/health/ready", handler: Handler::Readyz },
        Route { method: Method::Get, path: "/v2/models/:model_name", handler: Handler::ModelMetadata },
        Route { method: Method::Get, path: "/v2/models/:model_name/versions/:version", handler: Handler::VersionMetadata },
        Route { method: Method::Get, path: "/v2/models", handler: Handler::ListModels },
        Route { method: Method::Get, path: "/v2/models/:model_name/versions", handler: Handler::ListVersions },
        Route { method: Method::Get, path: "/v2/models/:model_name/ready", handler: Handler::ModelReady },
        Route { method: Method::Get, path: "/v2/models/:model_name/versions/:version/ready", handler: Handler::VersionReady },
        Route { method: Method::Get, path: "/v2/models/:model_name/health", handler: Handler::ModelHealth },
        Route { method: Method::Get, path: "/v2/models/:model_name/versions/:version/health", handler: Handler::VersionHealth },
        Route { method: Method::Post, path: "/v2/repository/index", handler: Handler::RepositoryIndex },
        Route { method: Method::Post, path: "/v2/repository/models/:model_name/load", handler: Handler::LoadModel },
        Route { method: Method::Post, path: "/v2/repository/models/:model_name/versions/:version/load", handler: Handler::LoadVersion },
        Route { method: Method::Post, path: "/v2/repository/models/:model_name/unload", handler: Handler::UnloadModel },
        Route { method: Method::Post, path: "/v2/repository/models/:model_name/versions/:version/unload", handler: Handler::UnloadVersion },
        Route { method: Method::Post, path: "/v2/models/:model_name/reload", handler: Handler::ReloadModel },
        Route { method: Method::Post, path: "/v2/models/:model_name/versions/:version/reload", handler: Handler::ReloadVersion },
        Route { method: Method::Post, path: "/v2/repository/models/:model_name/versions/:version/upload", handler: Handler::Upload },
        Route { method: Method::Get, path: "/v2/repository/models/:model_name/versions/:version/download", handler: Handler::Download },
        Route { method: Method::Get, path: "/v2/repository/models/:model_name/versions/:version/files", handler: Handler::ListFiles },
        Route { method: Method::Delete, path: "/v2/models/:model_name/versions/:version", handler: Handler::DeleteVersion },
        Route { method: Method::Post, path: "/v2/models/:model_name/versions/:version/activate", handler: Handler::ActivateVersion },
        Route { method: Method::Put, path: "/v2/models/:model_name/routing", handler: Handler::SetRouting },
        Route { method: Method::Post, path: "/v2/models/:model_name/infer", handler: Handler::Infer },
        Route { method: Method::Post, path: "/v2/models/:model_name/versions/:version/infer", handler: Handler::InferVersion },
        Route { method: Method::Post, path: "/v2/models/:model_name/generate", handler: Handler::Generate },
        Route { method: Method::Post, path: "/v2/models/:model_name/versions/:version/generate", handler: Handler::GenerateVersion },
    ];
    proof {
        reveal(core_routes);
        assert(out@ =~= core_routes());
    }
    out
}

fn timeline_list() -> (r: Vec<Route>)
    ensures
        r@ == timeline_routes(),
{
    let out = vec![
        Route { method: Method::Get, path: "/metrics/timeline", handler: Handler::Timeline },
        Route { method: Method::Get, path: "/metrics/timeline/:model_name", handler: Handler::TimelineModel },
        Route { method: Method::Get, path: "/metrics/timeline/:model_name/versions/:version", handler: Handler::TimelineVersion },
    ];
    proof {
        reveal(timeline_routes);
        assert(out@ =~= timeline_routes());
    }
    out
}

fn alert_list() -> (r: Vec<Route>)
    ensures
        r@ == alert_routes(),
{
    let out = vec![
        Route { method: Method::Get, path: "/metrics/alerts", handler: Handler::Alerts },
    ];
    proof {
        reveal(alert_routes);
        assert(out@ =~= alert_routes());
    }
    out
}

fn compare_list() -> (r: Vec<Route>)
    ensures
        r@ == compare_routes(),
{
    let out = vec![
        Route { method: Method::Get, path: "/v2/models/:model_name/compare", handler: Handler::CompareVersions },
    ];
    proof {
        reveal(compare_routes);
        assert(out@ =~= compare_routes());
    }
    out
}

fn sse_list() -> (r: Vec<Route>)
    ensures
        r@ == sse_routes(),
{
    let out = vec![
        Route { method: Method::Post, path: "/v2/models/:model_name/events", handler: Handler::SseInfer },
        Route { method: Method::Post, path: "/v2/models/:model_name/versions/:version/events", handler: Handler::SseInferVersion },
        Route { method: Method::Post, path: "/v2/models/:model_name/generate_stream", handler: Handler::GenerateStream },
        Route { method: Method::Post, path: "/v2/models/:model_name/versions/:version/generate_stream", handler: Handler::GenerateStreamVersion },
    ];
    proof {
        reveal(sse_routes);
        assert(out@ =~= sse_routes());
    }
    out
}

fn sse_decoupled_list() -> (r: Vec<Route>)
    ensures
        r@ == sse_decoupled_routes(),
{
    let out = vec![
        Route { method: Method::Post, path: "/v2/models/:model_name/decoupled", handler: Handler::SseDecoupled },
        Route { method: Method::Post, path: "/v2/models/:model_name/versions/:version/decoupled", handler: Handler::SseDecoupledVersion },
    ];
    proof {
        reveal(sse_decoupled_routes);
        assert(out@ =~= sse_decoupled_routes());
    }
    out
}

fn ws_list() -> (r: Vec<Route>)
    ensures
        r@ == ws_routes(),
{
    let out = vec![
        Route { method: Method::Get, path: "/v2/models/:model_name/stream", handler: Handler::WsStream },
        Route { method: Method::Get, path: "/v2/models/:model_name/versions/:version/stream", handler: Handler::WsStreamVersion },
    ];
    proof {
        reveal(ws_routes);
        assert(out@ =~= ws_routes());
    }
    out
}

fn ws_decoupled_list() -> (r: Vec<Route>)
    ensures
        r@ == ws_decoupled_routes(),
{
    let out = vec![
        Route { method: Method::Get, path: "/v2/models/:model_name/decoupled-stream", handler: Handler::WsDecoupled },
        Route { method: Method::Get, path: "/v2/models/:model_name/versions/:version/decoupled-stream", handler: Handler::WsDecoupledVersion },
    ];
    proof {
        reveal(ws_decoupled_routes);
        assert(out@ =~= ws_decoupled_routes());
    }
    out
}

fn bidi_list() -> (r: Vec<Route>)
    ensures
        r@ == bidi_routes(),
{
    let out = vec![
        Route { method: Method::Post, path: "/v2/models/:model_name/bidi", handler: Handler::Bidi },
        Route { method: Method::Post, path: "/v2/models/:model_name/versions/:version/bidi", handler: Handler::BidiVersion },
    ];
    proof {
        reveal(bidi_routes);
        assert(out@ =~= bidi_routes());
    }
    out
}

/// The routes of a server.
pub fn routes(f: Features) -> (r: Vec<Route>)
    ensures
        r@ == route_table(f),
{
    let mut out = core_list();
    if f.timeline {
        let mut more = timeline_list();
        out.append(&mut more);
    }
    if f.alerts {
        let mut more = alert_list();
        out.append(&mut more);
    }
    if f.version_compare {
        let mut more = compare_list();
        out.append(&mut more);
    }
    if f.streaming && f.sse {
        let mut more = sse_list();
        out.append(&mut more);
    }
    if f.streaming && f.sse && f.decoupled {
        let mut more = sse_decoupled_list();
        out.append(&mut more);
    }
    if f.streaming && f.websocket_streaming {
        let mut more = ws_list();
        out.append(&mut more);
    }
    if f.streaming && f.websocket_streaming && f.decoupled {
        let mut more = ws_decoupled_list();
        out.append(&mut more);
    }
    if f.streaming && f.http_bidi {
        let mut more = bidi_list();
        out.append(&mut more);
    }
    assert(out@ =~= route_table(f));
    out
}

/// Whether the features switch on what serves a route.
pub open spec fn is_enabled(h: Handler, f: Features) -> bool {
    match h {
        Handler::Timeline => f.timeline,
        Handler::TimelineModel => f.timeline,
        Handler::TimelineVersion => f.timeline,
        Handler::Alerts => f.alerts,
        Handler::CompareVersions => f.version_compare,
        Handler::SseInfer => f.streaming && f.sse,
        Handler::SseInferVersion => f.streaming && f.sse,
        Handler::GenerateStream => f.streaming && f.sse,
        Handler::GenerateStreamVersion => f.streaming && f.sse,
        Handler::SseDecoupled => f.streaming && f.sse && f.decoupled,
        Handler::SseDecoupledVersion => f.streaming && f.sse && f.decoupled,
        Handler::WsStream => f.streaming && f.websocket_streaming,
        Handler::WsStreamVersion => f.streaming && f.websocket_streaming,
        Handler::WsDecoupled => f.streaming && f.websocket_streaming && f.decoupled,
        Handler::WsDecoupledVersion => f.streaming && f.websocket_streaming && f.decoupled,
        Handler::Bidi => f.streaming && f.http_bidi,
        Handler::BidiVersion => f.streaming && f.http_bidi,
        _ => true,
    }
}

/// Whether the features switch on all of `routes`.
pub open spec fn all_enabled(routes: Seq<Route>, f: Features) -> bool {
    forall|i: int| 0 <= i < routes.len() ==> is_enabled((#[trigger] routes[i]).handler, f)
}

proof fn groups_are_enabled(f: Features)
    ensures
        all_enabled(core_routes(), f),
        f.timeline ==> all_enabled(timeline_routes(), f),
        f.alerts ==> all_enabled(alert_routes(), f),
        f.version_compare ==> all_enabled(compare_routes(), f),
        f.streaming && f.sse ==> all_enabled(sse_routes(), f),
        f.streaming && f.sse && f.decoupled ==> all_enabled(sse_decoupled_routes(), f),
        f.streaming && f.websocket_streaming ==> all_enabled(ws_routes(), f),
        f.streaming && f.websocket_streaming && f.decoupled ==> all_enabled(ws_decoupled_routes(), f),
        f.streaming && f.http_bidi ==> all_enabled(bidi_routes(), f),
{
    reveal(core_routes);
    reveal(timeline_routes);
    reveal(alert_routes);
    reveal(compare_routes);
    reveal(sse_routes);
    reveal(sse_decoupled_routes);
    reveal(ws_routes);
    reveal(ws_decoupled_routes);
    reveal(bidi_routes);
}

/// What is not switched on has no route.
pub proof fn routes_are_switched_on(f: Features, i: int)
    requires
        0 <= i < route_table(f).len(),
    ensures
        is_enabled(route_table(f)[i].handler, f),
{
    groups_are_enabled(f);
}

/// Whether one of `routes` leads to `h`.
pub open spec fn leads_to(routes: Seq<Route>, h: Handler) -> bool {
    exists|i: int| 0 <= i < routes.len() && (#[trigger] routes[i]).handler == h
}

proof fn joined_routes_lead_to_both(a: Seq<Route>, b: Seq<Route>, h: Handler)
    ensures
        leads_to(a, h) ==> leads_to(a + b, h),
        leads_to(b, h) ==> leads_to(a + b, h),
{
    if leads_to(a, h) {
        let i = choose|i: int| 0 <= i < a.len() && (#[trigger] a[i]).handler == h;
        assert((a + b)[i].handler == h);
    }
    if leads_to(b, h) {
        let i = choose|i: int| 0 <= i < b.len() && (#[trigger] b[i]).handler == h;
        assert((a + b)[a.len() + i].handler == h);
    }
}

/// The routes among which `h` has one.
spec fn group_of(h: Handler) -> Seq<Route> {
    match h {
        Handler::Timeline => timeline_routes(),
        Handler::TimelineModel => timeline_routes(),
        Handler::TimelineVersion => timeline_routes(),
        Handler::Alerts => alert_routes(),
        Handler::CompareVersions => compare_routes(),
        Handler::SseInfer => sse_routes(),
        Handler::SseInferVersion => sse_routes(),
        Handler::GenerateStream => sse_routes(),
        Handler::GenerateStreamVersion => sse_routes(),
        Handler::SseDecoupled => sse_decoupled_routes(),
        Handler::SseDecoupledVersion => sse_decoupled_routes(),
        Handler::WsStream => ws_routes(),
        Handler::WsStreamVersion => ws_routes(),
        Handler::WsDecoupled => ws_decoupled_routes(),
        Handler::WsDecoupledVersion => ws_decoupled_routes(),
        Handler::Bidi => bidi_routes(),
        Handler::BidiVersion => bidi_routes(),
        _ => core_routes(),
    }
}

proof fn groups_lead_to_their_handlers(h: Handler)
    ensures
        leads_to(group_of(h), h),
{
    reveal(core_routes);
    reveal(timeline_routes);
    reveal(alert_routes);
    reveal(compare_routes);
    reveal(sse_routes);
    reveal(sse_decoupled_routes);
    reveal(ws_routes);
    reveal(ws_decoupled_routes);
    reveal(bidi_routes);
    let at: int = match h {
        Handler::Health => 0,
        Handler::Livez => 1,
        Handler::Readyz => 2,
        Handler::Startupz => 3,
        Handler::Info => 4,
        Handler::Metrics => 5,
        Handler::ServerMetadata => 6,
        Handler::ModelMetadata => 9,
        Handler::VersionMetadata => 10,
        Handler::ListModels => 11,
        Handler::ListVersions => 12,
        Handler::ModelReady => 13,
        Handler::VersionReady => 14,
        Handler::ModelHealth => 15,
        Handler::VersionHealth => 16,
        Handler::RepositoryIndex => 17,
        Handler::LoadModel => 18,
        Handler::LoadVersion => 19,
        Handler::UnloadModel => 20,
        Handler::UnloadVersion => 21,
        Handler::ReloadModel => 22,
        Handler::ReloadVersion => 23,
        Handler::Upload => 24,
        Handler::Download => 25,
        Handler::ListFiles => 26,
        Handler::DeleteVersion => 27,
        Handler::ActivateVersion => 28,
        Handler::SetRouting => 29,
        Handler::Infer => 30,
        Handler::InferVersion => 31,
        Handler::Generate => 32,
        Handler::GenerateVersion => 33,
        Handler::Timeline => 0,
        Handler::TimelineModel => 1,
        Handler::TimelineVersion => 2,
        Handler::Alerts => 0,
        Handler::CompareVersions => 0,
        Handler::SseInfer => 0,
        Handler::SseInferVersion => 1,
        Handler::GenerateStream => 2,
        Handler::GenerateStreamVersion => 3,
        Handler::SseDecoupled => 0,
        Handler::SseDecoupledVersion => 1,
        Handler::WsStream => 0,
        Handler::WsStreamVersion => 1,
        Handler::WsDecoupled => 0,
        Handler::WsDecoupledVersion => 1,
        Handler::Bidi => 0,
        Handler::BidiVersion => 1,
    };
    assert(group_of(h)[at].handler == h);
}

/// What is switched on has a route.
pub proof fn what_is_switched_on_has_a_route(h: Handler, f: Features)
    requires
        is_enabled(h, f),
    ensures
        leads_to(route_table(f), h),
{
    groups_lead_to_their_handlers(h);
    let none: Seq<Route> = seq![];
    let r1 = core_routes();
    let g1 = if f.timeline {
        timeline_routes()
    } else {
        none
    };
    joined_routes_lead_to_both(r1, g1, h);
    let r2 = r1 + g1;
    let g2 = if f.alerts {
        alert_routes()
    } else {
        none
    };
    joined_routes_lead_to_both(r2, g2, h);
    let r3 = r2 + g2;
    let g3 = if f.version_compare {
        compare_routes()
    } else {
        none
    };
    joined_routes_lead_to_both(r3, g3, h);
    let r4 = r3 + g3;
    let g4 = if f.streaming && f.sse {
        sse_routes()
    } else {
        none
    };
    joined_routes_lead_to_both(r4, g4, h);
    let r5 = r4 + g4;
    let g5 = if f.streaming && f.sse && f.decoupled {
        sse_decoupled_routes()
    } else {
        none
    };
    joined_routes_lead_to_both(r5, g5, h);
    let r6 = r5 + g5;
    let g6 = if f.streaming && f.websocket_streaming {
        ws_routes()
    } else {
        none
    };
    joined_routes_lead_to_both(r6, g6, h);
    let r7 = r6 + g6;
    let g7 = if f.streaming && f.websocket_streaming && f.decoupled {
        ws_decoupled_routes()
    } else {
        none
    };
    joined_routes_lead_to_both(r7, g7, h);
    let r8 = r7 + g7;
    let g8 = if f.streaming && f.http_bidi {
        bidi_routes()
    } else {
        none
    };
    joined_routes_lead_to_both(r8, g8, h);
    let r9 = r8 + g8;
    assert(r9 == route_table(f));
}

/// What belongs to the core of the server has its routes whatever is switched
/// on.
pub proof fn core_routes_are_always_there(f: Features, i: int)
    requires
        0 <= i < core_routes().len(),
    ensures
        i < route_table(f).len(),
        route_table(f)[i] == core_routes()[i],
{
}

/// The parts of a path with slashes between them.
pub open spec fn joined(parts: Seq<Seq<char>>) -> Seq<char>
    decreases parts.len(),
{
    if parts.len() == 0 {
        Seq::empty()
    } else if parts.len() == 1 {
        parts[0]
    } else {
        parts[0] + seq!['/'] + joined(parts.subrange(1, parts.len() as int))
    }
}

proof fn find_is_first(s: Seq<char>, c: char)
    ensures
        0 <= find(s, c) <= s.len(),
        forall|j: int| 0 <= j < find(s, c) ==> s[j] != c,
        find(s, c) < s.len() ==> s[find(s, c)] == c,
    decreases s.len(),
{
    if s.len() > 0 && s[0] != c {
        let rest = s.subrange(1, s.len() as int);
        find_is_first(rest, c);
        assert forall|j: int| 0 <= j < find(s, c) implies s[j] != c by {
            if j > 0 {
                assert(s[j] == rest[j - 1]);
            }
        }
        if find(s, c) < s.len() {
            assert(s[find(s, c)] == rest[find(rest, c)]);
        }
    }
}

/// The parts of a path make up the path when slashes are put between them, and
/// none of them holds a slash.
pub proof fn parts_make_up_the_path(s: Seq<char>, k: int, j: int)
    ensures
        joined(segments(s)) == s,
        segments(s).len() >= 1,
        0 <= k < segments(s).len() && 0 <= j < segments(s)[k].len() ==> segments(s)[k][j] != '/',
    decreases s.len(),
{
    let i = find(s, '/');
    find_is_first(s, '/');
    if i < s.len() {
        let rest = s.subrange(i + 1, s.len() as int);
        parts_make_up_the_path(rest, k - 1, j);
        let all = segments(s);
        assert(all.subrange(1, all.len() as int) =~= segments(rest));
        assert(s =~= s.subrange(0, i) + seq!['/'] + rest);
        if 0 < k < all.len() {
            assert(all[k] == segments(rest)[k - 1]);
        }
    }
}

proof fn first_part(part: Seq<char>, rest: Seq<char>)
    requires
        forall|i: int| 0 <= i < part.len() ==> part[i] != '/',
    ensures
        segments(part) == seq![part],
        segments(part + seq!['/'] + rest) == seq![part] + segments(rest),
{
    crate::text::lemma_find(part, '/', part.len() as int);
    let s = part + seq!['/'] + rest;
    let n = part.len() as int;
    assert forall|j: int| 0 <= j < n implies s[j] != '/' by {
        assert(s[j] == part[j]);
    }
    crate::text::lemma_find(s, '/', n);
    assert(s.subrange(0, n) =~= part);
    assert(s.subrange(n + 1, s.len() as int) =~= rest);
}

proof fn below_models(rest: Seq<char>)
    ensures
        has_prefix("/v2/models/"@ + rest, "/v2/models/"@),
        ({
            let path = "/v2/models/"@ + rest;
            path.subrange("/v2/models/"@.len() as int, path.len() as int) == rest
        }),
{
    let prefix = "/v2/models/"@;
    let path = prefix + rest;
    assert(path.subrange(0, prefix.len() as int) =~= prefix);
    assert(path.subrange(prefix.len() as int, path.len() as int) =~= rest);
}

/// A request to a route of a model is logged for the model, by whatever name the
/// route goes, unless it manages the model or names a version.
pub proof fn requests_are_logged_for_their_model(model: Seq<char>, leaf: Seq<char>)
    requires
        model.len() > 0,
        forall|i: int| 0 <= i < model.len() ==> model[i] != '/',
        forall|i: int| 0 <= i < leaf.len() ==> leaf[i] != '/',
    ensures
        ({
            let target = log_target("/v2/models/"@ + (model + seq!['/'] + leaf));
            let manages = seq![
                "ready"@,
                "health"@,
                "routing"@,
                "activate"@,
                "compare"@,
                "reload"@,
            ].contains(leaf);
            &&& manages || leaf == "versions"@ ==> target is None
            &&& !manages && leaf != "versions"@ ==> target == Some(
                (model, None::<Seq<char>>),
            )
        }),
        log_target("/v2/models/"@ + model) is None,
{
    below_models(model + seq!['/'] + leaf);
    below_models(model);
    first_part(model, leaf);
    first_part(leaf, Seq::empty());
    let parts = segments(model + seq!['/'] + leaf);
    assert(parts =~= seq![model, leaf]);
    let leaves = seq!["ready"@, "health"@, "routing"@, "activate"@, "compare"@, "reload"@];
    assert(leaves[0] == "ready"@ && leaves[1] == "health"@ && leaves[2] == "routing"@ && leaves[3]
        == "activate"@ && leaves[4] == "compare"@ && leaves[5] == "reload"@);
}

/// A request to a route of a version is logged for the model and the version
/// exactly where it runs the model.
pub proof fn runs_are_logged_for_their_version(
    model: Seq<char>,
    version: Seq<char>,
    leaf: Seq<char>,
)
    requires
        model.len() > 0,
        forall|i: int| 0 <= i < model.len() ==> model[i] != '/',
        version.len() > 0,
        forall|i: int| 0 <= i < version.len() ==> version[i] != '/',
        forall|i: int| 0 <= i < leaf.len() ==> leaf[i] != '/',
    ensures
        ({
            let target = log_target(
                "/v2/models/"@ + (model + seq!['/'] + ("versions"@ + seq!['/'] + (version + seq![
                    '/',
                ] + leaf))),
            );
            let runs = seq![
                "infer"@,
                "events"@,
                "stream"@,
                "bidi"@,
                "decoupled"@,
                "decoupled-stream"@,
                "generate"@,
                "generate_stream"@,
            ].contains(leaf);
            &&& runs ==> target == Some((model, Some(version)))
            &&& !runs ==> target is None
        }),
{
    let tail = version + seq!['/'] + leaf;
    let middle = "versions"@ + seq!['/'] + tail;
    below_models(model + seq!['/'] + middle);
    reveal_strlit("versions");
    first_part(model, middle);
    first_part("versions"@, tail);
    first_part(version, leaf);
    first_part(leaf, Seq::empty());
    let parts = segments(model + seq!['/'] + middle);
    assert(parts =~= seq![model, "versions"@, version, leaf]);
    let leaves = seq![
        "infer"@,
        "events"@,
        "stream"@,
        "bidi"@,
        "decoupled"@,
        "decoupled-stream"@,
        "generate"@,
        "generate_stream"@,
    ];
    assert(leaves[0] == "infer"@ && leaves[1] == "events"@ && leaves[2] == "stream"@ && leaves[3]
        == "bidi"@ && leaves[4] == "decoupled"@ && leaves[5] == "decoupled-stream"@ && leaves[6]
        == "generate"@ && leaves[7] == "generate_stream"@);
}

/// A request that is not for a model is not logged.
pub proof fn other_paths_are_not_logged(path: Seq<char>)
    ensures
        !has_prefix(path, "/v2/models/"@) ==> log_target(path) is None,
{
}

/// The probes of the health of the server, and they alone, are answered while the
/// server is being shut down.
pub proof fn probes_are_routes_of_health(i: int)
    requires
        0 <= i < core_routes().len(),
    ensures
        core_routes()[i].handler == Handler::Health || core_routes()[i].handler == Handler::Livez
            || core_routes()[i].handler == Handler::Readyz || core_routes()[i].handler
            == Handler::Startupz ==> crate::http::is_probe_path(core_routes()[i].path@),
{
    reveal(core_routes);
}

/// Where the routes of a model lie: those of its repository apart, those of a
/// version below the model, and `leaf` behind.
pub open spec fn model_path(repository: bool, versioned: bool, leaf: Seq<char>) -> Seq<char> {
    "/v2"@ + (if repository {
        "/repository"@
    } else {
        Seq::empty()
    }) + "/models/:model_name"@ + (if versioned {
        "/versions/:version"@
    } else {
        Seq::empty()
    }) + leaf
}

/// What a handler does with a model or a version of it: whether it works on the
/// repository, whether on a version, and the name of the operation.
pub open spec fn operation(h: Handler) -> Option<(bool, bool, Seq<char>)> {
    match h {
        Handler::ModelMetadata => Some((false, false, Seq::empty())),
        Handler::VersionMetadata => Some((false, true, Seq::empty())),
        Handler::ListVersions => Some((false, false, "/versions"@)),
        Handler::ModelReady => Some((false, false, "/ready"@)),
        Handler::VersionReady => Some((false, true, "/ready"@)),
        Handler::ModelHealth => Some((false, false, "/health"@)),
        Handler::VersionHealth => Some((false, true, "/health"@)),
        Handler::LoadModel => Some((true, false, "/load"@)),
        Handler::LoadVersion => Some((true, true, "/load"@)),
        Handler::UnloadModel => Some((true, false, "/unload"@)),
        Handler::UnloadVersion => Some((true, true, "/unload"@)),
        Handler::ReloadModel => Some((false, false, "/reload"@)),
        Handler::ReloadVersion => Some((false, true, "/reload"@)),
        Handler::Upload => Some((true, true, "/upload"@)),
        Handler::Download => Some((true, true, "/download"@)),
        Handler::ListFiles => Some((true, true, "/files"@)),
        Handler::DeleteVersion => Some((false, true, Seq::empty())),
        Handler::ActivateVersion => Some((false, true, "/activate"@)),
        Handler::SetRouting => Some((false, false, "/routing"@)),
        Handler::Infer => Some((false, false, "/infer"@)),
        Handler::InferVersion => Some((false, true, "/infer"@)),
        Handler::Generate => Some((false, false, "/generate"@)),
        Handler::GenerateVersion => Some((false, true, "/generate"@)),
        Handler::CompareVersions => Some((false, false, "/compare"@)),
        Handler::SseInfer => Some((false, false, "/events"@)),
        Handler::SseInferVersion => Some((false, true, "/events"@)),
        Handler::GenerateStream => Some((false, false, "/generate_stream"@)),
        Handler::GenerateStreamVersion => Some((false, true, "/generate_stream"@)),
        Handler::SseDecoupled => Some((false, false, "/decoupled"@)),
        Handler::SseDecoupledVersion => Some((false, true, "/decoupled"@)),
        Handler::WsStream => Some((false, false, "/stream"@)),
        Handler::WsStreamVersion => Some((false, true, "/stream"@)),
        Handler::WsDecoupled => Some((false, false, "/decoupled-stream"@)),
        Handler::WsDecoupledVersion => Some((false, true, "/decoupled-stream"@)),
        Handler::Bidi => Some((false, false, "/bidi"@)),
        Handler::BidiVersion => Some((false, true, "/bidi"@)),
        _ => None,
    }
}

/// Whether a route lies where its operation says.
pub open spec fn is_in_place(r: Route) -> bool {
    operation(r.handler) matches Some((repository, versioned, leaf)) ==> r.path@ == model_path(
        repository,
        versioned,
        leaf,
    )
}

proof fn paths_themselves()
    ensures
        "/v2/models/:model_name"@ == model_path(
            false,
            false,
            Seq::empty(),
        ),
        "/v2/models/:model_name/versions/:version"@ == model_path(
            false,
            true,
            Seq::empty(),
        ),
{
    reveal_strlit("/v2");
    reveal_strlit("/models/:model_name");
    reveal_strlit("/versions/:version");
    reveal_strlit("/v2/models/:model_name");
    reveal_strlit("/v2/models/:model_name/versions/:version");
    assert("/v2/models/:model_name"@ =~= model_path(
        false,
        false,
        Seq::empty(),
    ));
    assert("/v2/models/:model_name/versions/:version"@ =~= model_path(
        false,
        true,
        Seq::empty(),
    ));
}

proof fn paths_versions()
    ensures
        "/v2/models/:model_name/versions"@ == model_path(
            false,
            false,
            "/versions"@,
        ),
{
    reveal_strlit("/v2");
    reveal_strlit("/models/:model_name");
    reveal_strlit("/versions");
    reveal_strlit("/v2/models/:model_name/versions");
    assert("/v2/models/:model_name/versions"@ =~= model_path(
        false,
        false,
        "/versions"@,
    ));
}

proof fn paths_ready()
    ensures
        "/v2/models/:model_name/ready"@ == model_path(
            false,
            false,
            "/ready"@,
        ),
        "/v2/models/:model_name/versions/:version/ready"@ == model_path(
            false,
            true,
            "/ready"@,
        ),
{
    reveal_strlit("/v2");
    reveal_strlit("/models/:model_name");
    reveal_strlit("/versions/:version");
    reveal_strlit("/ready");
    reveal_strlit("/v2/models/:model_name/ready");
    reveal_strlit("/v2/models/:model_name/versions/:version/ready");
    assert("/v2/models/:model_name/ready"@ =~= model_path(
        false,
        false,
        "/ready"@,
    ));
    assert("/v2/models/:model_name/versions/:version/ready"@ =~= model_path(
        false,
        true,
        "/ready"@,
    ));
}

proof fn paths_health()
    ensures
        "/v2/models/:model_name/health"@ == model_path(
            false,
            false,
            "/health"@,
        ),
        "/v2/models/:model_name/versions/:version/health"@ == model_path(
            false,
            true,
            "/health"@,
        ),
{
    reveal_strlit("/v2");
    reveal_strlit("/models/:model_name");
    reveal_strlit("/versions/:version");
    reveal_strlit("/health");
    reveal_strlit("/v2/models/:model_name/health");
    reveal_strlit("/v2/models/:model_name/versions/:version/health");
    assert("/v2/models/:model_name/health"@ =~= model_path(
        false,
        false,
        "/health"@,
    ));
    assert("/v2/models/:model_name/versions/:version/health"@ =~= model_path(
        false,
        true,
        "/health"@,
    ));
}

proof fn paths_of_repository_load()
    ensures
        "/v2/repository/models/:model_name/load"@ == model_path(
            true,
            false,
            "/load"@,
        ),
        "/v2/repository/models/:model_name/versions/:version/load"@ == model_path(
            true,
            true,
            "/load"@,
        ),
{
    reveal_strlit("/v2");
    reveal_strlit("/models/:model_name");
    reveal_strlit("/repository");
    reveal_strlit("/versions/:version");
    reveal_strlit("/load");
    reveal_strlit("/v2/repository/models/:model_name/load");
    reveal_strlit("/v2/repository/models/:model_name/versions/:version/load");
    assert("/v2/repository/models/:model_name/load"@ =~= model_path(
        true,
        false,
        "/load"@,
    ));
    assert("/v2/repository/models/:model_name/versions/:version/load"@ =~= model_path(
        true,
        true,
        "/load"@,
    ));
}

proof fn paths_of_repository_unload()
    ensures
        "/v2/repository/models/:model_name/unload"@ == model_path(
            true,
            false,
            "/unload"@,
        ),
        "/v2/repository/models/:model_name/versions/:version/unload"@ == model_path(
            true,
            true,
            "/unload"@,
        ),
{
    reveal_strlit("/v2");
    reveal_strlit("/models/:model_name");
    reveal_strlit("/repository");
    reveal_strlit("/versions/:version");
    reveal_strlit("/unload");
    reveal_strlit("/v2/repository/models/:model_name/unload");
    reveal_strlit("/v2/repository/models/:model_name/versions/:version/unload");
    assert("/v2/repository/models/:model_name/unload"@ =~= model_path(
        true,
        false,
        "/unload"@,
    ));
    assert("/v2/repository/models/:model_name/versions/:version/unload"@ =~= model_path(
        true,
        true,
        "/unload"@,
    ));
}

proof fn paths_reload()
    ensures
        "/v2/models/:model_name/reload"@ == model_path(
            false,
            false,
            "/reload"@,
        ),
        "/v2/models/:model_name/versions/:version/reload"@ == model_path(
            false,
            true,
            "/reload"@,
        ),
{
    reveal_strlit("/v2");
    reveal_strlit("/models/:model_name");
    reveal_strlit("/versions/:version");
    reveal_strlit("/reload");
    reveal_strlit("/v2/models/:model_name/reload");
    reveal_strlit("/v2/models/:model_name/versions/:version/reload");
    assert("/v2/models/:model_name/reload"@ =~= model_path(
        false,
        false,
        "/reload"@,
    ));
    assert("/v2/models/:model_name/versions/:version/reload"@ =~= model_path(
        false,
        true,
        "/reload"@,
    ));
}

proof fn paths_of_repository_upload()
    ensures
        "/v2/repository/models/:model_name/versions/:version/upload"@ == model_path(
            true,
            true,
            "/upload"@,
        ),
{
    reveal_strlit("/v2");
    reveal_strlit("/models/:model_name");
    reveal_strlit("/repository");
    reveal_strlit("/versions/:version");
    reveal_strlit("/upload");
    reveal_strlit("/v2/repository/models/:model_name/versions/:version/upload");
    assert("/v2/repository/models/:model_name/versions/:version/upload"@ =~= model_path(
        true,
        true,
        "/upload"@,
    ));
}

proof fn paths_of_repository_download()
    ensures
        "/v2/repository/models/:model_name/versions/:version/download"@ == model_path(
            true,
            true,
            "/download"@,
        ),
{
    reveal_strlit("/v2");
    reveal_strlit("/models/:model_name");
    reveal_strlit("/repository");
    reveal_strlit("/versions/:version");
    reveal_strlit("/download");
    reveal_strlit("/v2/repository/models/:model_name/versions/:version/download");
    assert("/v2/repository/models/:model_name/versions/:version/download"@ =~= model_path(
        true,
        true,
        "/download"@,
    ));
}

proof fn paths_of_repository_files()
    ensures
        "/v2/repository/models/:model_name/versions/:version/files"@ == model_path(
            true,
            true,
            "/files"@,
        ),
{
    reveal_strlit("/v2");
    reveal_strlit("/models/:model_name");
    reveal_strlit("/repository");
    reveal_strlit("/versions/:version");
    reveal_strlit("/files");
    reveal_strlit("/v2/repository/models/:model_name/versions/:version/files");
    assert("/v2/repository/models/:model_name/versions/:version/files"@ =~= model_path(
        true,
        true,
        "/files"@,
    ));
}

proof fn paths_activate()
    ensures
        "/v2/models/:model_name/versions/:version/activate"@ == model_path(
            false,
            true,
            "/activate"@,
        ),
{
    reveal_strlit("/v2");
    reveal_strlit("/models/:model_name");
    reveal_strlit("/versions/:version");
    reveal_strlit("/activate");
    reveal_strlit("/v2/models/:model_name/versions/:version/activate");
    assert("/v2/models/:model_name/versions/:version/activate"@ =~= model_path(
        false,
        true,
        "/activate"@,
    ));
}

proof fn paths_routing()
    ensures
        "/v2/models/:model_name/routing"@ == model_path(
            false,
            false,
            "/routing"@,
        ),
{
    reveal_strlit("/v2");
    reveal_strlit("/models/:model_name");
    reveal_strlit("/routing");
    reveal_strlit("/v2/models/:model_name/routing");
    assert("/v2/models/:model_name/routing"@ =~= model_path(
        false,
        false,
        "/routing"@,
    ));
}

proof fn paths_infer()
    ensures
        "/v2/models/:model_name/infer"@ == model_path(
            false,
            false,
            "/infer"@,
        ),
        "/v2/models/:model_name/versions/:version/infer"@ == model_path(
            false,
            true,
            "/infer"@,
        ),
{
    reveal_strlit("/v2");
    reveal_strlit("/models/:model_name");
    reveal_strlit("/versions/:version");
    reveal_strlit("/infer");
    reveal_strlit("/v2/models/:model_name/infer");
    reveal_strlit("/v2/models/:model_name/versions/:version/infer");
    assert("/v2/models/:model_name/infer"@ =~= model_path(
        false,
        false,
        "/infer"@,
    ));
    assert("/v2/models/:model_name/versions/:version/infer"@ =~= model_path(
        false,
        true,
        "/infer"@,
    ));
}

proof fn paths_generate()
    ensures
        "/v2/models/:model_name/generate"@ == model_path(
            false,
            false,
            "/generate"@,
        ),
        "/v2/models/:model_name/versions/:version/generate"@ == model_path(
            false,
            true,
            "/generate"@,
        ),
{
    reveal_strlit("/v2");
    reveal_strlit("/models/:model_name");
    reveal_strlit("/versions/:version");
    reveal_strlit("/generate");
    reveal_strlit("/v2/models/:model_name/generate");
    reveal_strlit("/v2/models/:model_name/versions/:version/generate");
    assert("/v2/models/:model_name/generate"@ =~= model_path(
        false,
        false,
        "/generate"@,
    ));
    assert("/v2/models/:model_name/versions/:version/generate"@ =~= model_path(
        false,
        true,
        "/generate"@,
    ));
}

proof fn paths_compare()
    ensures
        "/v2/models/:model_name/compare"@ == model_path(
            false,
            false,
            "/compare"@,
        ),
{
    reveal_strlit("/v2");
    reveal_strlit("/models/:model_name");
    reveal_strlit("/compare");
    reveal_strlit("/v2/models/:model_name/compare");
    assert("/v2/models/:model_name/compare"@ =~= model_path(
        false,
        false,
        "/compare"@,
    ));
}

proof fn paths_events()
    ensures
        "/v2/models/:model_name/events"@ == model_path(
            false,
            false,
            "/events"@,
        ),
        "/v2/models/:model_name/versions/:version/events"@ == model_path(
            false,
            true,
            "/events"@,
        ),
{
    reveal_strlit("/v2");
    reveal_strlit("/models/:model_name");
    reveal_strlit("/versions/:version");
    reveal_strlit("/events");
    reveal_strlit("/v2/models/:model_name/events");
    reveal_strlit("/v2/models/:model_name/versions/:version/events");
    assert("/v2/models/:model_name/events"@ =~= model_path(
        false,
        false,
        "/events"@,
    ));
    assert("/v2/models/:model_name/versions/:version/events"@ =~= model_path(
        false,
        true,
        "/events"@,
    ));
}

proof fn paths_generate_stream()
    ensures
        "/v2/models/:model_name/generate_stream"@ == model_path(
            false,
            false,
            "/generate_stream"@,
        ),
        "/v2/models/:model_name/versions/:version/generate_stream"@ == model_path(
            false,
            true,
            "/generate_stream"@,
        ),
{
    reveal_strlit("/v2");
    reveal_strlit("/models/:model_name");
    reveal_strlit("/versions/:version");
    reveal_strlit("/generate_stream");
    reveal_strlit("/v2/models/:model_name/generate_stream");
    reveal_strlit("/v2/models/:model_name/versions/:version/generate_stream");
    assert("/v2/models/:model_name/generate_stream"@ =~= model_path(
        false,
        false,
        "/generate_stream"@,
    ));
    assert("/v2/models/:model_name/versions/:version/generate_stream"@ =~= model_path(
        false,
        true,
        "/generate_stream"@,
    ));
}

proof fn paths_decoupled()
    ensures
        "/v2/models/:model_name/decoupled"@ == model_path(
            false,
            false,
            "/decoupled"@,
        ),
        "/v2/models/:model_name/versions/:version/decoupled"@ == model_path(
            false,
            true,
            "/decoupled"@,
        ),
{
    reveal_strlit("/v2");
    reveal_strlit("/models/:model_name");
    reveal_strlit("/versions/:version");
    reveal_strlit("/decoupled");
    reveal_strlit("/v2/models/:model_name/decoupled");
    reveal_strlit("/v2/models/:model_name/versions/:version/decoupled");
    assert("/v2/models/:model_name/decoupled"@ =~= model_path(
        false,
        false,
        "/decoupled"@,
    ));
    assert("/v2/models/:model_name/versions/:version/decoupled"@ =~= model_path(
        false,
        true,
        "/decoupled"@,
    ));
}

proof fn paths_stream()
    ensures
        "/v2/models/:model_name/stream"@ == model_path(
            false,
            false,
            "/stream"@,
        ),
        "/v2/models/:model_name/versions/:version/stream"@ == model_path(
            false,
            true,
            "/stream"@,
        ),
{
    reveal_strlit("/v2");
    reveal_strlit("/models/:model_name");
    reveal_strlit("/versions/:version");
    reveal_strlit("/stream");
    reveal_strlit("/v2/models/:model_name/stream");
    reveal_strlit("/v2/models/:model_name/versions/:version/stream");
    assert("/v2/models/:model_name/stream"@ =~= model_path(
        false,
        false,
        "/stream"@,
    ));
    assert("/v2/models/:model_name/versions/:version/stream"@ =~= model_path(
        false,
        true,
        "/stream"@,
    ));
}

proof fn paths_decoupled_stream()
    ensures
        "/v2/models/:model_name/decoupled-stream"@ == model_path(
            false,
            false,
            "/decoupled-stream"@,
        ),
        "/v2/models/:model_name/versions/:version/decoupled-stream"@ == model_path(
            false,
            true,
            "/decoupled-stream"@,
        ),
{
    reveal_strlit("/v2");
    reveal_strlit("/models/:model_name");
    reveal_strlit("/versions/:version");
    reveal_strlit("/decoupled-stream");
    reveal_strlit("/v2/models/:model_name/decoupled-stream");
    reveal_strlit("/v2/models/:model_name/versions/:version/decoupled-stream");
    assert("/v2/models/:model_name/decoupled-stream"@ =~= model_path(
        false,
        false,
        "/decoupled-stream"@,
    ));
    assert("/v2/models/:model_name/versions/:version/decoupled-stream"@ =~= model_path(
        false,
        true,
        "/decoupled-stream"@,
    ));
}

proof fn paths_bidi()
    ensures
        "/v2/models/:model_name/bidi"@ == model_path(
            false,
            false,
            "/bidi"@,
        ),
        "/v2/models/:model_name/versions/:version/bidi"@ == model_path(
            false,
            true,
            "/bidi"@,
        ),
{
    reveal_strlit("/v2");
    reveal_strlit("/models/:model_name");
    reveal_strlit("/versions/:version");
    reveal_strlit("/bidi");
    reveal_strlit("/v2/models/:model_name/bidi");
    reveal_strlit("/v2/models/:model_name/versions/:version/bidi");
    assert("/v2/models/:model_name/bidi"@ =~= model_path(
        false,
        false,
        "/bidi"@,
    ));
    assert("/v2/models/:model_name/versions/:version/bidi"@ =~= model_path(
        false,
        true,
        "/bidi"@,
    ));
}

proof fn groups_are_in_place(f: Features)
    ensures
        forall|i: int| 0 <= i < core_routes().len() ==> is_in_place(#[trigger] core_routes()[i]),
        forall|i: int| 0 <= i < timeline_routes().len() ==> is_in_place(#[trigger] timeline_routes()[i]),
        forall|i: int| 0 <= i < alert_routes().len() ==> is_in_place(#[trigger] alert_routes()[i]),
        forall|i: int| 0 <= i < compare_routes().len() ==> is_in_place(#[trigger] compare_routes()[i]),
        forall|i: int| 0 <= i < sse_routes().len() ==> is_in_place(#[trigger] sse_routes()[i]),
        forall|i: int| 0 <= i < sse_decoupled_routes().len() ==> is_in_place(#[trigger] sse_decoupled_routes()[i]),
        forall|i: int| 0 <= i < ws_routes().len() ==> is_in_place(#[trigger] ws_routes()[i]),
        forall|i: int| 0 <= i < ws_decoupled_routes().len() ==> is_in_place(#[trigger] ws_decoupled_routes()[i]),
        forall|i: int| 0 <= i < bidi_routes().len() ==> is_in_place(#[trigger] bidi_routes()[i]),
{
    reveal(core_routes);
    reveal(timeline_routes);
    reveal(alert_routes);
    reveal(compare_routes);
    reveal(sse_routes);
    reveal(sse_decoupled_routes);
    reveal(ws_routes);
    reveal(ws_decoupled_routes);
    reveal(bidi_routes);
    paths_themselves();
    paths_versions();
    paths_ready();
    paths_health();
    paths_of_repository_load();
    paths_of_repository_unload();
    paths_reload();
    paths_of_repository_upload();
    paths_of_repository_download();
    paths_of_repository_files();
    paths_activate();
    paths_routing();
    paths_infer();
    paths_generate();
    paths_compare();
    paths_events();
    paths_generate_stream();
    paths_decoupled();
    paths_stream();
    paths_decoupled_stream();
    paths_bidi();
}

/// The routes of a model lie below the model, those of its versions at the same
/// place below the version, and those of its repository apart. Each is named by
/// what it does.
pub proof fn routes_are_named_by_their_operation(f: Features, i: int)
    requires
        0 <= i < route_table(f).len(),
    ensures
        operation(route_table(f)[i].handler) matches Some((repository, versioned, leaf))
            ==> route_table(f)[i].path@ == model_path(repository, versioned, leaf),
{
    groups_are_in_place(f);
}

/// Whether a handler runs a model, changes what is loaded or stored, or asks with a
/// body.
pub open spec fn is_posted(h: Handler) -> bool {
    ||| h == Handler::RepositoryIndex
    ||| h == Handler::LoadModel
    ||| h == Handler::LoadVersion
    ||| h == Handler::UnloadModel
    ||| h == Handler::UnloadVersion
    ||| h == Handler::ReloadModel
    ||| h == Handler::ReloadVersion
    ||| h == Handler::Upload
    ||| h == Handler::ActivateVersion
    ||| h == Handler::Infer
    ||| h == Handler::InferVersion
    ||| h == Handler::Generate
    ||| h == Handler::GenerateVersion
    ||| h == Handler::SseInfer
    ||| h == Handler::SseInferVersion
    ||| h == Handler::GenerateStream
    ||| h == Handler::GenerateStreamVersion
    ||| h == Handler::SseDecoupled
    ||| h == Handler::SseDecoupledVersion
    ||| h == Handler::Bidi
    ||| h == Handler::BidiVersion
}

proof fn groups_have_their_methods()
    ensures
        forall|i: int|
            0 <= i < core_routes().len() ==> has_its_method(#[trigger] core_routes()[i]),
        forall|i: int|
            0 <= i < timeline_routes().len() ==> has_its_method(#[trigger] timeline_routes()[i]),
        forall|i: int|
            0 <= i < alert_routes().len() ==> has_its_method(#[trigger] alert_routes()[i]),
        forall|i: int|
            0 <= i < compare_routes().len() ==> has_its_method(#[trigger] compare_routes()[i]),
        forall|i: int|
            0 <= i < sse_routes().len() ==> has_its_method(#[trigger] sse_routes()[i]),
        forall|i: int|
            0 <= i < sse_decoupled_routes().len() ==> has_its_method(#[trigger] sse_decoupled_routes()[i]),
        forall|i: int|
            0 <= i < ws_routes().len() ==> has_its_method(#[trigger] ws_routes()[i]),
        forall|i: int|
            0 <= i < ws_decoupled_routes().len() ==> has_its_method(#[trigger] ws_decoupled_routes()[i]),
        forall|i: int|
            0 <= i < bidi_routes().len() ==> has_its_method(#[trigger] bidi_routes()[i]),
{
    reveal(core_routes);
    reveal(timeline_routes);
    reveal(alert_routes);
    reveal(compare_routes);
    reveal(sse_routes);
    reveal(sse_decoupled_routes);
    reveal(ws_routes);
    reveal(ws_decoupled_routes);
    reveal(bidi_routes);
}

/// Whether a route has the method that its handler calls for.
pub open spec fn has_its_method(r: Route) -> bool {
    &&& r.method == Method::Post <==> is_posted(r.handler)
    &&& r.method == Method::Delete <==> r.handler == Handler::DeleteVersion
    &&& r.method == Method::Put <==> r.handler == Handler::SetRouting
}

/// Versions are deleted with DELETE and the routing is set with PUT. What runs a
/// model, or changes what is loaded or stored, is asked for with POST, and all else
/// with GET.
pub proof fn methods_follow_from_the_handler(f: Features, i: int)
    requires
        0 <= i < route_table(f).len(),
    ensures
        has_its_method(route_table(f)[i]),
        route_table(f)[i].method == Method::Get <==> !is_posted(route_table(f)[i].handler)
            && route_table(f)[i].handler != Handler::DeleteVersion && route_table(f)[i].handler
            != Handler::SetRouting,
{
    groups_have_their_methods();
}

/// A custom route of any depth below a model is logged for the model. A path
/// without a model, and one of a version that names no operation, are not logged.
pub proof fn deeper_paths_are_logged(model: Seq<char>, first: Seq<char>, rest: Seq<char>)
    requires
        model.len() > 0,
        forall|i: int| 0 <= i < model.len() ==> model[i] != '/',
        forall|i: int| 0 <= i < first.len() ==> first[i] != '/',
    ensures
        first != "versions"@ ==> log_target(
            "/v2/models/"@ + (model + seq!['/'] + (first + seq!['/'] + rest)),
        ) == Some((model, None::<Seq<char>>)),
        log_target("/v2/models/"@ + (Seq::<char>::empty() + seq!['/'] + rest)) is None,
        log_target("/v2/models/"@ + (model + seq!['/'] + ("versions"@ + seq!['/'] + first)))
            is None,
{
    let none = Seq::<char>::empty();
    let deep = first + seq!['/'] + rest;
    below_models(model + seq!['/'] + deep);
    first_part(model, deep);
    first_part(first, rest);
    parts_make_up_the_path(rest, 0, 0);
    let parts = segments(model + seq!['/'] + deep);
    assert(parts[0] == model && parts[1] == first && parts.len() >= 3);
    below_models(none + seq!['/'] + rest);
    first_part(none, rest);
    assert(segments(none + seq!['/'] + rest)[0] == none);
    reveal_strlit("versions");
    let short = "versions"@ + seq!['/'] + first;
    below_models(model + seq!['/'] + short);
    first_part(model, short);
    first_part("versions"@, first);
    let three = segments(model + seq!['/'] + short);
    assert(three =~= seq![model, "versions"@, first]);
}

} // verus!
