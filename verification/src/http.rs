//! The rules of the HTTP front: which requests are let through, which layers a
//! server has, and how connections are accepted.

use crate::text::{
    ends_with, find, find_char, from_chars, has_prefix, has_suffix, same_text, starts_with,
    to_chars,
};
use crate::time::Duration;
use vstd::prelude::*;

verus! {

/// The protocol that errors are told in.
#[derive(Debug, Clone, Copy, PartialEq, Eq, Structural)]
pub enum ApiProtocol {
    Kserve,
    Legacy,
}

/// The protocol of a path: KServe below `/v2/`.
pub fn fallback_protocol(path: &str) -> (p: ApiProtocol)
    ensures
        p == if has_prefix(path@, "/v2/"@) {
            ApiProtocol::Kserve
        } else {
            ApiProtocol::Legacy
        },
{
    let chars = to_chars(path);
    if starts_with(chars.as_slice(), "/v2/") {
        ApiProtocol::Kserve
    } else {
        ApiProtocol::Legacy
    }
}

/// The model and the rest of a path below `/v2/models/`, where the path names
/// both.
pub open spec fn custom_route(path: Seq<char>) -> Option<(Seq<char>, Seq<char>)> {
    let prefix = "/v2/models/"@;
    let rest = path.subrange(prefix.len() as int, path.len() as int);
    let slash = find(rest, '/');
    if has_prefix(path, prefix) && 0 < slash < rest.len() {
        Some((rest.subrange(0, slash), rest.subrange(slash + 1, rest.len() as int)))
    } else {
        None
    }
}

/// The model and the route of a path that no fixed route has.
pub fn custom_route_target(path: &str) -> (r: Option<(String, String)>)
    ensures
        match r {
            Some((m, t)) => custom_route(path@) == Some((m@, t@)),
            None => custom_route(path@) is None,
        },
{
    let chars = to_chars(path);
    if !starts_with(chars.as_slice(), "/v2/models/") {
        return None;
    }
    proof {
        reveal_strlit("/v2/models/");
    }
    let rest = vstd::slice::slice_subrange(chars.as_slice(), 11, chars.len());
    let slash = find_char(rest, '/');
    if slash == 0 || slash >= rest.len() {
        return None;
    }
    let model = from_chars(vstd::slice::slice_subrange(rest, 0, slash));
    let tail = from_chars(vstd::slice::slice_subrange(rest, slash + 1, rest.len()));
    Some((model, tail))
}

/// The largest body of a request to a custom route.
pub const ROUTE_BODY_LIMIT: usize = 10 * 1024 * 1024;

/// Why the body of a request cannot be read.
#[derive(Debug, Clone, Copy, PartialEq, Eq, Structural)]
pub enum BodyError {
    TooLarge { max_size: usize },
    Unreadable,
}

/// The error for a body that cannot be read, because it is too long or for
/// another cause.
pub fn map_route_body_error(over_limit: bool) -> (e: BodyError)
    ensures
        e == if over_limit {
            BodyError::TooLarge { max_size: 10485760 }
        } else {
            BodyError::Unreadable
        },
{
    if over_limit {
        BodyError::TooLarge { max_size: ROUTE_BODY_LIMIT }
    } else {
        BodyError::Unreadable
    }
}

/// The largest body of any other request.
pub fn max_body_bytes(configured: Option<usize>) -> (n: usize)
    ensures
        n == match configured {
            Some(c) => c,
            None => 67108864,
        },
{
    match configured {
        Some(c) => c,
        None => 67108864,
    }
}

/// Whether a path is one by which the health of the server is watched.
pub open spec fn is_probe_path(path: Seq<char>) -> bool {
    ||| path == "/livez"@
    ||| path == "/readyz"@
    ||| path == "/startupz"@
    ||| path == "/health"@
    ||| path == "/v2/health/live"@
    ||| path == "/v2/health/ready"@
}

/// Whether a request is refused because the server is being shut down. Probes
/// are always answered.
pub fn draining_rejects(draining: bool, path: &str) -> (r: bool)
    ensures
        r == (draining && !is_probe_path(path@)),
{
    draining && !(same_text(path, "/livez") || same_text(path, "/readyz") || same_text(
        path,
        "/startupz",
    ) || same_text(path, "/health") || same_text(path, "/v2/health/live") || same_text(
        path,
        "/v2/health/ready",
    ))
}

/// Whether a request takes one of the places for inference requests.
pub fn needs_admission(cap: usize, is_options: bool, is_inference: bool) -> (r: bool)
    ensures
        r == (cap > 0 && !is_options && is_inference),
{
    cap > 0 && !is_options && is_inference
}

/// The number of inference requests that are admitted after one more, or `None`
/// where all `cap` places are taken.
pub fn try_acquire(admitted: usize, cap: usize) -> (r: Option<usize>)
    ensures
        r == if admitted < cap {
            Some((admitted + 1) as usize)
        } else {
            None
        },
{
    if admitted < cap {
        Some(admitted + 1)
    } else {
        None
    }
}

/// Whether the time of a request's body is bounded. That of a two-way stream is
/// not.
pub fn body_timeout_applies(path: &str) -> (r: bool)
    ensures
        r == !has_suffix(path@, "/bidi"@),
{
    let chars = to_chars(path);
    !ends_with(chars.as_slice(), "/bidi")
}

/// Whether a response tells the client that its connection is closed, where
/// connections are not kept. One that changes the protocol does not.
pub fn announces_close(status: u16) -> (r: bool)
    ensures
        r == (status != 101),
{
    status != 101
}

/// Whether a response may be compressed. Streams are not.
pub fn may_compress(content_type: Option<&str>) -> (r: bool)
    ensures
        r == match content_type {
            Some(ct) => !has_prefix(ct@, "text/event-stream"@) && !has_prefix(
                ct@,
                "application/x-lite-bidi"@,
            ),
            None => true,
        },
{
    match content_type {
        None => true,
        Some(ct) => {
            let chars = to_chars(ct);
            !starts_with(chars.as_slice(), "text/event-stream") && !starts_with(
                chars.as_slice(),
                "application/x-lite-bidi",
            )
        },
    }
}

/// The client address that a log keeps: the first 64 characters of what a proxy
/// reports, without the white space around it.
pub fn logged_forwarded_for(value: &str) -> (r: String)
    ensures
        r@ == ({
            let t = crate::text::trimmed(value@);
            if t.len() <= 64 {
                t
            } else {
                t.subrange(0, 64)
            }
        }),
{
    let chars = to_chars(value);
    let t = crate::text::trim(chars.as_slice());
    if t.len() <= 64 {
        from_chars(t)
    } else {
        from_chars(vstd::slice::slice_subrange(t, 0, 64))
    }
}

/// What a layer of the server does. The first layer is the innermost.
#[derive(Debug, Clone, Copy, PartialEq, Eq, Structural)]
pub enum Layer {
    BodyLimit(usize),
    BodyTimeout(Duration),
    PeerAddress,
    CloseConnections,
    Compression,
    RequestContext,
    AccessControl,
    DrainingGate,
    Admission,
    Cors,
    Observability,
    Inflight,
}

/// What decides on the layers of a server.
#[derive(Debug, Clone, Copy, PartialEq, Eq, Structural)]
pub struct LayerConfig {
    pub max_request_body_bytes: Option<usize>,
    /// How long a body may take; `None` for any time.
    pub request_body_timeout: Option<Duration>,
    /// Whether connections are kept for further requests.
    pub keepalive: bool,
    pub compression: bool,
}

/// The layers of a server, the innermost first.
pub open spec fn layers_of(c: LayerConfig) -> Seq<Layer> {
    let limit = match c.max_request_body_bytes {
        Some(n) => n,
        None => 67108864,
    };
    let timeout = match c.request_body_timeout {
        Some(t) => seq![Layer::BodyTimeout(t)],
        None => seq![],
    };
    let close = if c.keepalive {
        seq![]
    } else {
        seq![Layer::CloseConnections]
    };
    let compression = if c.compression {
        seq![Layer::Compression]
    } else {
        seq![]
    };
    seq![Layer::BodyLimit(limit)] + timeout + seq![Layer::PeerAddress] + close + compression + seq![
        Layer::RequestContext,
        Layer::AccessControl,
        Layer::DrainingGate,
        Layer::Admission,
        Layer::Cors,
        Layer::Observability,
        Layer::Inflight,
    ]
}

/// The layers of a server, the innermost first.
pub fn layers(c: LayerConfig) -> (r: Vec<Layer>)
    ensures
        r@ == layers_of(c),
{
    let mut out: Vec<Layer> = Vec::new();
    out.push(Layer::BodyLimit(max_body_bytes(c.max_request_body_bytes)));
    if let Some(t) = c.request_body_timeout {
        out.push(Layer::BodyTimeout(t));
    }
    out.push(Layer::PeerAddress);
    if !c.keepalive {
        out.push(Layer::CloseConnections);
    }
    if c.compression {
        out.push(Layer::Compression);
    }
    out.push(Layer::RequestContext);
    out.push(Layer::AccessControl);
    out.push(Layer::DrainingGate);
    out.push(Layer::Admission);
    out.push(Layer::Cors);
    out.push(Layer::Observability);
    out.push(Layer::Inflight);
    assert(out@ =~= layers_of(c));
    out
}

/// Every request is identified and counted before it can be refused, drained
/// requests are refused before the client is checked, and the client is checked
/// before anything is done for it.
pub proof fn refusals_are_observed(c: LayerConfig)
    ensures
        ({
            let s = layers_of(c);
            let n = s.len() as int;
            &&& n >= 9
            &&& s[n - 1] == Layer::Inflight
            &&& s[n - 2] == Layer::Observability
            &&& s[n - 3] == Layer::Cors
            &&& s[n - 4] == Layer::Admission
            &&& s[n - 5] == Layer::DrainingGate
            &&& s[n - 6] == Layer::AccessControl
        }),
{
}

/// Where a server listens.
#[derive(Debug, Clone, Copy, PartialEq, Eq, Structural)]
pub enum Listener {
    UnixSocket,
    Tls,
    Tcp,
}

/// Where a server listens: on a socket file where one is named, and otherwise
/// on an address, with encryption where it is set up.
pub fn choose_listener(has_socket_path: bool, has_tls: bool) -> (l: Listener)
    ensures
        l == if has_socket_path {
            Listener::UnixSocket
        } else if has_tls {
            Listener::Tls
        } else {
            Listener::Tcp
        },
{
    if has_socket_path {
        Listener::UnixSocket
    } else if has_tls {
        Listener::Tls
    } else {
        Listener::Tcp
    }
}

/// How a connection is served.
#[derive(Debug, Clone, Copy, PartialEq, Eq, Structural)]
pub struct ConnectionPlan {
    /// Whether only HTTP/1 is spoken, where the connection is not encrypted.
    pub http1_only: bool,
    pub header_read_timeout: Option<Duration>,
    pub http2_keepalive_interval: Option<Duration>,
    pub http2_keepalive_timeout: Option<Duration>,
}

/// How a connection is served. Without `keepalive` only HTTP/1 is spoken where
/// the connection is not encrypted. The time to answer a sign of life counts
/// only where signs of life are sent.
pub fn connection_plan(
    keepalive: Option<Duration>,
    http2_interval: Option<Duration>,
    http2_timeout: Option<Duration>,
) -> (p: ConnectionPlan)
    ensures
        p == (ConnectionPlan {
            http1_only: keepalive is None,
            header_read_timeout: keepalive,
            http2_keepalive_interval: http2_interval,
            http2_keepalive_timeout: if http2_interval is Some {
                http2_timeout
            } else {
                None
            },
        }),
{
    ConnectionPlan {
        http1_only: keepalive.is_none(),
        header_read_timeout: keepalive,
        http2_keepalive_interval: http2_interval,
        http2_keepalive_timeout: match http2_interval {
            Some(_) => http2_timeout,
            None => None,
        },
    }
}

/// How a TCP connection is watched.
pub struct TcpKeepalive {
    pub time: Duration,
    pub interval: Duration,
    pub retries: u32,
}

/// How a TCP connection is watched: after a minute of silence, three times, ten
/// seconds apart.
pub fn tcp_keepalive() -> (k: TcpKeepalive)
    ensures
        k.time.nanos == 60_000_000_000,
        k.interval.nanos == 10_000_000_000,
        k.retries == 3,
{
    TcpKeepalive { time: Duration::from_secs(60), interval: Duration::from_secs(10), retries: 3 }
}

/// The kinds of errors in accepting a connection that are told apart.
#[derive(Debug, Clone, Copy, PartialEq, Eq, Structural)]
pub enum AcceptErrorKind {
    Interrupted,
    ConnectionAborted,
    Other,
}

/// The numbers of the errors that say that the machine is short of something.
#[derive(Debug, Clone, Copy, PartialEq, Eq, Structural)]
pub struct ShortageErrors {
    pub process_files: i32,
    pub system_files: i32,
    pub buffers: i32,
    pub memory: i32,
}

/// `libc::EMFILE`, `libc::ENFILE`, `libc::ENOBUFS` and `libc::ENOMEM`. Which
/// numbers they are depends on the machine.
#[verifier::external_body]
fn shortage_errors() -> ShortageErrors {
    ShortageErrors {
        process_files: libc::EMFILE,
        system_files: libc::ENFILE,
        buffers: libc::ENOBUFS,
        memory: libc::ENOMEM,
    }
}

/// Whether an error in accepting a connection passes by itself: it concerns one
/// connection, or the machine is short of something for the moment.
pub open spec fn passes_by_itself(
    kind: AcceptErrorKind,
    errno: Option<i32>,
    shortage: ShortageErrors,
) -> bool {
    ||| kind == AcceptErrorKind::Interrupted
    ||| kind == AcceptErrorKind::ConnectionAborted
    ||| errno == Some(shortage.process_files)
    ||| errno == Some(shortage.system_files)
    ||| errno == Some(shortage.buffers)
    ||| errno == Some(shortage.memory)
}

/// Whether an error in accepting a connection passes by itself, where the
/// errors of shortage have the numbers `shortage`.
pub fn is_transient_with(kind: AcceptErrorKind, errno: Option<i32>, shortage: ShortageErrors) -> (r:
    bool)
    ensures
        r == passes_by_itself(kind, errno, shortage),
{
    let by_kind = match kind {
        AcceptErrorKind::Interrupted => true,
        AcceptErrorKind::ConnectionAborted => true,
        AcceptErrorKind::Other => false,
    };
    let by_number = match errno {
        Some(e) => e == shortage.process_files || e == shortage.system_files || e
            == shortage.buffers || e == shortage.memory,
        None => false,
    };
    by_kind || by_number
}

/// Whether an error in accepting a connection passes by itself.
pub fn is_transient_accept_error(kind: AcceptErrorKind, errno: Option<i32>) -> (r: bool)
    ensures
        exists|shortage: ShortageErrors|
            r == #[trigger] passes_by_itself(kind, errno, shortage),
        kind != AcceptErrorKind::Other ==> r,
        kind == AcceptErrorKind::Other && errno is None ==> !r,
{
    is_transient_with(kind, errno, shortage_errors())
}

/// What came of waiting for a connection.
#[derive(Debug, Clone, Copy, PartialEq, Eq, Structural)]
pub enum Accepted {
    Connection,
    Failed { transient: bool },
    Shutdown,
}

/// What to do next.
#[derive(Debug, Clone, Copy, PartialEq, Eq, Structural)]
pub enum AcceptStep {
    Serve,
    /// Close the connection at once.
    Drop,
    /// Wait for so long and go on.
    RetryAfter(Duration),
    Fail,
    /// Take no more connections and wait for those that are open.
    Drain,
}

/// The connections of a server.
pub struct Connections {
    open: usize,
    max: usize,
}

impl Connections {
    /// How many connections are open.
    pub closed spec fn open_count(&self) -> usize {
        self.open
    }

    /// How many may be open at a time; 0 for any number.
    pub closed spec fn limit(&self) -> usize {
        self.max
    }

    /// No more connections are open than may be.
    pub open spec fn wf(&self) -> bool {
        self.limit() > 0 ==> self.open_count() <= self.limit()
    }

    pub fn new(max: usize) -> (c: Self)
        ensures
            c.wf(),
            c.open_count() == 0,
            c.limit() == max,
    {
        Connections { open: 0, max }
    }

    /// What to do after waiting for a connection.
    pub fn on_accept(&mut self, a: Accepted) -> (s: AcceptStep)
        requires
            old(self).wf(),
            old(self).limit() == 0 ==> old(self).open_count() < usize::MAX,
        ensures
            final(self).wf(),
            final(self).limit() == old(self).limit(),
            match a {
                Accepted::Connection => if old(self).limit() > 0 && old(self).open_count() >= old(
                    self,
                ).limit() {
                    s == AcceptStep::Drop && final(self).open_count() == old(self).open_count()
                } else {
                    s == AcceptStep::Serve && final(self).open_count() == old(self).open_count()
                        + 1
                },
                Accepted::Failed { transient } => {
                    &&& final(self).open_count() == old(self).open_count()
                    &&& if transient {
                        s matches AcceptStep::RetryAfter(d) && d.nanos == 50_000_000
                    } else {
                        s == AcceptStep::Fail
                    }
                },
                Accepted::Shutdown => s == AcceptStep::Drain && final(self).open_count() == old(
                    self,
                ).open_count(),
            },
    {
        match a {
            Accepted::Connection => {
                if self.max > 0 && self.open >= self.max {
                    return AcceptStep::Drop;
                }
                self.open = self.open + 1;
                AcceptStep::Serve
            },
            Accepted::Failed { transient } => if transient {
                AcceptStep::RetryAfter(Duration::from_millis(50))
            } else {
                AcceptStep::Fail
            },
            Accepted::Shutdown => AcceptStep::Drain,
        }
    }

    /// Counts a connection as closed.
    pub fn on_closed(&mut self)
        requires
            old(self).wf(),
        ensures
            final(self).wf(),
            final(self).limit() == old(self).limit(),
            final(self).open_count() == if old(self).open_count() > 0 {
                (old(self).open_count() - 1) as usize
            } else {
                0
            },
    {
        if self.open > 0 {
            self.open = self.open - 1;
        }
    }
}

/// A path below `/v2/models/` is split behind the model, which is not empty and
/// holds no slash: nothing of the path is lost, and every such path is split.
pub proof fn custom_routes_name_a_model(path: Seq<char>, model: Seq<char>, rest: Seq<char>)
    ensures
        model.len() > 0 && (forall|i: int| 0 <= i < model.len() ==> model[i] != '/')
            ==> custom_route("/v2/models/"@ + model + seq!['/'] + rest) == Some((model, rest)),
        custom_route(path) matches Some((m, r)) ==> {
            &&& path == "/v2/models/"@ + m + seq!['/'] + r
            &&& m.len() > 0
            &&& forall|i: int| 0 <= i < m.len() ==> m[i] != '/'
        },
        !has_prefix(path, "/v2/models/"@) ==> custom_route(path) is None,
{
    reveal_strlit("/v2/models/");
    let prefix = "/v2/models/"@;
    if model.len() > 0 && (forall|i: int| 0 <= i < model.len() ==> model[i] != '/') {
        let whole = prefix + model + seq!['/'] + rest;
        let tail = whole.subrange(11, whole.len() as int);
        assert(whole.subrange(0, 11) =~= prefix);
        assert(tail =~= model + seq!['/'] + rest);
        assert forall|j: int| 0 <= j < model.len() implies tail[j] != '/' by {
            assert(tail[j] == model[j]);
        }
        crate::text::lemma_find(tail, '/', model.len() as int);
        assert(tail.subrange(0, model.len() as int) =~= model);
        assert(tail.subrange(model.len() as int + 1, tail.len() as int) =~= rest);
    }
    if custom_route(path) is Some {
        let tail = path.subrange(11, path.len() as int);
        let (m, r) = custom_route(path)->0;
        find_is_first(tail, '/');
        assert forall|i: int| 0 <= i < m.len() implies m[i] != '/' by {
            assert(m[i] == tail[i]);
        }
        assert(path.subrange(0, 11) =~= prefix);
        assert(path =~= prefix + m + seq!['/'] + r);
    }
}

proof fn find_is_first(s: Seq<char>, c: char)
    ensures
        0 <= find(s, c) <= s.len(),
        forall|j: int| 0 <= j < find(s, c) ==> s[j] != c,
        find(s, c) < s.len() ==> s[find(s, c)] == c,
    decreases s.len(),
{
    if s.len() > 0 && s[0] != c {
        let rest = s.subrange(1, s.len() as int);
        find_is_first(rest, c);
        assert forall|j: int| 0 <= j < find(s, c) implies s[j] != c by {
            if j > 0 {
                assert(s[j] == rest[j - 1]);
            }
        }
        if find(s, c) < s.len() {
            assert(s[find(s, c)] == rest[find(rest, c)]);
        }
    }
}

/// The layers follow the configuration: bodies are limited to what is configured,
/// and timed, connections closed and answers compressed exactly where that is
/// asked for.
pub proof fn layers_follow_the_configuration(c: LayerConfig, n: usize, t: Duration)
    ensures
        layers_of(c).contains(Layer::BodyLimit(n)) <==> (c.max_request_body_bytes == Some(n) || (
        c.max_request_body_bytes is None && n == 64 * 1024 * 1024)),
        layers_of(c).contains(Layer::BodyTimeout(t)) <==> c.request_body_timeout == Some(t),
        layers_of(c).contains(Layer::CloseConnections) <==> !c.keepalive,
        layers_of(c).contains(Layer::Compression) <==> c.compression,
        layers_of(c).contains(Layer::RequestContext),
        layers_of(c).contains(Layer::PeerAddress),
        layers_of(c)[0] is BodyLimit,
{
    let s = layers_of(c);
    let m = s.len() as int;
    assert(s[m - 7] == Layer::RequestContext);
    let peer: int = if c.request_body_timeout is Some {
        2
    } else {
        1
    };
    assert(s[peer] == Layer::PeerAddress);
    assert(s[0] is BodyLimit);
    assert(c.request_body_timeout matches Some(x) ==> s[1] == Layer::BodyTimeout(x));
    assert(!c.keepalive ==> s[peer + 1] == Layer::CloseConnections);
    assert(c.compression ==> s[m - 8] == Layer::Compression);
}

/// An error of one connection passes by itself, and so does a shortage of any of
/// the four kinds. No other error does.
pub proof fn other_errors_do_not_pass(
    kind: AcceptErrorKind,
    errno: i32,
    shortage: ShortageErrors,
)
    ensures
        kind != AcceptErrorKind::Other ==> passes_by_itself(kind, Some(errno), shortage)
            && passes_by_itself(kind, None, shortage),
        !passes_by_itself(AcceptErrorKind::Other, None, shortage),
        passes_by_itself(AcceptErrorKind::Other, Some(errno), shortage) <==> seq![
            shortage.process_files,
            shortage.system_files,
            shortage.buffers,
            shortage.memory,
        ].contains(errno),
{
    let s = seq![
        shortage.process_files,
        shortage.system_files,
        shortage.buffers,
        shortage.memory,
    ];
    assert(s[0] == shortage.process_files && s[1] == shortage.system_files && s[2]
        == shortage.buffers && s[3] == shortage.memory);
}

} // verus!
