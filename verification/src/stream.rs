//! Streaming of inference results to clients.
//!
//! The forwarding of a stream is written as steps: each takes what came in, from
//! the worker or from the client, and says what to send and whether the stream
//! ends.

use crate::ids::{is_random_uuid, random_uuid};
use crate::json::{get, json_text, parse_json, parsed, print_json, Json, JsonV};
use crate::kserve::{
    body_wf, json_head, lower, request_binary_output_flag, wants_binary, RequestBody,
};
use crate::text::{
    ends_with, find, find_char, has_prefix, has_suffix, same_chars, same_text,
    starts_with, to_chars, trim, trimmed,
};
use crate::time::Duration;
use crate::utf8::{
    clean, decoded, direct_chunk_utf8, ensemble_chunk_utf8, held, normalized,
};
use vstd::prelude::*;
use vstd::utf8::encode_utf8;

verus! {

/// How events are framed for the client.
#[derive(Debug, Clone, Copy, PartialEq, Eq, Structural)]
pub enum SseFrameStyle {
    Legacy,
    Generate,
    Openai,
}

/// Why a stream ended.
#[derive(Debug, Clone, Copy, PartialEq, Eq, Structural)]
pub enum CloseReason {
    /// The worker finished.
    Done,
    /// The worker reported an error.
    Error,
    /// The worker went away.
    WorkerEof,
    Deadline,
    Idle,
    /// The client went away.
    Cancel,
    /// A text stream held binary data.
    TypeMismatch,
    /// The client broke the protocol.
    Protocol,
    /// The forwarding failed.
    Panic,
}

/// What a worker sends.
#[derive(Debug)]
pub enum StreamPayload {
    Chunk(Vec<u8>),
    Error(String),
    Done,
    Empty,
}

/// Whether nothing follows `p`.
pub fn is_stream_terminal(p: &StreamPayload) -> (r: bool)
    ensures
        r == (p is Done || p is Error),
{
    match p {
        StreamPayload::Done => true,
        StreamPayload::Error(_) => true,
        StreamPayload::Chunk(_) => false,
        StreamPayload::Empty => false,
    }
}

/// What came of waiting for the worker.
pub enum WorkerEvent {
    Payload(StreamPayload),
    /// The worker went away.
    Eof,
    DeadlineElapsed,
    IdleElapsed,
}

/// What came of sending to the client.
#[derive(Debug, Clone, Copy, PartialEq, Eq, Structural)]
pub enum SendOutcome {
    Sent,
    /// The client went away.
    Gone,
    Deadline,
    Idle,
}

/// What is measured at a chunk.
#[derive(Debug, Clone, Copy, PartialEq, Eq, Structural)]
pub enum ChunkTiming {
    Nothing,
    /// The time to the first chunk.
    First,
    /// The time since the chunk before.
    Between,
}

/// A JSON object with one entry.
pub open spec fn one_entry(key: Seq<char>, v: JsonV) -> JsonV {
    JsonV::Object(seq![(key, v)])
}

fn object_with(key: &str, v: Json) -> (r: Json)
    ensures
        r@ == one_entry(key@, v@),
{
    let mut o: Vec<(String, Json)> = Vec::new();
    o.push((key.to_string(), v));
    let r = Json::Object(o);
    proof {
        crate::json::view_of_parts(r);
        assert(crate::json::entries_of(o@) =~= seq![(key@, v@)]);
    }
    r
}

/// The text of an error event.
pub open spec fn error_text(style: SseFrameStyle, message: Seq<char>) -> Seq<char> {
    json_text(
        one_entry(
            "error"@,
            if style == SseFrameStyle::Openai {
                one_entry("message"@, JsonV::Text(message))
            } else {
                JsonV::Text(message)
            },
        ),
    )
}

/// The text of the event for an error that the worker reports: what `doc`, the
/// message read as JSON, says about the error where it names a type, and the
/// message itself otherwise.
pub open spec fn worker_error_text(
    style: SseFrameStyle,
    message: Seq<char>,
    doc: Option<JsonV>,
) -> Seq<char> {
    match doc {
        Some(v) => match v.get("error"@) {
            Some(e) => if e.get("type"@) is Some {
                json_text(one_entry("error"@, e))
            } else {
                error_text(style, message)
            },
            None => error_text(style, message),
        },
        None => error_text(style, message),
    }
}

/// The text of an error event.
pub fn error_event(style: SseFrameStyle, message: &str) -> (r: String)
    ensures
        r@ == error_text(style, message@),
{
    let openai = match style {
        SseFrameStyle::Openai => true,
        SseFrameStyle::Legacy => false,
        SseFrameStyle::Generate => false,
    };
    let body = if openai {
        object_with("message", Json::Text(message.to_string()))
    } else {
        Json::Text(message.to_string())
    };
    print_json(&object_with("error", body))
}

/// The text of the event for an error that the worker reports. `doc` is the
/// message read as JSON.
pub fn worker_error_event(style: SseFrameStyle, message: &str, doc: Option<&Json>) -> (r: String)
    ensures
        r@ == worker_error_text(
            style,
            message@,
            match doc {
                Some(v) => Some(v@),
                None => None,
            },
        ),
{
    if let Some(v) = doc {
        if let Some(e) = get(v, "error") {
            if get(e, "type").is_some() {
                return print_json(&object_with("error", crate::json::clone_json(e)));
            }
        }
    }
    error_event(style, message)
}

fn worker_error(style: SseFrameStyle, message: &str) -> (r: String)
    ensures
        r@ == worker_error_text(style, message@, parsed(encode_utf8(message@))),
{
    let doc = parse_json(message.as_bytes());
    worker_error_event(style, message, doc.as_ref())
}

/// What follows from an event of the worker.
pub struct SseStep {
    /// The data of an event for the client.
    pub send: Option<String>,
    /// Whether the event is a last notice, whose fate makes no difference.
    pub notice: bool,
    /// Whether the response is complete and its observers are told.
    pub fire_response: bool,
    pub timing: ChunkTiming,
    /// How the stream ends, where it does and the event can be sent.
    pub close: Option<CloseReason>,
}

/// The state of a stream that is forwarded as server-sent events.
pub struct SseForwarder {
    style: SseFrameStyle,
    ensemble: bool,
    measure: bool,
    pending: Vec<u8>,
    first_chunk: bool,
    output_bytes: u64,
    chunks: u64,
}

/// The model of an [`SseForwarder`].
#[verifier::ext_equal]
pub struct Forwarding {
    pub style: SseFrameStyle,
    pub ensemble: bool,
    pub measure: bool,
    /// The bytes that are held back.
    pub pending: Seq<u8>,
    pub first_chunk: bool,
    pub output_bytes: u64,
    pub chunks: u64,
}

/// `a + b`, up to the largest number.
pub open spec fn sum_up_to_max(a: u64, b: nat) -> u64 {
    if a + b <= u64::MAX {
        (a + b) as u64
    } else {
        u64::MAX
    }
}

fn add_up_to_max(a: u64, b: usize) -> (r: u64)
    ensures
        r == sum_up_to_max(a, b as nat),
{
    if b as u64 <= u64::MAX - a {
        a + b as u64
    } else {
        u64::MAX
    }
}

/// The message for a stream of text that holds binary data.
pub open spec fn binary_chunk_words() -> Seq<char> {
    "ensemble streaming step produced a binary chunk on a text endpoint"@
}

impl Forwarding {
    /// The timing that a chunk calls for.
    pub open spec fn timing(self) -> ChunkTiming {
        if !self.measure {
            ChunkTiming::Nothing
        } else if self.first_chunk {
            ChunkTiming::First
        } else {
            ChunkTiming::Between
        }
    }

    /// The counts after a chunk of `len` bytes, with `pending` held back.
    pub open spec fn counted(self, len: nat, pending: Seq<u8>) -> Forwarding {
        Forwarding {
            pending,
            first_chunk: self.first_chunk && !self.measure,
            output_bytes: sum_up_to_max(self.output_bytes, len),
            chunks: sum_up_to_max(self.chunks, 1),
            ..self
        }
    }
}

/// Whether `s` sends `text`, or nothing.
pub open spec fn sends(s: SseStep, text: Option<Seq<char>>) -> bool {
    match text {
        Some(t) => s.send matches Some(x) && x@ == t,
        None => s.send is None,
    }
}

/// Whether `s` is a last notice with `words`.
pub open spec fn is_notice(s: SseStep, style: SseFrameStyle, words: Seq<char>, why: CloseReason) -> bool {
    &&& sends(s, Some(error_text(style, words)))
    &&& s.notice
    &&& s.fire_response
    &&& s.timing == ChunkTiming::Nothing
    &&& s.close == Some(why)
}

/// Whether `s` is what follows from the event `e`, and `after` the state behind
/// it.
pub open spec fn is_sse_step(
    before: Forwarding,
    e: WorkerEvent,
    s: SseStep,
    after: Forwarding,
) -> bool {
    match e {
        WorkerEvent::Eof => is_notice(
            s,
            before.style,
            "worker exited mid-stream"@,
            CloseReason::WorkerEof,
        ) && after == before,
        WorkerEvent::DeadlineElapsed => is_notice(
            s,
            before.style,
            "stream closed: deadline exceeded"@,
            CloseReason::Deadline,
        ) && after == before,
        WorkerEvent::IdleElapsed => is_notice(
            s,
            before.style,
            "stream closed: idle timeout"@,
            CloseReason::Idle,
        ) && after == before,
        WorkerEvent::Payload(StreamPayload::Chunk(data)) => {
            let all = before.pending + data@;
            let text = decoded(all);
            &&& !s.notice
            &&& !s.fire_response
            &&& s.timing == before.timing()
            &&& if before.ensemble && !clean(all) {
                &&& sends(s, Some(error_text(before.style, binary_chunk_words())))
                &&& s.close == Some(CloseReason::TypeMismatch)
                &&& after == before.counted(
                    data@.len(),
                    if before.pending.len() == 0 {
                        seq![]
                    } else {
                        all
                    },
                )
            } else {
                &&& sends(
                    s,
                    if text.len() > 0 || (before.ensemble && held(all).len() == 0) {
                        Some(normalized(text))
                    } else {
                        None
                    },
                )
                &&& s.close is None
                &&& after == before.counted(data@.len(), held(all))
            }
        },
        WorkerEvent::Payload(StreamPayload::Error(message)) => {
            &&& sends(
                s,
                Some(worker_error_text(before.style, message@, parsed(encode_utf8(message@)))),
            )
            &&& !s.notice
            &&& s.fire_response
            &&& s.timing == ChunkTiming::Nothing
            &&& s.close == Some(CloseReason::Error)
            &&& after == before
        },
        WorkerEvent::Payload(StreamPayload::Done) => {
            &&& sends(
                s,
                if before.style == SseFrameStyle::Generate {
                    None
                } else {
                    Some("[DONE]"@)
                },
            )
            &&& !s.notice
            &&& s.fire_response
            &&& s.timing == ChunkTiming::Nothing
            &&& s.close == Some(CloseReason::Done)
            &&& after == before
        },
        WorkerEvent::Payload(StreamPayload::Empty) => {
            &&& s.send is None
            &&& !s.notice
            &&& !s.fire_response
            &&& s.timing == ChunkTiming::Nothing
            &&& s.close is None
            &&& after == before
        },
    }
}

impl View for SseForwarder {
    type V = Forwarding;

    closed spec fn view(&self) -> Forwarding {
        Forwarding {
            style: self.style,
            ensemble: self.ensemble,
            measure: self.measure,
            pending: self.pending@,
            first_chunk: self.first_chunk,
            output_bytes: self.output_bytes,
            chunks: self.chunks,
        }
    }
}

impl SseForwarder {
    /// A stream that begins. `measure` says whether its chunks are timed.
    pub fn new(style: SseFrameStyle, ensemble: bool, measure: bool) -> (f: Self)
        ensures
            f@.style == style,
            f@.ensemble == ensemble,
            f@.measure == measure,
            f@.pending.len() == 0,
            f@.first_chunk,
            f@.output_bytes == 0,
            f@.chunks == 0,
    {
        SseForwarder {
            style,
            ensemble,
            measure,
            pending: Vec::new(),
            first_chunk: true,
            output_bytes: 0,
            chunks: 0,
        }
    }

    fn notice(&self, words: &str, why: CloseReason) -> (s: SseStep)
        ensures
            is_notice(s, self@.style, words@, why),
    {
        SseStep {
            send: Some(error_event(self.style, words)),
            notice: true,
            fire_response: true,
            timing: ChunkTiming::Nothing,
            close: Some(why),
        }
    }

    fn on_chunk(&mut self, data: &[u8]) -> (s: SseStep)
        ensures
            ({
                let before = old(self)@;
                let all = before.pending + data@;
                let text = decoded(all);
                &&& !s.notice
                &&& !s.fire_response
                &&& s.timing == before.timing()
                &&& if before.ensemble && !clean(all) {
                    &&& sends(s, Some(error_text(before.style, binary_chunk_words())))
                    &&& s.close == Some(CloseReason::TypeMismatch)
                    &&& final(self)@ == before.counted(
                        data@.len(),
                        if before.pending.len() == 0 {
                            seq![]
                        } else {
                            all
                        },
                    )
                } else {
                    &&& sends(
                        s,
                        if text.len() > 0 || (before.ensemble && held(all).len() == 0) {
                            Some(normalized(text))
                        } else {
                            None
                        },
                    )
                    &&& s.close is None
                    &&& final(self)@ == before.counted(data@.len(), held(all))
                }
            }),
    {
        self.output_bytes = add_up_to_max(self.output_bytes, data.len());
        self.chunks = add_up_to_max(self.chunks, 1);
        let timing = if !self.measure {
            ChunkTiming::Nothing
        } else if self.first_chunk {
            ChunkTiming::First
        } else {
            ChunkTiming::Between
        };
        if self.measure {
            self.first_chunk = false;
        }
        let mut close: Option<CloseReason> = None;
        let send = if self.ensemble {
            match ensemble_chunk_utf8(&mut self.pending, data) {
                Ok(text) => text,
                Err(_) => {
                    close = Some(CloseReason::TypeMismatch);
                    Some(
                        error_event(
                            self.style,
                            "ensemble streaming step produced a binary chunk on a text endpoint",
                        ),
                    )
                },
            }
        } else {
            direct_chunk_utf8(&mut self.pending, data)
        };
        SseStep { send, notice: false, fire_response: false, timing, close }
    }

    /// What follows from an event of the worker.
    pub fn on_worker(&mut self, e: WorkerEvent) -> (s: SseStep)
        ensures
            is_sse_step(old(self)@, e, s, final(self)@),
    {
        match e {
            WorkerEvent::Eof => self.notice("worker exited mid-stream", CloseReason::WorkerEof),
            WorkerEvent::DeadlineElapsed => self.notice(
                "stream closed: deadline exceeded",
                CloseReason::Deadline,
            ),
            WorkerEvent::IdleElapsed => self.notice(
                "stream closed: idle timeout",
                CloseReason::Idle,
            ),
            WorkerEvent::Payload(p) => match p {
                StreamPayload::Chunk(data) => self.on_chunk(data.as_slice()),
                StreamPayload::Error(message) => SseStep {
                    send: Some(worker_error(self.style, message.as_str())),
                    notice: false,
                    fire_response: true,
                    timing: ChunkTiming::Nothing,
                    close: Some(CloseReason::Error),
                },
                StreamPayload::Done => {
                    let send = match self.style {
                        SseFrameStyle::Generate => None,
                        SseFrameStyle::Legacy => Some("[DONE]".to_string()),
                        SseFrameStyle::Openai => Some("[DONE]".to_string()),
                    };
                    SseStep {
                        send,
                        notice: false,
                        fire_response: true,
                        timing: ChunkTiming::Nothing,
                        close: Some(CloseReason::Done),
                    }
                },
                StreamPayload::Empty => SseStep {
                    send: None,
                    notice: false,
                    fire_response: false,
                    timing: ChunkTiming::Nothing,
                    close: None,
                },
            },
        }
    }

    /// How many bytes the worker has sent.
    pub fn output_bytes(&self) -> (n: u64)
        ensures
            n == self@.output_bytes,
    {
        self.output_bytes
    }

    /// How many chunks the worker has sent.
    pub fn chunks(&self) -> (n: u64)
        ensures
            n == self@.chunks,
    {
        self.chunks
    }

    /// Whether a character was cut off at the end.
    pub fn holds_bytes_back(&self) -> (r: bool)
        ensures
            r == (self@.pending.len() > 0),
    {
        self.pending.len() > 0
    }
}

/// How the stream ends after a step: as the step says where its event was sent
/// or is a last notice, and by what kept it from being sent otherwise.
pub open spec fn end_after(
    close: Option<CloseReason>,
    notice: bool,
    sending: bool,
    outcome: SendOutcome,
) -> Option<CloseReason> {
    if !sending || notice {
        close
    } else {
        match outcome {
            SendOutcome::Sent => close,
            SendOutcome::Gone => Some(CloseReason::Cancel),
            SendOutcome::Deadline => Some(CloseReason::Deadline),
            SendOutcome::Idle => Some(CloseReason::Idle),
        }
    }
}

/// How the stream ends after its step was carried out.
pub fn after_send(
    close: Option<CloseReason>,
    notice: bool,
    sending: bool,
    outcome: SendOutcome,
) -> (r: Option<CloseReason>)
    ensures
        r == end_after(close, notice, sending, outcome),
{
    if !sending || notice {
        return close;
    }
    match outcome {
        SendOutcome::Sent => close,
        SendOutcome::Gone => Some(CloseReason::Cancel),
        SendOutcome::Deadline => Some(CloseReason::Deadline),
        SendOutcome::Idle => Some(CloseReason::Idle),
    }
}

/// How the stream ends after a sign of life was sent to the client.
pub fn after_keepalive(sent: bool) -> (r: Option<CloseReason>)
    ensures
        r == if sent {
            None
        } else {
            Some(CloseReason::Cancel)
        },
{
    if sent {
        None
    } else {
        Some(CloseReason::Cancel)
    }
}

/// Which workers are told that a stream is over.
#[derive(Debug, Clone, Copy, PartialEq, Eq, Structural)]
pub enum Cleanup {
    /// All steps of the ensemble.
    Chain,
    /// The worker that served the stream.
    Worker,
    /// All workers of the model version.
    AllWorkers,
}

/// Which workers are told that a stream of events is over.
pub fn sse_cleanup(ensemble: bool, decoupled: bool) -> (c: Cleanup)
    ensures
        c == if ensemble {
            Cleanup::Chain
        } else if decoupled {
            Cleanup::Worker
        } else {
            Cleanup::AllWorkers
        },
{
    if ensemble {
        Cleanup::Chain
    } else if decoupled {
        Cleanup::Worker
    } else {
        Cleanup::AllWorkers
    }
}

/// Which workers are told that a WebSocket stream is over.
pub fn ws_cleanup(ensemble: bool) -> (c: Cleanup)
    ensures
        c == if ensemble {
            Cleanup::Chain
        } else {
            Cleanup::Worker
        },
{
    if ensemble {
        Cleanup::Chain
    } else {
        Cleanup::Worker
    }
}

/// The observers of a response are told when the stream ends, unless it ends
/// because text turns out to be binary, and only then, whatever becomes of the
/// event that is sent.
pub proof fn response_fires_only_at_the_end(
    before: Forwarding,
    e: WorkerEvent,
    s: SseStep,
    after: Forwarding,
    sending: bool,
    outcome: SendOutcome,
)
    requires
        is_sse_step(before, e, s, after),
    ensures
        s.fire_response <==> s.close is Some && s.close != Some(CloseReason::TypeMismatch),
        s.fire_response ==> end_after(s.close, s.notice, sending, outcome) is Some,
{
}

/// Whether a stream went through `states` with the steps `steps` at the events
/// `events`: the next event is awaited only while the stream goes on.
pub open spec fn is_stream(
    events: Seq<WorkerEvent>,
    steps: Seq<SseStep>,
    states: Seq<Forwarding>,
) -> bool {
    &&& steps.len() == events.len()
    &&& states.len() == events.len() + 1
    &&& forall|i: int|
        0 <= i < events.len() ==> is_sse_step(
            states[i],
            events[i],
            #[trigger] steps[i],
            states[i + 1],
        )
    &&& forall|i: int| 0 <= i < steps.len() - 1 ==> (#[trigger] steps[i]).close is None
}

/// The observers of a response are told at most once in the life of a stream.
pub proof fn observers_are_told_once(
    events: Seq<WorkerEvent>,
    steps: Seq<SseStep>,
    states: Seq<Forwarding>,
    i: int,
    j: int,
)
    requires
        is_stream(events, steps, states),
        0 <= i < steps.len(),
        0 <= j < steps.len(),
        steps[i].fire_response,
        steps[j].fire_response,
    ensures
        i == j,
        i == steps.len() - 1,
{
    response_fires_only_at_the_end(
        states[i],
        events[i],
        steps[i],
        states[i + 1],
        true,
        SendOutcome::Sent,
    );
    response_fires_only_at_the_end(
        states[j],
        events[j],
        steps[j],
        states[j + 1],
        true,
        SendOutcome::Sent,
    );
}

/// A stream ends where the worker's payload is terminal or text turns out to be
/// binary, and goes on otherwise.
pub proof fn streams_end_at_terminal_payloads(
    before: Forwarding,
    p: StreamPayload,
    s: SseStep,
    after: Forwarding,
)
    requires
        is_sse_step(before, WorkerEvent::Payload(p), s, after),
    ensures
        s.close is Some <==> p is Done || p is Error || (p matches StreamPayload::Chunk(data)
            && before.ensemble && !clean(before.pending + data@)),
{
}

/// What a WebSocket delivers.
pub enum WsInput {
    Text(String),
    Binary(Vec<u8>),
    /// The client closes the connection.
    Close,
    /// A ping or a pong.
    Other,
    /// The connection failed.
    Failed,
    /// Nothing more comes.
    Ended,
}

/// Whether a control frame that reads as `doc` has the type `kind`.
pub open spec fn has_type(doc: Option<JsonV>, kind: Seq<char>) -> bool {
    doc matches Some(v) && v.get("type"@) == Some(JsonV::Text(kind))
}

/// Whether a text frame closes the stream.
pub open spec fn closes(text: Seq<char>) -> bool {
    has_type(parsed(encode_utf8(text)), "close"@)
}

/// Whether a text frame cancels or closes the stream.
pub open spec fn cancels_or_closes(text: Seq<char>) -> bool {
    has_type(parsed(encode_utf8(text)), "cancel"@) || closes(text)
}

/// Whether `doc` is a control frame of the type `kind`.
pub fn is_frame_type(doc: Option<&Json>, kind: &str) -> (r: bool)
    ensures
        r == has_type(
            match doc {
                Some(v) => Some(v@),
                None => None,
            },
            kind@,
        ),
{
    match doc {
        Some(v) => match get(v, "type") {
            Some(Json::Text(t)) => same_text(t.as_str(), kind),
            _ => false,
        },
        None => false,
    }
}

/// Whether a text frame closes the stream.
pub fn is_close_frame(text: &str) -> (r: bool)
    ensures
        r == closes(text@),
{
    let doc = parse_json(text.as_bytes());
    is_frame_type(doc.as_ref(), "close")
}

/// Whether a text frame cancels or closes the stream.
pub fn is_cancel_or_close_frame(text: &str) -> (r: bool)
    ensures
        r == cancels_or_closes(text@),
{
    let doc = parse_json(text.as_bytes());
    is_frame_type(doc.as_ref(), "cancel") || is_frame_type(doc.as_ref(), "close")
}

/// Whether a request may be answered with events: one that asks for binary
/// outputs may not.
pub fn check_event_request(body: &RequestBody) -> (r: Result<(), String>)
    requires
        body_wf(*body),
    ensures
        ({
            let binary = json_head(*body) matches Some(b) && parsed(b) matches Some(v)
                && wants_binary(v);
            match r {
                Ok(_) => !binary,
                Err(m) => binary && m@
                    == "SSE streaming cannot return binary_data_output; binary streaming uses WS/h2 bidi"@,
            }
        }),
{
    if request_binary_output_flag(body) {
        Err(
            "SSE streaming cannot return binary_data_output; binary streaming uses WS/h2 bidi".to_string(),
        )
    } else {
        Ok(())
    }
}

/// The checks that a stream passes before it is opened, in their order.
#[derive(Debug, Clone, Copy, PartialEq, Eq, Structural)]
pub enum Gate {
    /// The version is looked up.
    Resolve,
    /// The version must be ready.
    Ready,
    /// The client must be allowed to use it.
    Authorize,
    /// The client must not ask too often.
    RateLimit,
    Passed,
    Refused(GateRefusal),
}

/// Why a stream is not opened.
#[derive(Debug, Clone, Copy, PartialEq, Eq, Structural)]
pub enum GateRefusal {
    Unresolved,
    NotReady,
    Unauthorized,
    RateLimited,
}

impl Gate {
    pub open spec fn next(self, ok: bool, has_policies: bool) -> Gate {
        match self {
            Gate::Resolve => if ok {
                Gate::Ready
            } else {
                Gate::Refused(GateRefusal::Unresolved)
            },
            Gate::Ready => if !ok {
                Gate::Refused(GateRefusal::NotReady)
            } else if has_policies {
                Gate::Authorize
            } else {
                Gate::Passed
            },
            Gate::Authorize => if ok {
                Gate::RateLimit
            } else {
                Gate::Refused(GateRefusal::Unauthorized)
            },
            Gate::RateLimit => if ok {
                Gate::Passed
            } else {
                Gate::Refused(GateRefusal::RateLimited)
            },
            Gate::Passed => self,
            Gate::Refused(_) => self,
        }
    }

    /// The check after this one, whose outcome is `ok`. `has_policies` says
    /// whether the version has rules on who may use it.
    pub fn advance(self, ok: bool, has_policies: bool) -> (g: Gate)
        ensures
            g == self.next(ok, has_policies),
    {
        match self {
            Gate::Resolve => if ok {
                Gate::Ready
            } else {
                Gate::Refused(GateRefusal::Unresolved)
            },
            Gate::Ready => if !ok {
                Gate::Refused(GateRefusal::NotReady)
            } else if has_policies {
                Gate::Authorize
            } else {
                Gate::Passed
            },
            Gate::Authorize => if ok {
                Gate::RateLimit
            } else {
                Gate::Refused(GateRefusal::Unauthorized)
            },
            Gate::RateLimit => if ok {
                Gate::Passed
            } else {
                Gate::Refused(GateRefusal::RateLimited)
            },
            Gate::Passed => self,
            Gate::Refused(r) => Gate::Refused(r),
        }
    }
}

/// A client that is not allowed to use a version is refused before it is
/// counted against its rate.
pub proof fn unauthorized_clients_are_not_counted(g: Gate, ok: bool, has_policies: bool)
    requires
        g.next(ok, has_policies) == Gate::RateLimit,
    ensures
        g == Gate::Authorize,
        ok,
{
}

/// The error that is sent on a WebSocket before it is closed for a refusal.
pub fn ws_refusal_text(r: GateRefusal) -> (t: Option<String>)
    ensures
        match r {
            GateRefusal::Unauthorized => t matches Some(x) && x@ == error_text(
                SseFrameStyle::Legacy,
                "unauthorized"@,
            ),
            GateRefusal::RateLimited => t matches Some(x) && x@ == error_text(
                SseFrameStyle::Legacy,
                "rate limit exceeded"@,
            ),
            _ => t is None,
        },
{
    match r {
        GateRefusal::Unresolved => None,
        GateRefusal::NotReady => None,
        GateRefusal::Unauthorized => Some(error_event(SseFrameStyle::Legacy, "unauthorized")),
        GateRefusal::RateLimited => Some(error_event(SseFrameStyle::Legacy, "rate limit exceeded")),
    }
}

/// When a stream must be over: when the client says, where it does, and when
/// the last step of an ensemble says, whichever comes first.
pub fn stream_deadline(
    client_specified: bool,
    client_deadline: Option<u128>,
    step_deadline: Option<u128>,
) -> (d: Option<u128>)
    ensures
        d == match (
            if client_specified {
                client_deadline
            } else {
                None
            },
            step_deadline,
        ) {
            (Some(a), Some(b)) => Some(
                if a <= b {
                    a
                } else {
                    b
                },
            ),
            (Some(a), None) => Some(a),
            (None, b) => b,
        },
{
    let client: Option<u128> = if client_specified {
        client_deadline
    } else {
        None
    };
    match (client, step_deadline) {
        (Some(a), Some(b)) => Some(
            if a <= b {
                a
            } else {
                b
            },
        ),
        (Some(a), None) => Some(a),
        (None, b) => b,
    }
}

/// How long the first frame of a client is waited for: the request timeout, or
/// the idle timeout where there is none.
pub fn first_frame_budget(timeout: Option<Duration>, idle: Option<Duration>) -> (b: Option<
    Duration,
>)
    ensures
        b == match timeout {
            Some(t) => Some(t),
            None => idle,
        },
{
    match timeout {
        Some(t) => Some(t),
        None => idle,
    }
}

/// The first frame of a client.
#[derive(Debug)]
pub enum FirstFrame {
    Json(String),
    Raw(Vec<u8>),
}

impl FirstFrame {
    /// What kind of body the frame is.
    pub fn body_kind(&self) -> (r: &'static str)
        ensures
            r@ == match self {
                FirstFrame::Json(_) => "json"@,
                FirstFrame::Raw(_) => "raw"@,
            },
    {
        match self {
            FirstFrame::Json(_) => "json",
            FirstFrame::Raw(_) => "raw",
        }
    }
}

/// Whether bytes have the syntax of JSON.
pub uninterp spec fn json_valid(bytes: Seq<u8>) -> bool;

/// `serde_json::from_slice` into a `RawValue`, which keeps the bytes as they
/// are: whether they have the syntax of JSON.
#[verifier::external_body]
fn has_json_syntax(bytes: &[u8]) -> (r: bool)
    ensures
        r == json_valid(bytes@),
{
    serde_json::from_slice::<&serde_json::value::RawValue>(bytes).is_ok()
}

/// What came of waiting for the first frame.
pub enum FirstInput {
    Received(WsInput),
    TimedOut,
}

/// Why the first frame is refused: there is none, or it is text that is not
/// JSON.
#[derive(Debug, Clone, Copy, PartialEq, Eq, Structural)]
pub enum FirstRefusal {
    NoFrame,
    InvalidJson,
}

/// The error that is sent for a refused first frame.
pub fn first_refusal_text(r: FirstRefusal) -> (t: Option<String>)
    ensures
        match r {
            FirstRefusal::NoFrame => t is None,
            FirstRefusal::InvalidJson => t matches Some(x) && x@ == error_text(
                SseFrameStyle::Legacy,
                "invalid JSON"@,
            ),
        },
{
    match r {
        FirstRefusal::NoFrame => None,
        FirstRefusal::InvalidJson => Some(error_event(SseFrameStyle::Legacy, "invalid JSON")),
    }
}

/// The first frame of a client: text that is JSON, or bytes.
pub fn accept_first_frame(input: FirstInput) -> (r: Result<FirstFrame, FirstRefusal>)
    ensures
        match input {
            FirstInput::Received(WsInput::Text(t)) => if json_valid(encode_utf8(t@)) {
                r == Ok::<FirstFrame, FirstRefusal>(FirstFrame::Json(t))
            } else {
                r == Err::<FirstFrame, FirstRefusal>(FirstRefusal::InvalidJson)
            },
            FirstInput::Received(WsInput::Binary(b)) => r == Ok::<FirstFrame, FirstRefusal>(
                FirstFrame::Raw(b),
            ),
            _ => r == Err::<FirstFrame, FirstRefusal>(FirstRefusal::NoFrame),
        },
{
    match input {
        FirstInput::TimedOut => Err(FirstRefusal::NoFrame),
        FirstInput::Received(w) => match w {
            WsInput::Text(t) => if has_json_syntax(t.as_str().as_bytes()) {
                Ok(FirstFrame::Json(t))
            } else {
                Err(FirstRefusal::InvalidJson)
            },
            WsInput::Binary(b) => Ok(FirstFrame::Raw(b)),
            WsInput::Close => Err(FirstRefusal::NoFrame),
            WsInput::Other => Err(FirstRefusal::NoFrame),
            WsInput::Failed => Err(FirstRefusal::NoFrame),
            WsInput::Ended => Err(FirstRefusal::NoFrame),
        },
    }
}

/// A content type without its parameters, in lower case.
pub open spec fn essence(content_type: Seq<char>) -> Seq<char> {
    lower(trimmed(content_type.subrange(0, find(content_type, ';'))))
}

/// Whether a content type is one of JSON: `application/json`, or one that ends
/// in `+json`.
pub open spec fn is_json_type(content_type: Seq<char>) -> bool {
    let e = essence(content_type);
    e == "application/json"@ || (has_prefix(e, "application/"@) && has_suffix(e, "+json"@))
}

fn lower_chars(s: &[char]) -> (r: Vec<char>)
    ensures
        r@ == lower(s@),
{
    let mut low: Vec<char> = Vec::new();
    let mut i: usize = 0;
    while i < s.len()
        invariant
            i <= s@.len(),
            low@ == lower(s@).take(i as int),
        decreases s.len() - i,
    {
        let c = crate::kserve::lower_char(s[i]);
        low.push(c);
        assert(lower(s@).take(i + 1) =~= lower(s@).take(i as int).push(lower(s@)[i as int]));
        i = i + 1;
    }
    assert(lower(s@).take(i as int) =~= lower(s@));
    low
}

/// Whether a content type is one of JSON.
pub fn is_json_content_type(content_type: &str) -> (r: bool)
    ensures
        r == is_json_type(content_type@),
{
    let chars = to_chars(content_type);
    let semi = find_char(chars.as_slice(), ';');
    let head = trim(vstd::slice::slice_subrange(chars.as_slice(), 0, semi));
    let e = lower_chars(head);
    let json = to_chars("application/json");
    same_chars(e.as_slice(), json.as_slice()) || (starts_with(e.as_slice(), "application/")
        && ends_with(e.as_slice(), "+json"))
}

/// The content type of a stream that begins with a binary frame. The frame
/// decides: a type that is missing or says JSON is replaced.
pub fn normalize_binary_first_frame_ct(existing: Option<&str>) -> (r: String)
    ensures
        r@ == match existing {
            Some(ct) => if is_json_type(ct@) {
                "application/octet-stream"@
            } else {
                ct@
            },
            None => "application/octet-stream"@,
        },
{
    match existing {
        None => "application/octet-stream".to_string(),
        Some(ct) => if is_json_content_type(ct) {
            "application/octet-stream".to_string()
        } else {
            ct.to_string()
        },
    }
}

/// How long the next frame of an input is waited for: until the deadline or for
/// the idle time, whichever ends first.
pub fn aggregation_bound(deadline: Option<u128>, idle: Option<u128>, now: u128) -> (b: Option<u128>)
    ensures
        b == match (deadline, idle) {
            (Some(d), Some(i)) => {
                let left = crate::time::elapsed(now, d);
                Some(
                    if left <= i {
                        left
                    } else {
                        i
                    },
                )
            },
            (Some(d), None) => Some(crate::time::elapsed(now, d)),
            (None, Some(i)) => Some(i),
            (None, None) => None,
        },
{
    let left: Option<u128> = match deadline {
        Some(d) => Some(
            if d >= now {
                d - now
            } else {
                0
            },
        ),
        None => None,
    };
    match (left, idle) {
        (Some(l), Some(i)) => Some(
            if l <= i {
                l
            } else {
                i
            },
        ),
        (Some(l), None) => Some(l),
        (None, i) => i,
    }
}

/// What it means that no chunk of a worker came in the time that was waited: the
/// deadline has passed, or the worker has been idle for too long.
pub fn timed_out(deadline: Option<u128>, now: u128) -> (e: WorkerEvent)
    ensures
        e == if deadline matches Some(d) && d <= now {
            WorkerEvent::DeadlineElapsed
        } else {
            WorkerEvent::IdleElapsed
        },
{
    match deadline {
        Some(d) => if d <= now {
            WorkerEvent::DeadlineElapsed
        } else {
            WorkerEvent::IdleElapsed
        },
        None => WorkerEvent::IdleElapsed,
    }
}

/// What it means that the client did not take a chunk in the time that was
/// waited.
pub fn send_timed_out(deadline: Option<u128>, now: u128) -> (o: SendOutcome)
    ensures
        o == if deadline matches Some(d) && d <= now {
            SendOutcome::Deadline
        } else {
            SendOutcome::Idle
        },
{
    match deadline {
        Some(d) => if d <= now {
            SendOutcome::Deadline
        } else {
            SendOutcome::Idle
        },
        None => SendOutcome::Idle,
    }
}

/// What came of waiting for the next frame of an input.
pub enum AggregateInput {
    Received(WsInput),
    TimedOut,
}

/// What to do with it.
pub enum AggregateStep {
    /// The input is complete.
    Finish,
    /// The client gave up.
    Abandon,
    /// The frame is part of the input.
    Take(FirstFrame),
    Ignore,
    /// The client took too long, in all or between two frames.
    TimedOut { deadline: bool },
}

/// What to do with a frame of an input that is sent in several.
pub fn aggregate(input: AggregateInput, deadline: Option<u128>, now: u128) -> (s: AggregateStep)
    ensures
        match input {
            AggregateInput::TimedOut => s matches AggregateStep::TimedOut { deadline: d } && d == (
            deadline matches Some(at) && at <= now),
            AggregateInput::Received(WsInput::Text(t)) => if closes(t@) {
                s is Finish
            } else if cancels_or_closes(t@) {
                s is Abandon
            } else {
                s == AggregateStep::Take(FirstFrame::Json(t))
            },
            AggregateInput::Received(WsInput::Binary(b)) => s == AggregateStep::Take(
                FirstFrame::Raw(b),
            ),
            AggregateInput::Received(WsInput::Other) => s is Ignore,
            AggregateInput::Received(_) => s is Abandon,
        },
{
    match input {
        AggregateInput::TimedOut => AggregateStep::TimedOut {
            deadline: match deadline {
                Some(at) => at <= now,
                None => false,
            },
        },
        AggregateInput::Received(w) => match w {
            WsInput::Text(t) => if is_close_frame(t.as_str()) {
                AggregateStep::Finish
            } else if is_cancel_or_close_frame(t.as_str()) {
                AggregateStep::Abandon
            } else {
                AggregateStep::Take(FirstFrame::Json(t))
            },
            WsInput::Binary(b) => AggregateStep::Take(FirstFrame::Raw(b)),
            WsInput::Other => AggregateStep::Ignore,
            WsInput::Close => AggregateStep::Abandon,
            WsInput::Failed => AggregateStep::Abandon,
            WsInput::Ended => AggregateStep::Abandon,
        },
    }
}

/// The message for an input that took too long.
pub fn aggregation_timeout_message(deadline: bool) -> (r: String)
    ensures
        r@ == if deadline {
            "bidi aggregation exceeded the overall deadline"@
        } else {
            "bidi aggregation idle timeout"@
        },
{
    if deadline {
        "bidi aggregation exceeded the overall deadline".to_string()
    } else {
        "bidi aggregation idle timeout".to_string()
    }
}

/// Why a WebSocket stream is refused after the connection was made and before
/// the stream is opened.
#[derive(Debug, Clone, Copy, PartialEq, Eq, Structural)]
pub enum EarlyRefusal {
    Gate(GateRefusal),
    FirstFrame(FirstRefusal),
    /// The client names no graph of the ensemble.
    GraphSelector,
    /// What the ensemble declares as its inputs cannot be told.
    InputDeclaration,
    /// A frame is no part of an input.
    InputFrame,
    AggregationTimeout,
    /// The frames make no input.
    Input,
    /// The ensemble has nothing to stream.
    NoStreamingStep,
    /// The ensemble failed with this HTTP status.
    Execution { status: u16 },
    /// No worker opened the stream.
    Open,
}

/// Whether a refusal is counted as a failure of the server, rather than of the
/// client.
pub fn counts_as_server_error(r: EarlyRefusal) -> (s: bool)
    ensures
        s == match r {
            EarlyRefusal::Gate(g) => g == GateRefusal::NotReady,
            EarlyRefusal::FirstFrame(_) => false,
            EarlyRefusal::GraphSelector => false,
            EarlyRefusal::InputDeclaration => true,
            EarlyRefusal::InputFrame => false,
            EarlyRefusal::AggregationTimeout => true,
            EarlyRefusal::Input => false,
            EarlyRefusal::NoStreamingStep => false,
            EarlyRefusal::Execution { status } => status >= 500,
            EarlyRefusal::Open => true,
        },
{
    match r {
        EarlyRefusal::Gate(g) => match g {
            GateRefusal::NotReady => true,
            GateRefusal::Unresolved => false,
            GateRefusal::Unauthorized => false,
            GateRefusal::RateLimited => false,
        },
        EarlyRefusal::FirstFrame(_) => false,
        EarlyRefusal::GraphSelector => false,
        EarlyRefusal::InputDeclaration => true,
        EarlyRefusal::InputFrame => false,
        EarlyRefusal::AggregationTimeout => true,
        EarlyRefusal::Input => false,
        EarlyRefusal::NoStreamingStep => false,
        EarlyRefusal::Execution { status } => status >= 500,
        EarlyRefusal::Open => true,
    }
}

/// What to do with a frame that a client sends while its stream runs.
pub enum ReaderStep {
    /// Hand the bytes to the worker.
    Forward(Vec<u8>),
    /// Tell the worker to stop; the client is gone.
    CancelWorker,
    /// Tell all steps of the ensemble to stop; the client is gone.
    CancelChain,
    /// Tell the worker that the input is complete, and read no more.
    CloseInput,
    /// Read no more; the stream goes on.
    StopReading,
    /// The client is gone.
    Gone,
    /// The client broke the protocol.
    Violation(String),
    Ignore,
}

/// Whether `s` reports a breach of the protocol in these words.
pub open spec fn is_violation(s: ReaderStep, words: Seq<char>) -> bool {
    s matches ReaderStep::Violation(w) && w@ == words
}

/// Whether `s` is what to do with `input`.
pub open spec fn is_reader_step(
    ensemble: bool,
    decoupled: bool,
    input: WsInput,
    s: ReaderStep,
) -> bool {
    match input {
        WsInput::Text(t) => if decoupled && cancels_or_closes(t@) {
            if ensemble {
                s is CancelChain
            } else {
                s is CancelWorker
            }
        } else if ensemble {
            if closes(t@) {
                s is StopReading
            } else {
                is_violation(s, "frames after the aggregation trigger are rejected (multi-round)"@)
            }
        } else if !decoupled && closes(t@) {
            s is CloseInput
        } else {
            is_violation(s, "unknown control frame"@)
        },
        WsInput::Binary(b) => if ensemble {
            is_violation(s, "frames after the aggregation trigger are rejected (multi-round)"@)
        } else if decoupled {
            is_violation(s, "decoupled stream accepts no data frames"@)
        } else {
            s == ReaderStep::Forward(b)
        },
        WsInput::Close => s is Gone,
        WsInput::Failed => s is Gone,
        WsInput::Other => s is Ignore,
        WsInput::Ended => s is StopReading,
    }
}

/// What to do with a frame that a client sends while its stream runs.
pub fn read_frame(ensemble: bool, decoupled: bool, input: WsInput) -> (s: ReaderStep)
    ensures
        is_reader_step(ensemble, decoupled, input, s),
{
    match input {
        WsInput::Text(t) => if decoupled && is_cancel_or_close_frame(t.as_str()) {
            if ensemble {
                ReaderStep::CancelChain
            } else {
                ReaderStep::CancelWorker
            }
        } else if ensemble {
            if is_close_frame(t.as_str()) {
                ReaderStep::StopReading
            } else {
                ReaderStep::Violation(
                    "frames after the aggregation trigger are rejected (multi-round)".to_string(),
                )
            }
        } else if !decoupled && is_close_frame(t.as_str()) {
            ReaderStep::CloseInput
        } else {
            ReaderStep::Violation("unknown control frame".to_string())
        },
        WsInput::Binary(b) => if ensemble {
            ReaderStep::Violation(
                "frames after the aggregation trigger are rejected (multi-round)".to_string(),
            )
        } else if decoupled {
            ReaderStep::Violation("decoupled stream accepts no data frames".to_string())
        } else {
            ReaderStep::Forward(b)
        },
        WsInput::Close => ReaderStep::Gone,
        WsInput::Failed => ReaderStep::Gone,
        WsInput::Other => ReaderStep::Ignore,
        WsInput::Ended => ReaderStep::StopReading,
    }
}

/// What is sent to the client of a WebSocket.
pub enum WsMessage {
    Text(String),
    Binary(Vec<u8>),
}

/// What follows from an event of the worker.
pub struct WsStep {
    pub send: Option<WsMessage>,
    /// Whether the message is a last notice, whose fate makes no difference.
    pub notice: bool,
    /// Whether the response is complete and its observers are told.
    pub fire_response: bool,
    pub timing: ChunkTiming,
    /// How the stream ends, where it does and the message can be sent.
    pub close: Option<CloseReason>,
}

/// The state of a stream that is forwarded over a WebSocket.
pub struct WsForwarder {
    pub measure: bool,
    pub first_chunk: bool,
    pub output_bytes: u64,
    pub chunks: u64,
}

/// Whether `s` sends the text `t`.
pub open spec fn sends_text(s: WsStep, t: Seq<char>) -> bool {
    s.send matches Some(m) && m matches WsMessage::Text(x) && x@ == t
}

/// Whether `s` is a last notice with `words`.
pub open spec fn is_ws_notice(s: WsStep, words: Seq<char>, why: CloseReason) -> bool {
    &&& sends_text(s, error_text(SseFrameStyle::Legacy, words))
    &&& s.notice
    &&& s.fire_response
    &&& s.timing == ChunkTiming::Nothing
    &&& s.close == Some(why)
}

/// The text that tells the client that its stream is complete.
pub open spec fn done_text() -> Seq<char> {
    json_text(one_entry("done"@, JsonV::Bool(true)))
}

/// Whether `s` is what follows from the event `e`, and `after` the state behind
/// it.
pub open spec fn is_ws_step(
    before: WsForwarder,
    e: WorkerEvent,
    s: WsStep,
    after: WsForwarder,
) -> bool {
    match e {
        WorkerEvent::Eof => is_ws_notice(
            s,
            "worker exited mid-stream"@,
            CloseReason::WorkerEof,
        ) && after == before,
        WorkerEvent::DeadlineElapsed => is_ws_notice(
            s,
            "stream closed: deadline exceeded"@,
            CloseReason::Deadline,
        ) && after == before,
        WorkerEvent::IdleElapsed => is_ws_notice(
            s,
            "stream closed: idle timeout"@,
            CloseReason::Idle,
        ) && after == before,
        WorkerEvent::Payload(StreamPayload::Chunk(data)) => {
            &&& s.send == Some(WsMessage::Binary(data))
            &&& !s.notice
            &&& !s.fire_response
            &&& s.timing == if !before.measure {
                ChunkTiming::Nothing
            } else if before.first_chunk {
                ChunkTiming::First
            } else {
                ChunkTiming::Between
            }
            &&& s.close is None
            &&& after == (WsForwarder {
                measure: before.measure,
                first_chunk: before.first_chunk && !before.measure,
                output_bytes: sum_up_to_max(before.output_bytes, data@.len()),
                chunks: sum_up_to_max(before.chunks, 1),
            })
        },
        WorkerEvent::Payload(StreamPayload::Error(message)) => {
            &&& sends_text(
                s,
                worker_error_text(
                    SseFrameStyle::Legacy,
                    message@,
                    parsed(encode_utf8(message@)),
                ),
            )
            &&& !s.notice
            &&& s.fire_response
            &&& s.timing == ChunkTiming::Nothing
            &&& s.close == Some(CloseReason::Error)
            &&& after == before
        },
        WorkerEvent::Payload(StreamPayload::Done) => {
            &&& sends_text(s, done_text())
            &&& !s.notice
            &&& s.fire_response
            &&& s.timing == ChunkTiming::Nothing
            &&& s.close == Some(CloseReason::Done)
            &&& after == before
        },
        WorkerEvent::Payload(StreamPayload::Empty) => {
            &&& s.send is None
            &&& !s.notice
            &&& !s.fire_response
            &&& s.timing == ChunkTiming::Nothing
            &&& s.close is None
            &&& after == before
        },
    }
}

fn ws_notice(words: &str, why: CloseReason) -> (s: WsStep)
    ensures
        is_ws_notice(s, words@, why),
{
    WsStep {
        send: Some(WsMessage::Text(error_event(SseFrameStyle::Legacy, words))),
        notice: true,
        fire_response: true,
        timing: ChunkTiming::Nothing,
        close: Some(why),
    }
}

impl WsForwarder {
    /// A stream that begins. `measure` says whether its chunks are timed.
    pub fn new(measure: bool) -> (f: Self)
        ensures
            f == (WsForwarder { measure, first_chunk: true, output_bytes: 0, chunks: 0 }),
    {
        WsForwarder { measure, first_chunk: true, output_bytes: 0, chunks: 0 }
    }

    /// What follows from an event of the worker.
    pub fn on_worker(&mut self, e: WorkerEvent) -> (s: WsStep)
        ensures
            is_ws_step(*old(self), e, s, *final(self)),
    {
        match e {
            WorkerEvent::Eof => ws_notice("worker exited mid-stream", CloseReason::WorkerEof),
            WorkerEvent::DeadlineElapsed => ws_notice(
                "stream closed: deadline exceeded",
                CloseReason::Deadline,
            ),
            WorkerEvent::IdleElapsed => ws_notice(
                "stream closed: idle timeout",
                CloseReason::Idle,
            ),
            WorkerEvent::Payload(p) => match p {
                StreamPayload::Chunk(data) => {
                    self.output_bytes = add_up_to_max(self.output_bytes, data.len());
                    self.chunks = add_up_to_max(self.chunks, 1);
                    let timing = if !self.measure {
                        ChunkTiming::Nothing
                    } else if self.first_chunk {
                        ChunkTiming::First
                    } else {
                        ChunkTiming::Between
                    };
                    if self.measure {
                        self.first_chunk = false;
                    }
                    WsStep {
                        send: Some(WsMessage::Binary(data)),
                        notice: false,
                        fire_response: false,
                        timing,
                        close: None,
                    }
                },
                StreamPayload::Error(message) => WsStep {
                    send: Some(
                        WsMessage::Text(worker_error(SseFrameStyle::Legacy, message.as_str())),
                    ),
                    notice: false,
                    fire_response: true,
                    timing: ChunkTiming::Nothing,
                    close: Some(CloseReason::Error),
                },
                StreamPayload::Done => WsStep {
                    send: Some(
                        WsMessage::Text(print_json(&object_with("done", Json::Bool(true)))),
                    ),
                    notice: false,
                    fire_response: true,
                    timing: ChunkTiming::Nothing,
                    close: Some(CloseReason::Done),
                },
                StreamPayload::Empty => WsStep {
                    send: None,
                    notice: false,
                    fire_response: false,
                    timing: ChunkTiming::Nothing,
                    close: None,
                },
            },
        }
    }
}

/// How the stream ends when the reader reports that the client is gone, with an
/// error for the client where it broke the protocol.
pub fn after_gone(violation: &str) -> (r: CloseReason)
    ensures
        r == if violation@.len() > 0 {
            CloseReason::Protocol
        } else {
            CloseReason::Cancel
        },
{
    if violation.is_empty() {
        CloseReason::Cancel
    } else {
        CloseReason::Protocol
    }
}

/// The observers of a response are told when the stream ends, and only then,
/// whatever becomes of the message that is sent.
pub proof fn ws_response_fires_only_at_the_end(
    before: WsForwarder,
    e: WorkerEvent,
    s: WsStep,
    after: WsForwarder,
    sending: bool,
    outcome: SendOutcome,
)
    requires
        is_ws_step(before, e, s, after),
    ensures
        s.fire_response <==> s.close is Some,
        s.fire_response ==> end_after(s.close, s.notice, sending, outcome) is Some,
{
}

/// Whether a stream over a WebSocket went through `states` with the steps
/// `steps` at the events `events`.
pub open spec fn is_ws_stream(
    events: Seq<WorkerEvent>,
    steps: Seq<WsStep>,
    states: Seq<WsForwarder>,
) -> bool {
    &&& steps.len() == events.len()
    &&& states.len() == events.len() + 1
    &&& forall|i: int|
        0 <= i < events.len() ==> is_ws_step(
            states[i],
            events[i],
            #[trigger] steps[i],
            states[i + 1],
        )
    &&& forall|i: int| 0 <= i < steps.len() - 1 ==> (#[trigger] steps[i]).close is None
}

/// The observers of a response are told at most once in the life of a stream.
pub proof fn ws_observers_are_told_once(
    events: Seq<WorkerEvent>,
    steps: Seq<WsStep>,
    states: Seq<WsForwarder>,
    i: int,
    j: int,
)
    requires
        is_ws_stream(events, steps, states),
        0 <= i < steps.len(),
        0 <= j < steps.len(),
        steps[i].fire_response,
        steps[j].fire_response,
    ensures
        i == j,
        i == steps.len() - 1,
{
    ws_response_fires_only_at_the_end(
        states[i],
        events[i],
        steps[i],
        states[i + 1],
        true,
        SendOutcome::Sent,
    );
    ws_response_fires_only_at_the_end(
        states[j],
        events[j],
        steps[j],
        states[j + 1],
        true,
        SendOutcome::Sent,
    );
}

/// What kind of error a stream failed with.
#[derive(Debug, Clone, Copy, PartialEq, Eq, Structural)]
pub enum WsErrorKind {
    PayloadTooLarge,
    InvalidRequestBody,
    Validation,
    InvalidQueryParam,
    UnsupportedMediaType,
    Other,
}

/// The frames that tell a client why its stream failed.
pub struct WsErrorFrames {
    pub text: String,
    pub close_code: u16,
    pub close_reason: String,
}

/// The code that a WebSocket is closed with.
pub open spec fn close_code(kind: WsErrorKind) -> u16 {
    match kind {
        WsErrorKind::PayloadTooLarge => 1009,
        WsErrorKind::InvalidRequestBody => 1003,
        WsErrorKind::Validation => 1003,
        WsErrorKind::InvalidQueryParam => 1003,
        WsErrorKind::UnsupportedMediaType => 1003,
        WsErrorKind::Other => 1011,
    }
}

/// The frames that tell a client why its stream failed: a text with the code
/// and the message of the error, and a close frame with its code.
pub fn ws_error_frames(kind: WsErrorKind, code: &str, message: &str) -> (f: WsErrorFrames)
    ensures
        f.close_code == close_code(kind),
        f.close_reason@ == code@,
        f.text@ == json_text(
            one_entry(
                "error"@,
                JsonV::Object(
                    seq![
                        ("code"@, JsonV::Text(code@)),
                        ("message"@, JsonV::Text(message@)),
                    ],
                ),
            ),
        ),
{
    let mut o: Vec<(String, Json)> = Vec::new();
    o.push(("code".to_string(), Json::Text(code.to_string())));
    o.push(("message".to_string(), Json::Text(message.to_string())));
    let body = Json::Object(o);
    proof {
        crate::json::view_of_parts(body);
        assert(crate::json::entries_of(o@) =~= seq![
            ("code"@, JsonV::Text(code@)),
            ("message"@, JsonV::Text(message@)),
        ]);
    }
    let close: u16 = match kind {
        WsErrorKind::PayloadTooLarge => 1009,
        WsErrorKind::InvalidRequestBody => 1003,
        WsErrorKind::Validation => 1003,
        WsErrorKind::InvalidQueryParam => 1003,
        WsErrorKind::UnsupportedMediaType => 1003,
        WsErrorKind::Other => 1011,
    };
    WsErrorFrames {
        text: print_json(&object_with("error", body)),
        close_code: close,
        close_reason: code.to_string(),
    }
}

/// Why no worker can serve a stream.
#[derive(Debug, Clone, Copy, PartialEq, Eq, Structural)]
pub enum OpenError {
    ModelNotFound,
    NoWorkers,
    NoClients,
    InvalidWorkerIndex,
}

/// Whether a stream can be opened at all: the model version is known, has
/// workers and connections to them.
pub fn check_stream_target(workers: Option<usize>, clients: Option<usize>) -> (r: Result<
    usize,
    OpenError,
>)
    ensures
        r == match workers {
            None => Err::<usize, OpenError>(OpenError::ModelNotFound),
            Some(n) => if n == 0 {
                Err(OpenError::NoWorkers)
            } else {
                match clients {
                    None => Err(OpenError::NoClients),
                    Some(c) => Ok(c),
                }
            },
        },
{
    match workers {
        None => Err(OpenError::ModelNotFound),
        Some(n) => if n == 0 {
            Err(OpenError::NoWorkers)
        } else {
            match clients {
                None => Err(OpenError::NoClients),
                Some(c) => Ok(c),
            }
        },
    }
}

/// Whether there is a connection to the worker that was picked.
pub fn check_worker_index(worker: usize, clients: usize) -> (r: Result<usize, OpenError>)
    ensures
        r == if worker < clients {
            Ok::<usize, OpenError>(worker)
        } else {
            Err(OpenError::InvalidWorkerIndex)
        },
{
    if worker < clients {
        Ok(worker)
    } else {
        Err(OpenError::InvalidWorkerIndex)
    }
}

/// A new name for a stream.
pub fn new_stream_id() -> (r: String)
    ensures
        exists|u: Seq<char>| #[trigger] is_random_uuid(u) && r@ == "stream-"@ + u,
{
    let id = random_uuid();
    let mut out = "stream-".to_string();
    out.append(id.as_str());
    assert(is_random_uuid(id@));
    out
}

/// The message for an error in opening a stream.
pub fn open_error_message(e: OpenError, model: &str, version: &str) -> (r: String)
    ensures
        r@ == match e {
            OpenError::ModelNotFound => model@ + " version "@ + version@,
            OpenError::NoWorkers => model@ + " has no workers"@,
            OpenError::NoClients => model@ + " "@ + version@ + " has no ZMQ clients"@,
            OpenError::InvalidWorkerIndex => "invalid worker index"@,
        },
{
    match e {
        OpenError::ModelNotFound => {
            let mut out = model.to_string();
            out.append(" version ");
            out.append(version);
            out
        },
        OpenError::NoWorkers => {
            let mut out = model.to_string();
            out.append(" has no workers");
            out
        },
        OpenError::NoClients => {
            let mut out = model.to_string();
            out.append(" ");
            out.append(version);
            out.append(" has no ZMQ clients");
            out
        },
        OpenError::InvalidWorkerIndex => "invalid worker index".to_string(),
    }
}

/// Every chunk counts for one and for as many bytes as it has, and nothing else
/// counts.
pub proof fn chunks_are_counted(
    before: Forwarding,
    e: WorkerEvent,
    s: SseStep,
    after: Forwarding,
)
    requires
        is_sse_step(before, e, s, after),
    ensures
        e matches WorkerEvent::Payload(StreamPayload::Chunk(data)) ==> {
            &&& before.chunks < u64::MAX ==> after.chunks == before.chunks + 1
            &&& before.output_bytes + data@.len() <= u64::MAX ==> after.output_bytes
                == before.output_bytes + data@.len()
            &&& before.output_bytes + data@.len() > u64::MAX ==> after.output_bytes == u64::MAX
            &&& after.style == before.style && after.ensemble == before.ensemble
            &&& after.measure == before.measure
        },
        !(e matches WorkerEvent::Payload(p) && p is Chunk) ==> after == before,
{
}

/// The time to the first chunk is measured at the first chunk, and the time
/// between two chunks at every other one. Nothing is measured where that was not
/// asked for, or at anything but a chunk.
pub proof fn the_first_chunk_is_timed_as_such(
    before: Forwarding,
    e: WorkerEvent,
    s: SseStep,
    after: Forwarding,
)
    requires
        is_sse_step(before, e, s, after),
    ensures
        ({
            let chunk = e matches WorkerEvent::Payload(p) && p is Chunk;
            &&& !chunk || !before.measure ==> s.timing == ChunkTiming::Nothing
            &&& chunk && before.measure && before.first_chunk ==> s.timing == ChunkTiming::First
            &&& chunk && before.measure && !before.first_chunk ==> s.timing
                == ChunkTiming::Between
            &&& chunk && before.measure ==> !after.first_chunk
            &&& !chunk ==> after.first_chunk == before.first_chunk
        }),
{
}

/// A chunk that completes valid text without carriage returns is sent on as that
/// text, character by character, and nothing is held back behind it.
pub proof fn text_is_sent_as_it_is(
    before: Forwarding,
    data: Vec<u8>,
    s: SseStep,
    after: Forwarding,
)
    requires
        is_sse_step(before, WorkerEvent::Payload(StreamPayload::Chunk(data)), s, after),
        vstd::utf8::valid_utf8(before.pending + data@),
        !vstd::utf8::decode_utf8(before.pending + data@).contains('\r'),
        vstd::utf8::decode_utf8(before.pending + data@).len() > 0,
    ensures
        s.send matches Some(x) && x@ == vstd::utf8::decode_utf8(before.pending + data@),
        s.close is None,
        after.pending.len() == 0,
{
    let all = before.pending + data@;
    crate::utf8::valid_text_comes_through(all);
    crate::utf8::plain_text_stays(vstd::utf8::decode_utf8(all), Seq::empty());
}

/// A chunk that ends within a character sends what is complete and keeps the first
/// bytes of the character for the next chunk.
pub proof fn broken_characters_wait(
    before: Forwarding,
    data: Vec<u8>,
    s: SseStep,
    after: Forwarding,
    valid: Seq<u8>,
    next: Seq<u8>,
    k: int,
)
    requires
        is_sse_step(before, WorkerEvent::Payload(StreamPayload::Chunk(data)), s, after),
        vstd::utf8::valid_utf8(valid),
        next.len() > 0,
        vstd::utf8::valid_first_scalar(next),
        0 < k < vstd::utf8::length_of_first_scalar(next),
        before.pending + data@ == valid + next.take(k),
    ensures
        after.pending == next.take(k),
        s.close is None,
        vstd::utf8::decode_utf8(valid).len() == 0 ==> s.send is None,
        vstd::utf8::decode_utf8(valid).len() > 0 && !vstd::utf8::decode_utf8(valid).contains('\r')
            ==> (s.send matches Some(x) && x@ == vstd::utf8::decode_utf8(valid)),
{
    crate::utf8::broken_off_characters_are_held(valid, next, k);
    if !vstd::utf8::decode_utf8(valid).contains('\r') {
        crate::utf8::plain_text_stays(vstd::utf8::decode_utf8(valid), Seq::empty());
    }
}

/// Bytes that are no text end the stream of an ensemble with an error, and are
/// replaced in any other stream, which goes on.
pub proof fn binary_chunks_end_ensembles_only(
    before: Forwarding,
    data: Vec<u8>,
    s: SseStep,
    after: Forwarding,
    valid: Seq<u8>,
    stray: u8,
    rest: Seq<u8>,
)
    requires
        is_sse_step(before, WorkerEvent::Payload(StreamPayload::Chunk(data)), s, after),
        vstd::utf8::valid_utf8(valid),
        0x80 <= stray < 0xc2 || stray > 0xf4,
        before.pending + data@ == valid + seq![stray] + rest,
    ensures
        before.ensemble ==> s.close == Some(CloseReason::TypeMismatch) && s.send is Some
            && !s.fire_response,
        !before.ensemble ==> s.close is None && s.send is Some,
{
    crate::utf8::stray_bytes_are_replaced(valid, stray, rest);
}

/// A stream ends for the reason that the worker gives: at its end, at its error,
/// when it goes away, and when it takes too long. What is sent then is a notice
/// unless the worker itself has ended the stream.
pub proof fn streams_end_for_their_reason(
    before: Forwarding,
    e: WorkerEvent,
    s: SseStep,
    after: Forwarding,
)
    requires
        is_sse_step(before, e, s, after),
    ensures
        s.close == Some(CloseReason::Done) <==> (e matches WorkerEvent::Payload(p) && p is Done),
        s.close == Some(CloseReason::Error) <==> (e matches WorkerEvent::Payload(p) && p is Error),
        s.close == Some(CloseReason::WorkerEof) <==> e is Eof,
        s.close == Some(CloseReason::Deadline) <==> e is DeadlineElapsed,
        s.close == Some(CloseReason::Idle) <==> e is IdleElapsed,
        s.notice <==> e is Eof || e is DeadlineElapsed || e is IdleElapsed,
        (e matches WorkerEvent::Payload(p) && p is Done) ==> (s.send is None <==> before.style
            == SseFrameStyle::Generate),
        (e matches WorkerEvent::Payload(p) && p is Done) && s.send is Some ==> s.send->0@
            == "[DONE]"@,
        (e matches WorkerEvent::Payload(p) && p is Empty) ==> s.send is None && s.close is None,
{
}

/// An error event is a document whose entry `error` is the message, or in the
/// style of OpenAI an object with the message.
pub proof fn error_events_hold_their_message(style: SseFrameStyle, message: Seq<char>) -> (v: JsonV)
    ensures
        error_text(style, message) == json_text(v),
        style != SseFrameStyle::Openai ==> v.get("error"@) == Some(JsonV::Text(message)),
        style == SseFrameStyle::Openai ==> (v.get("error"@) matches Some(e) && e.get("message"@)
            == Some(JsonV::Text(message))),
{
    one_entry(
        "error"@,
        if style == SseFrameStyle::Openai {
            one_entry("message"@, JsonV::Text(message))
        } else {
            JsonV::Text(message)
        },
    )
}

/// An error that the worker describes with a type is passed on as it is, whatever
/// the style. Any other is told by its message.
pub proof fn described_errors_are_passed_on(
    style: SseFrameStyle,
    message: Seq<char>,
    doc: JsonV,
    e: JsonV,
) -> (v: JsonV)
    requires
        doc.get("error"@) == Some(e),
        e.get("type"@) is Some,
    ensures
        worker_error_text(style, message, Some(doc)) == json_text(v),
        v.get("error"@) == Some(e),
        worker_error_text(style, message, None) == error_text(style, message),
{
    one_entry("error"@, e)
}

/// An error that the worker does not describe, or describes without a type, is
/// told by its message.
pub proof fn other_errors_are_told_by_their_message(
    style: SseFrameStyle,
    message: Seq<char>,
    doc: JsonV,
)
    requires
        doc.get("error"@) matches Some(e) ==> e.get("type"@) is None,
    ensures
        worker_error_text(style, message, Some(doc)) == error_text(style, message),
{
}

/// A stream whose event did not reach the client ends because of that, whatever
/// the event was, unless it was a last notice. One whose event was sent, or that
/// had none, goes on or ends as the worker says.
pub proof fn unsent_events_end_the_stream(
    close: Option<CloseReason>,
    notice: bool,
    outcome: SendOutcome,
)
    ensures
        !notice && outcome != SendOutcome::Sent ==> end_after(close, notice, true, outcome) is Some,
        !notice ==> (outcome == SendOutcome::Gone ==> end_after(close, notice, true, outcome)
            == Some(CloseReason::Cancel)),
        !notice ==> (outcome == SendOutcome::Deadline ==> end_after(close, notice, true, outcome)
            == Some(CloseReason::Deadline)),
        !notice ==> (outcome == SendOutcome::Idle ==> end_after(close, notice, true, outcome)
            == Some(CloseReason::Idle)),
        end_after(close, notice, true, SendOutcome::Sent) == close,
        end_after(close, notice, false, outcome) == close,
        end_after(close, true, true, outcome) == close,
{
}

/// A failed check refuses the stream for its own reason, and a passed one never
/// does. The checks come in their order, and those of the client only where the
/// version has rules.
pub proof fn checks_come_in_order(g: Gate, ok: bool, has_policies: bool)
    ensures
        g == Gate::Resolve || g == Gate::Ready || g == Gate::Authorize || g == Gate::RateLimit
            ==> (g.next(ok, has_policies) is Refused <==> !ok),
        Gate::Resolve.next(true, has_policies) == Gate::Ready,
        Gate::Ready.next(true, false) == Gate::Passed,
        Gate::Ready.next(true, true) == Gate::Authorize,
        Gate::Ready.next(true, true).next(true, true) == Gate::RateLimit,
        Gate::Ready.next(true, true).next(true, true).next(true, true) == Gate::Passed,
        Gate::Resolve.next(false, has_policies) == Gate::Refused(GateRefusal::Unresolved),
        Gate::Ready.next(false, has_policies) == Gate::Refused(GateRefusal::NotReady),
        Gate::Authorize.next(false, has_policies) == Gate::Refused(GateRefusal::Unauthorized),
        Gate::RateLimit.next(false, has_policies) == Gate::Refused(GateRefusal::RateLimited),
        g == Gate::Passed || g is Refused ==> g.next(ok, has_policies) == g,
{
}

/// What stands behind a semicolon in a content type makes no difference, nor does
/// white space around it.
pub proof fn parameters_make_no_difference(t: Seq<char>, parameters: Seq<char>)
    requires
        forall|i: int| 0 <= i < t.len() ==> t[i] != ';',
    ensures
        essence(t + seq![';'] + parameters) == essence(t),
        is_json_type(t + seq![';'] + parameters) == is_json_type(t),
        t.len() > 0 && !crate::text::is_space(t[0]) && !crate::text::is_space(t.last()) ==> essence(
            seq![' '] + t + seq![' '],
        ) == essence(t),
{
    let n = t.len() as int;
    let s = t + seq![';'] + parameters;
    assert forall|j: int| 0 <= j < n implies s[j] != ';' by {
        assert(s[j] == t[j]);
    }
    crate::text::lemma_find(s, ';', n);
    crate::text::lemma_find(t, ';', n);
    assert(s.subrange(0, n) =~= t);
    assert(t.subrange(0, n) =~= t);
    if n > 0 && !crate::text::is_space(t[0]) && !crate::text::is_space(t.last()) {
        let padded = seq![' '] + t + seq![' '];
        let none = Seq::<char>::empty();
        assert forall|j: int| 0 <= j < padded.len() implies padded[j] != ';' by {
            if 0 < j <= n {
                assert(padded[j] == t[j - 1]);
            }
        }
        crate::text::lemma_find(padded, ';', padded.len() as int);
        assert(padded.subrange(0, padded.len() as int) =~= padded);
        assert(none + t + none =~= t);
        crate::text::trimming_keeps_what_is_between(none, t, none);
        crate::text::trimming_keeps_what_is_between(seq![' '], t, seq![' ']);
    }
}

/// `application/json` and the types of applications that end in `+json` are JSON,
/// and no type with another beginning is.
pub proof fn types_of_json(x: Seq<char>)
    requires
        forall|i: int|
            0 <= i < x.len() ==> #[trigger] x[i] != ';' && !(65 <= x[i] as u32 <= 90),
    ensures
        is_json_type("application/json"@),
        is_json_type("application/"@ + x + "+json"@),
        x.len() > 0 && !crate::text::is_space(x[0]) && !crate::text::is_space(x.last())
            && !has_prefix(x, "application/"@) ==> !is_json_type(x),
{
    reveal_strlit("application/json");
    reveal_strlit("application/");
    reveal_strlit("+json");
    let none = Seq::<char>::empty();
    plain_type_is_its_essence("application/json"@);
    let typed = "application/"@ + x + "+json"@;
    assert forall|i: int| 0 <= i < typed.len() implies #[trigger] typed[i] != ';' && !(65
        <= typed[i] as u32 <= 90) by {
        if 12 <= i < 12 + x.len() {
            assert(typed[i] == x[i - 12]);
        }
    }
    assert(typed[0] == 'a');
    assert(typed.last() == 'n');
    plain_type_is_its_essence(typed);
    assert(typed.subrange(0, 12) =~= "application/"@);
    assert(typed.subrange(typed.len() - 5, typed.len() as int) =~= "+json"@);
    if x.len() > 0 && !crate::text::is_space(x[0]) && !crate::text::is_space(x.last()) {
        plain_type_is_its_essence(x);
        if x == "application/json"@ {
            assert(x.subrange(0, 12) =~= "application/"@);
        }
    }
}

proof fn plain_type_is_its_essence(t: Seq<char>)
    requires
        t.len() > 0,
        !crate::text::is_space(t[0]),
        !crate::text::is_space(t.last()),
        forall|i: int|
            0 <= i < t.len() ==> #[trigger] t[i] != ';' && !(65 <= t[i] as u32 <= 90),
    ensures
        essence(t) == t,
{
    let n = t.len() as int;
    let none = Seq::<char>::empty();
    crate::text::lemma_find(t, ';', n);
    assert(t.subrange(0, n) =~= t);
    assert(none + t + none =~= t);
    crate::text::trimming_keeps_what_is_between(none, t, none);
    assert(lower(t) =~= t);
}

/// A frame of data is handed to the worker, as it is, exactly where the stream
/// takes input while it runs. A client that is gone is never taken for one that
/// broke the protocol, and a ping changes nothing.
pub proof fn frames_reach_the_worker(
    ensemble: bool,
    decoupled: bool,
    input: WsInput,
    s: ReaderStep,
)
    requires
        is_reader_step(ensemble, decoupled, input, s),
    ensures
        s is Forward <==> input is Binary && !ensemble && !decoupled,
        s is Forward ==> input == WsInput::Binary(s->Forward_0),
        s is Gone <==> input is Close || input is Failed,
        s is Ignore <==> input is Other,
        input is Ended ==> s is StopReading,
        s is CancelWorker || s is CancelChain ==> decoupled && input is Text,
        s is CloseInput ==> !ensemble && !decoupled && input is Text,
        s is Violation ==> input is Text || input is Binary,
        input is Binary && (ensemble || decoupled) ==> s is Violation,
{
}

/// A text frame that says `close` ends the input of its stream, or the stream
/// where it takes none. One that says `cancel` stops a decoupled stream only.
pub proof fn control_frames_are_obeyed(
    ensemble: bool,
    decoupled: bool,
    t: String,
    s: ReaderStep,
    v: JsonV,
)
    requires
        is_reader_step(ensemble, decoupled, WsInput::Text(t), s),
        parsed(encode_utf8(t@)) == Some(v),
    ensures
        v.get("type"@) == Some(JsonV::Text("close"@)) ==> {
            &&& decoupled && ensemble ==> s is CancelChain
            &&& decoupled && !ensemble ==> s is CancelWorker
            &&& !decoupled && ensemble ==> s is StopReading
            &&& !decoupled && !ensemble ==> s is CloseInput
        },
        v.get("type"@) == Some(JsonV::Text("cancel"@)) ==> {
            &&& decoupled && ensemble ==> s is CancelChain
            &&& decoupled && !ensemble ==> s is CancelWorker
            &&& !decoupled ==> s is Violation
        },
        v.get("type"@) is None ==> s is Violation,
{
    reveal_strlit("close");
    reveal_strlit("cancel");
    assert("close"@.len() == 5 && "cancel"@.len() == 6);
}

/// A chunk is sent over a WebSocket with the bytes that it has, and is counted. A
/// stream over a WebSocket ends for the reasons that one of events does.
pub proof fn chunks_pass_over_a_websocket(
    before: WsForwarder,
    e: WorkerEvent,
    s: WsStep,
    after: WsForwarder,
)
    requires
        is_ws_step(before, e, s, after),
    ensures
        e matches WorkerEvent::Payload(StreamPayload::Chunk(data)) ==> {
            &&& s.send matches Some(m) && m matches WsMessage::Binary(sent) && sent@ == data@
            &&& s.close is None
            &&& before.chunks < u64::MAX ==> after.chunks == before.chunks + 1
            &&& before.output_bytes + data@.len() <= u64::MAX ==> after.output_bytes
                == before.output_bytes + data@.len()
            &&& before.output_bytes + data@.len() > u64::MAX ==> after.output_bytes == u64::MAX
            &&& !before.measure ==> s.timing == ChunkTiming::Nothing
            &&& before.measure && before.first_chunk ==> s.timing == ChunkTiming::First
            &&& before.measure && !before.first_chunk ==> s.timing == ChunkTiming::Between
            &&& before.measure ==> !after.first_chunk
            &&& after.measure == before.measure
        },
        !(e matches WorkerEvent::Payload(p) && p is Chunk) ==> after == before && s.timing
            == ChunkTiming::Nothing,
        s.close == Some(CloseReason::Done) <==> (e matches WorkerEvent::Payload(p) && p is Done),
        s.close == Some(CloseReason::Error) <==> (e matches WorkerEvent::Payload(p) && p is Error),
        s.close == Some(CloseReason::WorkerEof) <==> e is Eof,
        s.close == Some(CloseReason::Deadline) <==> e is DeadlineElapsed,
        s.close == Some(CloseReason::Idle) <==> e is IdleElapsed,
        s.notice <==> e is Eof || e is DeadlineElapsed || e is IdleElapsed,
        s.send is None <==> (e matches WorkerEvent::Payload(p) && p is Empty),
{
}

/// The end of a stream over a WebSocket is told with a document that says so.
pub proof fn the_end_is_told() -> (v: JsonV)
    ensures
        done_text() == json_text(v),
        v.get("done"@) == Some(JsonV::Bool(true)),
{
    one_entry("done"@, JsonV::Bool(true))
}

/// What is too large, what else the client did wrong, and what the server did
/// wrong close a WebSocket with three different codes.
pub proof fn close_codes_tell_who_is_at_fault(a: WsErrorKind)
    ensures
        close_code(a) == 1009 <==> a == WsErrorKind::PayloadTooLarge,
        close_code(a) == 1011 <==> a == WsErrorKind::Other,
        a != WsErrorKind::PayloadTooLarge && a != WsErrorKind::Other ==> close_code(a) == 1003,
{
}

/// What is sent of a chunk holds no carriage return. A line end of a carriage
/// return, alone or with a line feed, is sent as a line feed.
pub proof fn line_ends_are_sent_as_line_feeds(
    before: Forwarding,
    data: Vec<u8>,
    s: SseStep,
    after: Forwarding,
    first: Seq<char>,
    second: Seq<char>,
)
    requires
        is_sse_step(before, WorkerEvent::Payload(StreamPayload::Chunk(data)), s, after),
        vstd::utf8::valid_utf8(before.pending + data@),
        !first.contains('\r'),
        !second.contains('\r'),
    ensures
        vstd::utf8::decode_utf8(before.pending + data@) == first + seq!['\r', '\n'] + second ==> (
        s.send matches Some(x) && x@ == first + seq!['\n'] + second),
        vstd::utf8::decode_utf8(before.pending + data@) == first + seq!['\r'] + second && (
        second.len() == 0 || second[0] != '\n') ==> (s.send matches Some(x) && x@ == first + seq![
            '\n',
        ] + second),
        s.send matches Some(x) ==> !x@.contains('\r'),
{
    let t = vstd::utf8::decode_utf8(before.pending + data@);
    valid_chunks_send_their_text(before, data, s, after);
    line_ends_in_text(t, first, second);
}

proof fn valid_chunks_send_their_text(
    before: Forwarding,
    data: Vec<u8>,
    s: SseStep,
    after: Forwarding,
)
    requires
        is_sse_step(before, WorkerEvent::Payload(StreamPayload::Chunk(data)), s, after),
        vstd::utf8::valid_utf8(before.pending + data@),
    ensures
        ({
            let t = vstd::utf8::decode_utf8(before.pending + data@);
            &&& t.len() > 0 ==> s.send is Some
            &&& s.send matches Some(x) ==> x@ == normalized(t)
        }),
{
    crate::utf8::valid_text_comes_through(before.pending + data@);
}

proof fn line_ends_in_text(t: Seq<char>, first: Seq<char>, second: Seq<char>)
    requires
        !first.contains('\r'),
        !second.contains('\r'),
    ensures
        t == first + seq!['\r', '\n'] + second ==> t.len() > 0 && normalized(t) == first + seq![
            '\n',
        ] + second,
        t == first + seq!['\r'] + second && (second.len() == 0 || second[0] != '\n') ==> t.len() > 0
            && normalized(t) == first + seq!['\n'] + second,
        !normalized(t).contains('\r'),
{
    crate::utf8::line_ends_become_line_feeds(first, second);
    crate::utf8::plain_text_stays(first, Seq::empty());
    crate::utf8::plain_text_stays(second, Seq::empty());
    if normalized(t).contains('\r') {
        let i = choose|i: int| 0 <= i < normalized(t).len() && normalized(t)[i] == '\r';
        crate::utf8::normalized_has_no_carriage_return(t, i);
    }
}

/// A chunk without bytes sends an empty event in a stream of an ensemble that holds
/// nothing back, and nothing in any other stream.
pub proof fn empty_chunks_are_events_of_ensembles(
    before: Forwarding,
    data: Vec<u8>,
    s: SseStep,
    after: Forwarding,
)
    requires
        is_sse_step(before, WorkerEvent::Payload(StreamPayload::Chunk(data)), s, after),
        data@.len() == 0,
        before.pending.len() == 0,
    ensures
        before.ensemble ==> (s.send matches Some(x) && x@.len() == 0),
        !before.ensemble ==> s.send is None,
        s.close is None,
        after.pending.len() == 0,
{
    assert(before.pending + data@ =~= Seq::<u8>::empty());
}

/// A type of applications is JSON only where it is `json` or ends in `+json`.
pub proof fn other_types_are_not_json(x: Seq<char>)
    requires
        x.len() > 0,
        !crate::text::is_space(x.last()),
        forall|i: int|
            0 <= i < x.len() ==> #[trigger] x[i] != ';' && !(65 <= x[i] as u32 <= 90),
        x != "json"@,
        x.len() < 5 || x.subrange(x.len() - 5, x.len() as int) != "+json"@,
    ensures
        !is_json_type("application/"@ + x),
{
    reveal_strlit("application/json");
    reveal_strlit("application/");
    reveal_strlit("json");
    reveal_strlit("+json");
    let t = "application/"@ + x;
    assert forall|i: int| 0 <= i < t.len() implies #[trigger] t[i] != ';' && !(65 <= t[i] as u32
        <= 90) by {
        if i >= 12 {
            assert(t[i] == x[i - 12]);
        }
    }
    assert(t[0] == 'a');
    assert(t.last() == x.last());
    plain_type_is_its_essence(t);
    if t == "application/json"@ {
        assert(x =~= t.subrange(12, t.len() as int));
        assert(x =~= "json"@);
    }
    if has_suffix(t, "+json"@) {
        if x.len() >= 5 {
            assert(t.subrange(t.len() - 5, t.len() as int) =~= x.subrange(
                x.len() - 5,
                x.len() as int,
            ));
        } else {
            assert(t.subrange(t.len() - 5, t.len() as int)[0] == t[t.len() - 5]);
            assert(t[t.len() - 5] == '+');
        }
    }
}

/// The client of a stream of events is told how the stream ends, in the style that
/// it asked for.
pub proof fn endings_are_told_as_events(
    before: Forwarding,
    e: WorkerEvent,
    s: SseStep,
    after: Forwarding,
)
    requires
        is_sse_step(before, e, s, after),
    ensures
        e is Eof ==> (s.send matches Some(x) && x@ == error_text(
            before.style,
            "worker exited mid-stream"@,
        )),
        e is DeadlineElapsed ==> (s.send matches Some(x) && x@ == error_text(
            before.style,
            "stream closed: deadline exceeded"@,
        )),
        e is IdleElapsed ==> (s.send matches Some(x) && x@ == error_text(
            before.style,
            "stream closed: idle timeout"@,
        )),
        e matches WorkerEvent::Payload(StreamPayload::Error(m)) ==> (s.send matches Some(x) && x@
            == worker_error_text(before.style, m@, parsed(encode_utf8(m@)))),
{
}

/// The client of a stream over a WebSocket is told how the stream ends.
pub proof fn endings_are_told_over_a_websocket(
    before: WsForwarder,
    e: WorkerEvent,
    s: WsStep,
    after: WsForwarder,
)
    requires
        is_ws_step(before, e, s, after),
    ensures
        e is Eof ==> (s.send matches Some(WsMessage::Text(x)) && x@ == error_text(
            SseFrameStyle::Legacy,
            "worker exited mid-stream"@,
        )),
        e is DeadlineElapsed ==> (s.send matches Some(WsMessage::Text(x)) && x@ == error_text(
            SseFrameStyle::Legacy,
            "stream closed: deadline exceeded"@,
        )),
        e is IdleElapsed ==> (s.send matches Some(WsMessage::Text(x)) && x@ == error_text(
            SseFrameStyle::Legacy,
            "stream closed: idle timeout"@,
        )),
        e matches WorkerEvent::Payload(StreamPayload::Error(m)) ==> (
        s.send matches Some(WsMessage::Text(x)) && x@ == worker_error_text(
            SseFrameStyle::Legacy,
            m@,
            parsed(encode_utf8(m@)),
        )),
        (e matches WorkerEvent::Payload(p) && p is Done) ==> (
        s.send matches Some(WsMessage::Text(x)) && x@ == done_text()),
{
}

} // verus!
