use lite_server::json::parse_json;
use lite_server::kserve::RequestBody;
use lite_server::stream::{
    accept_first_frame, after_gone, after_keepalive, after_send, aggregate, aggregation_bound,
    aggregation_timeout_message, check_event_request, check_stream_target, check_worker_index,
    counts_as_server_error, error_event, first_frame_budget, first_refusal_text, is_cancel_or_close_frame, is_close_frame,
    is_frame_type, is_json_content_type, is_stream_terminal, normalize_binary_first_frame_ct,
    new_stream_id, open_error_message, read_frame, send_timed_out, sse_cleanup, stream_deadline,
    timed_out, worker_error_event, ws_cleanup, ws_error_frames,
    ws_refusal_text, AggregateInput, AggregateStep, ChunkTiming, Cleanup, CloseReason, EarlyRefusal, FirstFrame,
    FirstInput, FirstRefusal, Gate, GateRefusal, OpenError, ReaderStep, SendOutcome, SseForwarder,
    SseFrameStyle, StreamPayload, WorkerEvent, WsErrorKind, WsForwarder, WsInput, WsMessage,
};
use lite_server::time::Duration;
use lite_server::utf8::{direct_chunk_utf8, ensemble_chunk_utf8};

fn chunk(bytes: &[u8]) -> WorkerEvent {
    WorkerEvent::Payload(StreamPayload::Chunk(bytes.to_vec()))
}

fn failure(message: &str) -> WorkerEvent {
    WorkerEvent::Payload(StreamPayload::Error(message.to_string()))
}

fn done() -> WorkerEvent {
    WorkerEvent::Payload(StreamPayload::Done)
}

#[test]
fn is_stream_terminal_error_is_terminal() {
    assert!(
        is_stream_terminal(&StreamPayload::Error("boom".to_string())),
        "Error is a terminal frame"
    );
    assert!(is_stream_terminal(&StreamPayload::Done));
    assert!(!is_stream_terminal(&StreamPayload::Chunk(vec![1])));
    assert!(!is_stream_terminal(&StreamPayload::Empty));
}

#[test]
fn m2_ensemble_chunk_utf8_normalizes_cr_like_direct_path() {
    let mut pending = Vec::new();
    let direct = direct_chunk_utf8(&mut pending, b"a\r\nb\rc");
    assert_eq!(direct.as_deref(), Some("a\nb\nc"));

    let mut pending = Vec::new();
    let out = ensemble_chunk_utf8(&mut pending, b"a\r\nb\rc")
        .expect("text input must be text")
        .expect("complete chunk must emit");
    assert!(!out.contains('\r'), "{out:?}");
    assert_eq!(out, "a\nb\nc");
}

#[test]
fn b2_ct_normalization_missing_injects_octet_stream() {
    assert_eq!(normalize_binary_first_frame_ct(None), "application/octet-stream");
}

#[test]
fn b2_ct_normalization_non_json_preserved() {
    assert_eq!(
        normalize_binary_first_frame_ct(Some("image/png")),
        "image/png",
        "payload metadata must pass through"
    );
}

#[test]
fn b2_ct_normalization_json_rewritten() {
    for ct in ["application/json", "application/vnd.api+json"] {
        assert_eq!(
            normalize_binary_first_frame_ct(Some(ct)),
            "application/octet-stream",
            "JSON CT with a Binary frame is contradictory — frame type wins ({ct})"
        );
    }
}

#[test]
fn b2_body_kind_from_frame_type() {
    assert_eq!(FirstFrame::Json("{}".to_string()).body_kind(), "json");
    assert_eq!(FirstFrame::Raw(b"\x00".to_vec()).body_kind(), "raw");
}

#[test]
fn ws_writer_loop_error_then_done_fires_callback_once() {
    let mut f = WsForwarder::new(false);
    let mut fired = 0;
    for e in [failure("boom"), done()] {
        let s = f.on_worker(e);
        if s.fire_response {
            fired += 1;
        }
        if after_send(s.close, s.notice, s.send.is_some(), SendOutcome::Sent).is_some() {
            break;
        }
    }
    assert_eq!(fired, 1);
}

#[test]
fn sse_callback_fires_once_when_error_then_done() {
    let mut f = SseForwarder::new(SseFrameStyle::Legacy, false, false);
    let mut fired = 0;
    for e in [chunk(b"x"), failure("boom"), done()] {
        let s = f.on_worker(e);
        if s.fire_response {
            fired += 1;
        }
        if after_send(s.close, s.notice, s.send.is_some(), SendOutcome::Sent).is_some() {
            break;
        }
    }
    assert_eq!(fired, 1);
}

#[test]
fn json_types_are_recognised() {
    assert!(is_json_content_type("application/json; charset=utf-8"));
    assert!(is_json_content_type(" Application/JSON "));
    assert!(is_json_content_type("application/vnd.api+json"));
    assert!(!is_json_content_type("text/plain"));
    assert!(!is_json_content_type("text/x+json"));
    assert!(!is_json_content_type(""));
}

#[test]
fn characters_are_held_until_they_are_whole() {
    let mut pending = Vec::new();
    assert_eq!(direct_chunk_utf8(&mut pending, b"a\xc3").as_deref(), Some("a"));
    assert_eq!(pending, vec![0xc3]);
    assert_eq!(direct_chunk_utf8(&mut pending, b"\xa9b").as_deref(), Some("éb"));
    assert!(pending.is_empty());
    assert!(direct_chunk_utf8(&mut pending, b"\xf0\x9f").is_none());
    assert_eq!(pending.len(), 2);
    assert_eq!(direct_chunk_utf8(&mut pending, b"\x98\x80").as_deref(), Some("\u{1F600}"));
}

#[test]
fn broken_bytes_become_the_replacement_character() {
    let mut pending = Vec::new();
    assert_eq!(direct_chunk_utf8(&mut pending, b"a\xffb").as_deref(), Some("a\u{FFFD}b"));
    assert_eq!(
        direct_chunk_utf8(&mut pending, b"\xed\xa0\x80x").as_deref(),
        Some("\u{FFFD}\u{FFFD}\u{FFFD}x"),
        "surrogates are no characters"
    );
}

#[test]
fn cutting_a_text_makes_no_difference() {
    let text = "aé€\u{1F600}\n日本 ok";
    let bytes = text.as_bytes();
    for size in 1..=bytes.len() {
        let mut pending = Vec::new();
        let mut out = String::new();
        for part in bytes.chunks(size) {
            if let Some(s) = direct_chunk_utf8(&mut pending, part) {
                out.push_str(&s);
            }
        }
        assert_eq!(out, text, "cut into pieces of {size}");
        assert!(pending.is_empty());
    }
}

#[test]
fn an_ensemble_refuses_binary_data() {
    let mut pending = Vec::new();
    assert!(ensemble_chunk_utf8(&mut pending, b"\xff\x00").is_err());
    let mut f = SseForwarder::new(SseFrameStyle::Legacy, true, false);
    let s = f.on_worker(chunk(b"\xff"));
    assert_eq!(s.close, Some(CloseReason::TypeMismatch));
    assert_eq!(
        s.send.as_deref(),
        Some(r#"{"error":"ensemble streaming step produced a binary chunk on a text endpoint"}"#)
    );
    assert!(!s.fire_response);
}

#[test]
fn chunks_are_forwarded_counted_and_timed() {
    let mut f = SseForwarder::new(SseFrameStyle::Openai, false, true);
    let s = f.on_worker(chunk(b"ab"));
    assert_eq!(s.send.as_deref(), Some("ab"));
    assert_eq!(s.timing, ChunkTiming::First);
    assert!(s.close.is_none());
    let s = f.on_worker(chunk(b"\xe2\x82"));
    assert!(s.send.is_none());
    assert_eq!(s.timing, ChunkTiming::Between);
    assert!(f.holds_bytes_back());
    assert_eq!(f.output_bytes(), 4);
    assert_eq!(f.chunks(), 2);
    let s = f.on_worker(WorkerEvent::Payload(StreamPayload::Empty));
    assert!(s.send.is_none() && s.close.is_none());
    let s = f.on_worker(done());
    assert_eq!(s.send.as_deref(), Some("[DONE]"));
    assert_eq!(s.close, Some(CloseReason::Done));
    assert!(s.fire_response);
}

#[test]
fn generated_streams_end_without_a_word() {
    let mut f = SseForwarder::new(SseFrameStyle::Generate, false, false);
    let s = f.on_worker(done());
    assert!(s.send.is_none());
    assert_eq!(s.close, Some(CloseReason::Done));
}

#[test]
fn errors_keep_the_form_of_the_worker() {
    assert_eq!(error_event(SseFrameStyle::Legacy, "a\"b"), r#"{"error":"a\"b"}"#);
    assert_eq!(error_event(SseFrameStyle::Openai, "x"), r#"{"error":{"message":"x"}}"#);
    let typed = r#"{"error":{"type":"T","message":"m"}}"#;
    let doc = parse_json(typed.as_bytes());
    let back = worker_error_event(SseFrameStyle::Legacy, typed, doc.as_ref());
    let back: serde_json::Value = serde_json::from_str(&back).unwrap();
    assert_eq!(back["error"]["type"], "T");
    assert_eq!(back["error"]["message"], "m");
    let untyped = r#"{"error":{"message":"m"}}"#;
    let doc = parse_json(untyped.as_bytes());
    let back = worker_error_event(SseFrameStyle::Legacy, untyped, doc.as_ref());
    let back: serde_json::Value = serde_json::from_str(&back).unwrap();
    assert_eq!(back["error"], untyped);
    let mut f = SseForwarder::new(SseFrameStyle::Legacy, false, false);
    let s = f.on_worker(failure("plain"));
    assert_eq!(s.send.as_deref(), Some(r#"{"error":"plain"}"#));
    assert_eq!(s.close, Some(CloseReason::Error));
}

#[test]
fn last_notices_name_their_cause() {
    let cases = [
        (WorkerEvent::Eof, CloseReason::WorkerEof, "worker exited mid-stream"),
        (WorkerEvent::DeadlineElapsed, CloseReason::Deadline, "stream closed: deadline exceeded"),
        (WorkerEvent::IdleElapsed, CloseReason::Idle, "stream closed: idle timeout"),
    ];
    for (e, why, words) in cases {
        let mut f = SseForwarder::new(SseFrameStyle::Legacy, false, false);
        let s = f.on_worker(e);
        assert_eq!(s.close, Some(why));
        assert!(s.notice && s.fire_response);
        assert_eq!(s.send, Some(format!("{{\"error\":\"{words}\"}}")));
        // A notice that does not get through changes nothing.
        assert_eq!(after_send(s.close, s.notice, true, SendOutcome::Gone), Some(why));
    }
}

#[test]
fn sending_can_end_a_stream() {
    assert_eq!(after_send(None, false, true, SendOutcome::Sent), None);
    assert_eq!(after_send(None, false, false, SendOutcome::Gone), None);
    let done = Some(CloseReason::Done);
    assert_eq!(after_send(done, false, true, SendOutcome::Gone), Some(CloseReason::Cancel));
    assert_eq!(after_send(None, false, true, SendOutcome::Deadline), Some(CloseReason::Deadline));
    assert_eq!(after_send(None, false, true, SendOutcome::Idle), Some(CloseReason::Idle));
    assert_eq!(after_keepalive(true), None);
    assert_eq!(after_keepalive(false), Some(CloseReason::Cancel));
}

#[test]
fn the_right_workers_are_told_of_the_end() {
    assert_eq!(sse_cleanup(true, true), Cleanup::Chain);
    assert_eq!(sse_cleanup(false, true), Cleanup::Worker);
    assert_eq!(sse_cleanup(false, false), Cleanup::AllWorkers);
    assert_eq!(ws_cleanup(true), Cleanup::Chain);
    assert_eq!(ws_cleanup(false), Cleanup::Worker);
}

#[test]
fn control_frames_are_told_by_their_type() {
    assert!(is_close_frame(r#"{"type":"close"}"#));
    assert!(!is_close_frame(r#"{"type":"cancel"}"#));
    assert!(!is_close_frame("close"));
    assert!(is_cancel_or_close_frame(r#"{"type":"cancel","why":1}"#));
    assert!(is_cancel_or_close_frame(r#"{"type":"close"}"#));
    assert!(!is_cancel_or_close_frame(r#"{"kind":"close"}"#));
    let doc = parse_json(br#"{"type":"ping"}"#);
    assert!(is_frame_type(doc.as_ref(), "ping"));
    assert!(!is_frame_type(None, "ping"));
}

#[test]
fn frames_of_a_running_stream() {
    let text = |s: &str| WsInput::Text(s.to_string());
    let close = r#"{"type":"close"}"#;
    let cancel = r#"{"type":"cancel"}"#;
    assert!(matches!(read_frame(false, false, WsInput::Binary(vec![7])), ReaderStep::Forward(b) if b == vec![7]));
    assert!(matches!(read_frame(false, false, text(close)), ReaderStep::CloseInput));
    assert!(matches!(read_frame(false, false, text(cancel)), ReaderStep::Violation(w) if w == "unknown control frame"));
    assert!(matches!(read_frame(false, true, text(close)), ReaderStep::CancelWorker));
    assert!(matches!(read_frame(false, true, text(cancel)), ReaderStep::CancelWorker));
    assert!(matches!(read_frame(false, true, WsInput::Binary(vec![])), ReaderStep::Violation(w) if w == "decoupled stream accepts no data frames"));
    assert!(matches!(read_frame(true, true, text(cancel)), ReaderStep::CancelChain));
    assert!(matches!(read_frame(true, false, text(close)), ReaderStep::StopReading));
    assert!(matches!(read_frame(true, false, WsInput::Binary(vec![])), ReaderStep::Violation(_)));
    assert!(matches!(read_frame(false, false, WsInput::Close), ReaderStep::Gone));
    assert!(matches!(read_frame(false, false, WsInput::Failed), ReaderStep::Gone));
    assert!(matches!(read_frame(false, false, WsInput::Ended), ReaderStep::StopReading));
    assert!(matches!(read_frame(true, true, WsInput::Other), ReaderStep::Ignore));
    assert_eq!(after_gone(""), CloseReason::Cancel);
    assert_eq!(after_gone("unknown control frame"), CloseReason::Protocol);
}

#[test]
fn websockets_carry_bytes_and_words() {
    let mut f = WsForwarder::new(true);
    let s = f.on_worker(chunk(b"\xff\x00"));
    assert!(matches!(s.send, Some(WsMessage::Binary(b)) if b == vec![0xff, 0]));
    assert_eq!(s.timing, ChunkTiming::First);
    assert_eq!(f.output_bytes, 2);
    assert_eq!(f.chunks, 1);
    let s = f.on_worker(done());
    assert!(matches!(s.send, Some(WsMessage::Text(t)) if t == r#"{"done":true}"#));
    assert_eq!(s.close, Some(CloseReason::Done));
    let s = WsForwarder::new(false).on_worker(WorkerEvent::IdleElapsed);
    assert_eq!(s.close, Some(CloseReason::Idle));
    assert!(s.notice);
}

#[test]
fn first_frames_are_json_or_bytes() {
    let got = |i: WsInput| accept_first_frame(FirstInput::Received(i));
    assert!(matches!(got(WsInput::Text("{\"a\":1}".to_string())), Ok(FirstFrame::Json(_))));
    assert!(matches!(got(WsInput::Text("{".to_string())), Err(FirstRefusal::InvalidJson)));
    assert!(matches!(got(WsInput::Binary(vec![1])), Ok(FirstFrame::Raw(_))));
    assert!(matches!(got(WsInput::Close), Err(FirstRefusal::NoFrame)));
    assert!(matches!(accept_first_frame(FirstInput::TimedOut), Err(FirstRefusal::NoFrame)));
    assert_eq!(first_refusal_text(FirstRefusal::NoFrame), None);
    assert_eq!(
        first_refusal_text(FirstRefusal::InvalidJson).as_deref(),
        Some(r#"{"error":"invalid JSON"}"#)
    );
    let s = Duration::from_secs(3);
    assert_eq!(first_frame_budget(None, Some(s)), Some(s));
    assert_eq!(first_frame_budget(Some(s), None), Some(s));
    assert_eq!(first_frame_budget(None, None), None);
}

#[test]
fn inputs_in_several_frames_are_gathered() {
    let got = |i: WsInput| aggregate(AggregateInput::Received(i), None, 0);
    let text = |s: &str| WsInput::Text(s.to_string());
    assert!(matches!(got(text(r#"{"type":"close"}"#)), AggregateStep::Finish));
    assert!(matches!(got(text(r#"{"type":"cancel"}"#)), AggregateStep::Abandon));
    assert!(matches!(got(text("{}")), AggregateStep::Take(FirstFrame::Json(_))));
    assert!(matches!(got(WsInput::Binary(vec![])), AggregateStep::Take(FirstFrame::Raw(_))));
    assert!(matches!(got(WsInput::Other), AggregateStep::Ignore));
    assert!(matches!(got(WsInput::Ended), AggregateStep::Abandon));
    let late = aggregate(AggregateInput::TimedOut, Some(5), 5);
    assert!(matches!(late, AggregateStep::TimedOut { deadline: true }));
    let idle = aggregate(AggregateInput::TimedOut, Some(6), 5);
    assert!(matches!(idle, AggregateStep::TimedOut { deadline: false }));
    assert_eq!(aggregation_timeout_message(false), "bidi aggregation idle timeout");
    assert_eq!(
        aggregation_timeout_message(true),
        "bidi aggregation exceeded the overall deadline"
    );
    assert_eq!(aggregation_bound(Some(10), Some(3), 5), Some(3));
    assert_eq!(aggregation_bound(Some(7), Some(3), 5), Some(2));
    assert_eq!(aggregation_bound(Some(4), None, 5), Some(0));
    assert_eq!(aggregation_bound(None, None, 5), None);
}

#[test]
fn events_carry_no_binary_outputs() {
    let flag = r#"{"inputs":[{"name":"a","shape":[1],"datatype":"FP32","data":[1]}],"parameters":{"binary_data_output":true}}"#;
    assert!(check_event_request(&RequestBody::Json(flag.as_bytes().to_vec())).is_err());
    assert!(check_event_request(&RequestBody::Json(b"{}".to_vec())).is_ok());
    assert!(check_event_request(&RequestBody::Raw(vec![0])).is_ok());
}

#[test]
fn gates_are_passed_in_order() {
    let mut g = Gate::Resolve;
    for want in [Gate::Ready, Gate::Authorize, Gate::RateLimit, Gate::Passed, Gate::Passed] {
        g = g.advance(true, true);
        assert_eq!(g, want);
    }
    assert_eq!(Gate::Ready.advance(true, false), Gate::Passed);
    assert_eq!(Gate::Resolve.advance(false, true), Gate::Refused(GateRefusal::Unresolved));
    assert_eq!(Gate::Ready.advance(false, true), Gate::Refused(GateRefusal::NotReady));
    assert_eq!(Gate::Authorize.advance(false, true), Gate::Refused(GateRefusal::Unauthorized));
    assert_eq!(Gate::RateLimit.advance(false, true), Gate::Refused(GateRefusal::RateLimited));
    let refused = Gate::Refused(GateRefusal::Unauthorized);
    assert_eq!(refused.advance(true, true), refused);
    assert_eq!(ws_refusal_text(GateRefusal::NotReady), None);
    assert_eq!(
        ws_refusal_text(GateRefusal::Unauthorized).as_deref(),
        Some(r#"{"error":"unauthorized"}"#)
    );
    assert_eq!(
        ws_refusal_text(GateRefusal::RateLimited).as_deref(),
        Some(r#"{"error":"rate limit exceeded"}"#)
    );
}

#[test]
fn failures_close_with_their_code() {
    let f = ws_error_frames(WsErrorKind::PayloadTooLarge, "TOO_LARGE", "big");
    assert_eq!(f.close_code, 1009);
    assert_eq!(f.close_reason, "TOO_LARGE");
    assert_eq!(f.text, r#"{"error":{"code":"TOO_LARGE","message":"big"}}"#);
    assert_eq!(ws_error_frames(WsErrorKind::Validation, "a", "b").close_code, 1003);
    assert_eq!(ws_error_frames(WsErrorKind::Other, "a", "b").close_code, 1011);
}

#[test]
fn streams_need_a_worker() {
    assert_eq!(check_stream_target(None, Some(1)), Err(OpenError::ModelNotFound));
    assert_eq!(check_stream_target(Some(0), Some(1)), Err(OpenError::NoWorkers));
    assert_eq!(check_stream_target(Some(1), None), Err(OpenError::NoClients));
    assert_eq!(check_stream_target(Some(2), Some(2)), Ok(2));
    assert_eq!(check_worker_index(1, 2), Ok(1));
    assert_eq!(check_worker_index(2, 2), Err(OpenError::InvalidWorkerIndex));
    assert_eq!(open_error_message(OpenError::ModelNotFound, "m", "1"), "m version 1");
    assert_eq!(open_error_message(OpenError::NoWorkers, "m", "1"), "m has no workers");
    assert_eq!(open_error_message(OpenError::NoClients, "m", "1"), "m 1 has no ZMQ clients");
    assert_eq!(open_error_message(OpenError::InvalidWorkerIndex, "m", "1"), "invalid worker index");
}

#[test]
fn refusals_are_counted_on_the_side_that_failed() {
    let server = [
        EarlyRefusal::Gate(GateRefusal::NotReady),
        EarlyRefusal::InputDeclaration,
        EarlyRefusal::AggregationTimeout,
        EarlyRefusal::Execution { status: 503 },
        EarlyRefusal::Open,
    ];
    for r in server {
        assert!(counts_as_server_error(r), "{r:?}");
    }
    let client = [
        EarlyRefusal::Gate(GateRefusal::Unresolved),
        EarlyRefusal::Gate(GateRefusal::Unauthorized),
        EarlyRefusal::Gate(GateRefusal::RateLimited),
        EarlyRefusal::FirstFrame(FirstRefusal::NoFrame),
        EarlyRefusal::GraphSelector,
        EarlyRefusal::InputFrame,
        EarlyRefusal::Input,
        EarlyRefusal::NoStreamingStep,
        EarlyRefusal::Execution { status: 404 },
    ];
    for r in client {
        assert!(!counts_as_server_error(r), "{r:?}");
    }
}

#[test]
fn streams_end_at_the_first_deadline() {
    assert_eq!(stream_deadline(true, Some(5), Some(7)), Some(5));
    assert_eq!(stream_deadline(true, Some(9), Some(7)), Some(7));
    assert_eq!(stream_deadline(false, Some(5), Some(7)), Some(7));
    assert_eq!(stream_deadline(false, Some(5), None), None);
    assert_eq!(stream_deadline(true, Some(5), None), Some(5));
}

#[test]
fn streams_have_names_of_their_own() {
    let (a, b) = (new_stream_id(), new_stream_id());
    assert_ne!(a, b);
    assert_eq!(a.len(), "stream-".len() + 36);
    assert!(a.starts_with("stream-"));
}

#[test]
fn a_wait_ends_by_the_deadline_or_by_idling() {
    assert!(matches!(timed_out(Some(10), 10), WorkerEvent::DeadlineElapsed));
    assert!(matches!(timed_out(Some(10), 11), WorkerEvent::DeadlineElapsed));
    assert!(matches!(timed_out(Some(10), 9), WorkerEvent::IdleElapsed));
    assert!(matches!(timed_out(None, 9), WorkerEvent::IdleElapsed));
    assert_eq!(send_timed_out(Some(10), 10), SendOutcome::Deadline);
    assert_eq!(send_timed_out(Some(10), 9), SendOutcome::Idle);
    assert_eq!(send_timed_out(None, u128::MAX), SendOutcome::Idle);
}
