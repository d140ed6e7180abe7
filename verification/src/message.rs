//! The requests and responses that the queue carries to the workers and back.

use crate::text::{
    dec, numerals_are_parsed, parse_i32, parse_unsigned, same_text, signed32, to_chars, unsigned,
};
use std::sync::Arc;
use vstd::prelude::*;

verus! {

/// A shared, immutable byte buffer.
#[verifier::external_type_specification]
#[verifier::external_body]
pub struct ExBytes(bytes::Bytes);

/// The bytes that a `bytes::Bytes` holds.
pub uninterp spec fn bytes_of(b: bytes::Bytes) -> Seq<u8>;

/// `Bytes::clone` gives a second handle on the same bytes.
#[verifier::external_body]
pub(crate) fn share(b: &bytes::Bytes) -> (r: bytes::Bytes)
    ensures
        bytes_of(r) == bytes_of(*b),
{
    b.clone()
}

/// `Bytes::new` gives a buffer with no bytes.
#[verifier::external_body]
fn no_bytes() -> (r: bytes::Bytes)
    ensures
        bytes_of(r) == Seq::<u8>::empty(),
{
    bytes::Bytes::new()
}

/// What a request says of itself: its headers, each name once, and the
/// sequence it belongs to.
pub struct RequestMeta {
    pub sequence_id: Option<String>,
    pub headers: Vec<(String, String)>,
}

/// The value of the header `name`.
pub open spec fn header_value(headers: Seq<(String, String)>, name: Seq<char>) -> Option<Seq<char>>
    decreases headers.len(),
{
    if headers.len() == 0 {
        None
    } else if headers[0].0@ == name {
        Some(headers[0].1@)
    } else {
        header_value(headers.subrange(1, headers.len() as int), name)
    }
}

/// The value of the header `name`.
pub fn header<'a>(headers: &'a Vec<(String, String)>, name: &str) -> (r: Option<&'a String>)
    ensures
        match r {
            Some(v) => header_value(headers@, name@) == Some(v@),
            None => header_value(headers@, name@) is None,
        },
{
    let mut i: usize = 0;
    assert(headers@.subrange(0, headers@.len() as int) =~= headers@);
    while i < headers.len()
        invariant
            i <= headers@.len(),
            header_value(headers@.subrange(i as int, headers@.len() as int), name@)
                == header_value(headers@, name@),
        decreases headers.len() - i,
    {
        let ghost rest = headers@.subrange(i as int, headers@.len() as int);
        if same_text(headers[i].0.as_str(), name) {
            return Some(&headers[i].1);
        }
        assert(rest.subrange(1, rest.len() as int) =~= headers@.subrange(
            i + 1,
            headers@.len() as int,
        ));
        i = i + 1;
    }
    None
}

/// The header `name` of a request, where it has meta data at all.
pub open spec fn meta_header(meta: Option<Arc<RequestMeta>>, name: Seq<char>) -> Option<Seq<char>> {
    match meta {
        Some(m) => header_value(m.headers@, name),
        None => None,
    }
}

/// The priority that a request asks for with `x-lite-priority`; 0 where it asks
/// for none or for something else.
pub open spec fn priority_of(meta: Option<Arc<RequestMeta>>) -> int {
    match meta_header(meta, "x-lite-priority"@) {
        Some(v) => match signed32(v) {
            Some(p) => p,
            None => 0,
        },
        None => 0,
    }
}

/// The worker that a request asks for with `x-lite-worker-id`.
pub open spec fn pin_of(meta: Option<Arc<RequestMeta>>) -> Option<nat> {
    match meta_header(meta, "x-lite-worker-id"@) {
        Some(v) => unsigned(v, u32::MAX as nat),
        None => None,
    }
}

/// The sequence that a request belongs to.
pub open spec fn sequence_of(meta: Option<Arc<RequestMeta>>) -> Option<Seq<char>> {
    match meta {
        Some(m) => match m.sequence_id {
            Some(s) => Some(s@),
            None => None,
        },
        None => None,
    }
}

/// What keeps a request on one worker: its sequence, or a key that it sends in
/// `x-lite-affinity-key`.
pub open spec fn affinity_key_of(meta: Option<Arc<RequestMeta>>) -> Option<Seq<char>> {
    match sequence_of(meta) {
        Some(s) => Some(s),
        None => match meta_header(meta, "x-lite-affinity-key"@) {
            Some(k) => if k.len() > 0 {
                Some(k)
            } else {
                None
            },
            None => None,
        },
    }
}

/// The count of a queue that a submitted request holds up until it is answered.
pub struct InflightGuard {
    pub slot: usize,
}

/// A request that waits for a worker. `reply` is where its response goes.
pub struct QueueItem<R> {
    pub uid: String,
    pub data: bytes::Bytes,
    pub meta: Option<Arc<RequestMeta>>,
    pub reply: R,
    pub inflight_guard: Option<InflightGuard>,
    /// When the request was submitted, in nanoseconds of the queue's clock.
    pub enqueued_at: u128,
}

/// The priority that `item` asks for.
pub fn item_priority<R>(item: &QueueItem<R>) -> (p: i32)
    ensures
        p == priority_of(item.meta),
{
    match &item.meta {
        None => 0,
        Some(m) => match header(&m.headers, "x-lite-priority") {
            None => 0,
            Some(v) => {
                let chars = to_chars(v.as_str());
                match parse_i32(chars.as_slice()) {
                    Some(p) => p,
                    None => 0,
                }
            },
        },
    }
}

/// The worker that `item` asks for.
pub fn direct_pin<R>(item: &QueueItem<R>) -> (p: Option<usize>)
    ensures
        match p {
            Some(w) => pin_of(item.meta) == Some(w as nat),
            None => pin_of(item.meta) is None,
        },
{
    match &item.meta {
        None => None,
        Some(m) => match header(&m.headers, "x-lite-worker-id") {
            None => None,
            Some(v) => {
                let chars = to_chars(v.as_str());
                match parse_unsigned(chars.as_slice(), u32::MAX as u64) {
                    Some(w) => Some(w as usize),
                    None => None,
                }
            },
        },
    }
}

/// What keeps `item` on one worker.
pub fn affinity_key<'a, R>(item: &'a QueueItem<R>) -> (k: Option<&'a String>)
    ensures
        match k {
            Some(s) => affinity_key_of(item.meta) == Some(s@),
            None => affinity_key_of(item.meta) is None,
        },
{
    match &item.meta {
        None => None,
        Some(m) => match &m.sequence_id {
            Some(s) => Some(s),
            None => match header(&m.headers, "x-lite-affinity-key") {
                Some(k) => if k.as_str().is_empty() {
                    None
                } else {
                    Some(k)
                },
                None => None,
            },
        },
    }
}

/// The outcome that a worker reports.
pub struct Status {
    pub code: String,
    pub message: String,
}

/// The answer to one request.
pub struct SingleResponse {
    pub data: bytes::Bytes,
    pub headers: Vec<(String, String)>,
    pub status: Option<Status>,
    pub status_code: i32,
    pub media_type: String,
}

/// The answer to one request of a batch.
pub struct BatchItemResponse {
    pub uid: String,
    pub data: bytes::Bytes,
    pub headers: Vec<(String, String)>,
    pub status: Option<Status>,
    pub status_code: i32,
    pub media_type: String,
}

/// What a worker measured, as it sent it.
pub struct Metrics {
    pub encoded: Vec<u8>,
}

/// What a client gets back.
pub struct Response {
    pub uid: String,
    pub single: SingleResponse,
    pub metrics: Option<Metrics>,
}

/// Whether both are the same report.
pub open spec fn same_status(a: Option<Status>, b: Option<Status>) -> bool {
    match (a, b) {
        (Some(x), Some(y)) => x.code@ == y.code@ && x.message@ == y.message@,
        (None, None) => true,
        _ => false,
    }
}

pub open spec fn same_metrics(a: Option<Metrics>, b: Option<Metrics>) -> bool {
    match (a, b) {
        (Some(x), Some(y)) => x.encoded@ == y.encoded@,
        (None, None) => true,
        _ => false,
    }
}

pub open spec fn same_single(a: SingleResponse, b: SingleResponse) -> bool {
    &&& bytes_of(a.data) == bytes_of(b.data)
    &&& a.headers@ == b.headers@
    &&& same_status(a.status, b.status)
    &&& a.status_code == b.status_code
    &&& a.media_type@ == b.media_type@
}

/// Whether `r` answers with what `item` holds.
pub open spec fn carries(r: SingleResponse, item: BatchItemResponse) -> bool {
    &&& bytes_of(r.data) == bytes_of(item.data)
    &&& r.headers@ == item.headers@
    &&& same_status(r.status, item.status)
    &&& r.status_code == item.status_code
    &&& r.media_type@ == item.media_type@
}

/// Whether `r` is an empty answer that reports `code` and `message`.
pub open spec fn reports(r: SingleResponse, code: Seq<char>, message: Seq<char>) -> bool {
    &&& bytes_of(r.data).len() == 0
    &&& r.headers@.len() == 0
    &&& r.status matches Some(s) && s.code@ == code && s.message@ == message
    &&& r.status_code == 0
    &&& r.media_type@.len() == 0
}

/// Whether a report is one of an error.
pub open spec fn is_error_status(s: Option<Status>) -> bool {
    s matches Some(st) && st.code@ == "Error"@
}

/// Whether `s` reports an error.
pub fn is_error(s: &Option<Status>) -> (r: bool)
    ensures
        r == is_error_status(*s),
{
    match s {
        Some(st) => same_text(st.code.as_str(), "Error"),
        None => false,
    }
}

pub fn clone_headers(h: &Vec<(String, String)>) -> (r: Vec<(String, String)>)
    ensures
        r@ == h@,
{
    let mut out: Vec<(String, String)> = Vec::new();
    let mut i: usize = 0;
    while i < h.len()
        invariant
            i <= h@.len(),
            out@ == h@.take(i as int),
        decreases h.len() - i,
    {
        let pair = (h[i].0.clone(), h[i].1.clone());
        out.push(pair);
        assert(h@.take(i + 1) =~= h@.take(i as int).push(h@[i as int]));
        i = i + 1;
    }
    assert(h@.take(i as int) =~= h@);
    out
}

pub fn clone_status(s: &Option<Status>) -> (r: Option<Status>)
    ensures
        same_status(r, *s),
{
    match s {
        Some(st) => Some(Status { code: st.code.clone(), message: st.message.clone() }),
        None => None,
    }
}

pub fn clone_metrics(m: &Option<Metrics>) -> (r: Option<Metrics>)
    ensures
        same_metrics(r, *m),
{
    match m {
        Some(x) => {
            let mut encoded: Vec<u8> = Vec::new();
            let mut i: usize = 0;
            while i < x.encoded.len()
                invariant
                    i <= x.encoded@.len(),
                    encoded@ == x.encoded@.take(i as int),
                decreases x.encoded.len() - i,
            {
                encoded.push(x.encoded[i]);
                assert(x.encoded@.take(i + 1) =~= x.encoded@.take(i as int).push(
                    x.encoded@[i as int],
                ));
                i = i + 1;
            }
            assert(x.encoded@.take(i as int) =~= x.encoded@);
            Some(Metrics { encoded })
        },
        None => None,
    }
}

pub fn clone_single(s: &SingleResponse) -> (r: SingleResponse)
    ensures
        same_single(r, *s),
{
    SingleResponse {
        data: share(&s.data),
        headers: clone_headers(&s.headers),
        status: clone_status(&s.status),
        status_code: s.status_code,
        media_type: s.media_type.clone(),
    }
}

/// An empty answer that reports `code` and `message`.
pub fn status_only(code: String, message: String) -> (r: SingleResponse)
    ensures
        reports(r, code@, message@),
{
    SingleResponse {
        data: no_bytes(),
        headers: Vec::new(),
        status: Some(Status { code, message }),
        status_code: 0,
        media_type: String::new(),
    }
}

/// The response to the request `uid` of a batch: what the worker answered to
/// it, or an error where the worker left it out.
pub fn batch_item_to_single_response(
    uid: String,
    resp_item: Option<&BatchItemResponse>,
    metrics: Option<Metrics>,
) -> (r: Response)
    ensures
        r.uid@ == uid@,
        match resp_item {
            Some(item) => carries(r.single, *item) && same_metrics(r.metrics, metrics),
            None => reports(r.single, "Error"@, "missing in batch response"@)
                && r.metrics is None,
        },
{
    match resp_item {
        Some(item) => Response {
            uid,
            single: SingleResponse {
                data: share(&item.data),
                headers: clone_headers(&item.headers),
                status: clone_status(&item.status),
                status_code: item.status_code,
                media_type: item.media_type.clone(),
            },
            metrics,
        },
        None => Response {
            uid,
            single: status_only("Error".to_string(), "missing in batch response".to_string()),
            metrics: None,
        },
    }
}

/// A header is found by its name, and the first one where several have it. No
/// other name is found.
pub proof fn headers_are_found_by_name(headers: Seq<(String, String)>, i: int, name: Seq<char>)
    ensures
        0 <= i < headers.len() && headers[i].0@ == name && (forall|j: int|
            0 <= j < i ==> (#[trigger] headers[j]).0@ != name) ==> header_value(headers, name)
            == Some(headers[i].1@),
        (forall|j: int| 0 <= j < headers.len() ==> (#[trigger] headers[j]).0@ != name)
            ==> header_value(headers, name) is None,
    decreases headers.len(),
{
    if headers.len() > 0 {
        let rest = headers.subrange(1, headers.len() as int);
        assert forall|j: int| 0 <= j < rest.len() implies #[trigger] rest[j] == headers[j + 1] by {}
        headers_are_found_by_name(rest, i - 1, name);
        if 0 < i < headers.len() {
            assert(rest[i - 1] == headers[i]);
        }
    }
}

/// A request with a number in `x-lite-priority` asks for that priority. One
/// without the header asks for 0, and so does one with a number that is too large.
pub proof fn priorities_are_the_numbers_sent(m: Arc<RequestMeta>, n: nat)
    ensures
        header_value(m.headers@, "x-lite-priority"@) == Some(dec(n)) ==> priority_of(Some(m))
            == if n < 0x8000_0000 {
            n as int
        } else {
            0
        },
        header_value(m.headers@, "x-lite-priority"@) == Some(seq!['-'] + dec(n)) ==> priority_of(
            Some(m),
        ) == if n <= 0x8000_0000 {
            -(n as int)
        } else {
            0
        },
        header_value(m.headers@, "x-lite-priority"@) is None ==> priority_of(Some(m)) == 0,
        priority_of(None) == 0,
{
    numerals_are_parsed(n, 0);
}

/// A request with a number in `x-lite-worker-id` asks for that worker. One without
/// the header, with a negative number or with one that is too large asks for none.
pub proof fn pins_are_the_numbers_sent(m: Arc<RequestMeta>, n: nat)
    ensures
        header_value(m.headers@, "x-lite-worker-id"@) == Some(dec(n)) ==> pin_of(Some(m)) == if n
            < 0x1_0000_0000 {
            Some(n)
        } else {
            None
        },
        header_value(m.headers@, "x-lite-worker-id"@) == Some(seq!['-'] + dec(n)) ==> pin_of(
            Some(m),
        ) is None,
        header_value(m.headers@, "x-lite-worker-id"@) is None ==> pin_of(Some(m)) is None,
        pin_of(None) is None,
{
    numerals_are_parsed(n, u32::MAX as nat);
}

/// A request of a sequence is kept together by the sequence, whatever key it
/// sends, and any other by its key. An empty key keeps nothing together.
pub proof fn sequences_come_before_keys(m: Arc<RequestMeta>, key: Seq<char>)
    ensures
        m.sequence_id matches Some(s) ==> affinity_key_of(Some(m)) == Some(s@) && sequence_of(
            Some(m),
        ) == Some(s@),
        m.sequence_id is None ==> sequence_of(Some(m)) is None,
        m.sequence_id is None && header_value(m.headers@, "x-lite-affinity-key"@) == Some(key)
            && key.len() > 0 ==> affinity_key_of(Some(m)) == Some(key),
        m.sequence_id is None && header_value(m.headers@, "x-lite-affinity-key"@) == Some(key)
            && key.len() == 0 ==> affinity_key_of(Some(m)) is None,
        m.sequence_id is None && header_value(m.headers@, "x-lite-affinity-key"@) is None
            ==> affinity_key_of(Some(m)) is None,
        affinity_key_of(None) is None,
        sequence_of(None) is None,
{
}

/// A response holds nothing that its item does not hold, and all that it holds.
pub proof fn answers_carry_all_of_their_item(
    r: SingleResponse,
    a: BatchItemResponse,
    b: BatchItemResponse,
)
    requires
        carries(r, a),
        carries(r, b),
    ensures
        bytes_of(a.data) == bytes_of(b.data),
        a.headers@ == b.headers@,
        a.status is Some <==> b.status is Some,
        a.status is Some ==> a.status->0.code@ == b.status->0.code@ && a.status->0.message@
            == b.status->0.message@,
        a.status_code == b.status_code,
        a.media_type@ == b.media_type@,
        is_error_status(r.status) <==> is_error_status(a.status),
{
}

/// What a worker measured is passed on as it was sent, and nothing where it
/// measured nothing.
pub proof fn measurements_are_passed_on(a: Option<Metrics>, b: Option<Metrics>)
    ensures
        same_metrics(a, b) <==> (a is None && b is None) || (a matches Some(x) && b matches Some(y)
            && x.encoded@ == y.encoded@),
{
}

/// A copy of a response holds all that the response holds.
pub proof fn copies_are_the_same(a: SingleResponse, b: SingleResponse)
    requires
        same_single(a, b),
    ensures
        bytes_of(a.data) == bytes_of(b.data),
        a.headers@ == b.headers@,
        a.status is Some <==> b.status is Some,
        a.status is Some ==> a.status->0.code@ == b.status->0.code@ && a.status->0.message@
            == b.status->0.message@,
        a.status_code == b.status_code,
        a.media_type@ == b.media_type@,
{
}

/// A report says one thing: it has one code and one message, no bytes and no
/// headers. It is an error exactly where its code says so.
pub proof fn reports_say_one_thing(
    r: SingleResponse,
    code: Seq<char>,
    message: Seq<char>,
    other: Seq<char>,
    text: Seq<char>,
)
    requires
        reports(r, code, message),
    ensures
        reports(r, other, text) ==> other == code && text == message,
        bytes_of(r.data) == Seq::<u8>::empty(),
        r.headers@ == Seq::<(String, String)>::empty(),
        r.status_code == 0,
        r.media_type@ == Seq::<char>::empty(),
        is_error_status(r.status) <==> code == "Error"@,
{
}

} // verus!
