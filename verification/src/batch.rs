//! Sending a batch of requests to a worker, settling the requests with what the
//! worker answers, and trying again on another worker.

use crate::ids::{is_random_uuid, random_uuid};
use crate::message::{
    affinity_key, affinity_key_of, batch_item_to_single_response, bytes_of, carries, clone_metrics,
    clone_single, direct_pin, is_error, is_error_status, pin_of, reports, same_metrics,
    same_single, sequence_of, share, status_only, BatchItemResponse, InflightGuard, Metrics,
    QueueItem, RequestMeta, Response, SingleResponse,
};
use crate::outlier::{Circuits, OutlierState};
use crate::picker::{
    affinity_view, available, available_workers_are_picked, is_excluded, is_pick, pick_worker, Affinity, BalanceConfig,
};
use crate::text::same_text;
use crate::time::Duration;
use std::sync::Arc;
use vstd::prelude::*;

verus! {

/// Whether `p` is the worker that all requests ask for that ask for one.
pub open spec fn is_common_pin<R>(batch: Seq<QueueItem<R>>, p: Option<usize>) -> bool {
    match p {
        Some(w) => {
            &&& exists|i: int|
                0 <= i < batch.len() && #[trigger] pin_of(batch[i].meta) == Some(w as nat)
            &&& forall|i: int|
                0 <= i < batch.len() && #[trigger] pin_of(batch[i].meta) is Some ==> pin_of(
                    batch[i].meta,
                ) == Some(w as nat)
        },
        None => {
            ||| forall|i: int|
                0 <= i < batch.len() ==> #[trigger] pin_of(batch[i].meta) is None
            ||| exists|i: int, j: int|
                {
                    &&& 0 <= i < batch.len()
                    &&& 0 <= j < batch.len()
                    &&& #[trigger] pin_of(batch[i].meta) is Some
                    &&& #[trigger] pin_of(batch[j].meta) is Some
                    &&& pin_of(batch[i].meta) != pin_of(batch[j].meta)
                }
        },
    }
}

/// The worker that all requests ask for that ask for one. `None` where they
/// disagree or ask for none.
pub fn batch_direct_pin<R>(batch: &[QueueItem<R>]) -> (p: Option<usize>)
    ensures
        is_common_pin(batch@, p),
{
    let mut found: Option<usize> = None;
    let ghost mut at: int = 0;
    let mut i: usize = 0;
    while i < batch.len()
        invariant
            i <= batch@.len(),
            match found {
                Some(w) => {
                    &&& 0 <= at < i
                    &&& pin_of(batch@[at].meta) == Some(w as nat)
                    &&& forall|j: int|
                        0 <= j < i && #[trigger] pin_of(batch@[j].meta) is Some ==> pin_of(
                            batch@[j].meta,
                        ) == Some(w as nat)
                },
                None => forall|j: int| 0 <= j < i ==> #[trigger] pin_of(batch@[j].meta) is None,
            },
        decreases batch.len() - i,
    {
        match direct_pin(&batch[i]) {
            None => {},
            Some(w) => match found {
                None => {
                    found = Some(w);
                    proof {
                        at = i as int;
                    }
                },
                Some(first) => {
                    if w != first {
                        assert(pin_of(batch@[at].meta) != pin_of(batch@[i as int].meta));
                        return None;
                    }
                },
            },
        }
        i = i + 1;
    }
    found
}

/// What is known of the worker that serves the sequence of request `i`.
pub open spec fn known_worker<R>(
    batch: Seq<QueueItem<R>>,
    hits: Seq<Option<usize>>,
    i: int,
) -> Option<usize> {
    if sequence_of(batch[i].meta) is Some {
        hits[i]
    } else {
        None
    }
}

/// The sequence or key of the first of the requests that has one.
pub open spec fn first_key<R>(batch: Seq<QueueItem<R>>) -> Option<Seq<char>>
    decreases batch.len(),
{
    if batch.len() == 0 {
        None
    } else {
        match first_key(batch.drop_last()) {
            Some(k) => Some(k),
            None => affinity_key_of(batch.last().meta),
        }
    }
}

/// Whether `p` is the worker that serves the sequences of the requests, as far
/// as their workers are known. `None` where they are on different workers.
pub open spec fn is_common_worker<R>(
    batch: Seq<QueueItem<R>>,
    hits: Seq<Option<usize>>,
    p: Option<usize>,
) -> bool {
    match p {
        Some(w) => {
            &&& exists|i: int|
                0 <= i < batch.len() && #[trigger] known_worker(batch, hits, i) == Some(w)
            &&& forall|i: int|
                0 <= i < batch.len() && #[trigger] known_worker(batch, hits, i) is Some
                    ==> known_worker(batch, hits, i) == Some(w)
        },
        None => {
            ||| forall|i: int|
                0 <= i < batch.len() ==> #[trigger] known_worker(batch, hits, i) is None
            ||| exists|i: int, j: int|
                {
                    &&& 0 <= i < batch.len()
                    &&& 0 <= j < batch.len()
                    &&& #[trigger] known_worker(batch, hits, i) is Some
                    &&& #[trigger] known_worker(batch, hits, j) is Some
                    &&& known_worker(batch, hits, i) != known_worker(batch, hits, j)
                }
        },
    }
}

/// What keeps the batch on one worker. `hits[i]` is the worker that serves the
/// sequence of request `i`, where one is known.
pub fn batch_affinity<R>(batch: &[QueueItem<R>], hits: &[Option<usize>]) -> (a: Option<Affinity>)
    requires
        hits@.len() == batch@.len(),
    ensures
        match a {
            Some(x) => first_key(batch@) == Some(x.seq@) && is_common_worker(
                batch@,
                hits@,
                x.preferred,
            ),
            None => first_key(batch@) is None,
        },
{
    let mut key: Option<String> = None;
    let mut agreed: Option<usize> = None;
    let mut disagree = false;
    let ghost mut at: int = 0;
    let ghost mut other: int = 0;
    let mut i: usize = 0;
    while i < batch.len()
        invariant
            i <= batch@.len(),
            hits@.len() == batch@.len(),
            match key {
                Some(k) => first_key(batch@.take(i as int)) == Some(k@),
                None => first_key(batch@.take(i as int)) is None,
            },
            match agreed {
                Some(w) => {
                    &&& 0 <= at < i
                    &&& known_worker(batch@, hits@, at) == Some(w)
                    &&& disagree || forall|j: int|
                        0 <= j < i && #[trigger] known_worker(batch@, hits@, j) is Some
                            ==> known_worker(batch@, hits@, j) == Some(w)
                },
                None => !disagree && forall|j: int|
                    0 <= j < i ==> #[trigger] known_worker(batch@, hits@, j) is None,
            },
            disagree ==> {
                &&& 0 <= other < i
                &&& known_worker(batch@, hits@, other) is Some
                &&& known_worker(batch@, hits@, other) != agreed
            },
        decreases batch.len() - i,
    {
        assert(batch@.take(i + 1).drop_last() =~= batch@.take(i as int));
        if key.is_none() {
            key = match affinity_key(&batch[i]) {
                Some(k) => Some(k.clone()),
                None => None,
            };
        }
        let in_sequence = match &batch[i].meta {
            Some(m) => m.sequence_id.is_some(),
            None => false,
        };
        let hit: Option<usize> = if in_sequence {
            hits[i]
        } else {
            None
        };
        assert(hit == known_worker(batch@, hits@, i as int));
        match hit {
            None => {},
            Some(w) => match agreed {
                None => {
                    agreed = Some(w);
                    proof {
                        at = i as int;
                    }
                },
                Some(first) => {
                    if w != first {
                        disagree = true;
                        proof {
                            other = i as int;
                        }
                    }
                },
            },
        }
        i = i + 1;
    }
    assert(batch@.take(i as int) =~= batch@);
    proof {
        if disagree {
            assert(known_worker(batch@, hits@, at) != known_worker(batch@, hits@, other));
        }
    }
    match key {
        None => None,
        Some(seq) => Some(
            Affinity {
                seq,
                preferred: if disagree {
                    None
                } else {
                    agreed
                },
            },
        ),
    }
}

/// Whether worker `r` is a right choice for the batch and leaves the circuits
/// as `d`: the worker that the requests ask for, where it is available, and the
/// one that the balance picks otherwise.
pub open spec fn is_batch_worker<R>(
    c: Circuits,
    batch: Seq<QueueItem<R>>,
    loads: Seq<usize>,
    exclude: Seq<usize>,
    hits: Seq<Option<usize>>,
    balance: BalanceConfig,
    now: u128,
    r: int,
    d: Circuits,
) -> bool {
    exists|pin: Option<usize>, affinity: Option<(Seq<char>, Option<usize>)>|
        {
            &&& #[trigger] is_common_pin(batch, pin)
            &&& #[trigger] is_batch_affinity(batch, hits, affinity)
            &&& match pin {
                Some(w) => if w < loads.len() && available(c, exclude, now, w as int) {
                    r == w && d == c.after_look(w as int, now)
                } else if w < loads.len() {
                    is_pick(
                        c.after_look(w as int, now),
                        loads,
                        exclude,
                        now,
                        affinity,
                        balance,
                        r,
                        d,
                    )
                } else {
                    is_pick(c, loads, exclude, now, affinity, balance, r, d)
                },
                None => is_pick(c, loads, exclude, now, affinity, balance, r, d),
            }
        }
}

/// Whether `affinity` is what keeps the batch on one worker.
pub open spec fn is_batch_affinity<R>(
    batch: Seq<QueueItem<R>>,
    hits: Seq<Option<usize>>,
    affinity: Option<(Seq<char>, Option<usize>)>,
) -> bool {
    match affinity {
        Some((key, preferred)) => first_key(batch) == Some(key) && is_common_worker(
            batch,
            hits,
            preferred,
        ),
        None => first_key(batch) is None,
    }
}

/// The worker that the batch goes to. `loads` are the batches that each worker
/// has under way, and `now` is on the clock of the circuits.
pub fn choose_worker<R>(
    batch: &[QueueItem<R>],
    loads: &[usize],
    outlier: &mut OutlierState,
    exclude: &[usize],
    hits: &[Option<usize>],
    balance: BalanceConfig,
    now: u128,
) -> (r: usize)
    requires
        hits@.len() == batch@.len(),
    ensures
        is_batch_worker(
            old(outlier)@,
            batch@,
            loads@,
            exclude@,
            hits@,
            balance,
            now,
            r as int,
            final(outlier)@,
        ),
        loads@.len() > 0 ==> r < loads@.len(),
{
    let ghost c = outlier@;
    let pin = batch_direct_pin(batch);
    let affinity = batch_affinity(batch, hits);
    let ghost a = affinity_view(affinity);
    proof {
        assert(is_common_pin(batch@, pin));
        assert(is_batch_affinity(batch@, hits@, a));
    }
    if let Some(w) = pin {
        if w < loads.len() && !outlier.is_ejected_at(w, now) && !is_excluded(exclude, w) {
            return w;
        }
    }
    pick_worker(loads, outlier, exclude, affinity, balance, now)
}

/// A batch goes to an available worker where there is one: a batch that is sent
/// again does not go to a worker that has failed it, and a worker that the
/// requests ask for is left out where it is ejected.
pub proof fn batches_go_to_available_workers<R>(
    c: Circuits,
    batch: Seq<QueueItem<R>>,
    loads: Seq<usize>,
    exclude: Seq<usize>,
    hits: Seq<Option<usize>>,
    balance: BalanceConfig,
    now: u128,
    r: int,
    d: Circuits,
    i: int,
)
    requires
        is_batch_worker(c, batch, loads, exclude, hits, balance, now, r, d),
        0 <= i < loads.len(),
        available(c, exclude, now, i),
    ensures
        0 <= r < loads.len(),
        available(c, exclude, now, r),
{
    let (pin, affinity) = choose|pin: Option<usize>, affinity: Option<(Seq<char>, Option<usize>)>|
        {
            &&& #[trigger] is_common_pin(batch, pin)
            &&& #[trigger] is_batch_affinity(batch, hits, affinity)
            &&& match pin {
                Some(w) => if w < loads.len() && available(c, exclude, now, w as int) {
                    r == w && d == c.after_look(w as int, now)
                } else if w < loads.len() {
                    is_pick(
                        c.after_look(w as int, now),
                        loads,
                        exclude,
                        now,
                        affinity,
                        balance,
                        r,
                        d,
                    )
                } else {
                    is_pick(c, loads, exclude, now, affinity, balance, r, d)
                },
                None => is_pick(c, loads, exclude, now, affinity, balance, r, d),
            }
        };
    if is_pick(c, loads, exclude, now, affinity, balance, r, d) {
        available_workers_are_picked(c, loads, exclude, now, affinity, balance, r, d, i);
    } else if let Some(w) = pin {
        if !available(c, exclude, now, w as int) {
            let seen = c.after_look(w as int, now);
            assert(available(seen, exclude, now, i));
            available_workers_are_picked(seen, loads, exclude, now, affinity, balance, r, d, i);
        }
    }
}

/// One request of a batch, as it is sent.
pub struct BatchItem {
    pub uid: String,
    pub data: bytes::Bytes,
}

/// What is sent: one request alone, or several together.
pub enum RequestPayload {
    Single(bytes::Bytes),
    Batch(Vec<BatchItem>),
}

/// What a worker is sent.
pub struct WorkerRequest {
    pub uid: String,
    pub meta: Option<Arc<RequestMeta>>,
    pub payload: RequestPayload,
}

/// `Arc::clone` gives a second handle on the same value.
#[verifier::external_body]
fn share_meta(m: &Arc<RequestMeta>) -> (r: Arc<RequestMeta>)
    ensures
        r == *m,
{
    m.clone()
}

/// The request that sends `batch`. One request goes under its own name,
/// several go under the name `batch_uid`, with the meta data of the first.
pub fn build_request<R>(batch: &[QueueItem<R>], batch_uid: String) -> (r: WorkerRequest)
    requires
        batch@.len() > 0,
    ensures
        r.meta == batch@[0].meta,
        if batch@.len() == 1 {
            &&& r.uid@ == batch@[0].uid@
            &&& r.payload matches RequestPayload::Single(d) && bytes_of(d) == bytes_of(
                batch@[0].data,
            )
        } else {
            &&& r.uid@ == batch_uid@
            &&& r.payload matches RequestPayload::Batch(items) && items@.len() == batch@.len()
                && forall|i: int|
                0 <= i < batch@.len() ==> {
                    &&& (#[trigger] items@[i]).uid@ == batch@[i].uid@
                    &&& bytes_of(items@[i].data) == bytes_of(batch@[i].data)
                }
        },
{
    let meta = match &batch[0].meta {
        Some(m) => Some(share_meta(m)),
        None => None,
    };
    if batch.len() == 1 {
        return WorkerRequest {
            uid: batch[0].uid.clone(),
            meta,
            payload: RequestPayload::Single(share(&batch[0].data)),
        };
    }
    let mut items: Vec<BatchItem> = Vec::new();
    let mut i: usize = 0;
    while i < batch.len()
        invariant
            i <= batch@.len(),
            items@.len() == i,
            forall|j: int|
                0 <= j < i ==> {
                    &&& (#[trigger] items@[j]).uid@ == batch@[j].uid@
                    &&& bytes_of(items@[j].data) == bytes_of(batch@[j].data)
                },
        decreases batch.len() - i,
    {
        items.push(BatchItem { uid: batch[i].uid.clone(), data: share(&batch[i].data) });
        i = i + 1;
    }
    WorkerRequest { uid: batch_uid, meta, payload: RequestPayload::Batch(items) }
}

/// A new name for a batch.
pub fn new_batch_uid() -> (r: String)
    ensures
        exists|u: Seq<char>| #[trigger] is_random_uuid(u) && r@ == "batch-"@ + u,
{
    let id = random_uuid();
    let mut out = "batch-".to_string();
    out.append(id.as_str());
    assert(is_random_uuid(id@));
    out
}

/// How long an answer of a worker is waited for where nothing else is asked
/// for, in seconds.
pub const ZMQ_RESPONSE_TIMEOUT_SECS: u64 = 300;

/// How long the answer to a batch is waited for: as long as is asked for, and a
/// fixed time where nothing is.
pub fn effective_timeout(request_timeout: Duration) -> (d: Duration)
    ensures
        d.nanos == if request_timeout.nanos > 0 {
            request_timeout.nanos
        } else {
            300_000_000_000
        },
{
    if request_timeout.is_zero() {
        Duration::from_secs(ZMQ_RESPONSE_TIMEOUT_SECS)
    } else {
        request_timeout
    }
}

/// What a worker sends back, or what came of waiting for it.
pub enum WorkerReply {
    Batch { items: Vec<BatchItemResponse>, metrics: Option<Metrics> },
    Single { response: SingleResponse, metrics: Option<Metrics> },
    /// An answer of another form.
    Unexpected,
    /// No answer came in time.
    TimedOut,
    /// The request could not be sent or the answer not be read.
    Failed(String),
}

/// A response on its way to a client.
pub struct Delivery<R> {
    pub to: R,
    pub guard: Option<InflightGuard>,
    pub response: Response,
}

/// Why a batch failed.
pub struct BatchError {
    pub worker_idx: usize,
    pub code: String,
    pub message: String,
    /// What the worker answered for the whole batch.
    pub single: Option<(SingleResponse, Option<Metrics>)>,
}

/// What came of sending a batch.
pub struct Settled<R> {
    pub deliveries: Vec<Delivery<R>>,
    pub outcome: Result<(), BatchError>,
    /// Whether the worker was ejected.
    pub ejected: bool,
}

/// The position of the last answer to the request `uid`.
pub open spec fn last_answer(items: Seq<BatchItemResponse>, uid: Seq<char>) -> Option<int>
    decreases items.len(),
{
    if items.len() == 0 {
        None
    } else if items.last().uid@ == uid {
        Some(items.len() - 1)
    } else {
        last_answer(items.drop_last(), uid)
    }
}

/// Whether the worker answered the request `uid` without an error.
pub open spec fn answered_well(items: Seq<BatchItemResponse>, uid: Seq<char>) -> bool {
    last_answer(items, uid) matches Some(k) && !is_error_status(items[k].status)
}

/// Whether `d` goes to the sender of `q`.
pub open spec fn goes_to<R>(d: Delivery<R>, q: QueueItem<R>) -> bool {
    d.to == q.reply && d.guard == q.inflight_guard && d.response.uid@ == q.uid@
}

/// Whether `d` answers `q` with what the worker sent for it, or with an error
/// where the worker sent nothing for it.
pub open spec fn answers<R>(
    d: Delivery<R>,
    q: QueueItem<R>,
    items: Seq<BatchItemResponse>,
    metrics: Option<Metrics>,
) -> bool {
    &&& goes_to(d, q)
    &&& match last_answer(items, q.uid@) {
        Some(k) => carries(d.response.single, items[k]) && same_metrics(
            d.response.metrics,
            metrics,
        ),
        None => reports(d.response.single, "Error"@, "missing in batch response"@)
            && d.response.metrics is None,
    }
}

/// Whether `e` blames worker `w` with this report and nothing more.
pub open spec fn blames(e: BatchError, w: usize, code: Seq<char>, message: Seq<char>) -> bool {
    e.worker_idx == w && e.code@ == code && e.message@ == message && e.single is None
}

/// Whether every request of `batch` is answered with `response`.
pub open spec fn all_get<R>(
    deliveries: Seq<Delivery<R>>,
    batch: Seq<QueueItem<R>>,
    response: SingleResponse,
    metrics: Option<Metrics>,
) -> bool {
    &&& deliveries.len() == batch.len()
    &&& forall|i: int|
        0 <= i < batch.len() ==> {
            &&& goes_to(#[trigger] deliveries[i], batch[i])
            &&& same_single(deliveries[i].response.single, response)
            &&& same_metrics(deliveries[i].response.metrics, metrics)
        }
}

/// The effect of an answer to a batch: `before` is the batch that was sent and
/// `after` what is left to be sent again. One answer without an error to
/// several requests answers none of them. An error that the client has caused
/// goes to every request, since no other worker would do better.
pub open spec fn is_settlement<R>(
    before: Seq<QueueItem<R>>,
    reply: WorkerReply,
    w: usize,
    after: Seq<QueueItem<R>>,
    s: Settled<R>,
) -> bool {
    match reply {
        WorkerReply::Batch { items, metrics } => {
            &&& after.len() == 0
            &&& s.deliveries@.len() == before.len()
            &&& forall|i: int|
                0 <= i < before.len() ==> answers(
                    #[trigger] s.deliveries@[i],
                    before[i],
                    items@,
                    metrics,
                )
            &&& s.outcome is Ok <==> forall|i: int|
                0 <= i < before.len() ==> answered_well(items@, (#[trigger] before[i]).uid@)
            &&& s.outcome matches Err(e) ==> blames(
                e,
                w,
                "Error"@,
                "one or more batch items failed"@,
            )
        },
        WorkerReply::Single { response, metrics } => {
            let error = is_error_status(response.status);
            let by_client = 400 <= response.status_code < 500;
            if !error && before.len() > 1 {
                &&& after == before
                &&& s.deliveries@.len() == 0
                &&& s.outcome matches Err(e) && blames(e, w, "Error"@, "unexpected response type"@)
            } else if error && !by_client {
                &&& after == before
                &&& s.deliveries@.len() == 0
                &&& s.outcome matches Err(e) && {
                    &&& e.worker_idx == w
                    &&& response.status matches Some(st) && e.code@ == st.code@ && e.message@
                        == st.message@
                    &&& e.single matches Some((x, m)) && same_single(x, response) && same_metrics(
                        m,
                        metrics,
                    )
                }
            } else {
                &&& after.len() == 0
                &&& all_get(s.deliveries@, before, response, metrics)
                &&& s.outcome is Err <==> error
                &&& s.outcome matches Err(e) ==> blames(e, w, "Error"@, "request-level error"@)
            }
        },
        WorkerReply::Unexpected => {
            &&& after == before
            &&& s.deliveries@.len() == 0
            &&& s.outcome matches Err(e) && blames(e, w, "Error"@, "unexpected response type"@)
        },
        WorkerReply::TimedOut => {
            &&& after == before
            &&& s.deliveries@.len() == 0
            &&& s.outcome matches Err(e) && blames(e, w, "Timeout"@, "request timeout"@)
        },
        WorkerReply::Failed(message) => {
            &&& after == before
            &&& s.deliveries@.len() == 0
            &&& s.outcome matches Err(e) && blames(e, w, "Error"@, message@)
        },
    }
}

fn find_answer<'a>(items: &'a Vec<BatchItemResponse>, uid: &str) -> (r: Option<
    &'a BatchItemResponse,
>)
    ensures
        match r {
            Some(x) => last_answer(items@, uid@) matches Some(k) && 0 <= k < items@.len() && *x
                == items@[k],
            None => last_answer(items@, uid@) is None,
        },
{
    let mut i: usize = items.len();
    assert(items@.take(i as int) =~= items@);
    while i > 0
        invariant
            i <= items@.len(),
            last_answer(items@.take(i as int), uid@) == last_answer(items@, uid@),
        decreases i,
    {
        assert(items@.take(i as int).drop_last() =~= items@.take(i - 1));
        assert(items@.take(i as int).last() == items@[i - 1]);
        if same_text(items[i - 1].uid.as_str(), uid) {
            return Some(&items[i - 1]);
        }
        i = i - 1;
    }
    None
}

fn error_of(worker_idx: usize, code: String, message: String) -> (e: BatchError)
    ensures
        blames(e, worker_idx, code@, message@),
{
    BatchError { worker_idx, code, message, single: None }
}

/// Answers every request of `batch` with what the worker sent for it.
fn deliver_all<R>(
    batch: &mut Vec<QueueItem<R>>,
    items: &Vec<BatchItemResponse>,
    metrics: &Option<Metrics>,
) -> (r: (Vec<Delivery<R>>, bool))
    ensures
        final(batch)@.len() == 0,
        r.0@.len() == old(batch)@.len(),
        forall|i: int|
            0 <= i < old(batch)@.len() ==> answers(
                #[trigger] r.0@[i],
                old(batch)@[i],
                items@,
                *metrics,
            ),
        r.1 <==> forall|i: int|
            0 <= i < old(batch)@.len() ==> answered_well(items@, (#[trigger] old(batch)@[i]).uid@),
{
    let ghost before = batch@;
    let ghost n = before.len() as int;
    let mut out: Vec<Delivery<R>> = Vec::new();
    let mut all_ok = true;
    assert(before.skip(0) =~= before);
    while batch.len() > 0
        invariant
            n == before.len(),
            out@.len() <= n,
            batch@ == before.skip(out@.len() as int),
            forall|i: int|
                0 <= i < out@.len() ==> answers(#[trigger] out@[i], before[i], items@, *metrics),
            all_ok <==> forall|i: int|
                0 <= i < out@.len() ==> answered_well(items@, (#[trigger] before[i]).uid@),
        decreases batch.len(),
    {
        let ghost k = out@.len() as int;
        let q = batch.remove(0);
        assert(q == before[k]);
        assert(batch@ =~= before.skip(k + 1));
        let answer = find_answer(items, q.uid.as_str());
        let failed = match answer {
            None => true,
            Some(x) => is_error(&x.status),
        };
        assert(failed == !answered_well(items@, q.uid@));
        if failed {
            all_ok = false;
        }
        let response = batch_item_to_single_response(q.uid, answer, clone_metrics(metrics));
        out.push(Delivery { to: q.reply, guard: q.inflight_guard, response });
        assert(answers(out@[k], before[k], items@, *metrics));
    }
    (out, all_ok)
}

/// Answers every request of `batch` with `response`.
fn deliver_copies<R>(
    batch: &mut Vec<QueueItem<R>>,
    response: &SingleResponse,
    metrics: &Option<Metrics>,
) -> (r: Vec<Delivery<R>>)
    ensures
        final(batch)@.len() == 0,
        all_get(r@, old(batch)@, *response, *metrics),
{
    let ghost before = batch@;
    let ghost n = before.len() as int;
    let mut out: Vec<Delivery<R>> = Vec::new();
    assert(before.skip(0) =~= before);
    while batch.len() > 0
        invariant
            n == before.len(),
            out@.len() <= n,
            batch@ == before.skip(out@.len() as int),
            all_get(out@, before.take(out@.len() as int), *response, *metrics),
        decreases batch.len(),
    {
        let ghost k = out@.len() as int;
        let ghost sent = out@;
        let q = batch.remove(0);
        assert(batch@ =~= before.skip(k + 1));
        out.push(
            Delivery {
                to: q.reply,
                guard: q.inflight_guard,
                response: Response {
                    uid: q.uid,
                    single: clone_single(response),
                    metrics: clone_metrics(metrics),
                },
            },
        );
        proof {
            assert(goes_to(out@[k], before[k]));
            assert forall|i: int| 0 <= i < k + 1 implies {
                &&& goes_to(#[trigger] out@[i], before.take(k + 1)[i])
                &&& same_single(out@[i].response.single, *response)
                &&& same_metrics(out@[i].response.metrics, *metrics)
            } by {
                if i < k {
                    assert(out@[i] == sent[i]);
                    assert(before.take(k)[i] == before[i]);
                }
            }
        }
    }
    assert(before.take(n) =~= before);
    out
}

/// Settles `batch`, which was sent to worker `worker_idx`, with the worker's
/// answer. On a success every request is answered. The worker's circuit is told
/// of a success or an error, at `now` on its clock.
pub fn settle<R>(
    batch: &mut Vec<QueueItem<R>>,
    reply: WorkerReply,
    worker_idx: usize,
    outlier: &mut OutlierState,
    now: u128,
) -> (s: Settled<R>)
    ensures
        is_settlement(old(batch)@, reply, worker_idx, final(batch)@, s),
        s.outcome is Ok ==> final(batch)@.len() == 0 && s.deliveries@.len() == old(batch)@.len()
            && forall|i: int|
            0 <= i < old(batch)@.len() ==> goes_to(#[trigger] s.deliveries@[i], old(batch)@[i]),
        final(outlier)@ == if s.outcome is Ok {
            old(outlier)@.after_success(worker_idx as int)
        } else {
            old(outlier)@.after_error(worker_idx as int, now)
        },
        s.ejected == (s.outcome is Err && old(outlier)@.error_opens(worker_idx as int)),
{
    let mut deliveries: Vec<Delivery<R>> = Vec::new();
    let outcome: Result<(), BatchError> = match reply {
        WorkerReply::Batch { items, metrics } => {
            let (out, all_ok) = deliver_all(batch, &items, &metrics);
            deliveries = out;
            if all_ok {
                Ok(())
            } else {
                Err(
                    error_of(
                        worker_idx,
                        "Error".to_string(),
                        "one or more batch items failed".to_string(),
                    ),
                )
            }
        },
        WorkerReply::Single { response, metrics } => {
            let error = is_error(&response.status);
            if !error && batch.len() > 1 {
                Err(
                    error_of(
                        worker_idx,
                        "Error".to_string(),
                        "unexpected response type".to_string(),
                    ),
                )
            } else if error && !(400 <= response.status_code && response.status_code < 500) {
                match &response.status {
                    Some(st) => {
                        let code = st.code.clone();
                        let message = st.message.clone();
                        Err(
                            BatchError {
                                worker_idx,
                                code,
                                message,
                                single: Some((clone_single(&response), metrics)),
                            },
                        )
                    },
                    None => Ok(()),
                }
            } else {
                deliveries = deliver_copies(batch, &response, &metrics);
                if error {
                    Err(
                        error_of(
                            worker_idx,
                            "Error".to_string(),
                            "request-level error".to_string(),
                        ),
                    )
                } else {
                    Ok(())
                }
            }
        },
        WorkerReply::Unexpected => Err(
            error_of(worker_idx, "Error".to_string(), "unexpected response type".to_string()),
        ),
        WorkerReply::TimedOut => Err(
            error_of(worker_idx, "Timeout".to_string(), "request timeout".to_string()),
        ),
        WorkerReply::Failed(message) => Err(error_of(worker_idx, "Error".to_string(), message)),
    };
    let ejected = match &outcome {
        Ok(_) => {
            outlier.record_success(worker_idx);
            false
        },
        Err(_) => outlier.record_error_at(worker_idx, now),
    };
    Settled { deliveries, outcome, ejected }
}

/// Whether `d` tells the sender of `q` why its batch failed.
pub open spec fn tells_failure<R>(d: Delivery<R>, q: QueueItem<R>, e: BatchError) -> bool {
    &&& goes_to(d, q)
    &&& match e.single {
        Some((x, m)) => same_single(d.response.single, x) && same_metrics(d.response.metrics, m),
        None => reports(d.response.single, e.code@, e.message@) && d.response.metrics is None,
    }
}

/// Answers every request of `batch` with the error.
pub fn fail_batch_items<R>(batch: &mut Vec<QueueItem<R>>, err: &BatchError) -> (r: Vec<Delivery<R>>)
    ensures
        final(batch)@.len() == 0,
        r@.len() == old(batch)@.len(),
        forall|i: int|
            0 <= i < r@.len() ==> tells_failure(#[trigger] r@[i], old(batch)@[i], *err),
{
    let ghost before = batch@;
    let ghost n = before.len() as int;
    let mut out: Vec<Delivery<R>> = Vec::new();
    assert(before.skip(0) =~= before);
    while batch.len() > 0
        invariant
            n == before.len(),
            out@.len() <= n,
            batch@ == before.skip(out@.len() as int),
            forall|i: int| 0 <= i < out@.len() ==> tells_failure(#[trigger] out@[i], before[i], *err),
        decreases batch.len(),
    {
        let ghost k = out@.len() as int;
        let q = batch.remove(0);
        assert(batch@ =~= before.skip(k + 1));
        let (single, metrics) = match &err.single {
            Some((x, m)) => (clone_single(x), clone_metrics(m)),
            None => (status_only(err.code.clone(), err.message.clone()), None),
        };
        out.push(
            Delivery {
                to: q.reply,
                guard: q.inflight_guard,
                response: Response { uid: q.uid, single, metrics },
            },
        );
        assert(tells_failure(out@[k], before[k], *err));
    }
    out
}

/// The tries at sending one batch. With one worker, or where no retries are
/// asked for, there is a single try.
pub struct Attempts {
    pub left: usize,
    pub retry: bool,
    /// The workers that have failed.
    pub excluded: Vec<usize>,
}

/// What to do after a try.
pub enum NextStep {
    /// The batch is done. The requests of the batch count where it succeeded.
    Done { succeeded: bool },
    /// Send what is left to a worker that is not excluded.
    TryAgain,
    /// Answer what is left with the error.
    Fail(BatchError),
}

/// The model of [`Attempts`].
#[verifier::ext_equal]
pub struct Tries {
    pub left: nat,
    pub retry: bool,
    pub excluded: Seq<usize>,
}

impl View for Attempts {
    type V = Tries;

    open spec fn view(&self) -> Tries {
        Tries { left: self.left as nat, retry: self.retry, excluded: self.excluded@ }
    }
}

impl Tries {
    /// The tries that a batch is given.
    pub open spec fn given(num_workers: nat, max_retries: nat) -> Tries {
        let retry = num_workers > 1 && max_retries > 0;
        Tries {
            left: if retry {
                max_retries
            } else {
                1
            },
            retry,
            excluded: seq![],
        }
    }

    /// The tries after one at worker `w` has failed and left requests unanswered.
    pub open spec fn after_failure(self, w: usize) -> Tries {
        Tries {
            left: (self.left - 1) as nat,
            excluded: if self.retry {
                self.excluded.push(w)
            } else {
                self.excluded
            },
            ..self
        }
    }

    /// The tries after those at the workers `failed` have failed, one after the
    /// other.
    pub open spec fn after_failures(self, failed: Seq<usize>) -> Tries
        decreases failed.len(),
    {
        if failed.len() == 0 {
            self
        } else {
            self.after_failures(failed.drop_last()).after_failure(failed.last())
        }
    }
}

impl Attempts {
    pub fn new(num_workers: usize, max_retries: usize) -> (a: Self)
        ensures
            a@ == Tries::given(num_workers as nat, max_retries as nat),
            a.retry == (num_workers > 1 && max_retries > 0),
            a.left == if a.retry {
                max_retries
            } else {
                1
            },
            a.excluded@.len() == 0,
    {
        let retry = num_workers > 1 && max_retries > 0;
        Attempts {
            left: if retry {
                max_retries
            } else {
                1
            },
            retry,
            excluded: Vec::new(),
        }
    }

    /// What to do after a try that left `remaining` requests unanswered.
    pub fn after_try(&mut self, outcome: Result<(), BatchError>, remaining: usize) -> (n: NextStep)
        requires
            old(self).left > 0,
        ensures
            final(self).retry == old(self).retry,
            outcome matches Err(e) ==> remaining > 0 ==> final(self)@ == old(self)@.after_failure(
                e.worker_idx,
            ),
            match outcome {
                Ok(_) => n matches NextStep::Done { succeeded } && succeeded && final(self).left
                    == old(self).left && final(self).excluded@ == old(self).excluded@,
                Err(e) => if old(self).retry && remaining == 0 {
                    &&& n matches NextStep::Done { succeeded } && !succeeded
                    &&& final(self).left == old(self).left
                    &&& final(self).excluded@ == old(self).excluded@
                } else {
                    &&& final(self).left == old(self).left - 1
                    &&& final(self).excluded@ == if old(self).retry {
                        old(self).excluded@.push(e.worker_idx)
                    } else {
                        old(self).excluded@
                    }
                    &&& if old(self).left > 1 {
                        n is TryAgain
                    } else {
                        n matches NextStep::Fail(f) && f == e
                    }
                },
            },
    {
        match outcome {
            Ok(_) => NextStep::Done { succeeded: true },
            Err(e) => {
                if self.retry && remaining == 0 {
                    return NextStep::Done { succeeded: false };
                }
                self.left = self.left - 1;
                if self.retry {
                    self.excluded.push(e.worker_idx);
                }
                if self.left > 0 {
                    NextStep::TryAgain
                } else {
                    NextStep::Fail(e)
                }
            },
        }
    }
}

/// Whether `size` more requests after `count` reach the number after which the
/// workers are replaced.
pub open spec fn reaches(count: nat, size: nat, max_requests: nat) -> bool {
    max_requests > 0 && count < max_requests && count + size >= max_requests
}

/// Counts the requests of a batch. Tells whether the number after which the
/// workers are replaced was reached with it.
pub fn check_max_requests(count: &mut usize, batch_size: usize, max_requests: usize) -> (r: bool)
    ensures
        r == reaches(*old(count) as nat, batch_size as nat, max_requests as nat),
        *final(count) == if max_requests == 0 {
            *old(count)
        } else {
            vstd::wrapping::usize_specs::wrapping_add(*old(count), batch_size)
        },
{
    if max_requests == 0 {
        return false;
    }
    let prev: usize = *count;
    *count = prev.wrapping_add(batch_size);
    prev < max_requests && prev as u128 + batch_size as u128 >= max_requests as u128
}

/// The number is reached at most once: after the batch that reaches it no later
/// batch does, however many have been counted since.
pub proof fn replacement_is_signalled_once(
    count: nat,
    size: nat,
    counted: nat,
    later: nat,
    max_requests: nat,
)
    requires
        reaches(count, size, max_requests),
        counted >= count + size,
    ensures
        !reaches(counted, later, max_requests),
{
}

/// Whatever the worker answers, either every request of the batch is answered,
/// once and under its own name, or none is, the try has failed and the whole
/// batch is left to be sent again. So nothing is left behind a success.
pub proof fn no_request_is_lost<R>(
    before: Seq<QueueItem<R>>,
    reply: WorkerReply,
    w: usize,
    after: Seq<QueueItem<R>>,
    s: Settled<R>,
)
    requires
        is_settlement(before, reply, w, after, s),
    ensures
        s.deliveries@.len() + after.len() == before.len(),
        after.len() == 0 || after == before,
        forall|k: int|
            0 <= k < s.deliveries@.len() ==> goes_to(#[trigger] s.deliveries@[k], before[k]),
        s.outcome is Ok ==> after.len() == 0,
{
}

/// The requests of a batch go to the worker that they ask for where all that ask
/// for one ask for the same, and to none in particular where two disagree or none
/// asks.
pub proof fn requests_that_agree_keep_their_worker<R>(
    batch: Seq<QueueItem<R>>,
    p: Option<usize>,
    w: usize,
    i: int,
    j: int,
)
    requires
        is_common_pin(batch, p),
    ensures
        0 <= i < batch.len() && pin_of(batch[i].meta) == Some(w as nat) && (forall|k: int|
            0 <= k < batch.len() ==> #[trigger] pin_of(batch[k].meta) is None || pin_of(
                batch[k].meta,
            ) == Some(w as nat)) ==> p == Some(w),
        0 <= i < batch.len() && 0 <= j < batch.len() && pin_of(batch[i].meta) is Some && pin_of(
            batch[j].meta,
        ) is Some && pin_of(batch[i].meta) != pin_of(batch[j].meta) ==> p is None,
        (forall|k: int| 0 <= k < batch.len() ==> #[trigger] pin_of(batch[k].meta) is None)
            ==> p is None,
{
}

/// The sequences of a batch keep the worker that serves them where all whose
/// worker is known have the same one. What is known of a request without a
/// sequence does not count.
pub proof fn sequences_that_agree_keep_their_worker<R>(
    batch: Seq<QueueItem<R>>,
    hits: Seq<Option<usize>>,
    p: Option<usize>,
    w: usize,
    i: int,
    j: int,
)
    requires
        is_common_worker(batch, hits, p),
    ensures
        0 <= i < batch.len() && sequence_of(batch[i].meta) is Some && hits[i] == Some(w) && (
        forall|k: int|
            0 <= k < batch.len() ==> sequence_of((#[trigger] batch[k]).meta) is None
                || hits[k] is None || hits[k] == Some(w)) ==> p == Some(w),
        0 <= i < batch.len() && 0 <= j < batch.len() && sequence_of(batch[i].meta) is Some
            && sequence_of(batch[j].meta) is Some && hits[i] is Some && hits[j] is Some && hits[i]
            != hits[j] ==> p is None,
        (forall|k: int|
            0 <= k < batch.len() ==> sequence_of((#[trigger] batch[k]).meta) is None
                || hits[k] is None) ==> p is None,
{
    assert(known_worker(batch, hits, i) is Some || known_worker(batch, hits, i) is None);
    assert(known_worker(batch, hits, j) is Some || known_worker(batch, hits, j) is None);
}

/// A batch is kept together by the first of its requests that has a sequence or a
/// key.
pub proof fn the_first_key_counts<R>(batch: Seq<QueueItem<R>>, i: int)
    ensures
        0 <= i < batch.len() && affinity_key_of(batch[i].meta) is Some && (forall|j: int|
            0 <= j < i ==> affinity_key_of((#[trigger] batch[j]).meta) is None) ==> first_key(batch)
            == affinity_key_of(batch[i].meta),
        (forall|j: int|
            0 <= j < batch.len() ==> affinity_key_of((#[trigger] batch[j]).meta) is None)
            ==> first_key(batch) is None,
    decreases batch.len(),
{
    if batch.len() > 0 {
        let front = batch.drop_last();
        assert forall|j: int| 0 <= j < front.len() implies #[trigger] front[j] == batch[j] by {}
        the_first_key_counts(front, i);
    }
}

/// A batch goes to the worker that its requests ask for, where there is that
/// worker and it is neither ejected nor left out, however much it has to do.
pub proof fn asked_for_workers_are_chosen<R>(
    c: Circuits,
    batch: Seq<QueueItem<R>>,
    loads: Seq<usize>,
    exclude: Seq<usize>,
    hits: Seq<Option<usize>>,
    balance: BalanceConfig,
    now: u128,
    r: int,
    d: Circuits,
    w: usize,
    i: int,
)
    requires
        is_batch_worker(c, batch, loads, exclude, hits, balance, now, r, d),
        0 <= i < batch.len(),
        pin_of(batch[i].meta) == Some(w as nat),
        forall|k: int|
            0 <= k < batch.len() ==> #[trigger] pin_of(batch[k].meta) is None || pin_of(
                batch[k].meta,
            ) == Some(w as nat),
        w < loads.len(),
        !c.ejected_at(w as int, now),
        !exclude.contains(w),
    ensures
        r == w,
{
    crate::picker::neither_ejected_nor_excluded(c, exclude, now, w);
    assert forall|pin: Option<usize>| #[trigger] is_common_pin(batch, pin) implies pin == Some(
        w,
    ) by {
        requests_that_agree_keep_their_worker(batch, pin, w, i, i);
    }
}

/// The last answer to a request is the one that counts.
pub proof fn the_last_answer_counts(items: Seq<BatchItemResponse>, uid: Seq<char>, k: int)
    ensures
        0 <= k < items.len() && items[k].uid@ == uid && (forall|j: int|
            k < j < items.len() ==> (#[trigger] items[j]).uid@ != uid) ==> last_answer(items, uid)
            == Some(k),
        (forall|j: int| 0 <= j < items.len() ==> (#[trigger] items[j]).uid@ != uid)
            ==> last_answer(items, uid) is None,
        last_answer(items, uid) matches Some(n) ==> 0 <= n < items.len() && items[n].uid@ == uid,
    decreases items.len(),
{
    if items.len() > 0 {
        let front = items.drop_last();
        assert forall|j: int| 0 <= j < front.len() implies #[trigger] front[j] == items[j] by {}
        the_last_answer_counts(front, uid, k);
    }
}

/// Each request of a batch gets what the worker answered under its name: the same
/// bytes, headers, status and media type. It goes to the sender of that request.
pub proof fn answers_reach_their_requests<R>(
    before: Seq<QueueItem<R>>,
    items: Vec<BatchItemResponse>,
    metrics: Option<Metrics>,
    w: usize,
    after: Seq<QueueItem<R>>,
    s: Settled<R>,
    i: int,
    k: int,
)
    requires
        is_settlement(before, WorkerReply::Batch { items, metrics }, w, after, s),
        0 <= i < before.len(),
        0 <= k < items@.len(),
        items@[k].uid@ == before[i].uid@,
        forall|j: int| k < j < items@.len() ==> (#[trigger] items@[j]).uid@ != before[i].uid@,
    ensures
        after.len() == 0,
        ({
            let d = s.deliveries@[i];
            &&& d.to == before[i].reply
            &&& d.guard == before[i].inflight_guard
            &&& d.response.uid@ == before[i].uid@
            &&& bytes_of(d.response.single.data) == bytes_of(items@[k].data)
            &&& d.response.single.headers@ == items@[k].headers@
            &&& d.response.single.status_code == items@[k].status_code
            &&& d.response.single.media_type@ == items@[k].media_type@
            &&& d.response.single.status is Some <==> items@[k].status is Some
            &&& items@[k].status is Some ==> d.response.single.status->0.code@
                == items@[k].status->0.code@ && d.response.single.status->0.message@
                == items@[k].status->0.message@
            &&& metrics matches Some(m) ==> (d.response.metrics matches Some(n) && n.encoded@
                == m.encoded@)
            &&& metrics is None ==> d.response.metrics is None
        }),
        s.outcome is Ok ==> !(items@[k].status matches Some(st) && st.code@ == "Error"@),
{
    the_last_answer_counts(items@, before[i].uid@, k);
    assert(answers(s.deliveries@[i], before[i], items@, metrics));
    if s.outcome is Ok {
        assert(answered_well(items@, before[i].uid@));
    }
}

/// A request that the worker left out of its answer gets an error, and the batch
/// has failed.
pub proof fn left_out_requests_get_an_error<R>(
    before: Seq<QueueItem<R>>,
    items: Vec<BatchItemResponse>,
    metrics: Option<Metrics>,
    w: usize,
    after: Seq<QueueItem<R>>,
    s: Settled<R>,
    i: int,
)
    requires
        is_settlement(before, WorkerReply::Batch { items, metrics }, w, after, s),
        0 <= i < before.len(),
        forall|j: int| 0 <= j < items@.len() ==> (#[trigger] items@[j]).uid@ != before[i].uid@,
    ensures
        after.len() == 0,
        s.deliveries@[i].to == before[i].reply,
        s.deliveries@[i].response.uid@ == before[i].uid@,
        s.deliveries@[i].response.single.status matches Some(st) && st.code@ == "Error"@
            && st.message@ == "missing in batch response"@,
        s.outcome matches Err(e) && e.worker_idx == w,
{
    the_last_answer_counts(items@, before[i].uid@, 0);
    assert(answers(s.deliveries@[i], before[i], items@, metrics));
    assert(!answered_well(items@, before[i].uid@));
}

/// A batch succeeds where every one of its requests is answered without an error.
pub proof fn batches_without_errors_succeed<R>(
    before: Seq<QueueItem<R>>,
    items: Vec<BatchItemResponse>,
    metrics: Option<Metrics>,
    w: usize,
    after: Seq<QueueItem<R>>,
    s: Settled<R>,
)
    requires
        is_settlement(before, WorkerReply::Batch { items, metrics }, w, after, s),
        forall|i: int|
            0 <= i < before.len() ==> exists|k: int|
                0 <= k < items@.len() && (#[trigger] items@[k]).uid@ == (#[trigger] before[i]).uid@,
        forall|k: int|
            0 <= k < items@.len() ==> ((#[trigger] items@[k]).status matches Some(st) ==> st.code@
                != "Error"@),
    ensures
        s.outcome is Ok,
{
    assert forall|i: int| 0 <= i < before.len() implies answered_well(
        items@,
        (#[trigger] before[i]).uid@,
    ) by {
        let uid = before[i].uid@;
        let k = choose|k: int| 0 <= k < items@.len() && (#[trigger] items@[k]).uid@ == uid;
        the_last_answer_counts(items@, uid, k);
        if last_answer(items@, uid) is None {
            some_answer_is_found(items@, uid, k);
        }
    }
}

proof fn some_answer_is_found(items: Seq<BatchItemResponse>, uid: Seq<char>, k: int)
    requires
        0 <= k < items.len(),
        items[k].uid@ == uid,
    ensures
        last_answer(items, uid) is Some,
    decreases items.len(),
{
    if items.last().uid@ != uid {
        assert(items.drop_last()[k] == items[k]);
        some_answer_is_found(items.drop_last(), uid, k);
    }
}

/// One answer to one request is that request's, and so is an error of the client's
/// making to each of several. Any other error, and one good answer to several
/// requests, leave the batch to be sent again.
pub proof fn single_answers_are_settled<R>(
    before: Seq<QueueItem<R>>,
    response: SingleResponse,
    metrics: Option<Metrics>,
    w: usize,
    after: Seq<QueueItem<R>>,
    s: Settled<R>,
    i: int,
)
    requires
        is_settlement(before, WorkerReply::Single { response, metrics }, w, after, s),
        0 <= i < before.len(),
    ensures
        ({
            let error = response.status matches Some(st) && st.code@ == "Error"@;
            let by_client = 400 <= response.status_code <= 499;
            let answered = (before.len() == 1 && !error) || (error && by_client);
            let d = s.deliveries@[i];
            &&& answered ==> after.len() == 0 && s.deliveries@.len() == before.len()
            &&& answered ==> d.to == before[i].reply && d.response.uid@ == before[i].uid@
            &&& answered ==> bytes_of(d.response.single.data) == bytes_of(response.data)
                && d.response.single.headers@ == response.headers@
                && d.response.single.status_code == response.status_code
                && d.response.single.media_type@ == response.media_type@
            &&& !answered ==> after == before && s.deliveries@.len() == 0
            &&& s.outcome is Ok <==> (answered && !error)
            &&& s.outcome matches Err(e) ==> e.worker_idx == w
            &&& error && !by_client ==> (s.outcome matches Err(e) && e.message@
                == response.status->0.message@ && e.code@ == response.status->0.code@
                && e.single is Some)
        }),
{
    if s.deliveries@.len() > 0 {
        assert(goes_to(s.deliveries@[i], before[i]));
    }
}

/// A batch whose answer did not come, or could not be read, is left to be sent
/// again, and the worker is blamed with the reason.
pub proof fn failed_tries_leave_the_batch<R>(
    before: Seq<QueueItem<R>>,
    reply: WorkerReply,
    w: usize,
    after: Seq<QueueItem<R>>,
    s: Settled<R>,
)
    requires
        is_settlement(before, reply, w, after, s),
        reply is TimedOut || reply is Failed || reply is Unexpected,
    ensures
        after == before,
        s.deliveries@.len() == 0,
        s.outcome is Err,
        s.outcome matches Err(e) ==> e.worker_idx == w && e.single is None,
        s.outcome matches Err(e) ==> (e.code@ == if reply is TimedOut {
            "Timeout"@
        } else {
            "Error"@
        }),
        reply matches WorkerReply::Failed(m) ==> (s.outcome matches Err(e) ==> e.message@ == m@),
{
}

/// A request whose batch has failed is told so under its own name: with what the
/// worker answered, where it did, and with the reason otherwise.
pub proof fn failures_are_told<R>(d: Delivery<R>, q: QueueItem<R>, e: BatchError)
    requires
        tells_failure(d, q, e),
    ensures
        d.to == q.reply,
        d.guard == q.inflight_guard,
        d.response.uid@ == q.uid@,
        e.single matches Some(x) ==> bytes_of(d.response.single.data) == bytes_of(x.0.data)
            && d.response.single.status_code == x.0.status_code && d.response.single.headers@
            == x.0.headers@,
        e.single is None ==> (d.response.single.status matches Some(st) && st.code@ == e.code@
            && st.message@ == e.message@),
{
}

/// The requests of the first `n` batches together.
pub open spec fn requests_in(sizes: Seq<nat>, n: int) -> nat
    decreases n,
{
    if n <= 0 {
        0
    } else {
        requests_in(sizes, n - 1) + sizes[n - 1]
    }
}

/// Once as many requests have been counted as the workers serve, one of the
/// batches has called for their replacement. With no number none ever does.
pub proof fn replacement_is_signalled(sizes: Seq<nat>, n: int, max_requests: nat) -> (k: int)
    requires
        0 <= n <= sizes.len(),
        max_requests > 0,
        requests_in(sizes, n) >= max_requests,
    ensures
        0 <= k < n,
        reaches(requests_in(sizes, k), sizes[k], max_requests),
        forall|j: int|
            0 <= j < k ==> !reaches(requests_in(sizes, j), #[trigger] sizes[j], max_requests),
        !reaches(requests_in(sizes, k), sizes[k], 0),
    decreases n,
{
    if requests_in(sizes, n - 1) >= max_requests {
        replacement_is_signalled(sizes, n - 1, max_requests)
    } else {
        assert forall|j: int| 0 <= j < n - 1 implies !reaches(
            requests_in(sizes, j),
            #[trigger] sizes[j],
            max_requests,
        ) by {
            counts_grow(sizes, j + 1, n - 1);
        }
        n - 1
    }
}

proof fn counts_grow(sizes: Seq<nat>, a: int, b: int)
    requires
        0 <= a <= b,
    ensures
        requests_in(sizes, a) <= requests_in(sizes, b),
    decreases b,
{
    if a < b {
        counts_grow(sizes, a, b - 1);
    }
}

/// A batch that keeps failing is tried as often as retries are asked for, where
/// there is another worker to turn to, and once otherwise. Every worker that has
/// failed it is left out of the next tries.
pub proof fn batches_are_tried_as_often_as_asked(
    num_workers: nat,
    max_retries: nat,
    failed: Seq<usize>,
    i: int,
)
    requires
        failed.len() <= Tries::given(num_workers, max_retries).left,
    ensures
        ({
            let tries = Tries::given(num_workers, max_retries).after_failures(failed);
            &&& num_workers > 1 && max_retries > 0 ==> tries.left + failed.len() == max_retries
            &&& num_workers <= 1 || max_retries == 0 ==> tries.left + failed.len() == 1
            &&& num_workers > 1 && max_retries > 0 && 0 <= i < failed.len()
                ==> tries.excluded.contains(failed[i])
            &&& num_workers <= 1 || max_retries == 0 ==> tries.excluded.len() == 0
            &&& tries.retry == (num_workers > 1 && max_retries > 0)
        }),
    decreases failed.len(),
{
    let tries = Tries::given(num_workers, max_retries).after_failures(failed);
    if failed.len() > 0 {
        let front = failed.drop_last();
        let before = Tries::given(num_workers, max_retries).after_failures(front);
        batches_are_tried_as_often_as_asked(num_workers, max_retries, front, i);
        if num_workers > 1 && max_retries > 0 && 0 <= i < failed.len() {
            if i < front.len() {
                let k = choose|k: int|
                    0 <= k < before.excluded.len() && before.excluded[k] == front[i];
                assert(tries.excluded[k] == failed[i]);
            } else {
                assert(tries.excluded[tries.excluded.len() - 1] == failed[i]);
            }
        }
    }
}

/// A batch is kept together by what its first request with a sequence or a key
/// has, and by nothing where no request has one.
pub proof fn batches_are_kept_together_by_their_first_key<R>(
    batch: Seq<QueueItem<R>>,
    hits: Seq<Option<usize>>,
    affinity: Option<(Seq<char>, Option<usize>)>,
    i: int,
)
    requires
        is_batch_affinity(batch, hits, affinity),
    ensures
        0 <= i < batch.len() && affinity_key_of(batch[i].meta) is Some && (forall|j: int|
            0 <= j < i ==> affinity_key_of((#[trigger] batch[j]).meta) is None) ==> (
        affinity matches Some((key, _)) && Some(key) == affinity_key_of(batch[i].meta)),
        (forall|j: int|
            0 <= j < batch.len() ==> affinity_key_of((#[trigger] batch[j]).meta) is None)
            ==> affinity is None,
        affinity matches Some((_, preferred)) ==> is_common_worker(batch, hits, preferred),
{
    the_first_key_counts(batch, i);
}

/// The requests of a sequence stay with the worker that serves it, while that is
/// neither ejected nor left out and no other worker carries much less.
pub proof fn sequences_stay_with_their_worker<R>(
    c: Circuits,
    batch: Seq<QueueItem<R>>,
    loads: Seq<usize>,
    exclude: Seq<usize>,
    hits: Seq<Option<usize>>,
    balance: BalanceConfig,
    now: u128,
    r: int,
    d: Circuits,
    w: usize,
    i: int,
)
    requires
        is_batch_worker(c, batch, loads, exclude, hits, balance, now, r, d),
        forall|k: int| 0 <= k < batch.len() ==> #[trigger] pin_of(batch[k].meta) is None,
        0 <= i < batch.len(),
        sequence_of(batch[i].meta) is Some,
        hits[i] == Some(w),
        forall|k: int|
            0 <= k < batch.len() ==> sequence_of((#[trigger] batch[k]).meta) is None
                || hits[k] is None || hits[k] == Some(w),
        w < loads.len() <= usize::MAX,
        !c.ejected_at(w as int, now),
        !exclude.contains(w),
        forall|j: usize|
            j < loads.len() && j != w && !c.ejected_at(j as int, now) && !exclude.contains(j) ==> {
                &&& balance.abs_threshold == 0 || loads[w as int] <= #[trigger] loads[j as int]
                    + balance.abs_threshold
                &&& balance.rel_threshold.num == 0 || loads[j as int] == 0 || loads[w as int]
                    * balance.rel_threshold.den <= loads[j as int] * balance.rel_threshold.num
            },
    ensures
        r == w,
{
    let (pin, affinity) = choose|pin: Option<usize>, affinity: Option<(Seq<char>, Option<usize>)>|
        {
            &&& #[trigger] is_common_pin(batch, pin)
            &&& #[trigger] is_batch_affinity(batch, hits, affinity)
            &&& match pin {
                Some(w) => if w < loads.len() && available(c, exclude, now, w as int) {
                    r == w && d == c.after_look(w as int, now)
                } else if w < loads.len() {
                    is_pick(
                        c.after_look(w as int, now),
                        loads,
                        exclude,
                        now,
                        affinity,
                        balance,
                        r,
                        d,
                    )
                } else {
                    is_pick(c, loads, exclude, now, affinity, balance, r, d)
                },
                None => is_pick(c, loads, exclude, now, affinity, balance, r, d),
            }
        };
    requests_that_agree_keep_their_worker(batch, pin, w, i, i);
    some_key_is_first(batch, i);
    let (key, preferred) = affinity->0;
    sequences_that_agree_keep_their_worker(batch, hits, preferred, w, i, i);
    crate::picker::sequences_stay_unless_another_carries_much_less(
        c,
        loads,
        exclude,
        now,
        key,
        w,
        balance,
        r,
        d,
    );
}

proof fn some_key_is_first<R>(batch: Seq<QueueItem<R>>, i: int)
    requires
        0 <= i < batch.len(),
        affinity_key_of(batch[i].meta) is Some,
    ensures
        first_key(batch) is Some,
    decreases batch.len(),
{
    if i < batch.len() - 1 {
        assert(batch.drop_last()[i] == batch[i]);
        some_key_is_first(batch.drop_last(), i);
    }
}

} // verus!
