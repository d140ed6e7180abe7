//! Collecting requests into batches.
//!
//! A batch is sent when it is full, or when the time that its first request
//! was given has passed. Under load that time is cut short.

use crate::batch::{goes_to, Delivery};
use crate::message::{reports, status_only, QueueItem, Response};
use crate::picker::random_between;
use crate::time::{elapsed, Duration};
use vstd::arithmetic::div_mod::lemma_fundamental_div_mod_converse;
use vstd::prelude::*;

verus! {

/// What to do with a request that has waited too long.
#[derive(Debug, Clone, Copy, PartialEq, Eq, Structural)]
pub enum QueueTimeoutAction {
    /// Refuse it.
    Reject,
    /// Serve it all the same.
    Delay,
}

/// How full a batch of `batch_len` requests and a queue of `queue_depth`
/// requests are, as a fraction: the fuller of the two counts, and a queue is
/// full from `queue_threshold` requests on.
pub open spec fn pressure(
    batch_len: nat,
    queue_depth: nat,
    max_batch_size: nat,
    queue_threshold: nat,
) -> (nat, nat) {
    let waiting = if queue_depth <= queue_threshold {
        queue_depth
    } else {
        queue_threshold
    };
    if queue_threshold > 0 && waiting * max_batch_size > batch_len * queue_threshold {
        (waiting, queue_threshold)
    } else {
        (batch_len, max_batch_size)
    }
}

/// `base`, shortened by 99 percent of the pressure `p`.
pub open spec fn shortened(base: nat, p: (nat, nat)) -> nat {
    ((base * (100 * p.1 - 99 * p.0)) / (100 * p.1) as int) as nat
}

/// The time, in nanoseconds, that a batch waits for more requests: nothing
/// where it is full, and `base_timeout` shortened by the pressure otherwise,
/// but `min_timeout` at least.
pub open spec fn adaptive_timeout(
    batch_len: nat,
    queue_depth: nat,
    max_batch_size: nat,
    base_timeout: nat,
    min_timeout: nat,
    queue_threshold: nat,
) -> nat {
    if batch_len >= max_batch_size {
        0
    } else {
        let scaled = shortened(
            base_timeout,
            pressure(batch_len, queue_depth, max_batch_size, queue_threshold),
        );
        if scaled >= min_timeout {
            scaled
        } else {
            min_timeout
        }
    }
}

/// The quotient and the remainder of `a * k` by `d`.
fn mul_div(a: u128, k: u128, d: u128) -> (r: (u128, u128))
    requires
        0 < d <= 0xff_ffff_ffff_ffff_ffff,
        k <= d,
    ensures
        a * k == r.0 * d + r.1,
        r.1 < d,
        r.0 <= a,
    decreases a,
{
    if a == 0 {
        assert(a * k == 0) by (nonlinear_arith)
            requires
                a == 0,
        ;
        assert(0 * d == 0) by (nonlinear_arith);
        return (0, 0);
    }
    let half: u128 = a / 2;
    let odd: u128 = a % 2;
    let (q, m) = mul_div(half, k, d);
    let extra: u128 = if odd == 1 {
        k
    } else {
        0
    };
    let sum: u128 = m + m + extra;
    let carry: u128 = sum / d;
    let rest: u128 = sum % d;
    proof {
        assert(sum == carry * d + rest) by (nonlinear_arith)
            requires
                carry == sum / d,
                rest == sum % d,
                d > 0,
        ;
        assert(a * k == 2 * (half * k) + extra) by (nonlinear_arith)
            requires
                a == 2 * half + odd,
                extra == if odd == 1 {
                    k as int
                } else {
                    0
                },
                odd == 0 || odd == 1,
        ;
        assert((2 * q + carry) * d == 2 * (q * d) + carry * d) by (nonlinear_arith);
        assert(2 * q + carry <= a) by (nonlinear_arith)
            requires
                (2 * q + carry) * d <= a * k,
                k <= d,
                d > 0,
                a >= 0,
        ;
    }
    (q + q + carry, rest)
}

/// The time that a batch waits for more requests.
pub fn compute_adaptive_timeout(
    batch_len: usize,
    queue_depth: usize,
    max_batch_size: usize,
    base_timeout: Duration,
    min_timeout: Duration,
    queue_threshold: usize,
) -> (d: Duration)
    ensures
        d.nanos == adaptive_timeout(
            batch_len as nat,
            queue_depth as nat,
            max_batch_size as nat,
            base_timeout.nanos as nat,
            min_timeout.nanos as nat,
            queue_threshold as nat,
        ),
{
    if batch_len >= max_batch_size {
        return Duration::zero();
    }
    let waiting: usize = if queue_depth <= queue_threshold {
        queue_depth
    } else {
        queue_threshold
    };
    proof {
        product_fits(waiting, max_batch_size);
        product_fits(batch_len, queue_threshold);
    }
    let queue_leads = queue_threshold > 0 && waiting as u128 * max_batch_size as u128
        > batch_len as u128 * queue_threshold as u128;
    let num: usize = if queue_leads {
        waiting
    } else {
        batch_len
    };
    let den: usize = if queue_leads {
        queue_threshold
    } else {
        max_batch_size
    };
    let k: u128 = 100 * den as u128 - 99 * num as u128;
    let d: u128 = 100 * den as u128;
    let (scaled, rest) = mul_div(base_timeout.nanos, k, d);
    proof {
        lemma_fundamental_div_mod_converse(
            base_timeout.nanos * k,
            d as int,
            scaled as int,
            rest as int,
        );
        assert(scaled * d + rest == d * scaled + rest) by (nonlinear_arith);
    }
    Duration::from_nanos(scaled).longer(min_timeout)
}

proof fn product_fits(a: usize, b: usize)
    ensures
        0 <= a * b <= u128::MAX,
{
    assert(0 <= a * b <= 0xffff_ffff_ffff_ffff * 0xffff_ffff_ffff_ffff) by (nonlinear_arith)
        requires
            0 <= a <= 0xffff_ffff_ffff_ffff,
            0 <= b <= 0xffff_ffff_ffff_ffff,
    ;
}

proof fn more_pressure_is_shorter(base: nat, p: (nat, nat), q: (nat, nat))
    requires
        p.0 <= p.1,
        q.0 <= q.1,
        0 < p.1,
        0 < q.1,
        p.0 * q.1 <= q.0 * p.1,
    ensures
        shortened(base, q) <= shortened(base, p),
        shortened(base, p) <= base,
{
    let dp = 100 * p.1 as int;
    let dq = 100 * q.1 as int;
    let kp = 100 * p.1 - 99 * p.0;
    let kq = 100 * q.1 - 99 * q.0;
    let x = (base * kp) / dp;
    let y = (base * kq) / dq;
    assert(kq * dp <= kp * dq) by (nonlinear_arith)
        requires
            dp == 100 * p.1,
            dq == 100 * q.1,
            kp == 100 * p.1 - 99 * p.0,
            kq == 100 * q.1 - 99 * q.0,
            p.0 * q.1 <= q.0 * p.1,
    ;
    assert(y * dq <= base * kq) by (nonlinear_arith)
        requires
            y == (base * kq) / dq,
            dq > 0,
    ;
    assert(y * dp <= base * kp) by (nonlinear_arith)
        requires
            y * dq <= base * kq,
            kq * dp <= kp * dq,
            base >= 0,
            dp > 0,
            dq > 0,
    {
        assert((y * dq) * dp <= (base * kq) * dp) by (nonlinear_arith)
            requires
                y * dq <= base * kq,
                dp > 0,
        ;
        assert(base * (kq * dp) <= base * (kp * dq)) by (nonlinear_arith)
            requires
                kq * dp <= kp * dq,
                base >= 0,
        ;
        assert((y * dq) * dp == (y * dp) * dq) by (nonlinear_arith);
        assert((base * kq) * dp == base * (kq * dp)) by (nonlinear_arith);
        assert(base * (kp * dq) == (base * kp) * dq) by (nonlinear_arith);
        assert((y * dp) * dq <= (base * kp) * dq);
        assert(y * dp <= base * kp) by (nonlinear_arith)
            requires
                (y * dp) * dq <= (base * kp) * dq,
                dq > 0,
        ;
    }
    assert(y <= x) by (nonlinear_arith)
        requires
            y * dp <= base * kp,
            x == (base * kp) / dp,
            dp > 0,
    ;
    assert(0 <= y) by (nonlinear_arith)
        requires
            y == (base * kq) / dq,
            dq > 0,
            kq >= 0,
            base >= 0,
    ;
    assert(x <= base) by (nonlinear_arith)
        requires
            x == (base * kp) / dp,
            0 <= kp <= dp,
            dp > 0,
            base >= 0,
    ;
}

/// The wait never grows with the number of requests in the queue, and it lies
/// between the shortest wait and the longer of that and the base wait, until
/// the batch is full.
pub proof fn wait_falls_with_the_queue(
    batch_len: nat,
    depth: nat,
    deeper: nat,
    max_batch_size: nat,
    base: nat,
    min: nat,
    threshold: nat,
)
    requires
        depth <= deeper,
    ensures
        adaptive_timeout(batch_len, deeper, max_batch_size, base, min, threshold)
            <= adaptive_timeout(batch_len, depth, max_batch_size, base, min, threshold),
        batch_len < max_batch_size ==> min <= adaptive_timeout(
            batch_len,
            depth,
            max_batch_size,
            base,
            min,
            threshold,
        ) <= if base >= min {
            base
        } else {
            min
        },
{
    if batch_len < max_batch_size {
        let p = pressure(batch_len, depth, max_batch_size, threshold);
        let q = pressure(batch_len, deeper, max_batch_size, threshold);
        let a = if depth <= threshold {
            depth
        } else {
            threshold
        };
        let b = if deeper <= threshold {
            deeper
        } else {
            threshold
        };
        assert(a * max_batch_size <= b * max_batch_size) by (nonlinear_arith)
            requires
                a <= b,
        ;
        assert(a * threshold <= b * threshold) by (nonlinear_arith)
            requires
                a <= b,
        ;
        assert(p.0 * q.1 <= q.0 * p.1);
        more_pressure_is_shorter(base, p, q);
    }
}

/// The wait never grows with the number of requests in the batch.
pub proof fn wait_falls_with_the_batch(
    batch_len: nat,
    fuller: nat,
    depth: nat,
    max_batch_size: nat,
    base: nat,
    min: nat,
    threshold: nat,
)
    requires
        batch_len <= fuller,
    ensures
        adaptive_timeout(fuller, depth, max_batch_size, base, min, threshold) <= adaptive_timeout(
            batch_len,
            depth,
            max_batch_size,
            base,
            min,
            threshold,
        ),
{
    if fuller < max_batch_size {
        let p = pressure(batch_len, depth, max_batch_size, threshold);
        let q = pressure(fuller, depth, max_batch_size, threshold);
        assert(batch_len * threshold <= fuller * threshold) by (nonlinear_arith)
            requires
                batch_len <= fuller,
        ;
        assert(batch_len * max_batch_size <= fuller * max_batch_size) by (nonlinear_arith)
            requires
                batch_len <= fuller,
        ;
        assert(p.0 * q.1 <= q.0 * p.1);
        more_pressure_is_shorter(base, p, q);
    }
}

/// The number of requests after which workers are replaced, moved by `offset`,
/// and 1 at least.
pub open spec fn moved(max_requests: int, offset: int) -> int {
    if max_requests + offset >= 1 {
        max_requests + offset
    } else {
        1
    }
}

/// `max_requests`, moved by `offset`.
pub fn jittered(max_requests: usize, offset: i128) -> (r: usize)
    requires
        -(usize::MAX as int) <= offset <= usize::MAX - max_requests,
    ensures
        r == moved(max_requests as int, offset as int),
{
    let m: i128 = max_requests as i128 + offset;
    if m >= 1 {
        m as usize
    } else {
        1
    }
}

/// `max_requests`, moved at random by up to `jitter`, so that workers are not
/// replaced all at once. Nothing is moved where either number is 0.
pub fn compute_jittered_max_requests(max_requests: usize, jitter: usize) -> (r: usize)
    requires
        max_requests > 0 && jitter > 0 ==> max_requests + jitter <= usize::MAX,
    ensures
        max_requests == 0 || jitter == 0 ==> r == max_requests,
        max_requests > 0 && jitter > 0 ==> exists|offset: int|
            -jitter <= offset <= jitter && r == #[trigger] moved(max_requests as int, offset),
{
    if max_requests == 0 || jitter == 0 {
        return max_requests;
    }
    let offset: i128 = random_between(-(jitter as i128), jitter as i128);
    jittered(max_requests, offset)
}

/// Whether `item` has waited longer than `queue_timeout` and is refused for it.
pub open spec fn is_expired<R>(
    item: QueueItem<R>,
    queue_timeout: Duration,
    action: QueueTimeoutAction,
    now: u128,
) -> bool {
    &&& queue_timeout.nanos > 0
    &&& action == QueueTimeoutAction::Reject
    &&& elapsed(item.enqueued_at, now) > queue_timeout.nanos
}

/// A request that may go on, or the refusal of one that waited too long.
pub enum Checked<R> {
    Fresh(QueueItem<R>),
    Refused(Delivery<R>),
}

/// Whether `d` refuses `item`.
pub open spec fn refuses<R>(d: Delivery<R>, item: QueueItem<R>) -> bool {
    goes_to(d, item) && reports(d.response.single, "Error"@, "503"@) && d.response.metrics is None
}

/// Refuses `item` where it has waited too long.
pub fn check_queue_timeout<R>(
    item: QueueItem<R>,
    queue_timeout: Duration,
    action: QueueTimeoutAction,
    now: u128,
) -> (r: Checked<R>)
    ensures
        match r {
            Checked::Fresh(q) => q == item && !is_expired(item, queue_timeout, action, now),
            Checked::Refused(d) => refuses(d, item) && is_expired(
                item,
                queue_timeout,
                action,
                now,
            ),
        },
{
    let reject = match action {
        QueueTimeoutAction::Reject => true,
        QueueTimeoutAction::Delay => false,
    };
    let waited: u128 = if now >= item.enqueued_at {
        now - item.enqueued_at
    } else {
        0
    };
    if queue_timeout.nanos > 0 && reject && waited > queue_timeout.nanos {
        Checked::Refused(
            Delivery {
                to: item.reply,
                guard: item.inflight_guard,
                response: Response {
                    uid: item.uid,
                    single: status_only("Error".to_string(), "503".to_string()),
                    metrics: None,
                },
            },
        )
    } else {
        Checked::Fresh(item)
    }
}

/// How requests are collected.
#[derive(Debug, Clone, Copy, PartialEq, Eq, Structural)]
pub struct CollectorConfig {
    pub max_batch_size: usize,
    pub base_timeout: Duration,
    pub adaptive: bool,
    pub min_timeout: Duration,
    pub queue_threshold: usize,
    pub queue_timeout: Duration,
    pub queue_timeout_action: QueueTimeoutAction,
}

/// The batch that is being collected.
pub struct BatchCollector<R> {
    config: CollectorConfig,
    batch: Vec<QueueItem<R>>,
    deadline: Option<u128>,
}

/// What came of a request that was handed to the collector.
pub enum Collected<R> {
    /// The request waited too long.
    Refused(Delivery<R>),
    /// This batch is to be sent now.
    Send(Vec<QueueItem<R>>),
    /// The request waits in the batch.
    Waits,
}

/// The model of a [`BatchCollector`].
#[verifier::ext_equal]
pub struct Collection<R> {
    pub batch: Seq<QueueItem<R>>,
    pub deadline: Option<u128>,
}

impl CollectorConfig {
    /// The time that a batch of `len` requests is given to grow.
    pub open spec fn wait(self, len: nat, queue_depth: nat) -> nat {
        if self.adaptive {
            adaptive_timeout(
                len,
                queue_depth,
                self.max_batch_size as nat,
                self.base_timeout.nanos as nat,
                self.min_timeout.nanos as nat,
                self.queue_threshold as nat,
            )
        } else {
            self.base_timeout.nanos as nat
        }
    }

    /// Whether a request that comes out of the queue at `now` is kept.
    pub open spec fn keeps<R>(self, item: QueueItem<R>, now: u128) -> bool {
        !is_expired(item, self.queue_timeout, self.queue_timeout_action, now)
    }
}

impl<R> Collection<R> {
    /// No batch.
    pub open spec fn none() -> Collection<R> {
        Collection { batch: seq![], deadline: None }
    }

    /// The batch that is sent when `item` comes at `now`: the one that `item`
    /// fills.
    pub open spec fn filled_by(self, c: CollectorConfig, item: QueueItem<R>, now: u128) -> Option<
        Seq<QueueItem<R>>,
    > {
        if c.keeps(item, now) && self.batch.len() + 1 >= c.max_batch_size {
            Some(self.batch.push(item))
        } else {
            None
        }
    }

    /// What is held after `item` has come at `now`, with `queue_depth` more
    /// behind it. The first request of a batch sets the batch's deadline.
    pub open spec fn after_item(
        self,
        c: CollectorConfig,
        item: QueueItem<R>,
        now: u128,
        queue_depth: nat,
    ) -> Collection<R> {
        if !c.keeps(item, now) {
            self
        } else if self.filled_by(c, item, now) is Some {
            Collection::none()
        } else {
            Collection {
                batch: self.batch.push(item),
                deadline: match self.deadline {
                    Some(d) => Some(d),
                    None => {
                        let end = now + c.wait(self.batch.len() + 1, queue_depth);
                        Some(
                            if end <= u128::MAX {
                                end as u128
                            } else {
                                u128::MAX
                            },
                        )
                    },
                },
            }
        }
    }
}

impl<R> BatchCollector<R> {
    pub closed spec fn settings(&self) -> CollectorConfig {
        self.config
    }

    pub closed spec fn held(&self) -> Collection<R> {
        Collection { batch: self.batch@, deadline: self.deadline }
    }

    /// A batch that waits is not full and has a deadline, and only such a batch
    /// has one.
    pub open spec fn wf(&self) -> bool {
        let held = self.held();
        &&& held.batch.len() > 0 <==> held.deadline is Some
        &&& held.batch.len() > 0 ==> held.batch.len() < self.settings().max_batch_size
    }

    pub fn new(config: CollectorConfig) -> (c: Self)
        ensures
            c.wf(),
            c.settings() == config,
            c.held() == Collection::<R>::none(),
    {
        BatchCollector { config, batch: Vec::new(), deadline: None }
    }

    /// When the batch that waits is to be sent.
    pub fn deadline(&self) -> (d: Option<u128>)
        ensures
            d == self.held().deadline,
    {
        self.deadline
    }

    /// Takes in a request that came out of the queue at `now`, with
    /// `queue_depth` more behind it.
    pub fn on_item(&mut self, item: QueueItem<R>, now: u128, queue_depth: usize) -> (r: Collected<
        R,
    >)
        requires
            old(self).wf(),
        ensures
            final(self).wf(),
            final(self).settings() == old(self).settings(),
            final(self).held() == old(self).held().after_item(
                old(self).settings(),
                item,
                now,
                queue_depth as nat,
            ),
            ({
                let kept = old(self).settings().keeps(item, now);
                let filled = old(self).held().filled_by(old(self).settings(), item, now);
                match r {
                    Collected::Refused(d) => !kept && refuses(d, item),
                    Collected::Send(b) => filled == Some(b@),
                    Collected::Waits => kept && filled is None,
                }
            }),
    {
        let item = match check_queue_timeout(
            item,
            self.config.queue_timeout,
            self.config.queue_timeout_action,
            now,
        ) {
            Checked::Refused(d) => return Collected::Refused(d),
            Checked::Fresh(item) => item,
        };
        self.batch.push(item);
        if self.batch.len() >= self.config.max_batch_size {
            self.deadline = None;
            let full = self.take();
            return Collected::Send(full);
        }
        if self.deadline.is_none() {
            let wait = if self.config.adaptive {
                compute_adaptive_timeout(
                    self.batch.len(),
                    queue_depth,
                    self.config.max_batch_size,
                    self.config.base_timeout,
                    self.config.min_timeout,
                    self.config.queue_threshold,
                )
            } else {
                self.config.base_timeout
            };
            let end: u128 = if wait.nanos <= u128::MAX - now {
                now + wait.nanos
            } else {
                u128::MAX
            };
            self.deadline = Some(end);
        }
        Collected::Waits
    }

    fn take(&mut self) -> (b: Vec<QueueItem<R>>)
        ensures
            b@ == old(self).batch@,
            final(self).batch@.len() == 0,
            final(self).config == old(self).config,
            final(self).deadline == old(self).deadline,
    {
        let mut out: Vec<QueueItem<R>> = Vec::new();
        std::mem::swap(&mut out, &mut self.batch);
        out
    }

    /// Gives out the batch that waits, because its time has passed.
    pub fn on_deadline(&mut self) -> (r: Option<Vec<QueueItem<R>>>)
        requires
            old(self).wf(),
        ensures
            final(self).wf(),
            final(self).settings() == old(self).settings(),
            final(self).held() == Collection::<R>::none(),
            match r {
                Some(b) => b@ == old(self).held().batch && b@.len() > 0,
                None => old(self).held().batch.len() == 0,
            },
    {
        self.deadline = None;
        let waiting = self.take();
        if waiting.len() > 0 {
            Some(waiting)
        } else {
            None
        }
    }

    /// Gives out the batch that waits, because the queue is closed.
    pub fn on_closed(&mut self) -> (r: Option<Vec<QueueItem<R>>>)
        requires
            old(self).wf(),
        ensures
            final(self).wf(),
            final(self).settings() == old(self).settings(),
            final(self).held() == Collection::<R>::none(),
            match r {
                Some(b) => b@ == old(self).held().batch && b@.len() > 0,
                None => old(self).held().batch.len() == 0,
            },
    {
        self.on_deadline()
    }
}

/// What happens to a collector while its queue is open.
pub enum Event<R> {
    /// A request came out of the queue at `now`, with `queue_depth` more behind
    /// it.
    Item { item: QueueItem<R>, now: u128, queue_depth: nat },
    /// The time of the batch that waited has passed.
    Deadline,
}

/// What is held after `events`.
pub open spec fn held_after<R>(c: CollectorConfig, events: Seq<Event<R>>) -> Collection<R>
    decreases events.len(),
{
    if events.len() == 0 {
        Collection::none()
    } else {
        match events.last() {
            Event::Item { item, now, queue_depth } => held_after(c, events.drop_last()).after_item(
                c,
                item,
                now,
                queue_depth,
            ),
            Event::Deadline => Collection::none(),
        }
    }
}

/// `batches` and, where it holds requests, `batch`.
pub open spec fn with_batch<R>(
    batches: Seq<Seq<QueueItem<R>>>,
    batch: Seq<QueueItem<R>>,
) -> Seq<Seq<QueueItem<R>>> {
    if batch.len() > 0 {
        batches.push(batch)
    } else {
        batches
    }
}

/// The batches that are sent in the course of `events`.
pub open spec fn sent_by<R>(c: CollectorConfig, events: Seq<Event<R>>) -> Seq<Seq<QueueItem<R>>>
    decreases events.len(),
{
    if events.len() == 0 {
        seq![]
    } else {
        let sent = sent_by(c, events.drop_last());
        let held = held_after(c, events.drop_last());
        match events.last() {
            Event::Item { item, now, .. } => match held.filled_by(c, item, now) {
                Some(batch) => sent.push(batch),
                None => sent,
            },
            Event::Deadline => with_batch(sent, held.batch),
        }
    }
}

/// The batches of a whole run: those that are sent in the course of `events`,
/// and what is left when the queue is closed.
pub open spec fn sent_in_all<R>(c: CollectorConfig, events: Seq<Event<R>>) -> Seq<
    Seq<QueueItem<R>>,
> {
    with_batch(sent_by(c, events), held_after(c, events).batch)
}

/// The requests among `events` that did not wait too long, in their order.
pub open spec fn kept_of<R>(c: CollectorConfig, events: Seq<Event<R>>) -> Seq<QueueItem<R>>
    decreases events.len(),
{
    if events.len() == 0 {
        seq![]
    } else {
        let kept = kept_of(c, events.drop_last());
        match events.last() {
            Event::Item { item, now, .. } => if c.keeps(item, now) {
                kept.push(item)
            } else {
                kept
            },
            Event::Deadline => kept,
        }
    }
}

/// Whether each of `batches` holds requests, and no more than are allowed.
pub open spec fn sizes_fit<R>(c: CollectorConfig, batches: Seq<Seq<QueueItem<R>>>) -> bool {
    forall|i: int|
        0 <= i < batches.len() ==> 1 <= (#[trigger] batches[i]).len() && (batches[i].len() == 1
            || batches[i].len() <= c.max_batch_size)
}

proof fn batch_joins<R>(batches: Seq<Seq<QueueItem<R>>>, batch: Seq<QueueItem<R>>)
    ensures
        with_batch(batches, batch).flatten() == batches.flatten() + batch,
        batches.push(batch).flatten() == batches.flatten() + batch,
{
    batches.lemma_flatten_push(batch);
    assert(batch.len() == 0 ==> batches.flatten() + batch =~= batches.flatten());
}

proof fn events_lose_nothing<R>(c: CollectorConfig, events: Seq<Event<R>>)
    ensures
        sent_by(c, events).flatten() + held_after(c, events).batch == kept_of(c, events),
        sizes_fit(c, sent_by(c, events)),
        held_after(c, events).batch.len() > 0 ==> held_after(c, events).batch.len()
            < c.max_batch_size,
    decreases events.len(),
{
    if events.len() == 0 {
        assert(sent_by(c, events).flatten() =~= Seq::<QueueItem<R>>::empty());
    } else {
        let before = events.drop_last();
        events_lose_nothing(c, before);
        let sent = sent_by(c, before);
        let held = held_after(c, before).batch;
        batch_joins(sent, held);
        if let Event::Item { item, now, .. } = events.last() {
            batch_joins(sent, held.push(item));
            assert(sent.flatten() + held.push(item) =~= (sent.flatten() + held).push(item));
        }
        assert(sent_by(c, events).flatten() + held_after(c, events).batch =~= kept_of(c, events));
    }
}

/// The batches of a whole run, one after the other, are the requests that were
/// kept, in their order: none is lost, sent twice or overtaken. No batch is
/// empty, and none is larger than is allowed.
pub proof fn batches_are_the_requests_in_order<R>(c: CollectorConfig, events: Seq<Event<R>>)
    ensures
        sent_in_all(c, events).flatten() == kept_of(c, events),
        sizes_fit(c, sent_in_all(c, events)),
{
    events_lose_nothing(c, events);
    batch_joins(sent_by(c, events), held_after(c, events).batch);
}

proof fn shortened_bounds(base: nat, p: (nat, nat))
    requires
        p.0 <= p.1,
        0 < p.1,
    ensures
        100 * p.1 * shortened(base, p) <= base * (100 * p.1 - 99 * p.0) < 100 * p.1 * (shortened(
            base,
            p,
        ) + 1),
{
    let d = 100 * p.1 as int;
    let k = 100 * p.1 - 99 * p.0;
    let x = base * k;
    assert(x >= 0) by (nonlinear_arith)
        requires
            x == base * k,
            base >= 0,
            k >= 0,
    ;
    assert(x / d >= 0 && d * (x / d) <= x < d * (x / d + 1)) by (nonlinear_arith)
        requires
            x >= 0,
            d > 0,
    ;
    assert(shortened(base, p) == x / d);
}

/// The wait of a batch that is not full is cut by 99 percent of how full the queue
/// is, or of how full the batch is, whichever cuts more, and it is never cut
/// below the shortest wait. Beyond its threshold the queue counts as full, and with
/// a threshold of 0 it does not count.
pub proof fn the_fuller_one_cuts_the_wait(
    batch_len: nat,
    depth: nat,
    max_batch_size: nat,
    base: nat,
    min: nat,
    threshold: nat,
)
    requires
        batch_len < max_batch_size,
    ensures
        ({
            let t = adaptive_timeout(batch_len, depth, max_batch_size, base, min, threshold);
            let waiting = if depth <= threshold {
                depth
            } else {
                threshold
            };
            &&& t >= min
            &&& t == min || 100 * max_batch_size * t <= base * (100 * max_batch_size - 99
                * batch_len)
            &&& t == min || threshold == 0 || 100 * threshold * t <= base * (100 * threshold - 99
                * waiting)
            &&& base * (100 * max_batch_size - 99 * batch_len) < 100 * max_batch_size * (t + 1) || (
            threshold > 0 && base * (100 * threshold - 99 * waiting) < 100 * threshold * (t + 1))
        }),
{
    let waiting = if depth <= threshold {
        depth
    } else {
        threshold
    };
    let p = pressure(batch_len, depth, max_batch_size, threshold);
    let by_batch = (batch_len, max_batch_size);
    let by_queue = (waiting, threshold);
    let s = shortened(base, p);
    let t = adaptive_timeout(batch_len, depth, max_batch_size, base, min, threshold);
    shortened_bounds(base, p);
    assert(100 * p.1 * (s + 1) <= 100 * p.1 * (t + 1)) by (nonlinear_arith)
        requires
            s <= t,
            p.1 >= 0,
    ;
    if threshold > 0 {
        shortened_bounds(base, by_queue);
        if p == by_queue {
            more_pressure_is_shorter(base, by_batch, by_queue);
            shortened_bounds(base, by_batch);
            let b = shortened(base, by_batch);
            assert(100 * max_batch_size * s <= 100 * max_batch_size * b) by (nonlinear_arith)
                requires
                    s <= b,
            ;
        } else {
            assert(by_queue.0 * by_batch.1 <= by_batch.0 * by_queue.1);
            more_pressure_is_shorter(base, by_queue, by_batch);
            let q = shortened(base, by_queue);
            assert(100 * threshold * s <= 100 * threshold * q) by (nonlinear_arith)
                requires
                    s <= q,
            ;
        }
    }
}

/// Under full load the wait is one percent of the base wait, or the shortest wait
/// where that is longer; without load nothing is cut.
pub proof fn the_wait_at_its_ends(
    batch_len: nat,
    depth: nat,
    max_batch_size: nat,
    base: nat,
    min: nat,
    threshold: nat,
)
    requires
        batch_len < max_batch_size,
    ensures
        0 < threshold <= depth ==> adaptive_timeout(
            batch_len,
            depth,
            max_batch_size,
            base,
            min,
            threshold,
        ) == if base / 100 >= min {
            base / 100
        } else {
            min
        },
        batch_len == 0 && (depth == 0 || threshold == 0) ==> adaptive_timeout(
            batch_len,
            depth,
            max_batch_size,
            base,
            min,
            threshold,
        ) == if base >= min {
            base
        } else {
            min
        },
{
    let p = pressure(batch_len, depth, max_batch_size, threshold);
    let s = shortened(base, p);
    shortened_bounds(base, p);
    if 0 < threshold <= depth {
        assert(threshold * max_batch_size > batch_len * threshold) by (nonlinear_arith)
            requires
                batch_len < max_batch_size,
                threshold > 0,
        ;
        assert(100 * s <= base < 100 * (s + 1)) by (nonlinear_arith)
            requires
                100 * threshold * s <= base * (100 * threshold - 99 * threshold) < 100 * threshold
                    * (s + 1),
                threshold > 0,
        ;
    } else if batch_len == 0 && (depth == 0 || threshold == 0) {
        assert(p.0 == 0 && p.1 > 0) by {
            assert(0 * threshold == 0) by (nonlinear_arith);
            assert(0 * max_batch_size == 0) by (nonlinear_arith);
        }
        let d = p.1;
        assert(s <= base < s + 1) by (nonlinear_arith)
            requires
                100 * d * s <= base * (100 * d - 0) < 100 * d * (s + 1),
                d > 0,
        ;
    }
}

/// The first request of a batch that it does not fill sets when the batch is sent:
/// after the base wait, or after the adaptive wait where that is switched on. The
/// requests behind it do not change that.
pub proof fn the_first_request_sets_the_deadline<R>(
    c: CollectorConfig,
    held: Collection<R>,
    item: QueueItem<R>,
    now: u128,
    depth: nat,
)
    requires
        c.keeps(item, now),
        held.filled_by(c, item, now) is None,
    ensures
        held.deadline is Some ==> held.after_item(c, item, now, depth).deadline == held.deadline,
        held.deadline is None && !c.adaptive && now + c.base_timeout.nanos <= u128::MAX
            ==> held.after_item(c, item, now, depth).deadline == Some(
            (now + c.base_timeout.nanos) as u128,
        ),
        ({
            let wait = adaptive_timeout(
                held.batch.len() + 1,
                depth,
                c.max_batch_size as nat,
                c.base_timeout.nanos as nat,
                c.min_timeout.nanos as nat,
                c.queue_threshold as nat,
            );
            held.deadline is None && c.adaptive && now + wait <= u128::MAX ==> held.after_item(
                c,
                item,
                now,
                depth,
            ).deadline == Some((now + wait) as u128)
        }),
        held.after_item(c, item, now, depth).batch == held.batch.push(item),
{
}

/// With adaptive batching, a queue that is over its threshold leaves the first
/// request of a batch no more than one percent of the base wait, or the shortest
/// wait.
pub proof fn a_full_queue_is_not_waited_for<R>(
    c: CollectorConfig,
    item: QueueItem<R>,
    now: u128,
    depth: nat,
)
    requires
        c.adaptive,
        c.keeps(item, now),
        c.max_batch_size > 1,
        0 < c.queue_threshold <= depth,
    ensures
        Collection::none().after_item(c, item, now, depth).deadline matches Some(d) && d <= now
            + if c.base_timeout.nanos / 100 >= c.min_timeout.nanos {
            c.base_timeout.nanos / 100
        } else {
            c.min_timeout.nanos
        },
{
    the_wait_at_its_ends(
        1,
        depth,
        c.max_batch_size as nat,
        c.base_timeout.nanos as nat,
        c.min_timeout.nanos as nat,
        c.queue_threshold as nat,
    );
}

/// A batch is sent by a request exactly when that makes it as large as it may be.
pub proof fn full_batches_are_sent<R>(
    c: CollectorConfig,
    held: Collection<R>,
    item: QueueItem<R>,
    now: u128,
)
    requires
        c.keeps(item, now),
        held.batch.len() > 0 ==> held.batch.len() < c.max_batch_size,
    ensures
        held.filled_by(c, item, now) matches Some(b) ==> b == held.batch + seq![item] && b.len()
            == if c.max_batch_size >= 1 {
            c.max_batch_size as nat
        } else {
            1
        },
        held.filled_by(c, item, now) is None ==> held.batch.len() + 1 < c.max_batch_size,
{
    assert(held.batch.push(item) =~= held.batch + seq![item]);
}

/// A request is refused exactly where it has waited longer than the queue's
/// timeout and the timeout refuses: one that came `waited` before is kept up to
/// and at the timeout.
pub proof fn requests_are_refused_after_the_timeout<R>(
    c: CollectorConfig,
    item: QueueItem<R>,
    waited: u128,
)
    requires
        item.enqueued_at + waited <= u128::MAX,
    ensures
        c.queue_timeout_action == QueueTimeoutAction::Delay || c.queue_timeout.nanos == 0 || waited
            <= c.queue_timeout.nanos ==> c.keeps(item, (item.enqueued_at + waited) as u128),
        c.queue_timeout_action == QueueTimeoutAction::Reject && 0 < c.queue_timeout.nanos < waited
            ==> !c.keeps(item, (item.enqueued_at + waited) as u128),
{
}

/// A random move goes both ways, by no more than the jitter, and leaves one request
/// at least.
pub proof fn moves_stay_within_the_jitter(max_requests: int, jitter: int, offset: int)
    requires
        max_requests >= 1,
        -jitter <= offset <= jitter,
    ensures
        1 <= moved(max_requests, offset) <= max_requests + jitter,
        moved(max_requests, offset) >= max_requests - jitter,
        offset >= 1 - max_requests ==> moved(max_requests, offset) - max_requests == offset,
{
}

/// A full batch is not waited for. A batch that a request fills is sent and no
/// longer held, and a request that is refused changes no batch.
pub proof fn sent_batches_are_not_held<R>(
    c: CollectorConfig,
    held: Collection<R>,
    item: QueueItem<R>,
    now: u128,
    depth: nat,
    base: nat,
    min: nat,
    threshold: nat,
)
    ensures
        held.batch.len() >= c.max_batch_size ==> adaptive_timeout(
            held.batch.len(),
            depth,
            c.max_batch_size as nat,
            base,
            min,
            threshold,
        ) == 0,
        c.keeps(item, now) && held.batch.len() + 1 >= c.max_batch_size ==> {
            &&& held.filled_by(c, item, now) == Some(held.batch.push(item))
            &&& held.after_item(c, item, now, depth).batch.len() == 0
            &&& held.after_item(c, item, now, depth).deadline is None
        },
        !c.keeps(item, now) ==> held.filled_by(c, item, now) is None && held.after_item(
            c,
            item,
            now,
            depth,
        ) == held,
        Collection::<R>::none().batch.len() == 0 && Collection::<R>::none().deadline is None,
{
}

/// A wait that passes the end of time ends there.
pub proof fn deadlines_do_not_wrap<R>(
    c: CollectorConfig,
    held: Collection<R>,
    item: QueueItem<R>,
    now: u128,
    depth: nat,
)
    requires
        c.keeps(item, now),
        held.filled_by(c, item, now) is None,
        held.deadline is None,
    ensures
        held.after_item(c, item, now, depth).deadline matches Some(d) && d >= now && (!c.adaptive
            && now + c.base_timeout.nanos > u128::MAX ==> d == u128::MAX),
{
}

/// A refused request is told so under its own name, with an error and nothing
/// else.
pub proof fn refusals_go_to_their_request<R>(d: Delivery<R>, item: QueueItem<R>)
    requires
        refuses(d, item),
    ensures
        d.to == item.reply,
        d.guard == item.inflight_guard,
        d.response.uid@ == item.uid@,
        d.response.single.status matches Some(st) && st.code@ == "Error"@ && st.message@ == "503"@,
        d.response.metrics is None,
{
}

} // verus!
