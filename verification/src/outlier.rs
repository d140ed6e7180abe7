//! Passive outlier detection over the workers of one model version.
//!
//! Each worker has a circuit. Consecutive errors open it and the worker is
//! ejected. After a time that doubles with each ejection in a row, the circuit
//! is half open and the worker is tried again: a success closes the circuit, an
//! error opens it anew.

use crate::time::{elapsed, Clock, Duration};
use vstd::prelude::*;

verus! {

/// An open or half-open circuit.
#[derive(Debug, Clone, Copy, PartialEq, Eq, Structural)]
pub struct Ejection {
    /// When the circuit was opened, on the clock of the circuits.
    pub at: u128,
    pub half_open: bool,
}

/// What is known of one worker. Its circuit is closed where `ejected` is
/// `None`.
#[derive(Debug, Clone, Copy, PartialEq, Eq, Structural)]
pub struct WorkerOutlier {
    pub consecutive_errors: usize,
    pub ejection_series: usize,
    pub ejected: Option<Ejection>,
}

/// When workers are ejected and for how long.
#[derive(Debug, Clone, Copy, PartialEq, Eq, Structural)]
pub struct EjectionConfig {
    /// The consecutive errors that open a circuit; 0 opens none.
    pub error_threshold: usize,
    /// How long the first ejection lasts.
    pub timeout: Duration,
    /// The share of workers, in percent, that may be ejected at a time.
    pub max_percent: usize,
    /// The longest that an ejection lasts.
    pub max_timeout: Duration,
}

impl Default for EjectionConfig {
    fn default() -> (r: Self)
        ensures
            r.error_threshold == 3,
            r.timeout.nanos == 30_000_000_000,
            r.max_percent == 50,
            r.max_timeout.nanos == 300_000_000_000,
    {
        EjectionConfig {
            error_threshold: 3,
            timeout: Duration::from_secs(30),
            max_percent: 50,
            max_timeout: Duration::from_secs(300),
        }
    }
}

/// The circuits of the workers of one model version.
pub struct OutlierState {
    workers: Vec<WorkerOutlier>,
    consecutive_threshold: usize,
    base_ejection_time: Duration,
    max_ejection_percent: usize,
    max_ejection_time: Duration,
    clock: Clock,
}

/// The model of an [`OutlierState`].
#[verifier::ext_equal]
pub struct Circuits {
    pub workers: Seq<WorkerOutlier>,
    pub threshold: nat,
    pub base_time: nat,
    pub max_percent: nat,
    pub max_time: nat,
    /// The clock by which circuits are opened and tried again.
    pub clock: Clock,
}

impl View for OutlierState {
    type V = Circuits;

    closed spec fn view(&self) -> Circuits {
        Circuits {
            workers: self.workers@,
            threshold: self.consecutive_threshold as nat,
            base_time: self.base_ejection_time.nanos as nat,
            max_percent: self.max_ejection_percent as nat,
            max_time: self.max_ejection_time.nanos as nat,
            clock: self.clock,
        }
    }
}

/// One more than `n`, or 0 where the counter is full.
pub open spec fn counted(n: usize) -> usize {
    if n == usize::MAX {
        0
    } else {
        (n + 1) as usize
    }
}

/// `base`, doubled `k` times.
pub open spec fn doubled(base: nat, k: nat) -> nat
    decreases k,
{
    if k == 0 {
        base
    } else {
        2 * doubled(base, (k - 1) as nat)
    }
}

/// How often the first ejection time is doubled at the `series`-th ejection in
/// a row.
pub open spec fn doublings(series: nat) -> nat {
    if series <= 1 {
        0
    } else if series <= 21 {
        (series - 1) as nat
    } else {
        20
    }
}

/// How many of the first `n` workers but `but` have a circuit that is not
/// closed.
pub open spec fn ejected_among(workers: Seq<WorkerOutlier>, n: int, but: int) -> nat
    decreases n,
{
    if n <= 0 {
        0
    } else {
        ejected_among(workers, n - 1, but) + if n - 1 != but && workers[n - 1].ejected is Some {
            1nat
        } else {
            0nat
        }
    }
}

impl Circuits {
    pub open spec fn backoff(self, series: nat) -> nat {
        let d = doubled(self.base_time, doublings(series));
        if d < self.max_time {
            d
        } else {
            self.max_time
        }
    }

    /// How many circuits may be open at a time.
    pub open spec fn limit(self) -> nat {
        let share = self.workers.len() * self.max_percent / 100;
        if share >= 1 {
            share
        } else {
            1
        }
    }

    pub open spec fn with(self, i: int, w: WorkerOutlier) -> Circuits {
        Circuits { workers: self.workers.update(i, w), ..self }
    }

    pub open spec fn after_success(self, i: int) -> Circuits {
        if i >= self.workers.len() {
            self
        } else {
            let w = self.workers[i];
            if w.ejected matches Some(e) && e.half_open {
                self.with(
                    i,
                    WorkerOutlier { consecutive_errors: 0, ejection_series: 0, ejected: None },
                )
            } else {
                self.with(i, WorkerOutlier { consecutive_errors: 0, ..w })
            }
        }
    }

    /// Whether an error of worker `i` opens its circuit.
    pub open spec fn error_opens(self, i: int) -> bool {
        let w = self.workers[i];
        &&& i < self.workers.len()
        &&& match w.ejected {
            Some(e) => e.half_open,
            None => {
                &&& self.threshold > 0
                &&& counted(w.consecutive_errors) >= self.threshold
                &&& ejected_among(self.workers, self.workers.len() as int, i) < self.limit()
            },
        }
    }

    pub open spec fn after_error(self, i: int, now: u128) -> Circuits {
        if i >= self.workers.len() {
            self
        } else {
            let w = self.workers[i];
            if self.error_opens(i) {
                self.with(
                    i,
                    WorkerOutlier {
                        consecutive_errors: if w.ejected is Some {
                            0
                        } else {
                            counted(w.consecutive_errors)
                        },
                        ejection_series: counted(w.ejection_series),
                        ejected: Some(Ejection { at: now, half_open: false }),
                    },
                )
            } else {
                self.with(
                    i,
                    WorkerOutlier { consecutive_errors: counted(w.consecutive_errors), ..w },
                )
            }
        }
    }

    /// Whether the circuit of worker `i` is open and its time has not passed.
    pub open spec fn ejected_at(self, i: int, now: u128) -> bool {
        &&& 0 <= i < self.workers.len()
        &&& self.workers[i].ejected matches Some(e) && !e.half_open && elapsed(e.at, now)
            < self.backoff(self.workers[i].ejection_series as nat)
    }

    /// The state after worker `i` was looked at: an open circuit whose time has
    /// passed is half open.
    pub open spec fn after_look(self, i: int, now: u128) -> Circuits {
        if 0 <= i < self.workers.len() && !self.ejected_at(i, now) {
            match self.workers[i].ejected {
                Some(e) => if e.half_open {
                    self
                } else {
                    self.with(
                        i,
                        WorkerOutlier {
                            consecutive_errors: 0,
                            ejection_series: self.workers[i].ejection_series,
                            ejected: Some(Ejection { at: e.at, half_open: true }),
                        },
                    )
                },
                None => self,
            }
        } else {
            self
        }
    }
}

/// How many of the first `n` workers have a closed circuit.
pub open spec fn closed_among(workers: Seq<WorkerOutlier>, n: int) -> nat
    decreases n,
{
    if n <= 0 {
        0
    } else {
        closed_among(workers, n - 1) + if workers[n - 1].ejected is None {
            1nat
        } else {
            0nat
        }
    }
}

/// A worker of which nothing is known.
pub open spec fn fresh_worker() -> WorkerOutlier {
    WorkerOutlier { consecutive_errors: 0, ejection_series: 0, ejected: None }
}

fn count_up(n: usize) -> (r: usize)
    ensures
        r == counted(n),
{
    if n == usize::MAX {
        0
    } else {
        n + 1
    }
}

impl OutlierState {
    /// `num_workers` closed circuits with the default configuration.
    pub fn new(num_workers: usize) -> (r: Self)
        ensures
            r@.workers == Seq::new(num_workers as nat, |i: int| fresh_worker()),
            r@.threshold == 3,
            r@.base_time == 30_000_000_000,
            r@.max_percent == 50,
            r@.max_time == 300_000_000_000,
    {
        let config: EjectionConfig = Default::default();
        Self::with_config(num_workers, &config)
    }

    /// `num_workers` closed circuits.
    pub fn with_config(num_workers: usize, config: &EjectionConfig) -> (r: Self)
        ensures
            r@.workers == Seq::new(num_workers as nat, |i: int| fresh_worker()),
            r@.threshold == config.error_threshold,
            r@.base_time == config.timeout.nanos,
            r@.max_percent == config.max_percent,
            r@.max_time == if config.max_timeout.nanos >= config.timeout.nanos {
                config.max_timeout.nanos
            } else {
                config.timeout.nanos
            },
    {
        let mut workers: Vec<WorkerOutlier> = Vec::new();
        let mut i: usize = 0;
        while i < num_workers
            invariant
                i <= num_workers,
                workers@ == Seq::new(i as nat, |j: int| fresh_worker()),
            decreases num_workers - i,
        {
            workers.push(
                WorkerOutlier { consecutive_errors: 0, ejection_series: 0, ejected: None },
            );
            i = i + 1;
            assert(workers@ =~= Seq::new(i as nat, |j: int| fresh_worker()));
        }
        OutlierState {
            workers,
            consecutive_threshold: config.error_threshold,
            base_ejection_time: config.timeout,
            max_ejection_percent: config.max_percent,
            max_ejection_time: config.max_timeout.longer(config.timeout),
            clock: Clock::start(),
        }
    }

    /// The number of workers.
    pub fn len(&self) -> (n: usize)
        ensures
            n == self@.workers.len(),
    {
        self.workers.len()
    }

    /// What the clock of the circuits shows. The functions that take the time
    /// take it on this clock.
    pub fn now(&self) -> (now: u128)
        ensures
            self@.clock.can_show(now),
    {
        self.clock.now()
    }

    /// How long the `series`-th ejection in a row lasts.
    pub fn backoff(&self, series: usize) -> (d: Duration)
        ensures
            d.nanos == self@.backoff(series as nat),
    {
        let times: usize = if series <= 1 {
            0
        } else if series <= 21 {
            series - 1
        } else {
            20
        };
        let max: u128 = self.max_ejection_time.nanos;
        let ghost base = self.base_ejection_time.nanos as nat;
        let mut acc: u128 = self.base_ejection_time.nanos;
        if acc >= max {
            proof {
                doubled_grows(base, 0, times as nat);
            }
            return Duration::from_nanos(max);
        }
        let mut i: usize = 0;
        while i < times
            invariant
                i <= times,
                acc < max,
                acc == doubled(base, i as nat),
                base == self@.base_time,
                max == self@.max_time,
                times == doublings(series as nat),
            decreases times - i,
        {
            if acc >= max - acc {
                proof {
                    doubled_grows(base, (i + 1) as nat, times as nat);
                }
                return Duration::from_nanos(max);
            }
            acc = acc + acc;
            i = i + 1;
        }
        Duration::from_nanos(acc)
    }

    /// Records that worker `worker_idx` answered well: its errors are
    /// forgotten, and a half-open circuit is closed.
    pub fn record_success(&mut self, worker_idx: usize)
        ensures
            final(self)@ == old(self)@.after_success(worker_idx as int),
    {
        if worker_idx < self.workers.len() {
            let mut w = self.workers[worker_idx];
            w.consecutive_errors = 0;
            if let Some(e) = w.ejected {
                if e.half_open {
                    w.ejected = None;
                    w.ejection_series = 0;
                }
            }
            self.workers.set(worker_idx, w);
        }
    }

    /// The consecutive errors of worker `worker_idx`, 0 where there is no such
    /// worker.
    pub fn consecutive_errors(&self, worker_idx: usize) -> (n: usize)
        ensures
            n == if worker_idx < self@.workers.len() {
                self@.workers[worker_idx as int].consecutive_errors
            } else {
                0
            },
    {
        if worker_idx < self.workers.len() {
            self.workers[worker_idx].consecutive_errors
        } else {
            0
        }
    }

    /// Forgets the errors of worker `worker_idx` and leaves its circuit as it
    /// is.
    pub fn reset_error_count(&mut self, worker_idx: usize)
        ensures
            final(self)@ == if worker_idx < old(self)@.workers.len() {
                old(self)@.with(
                    worker_idx as int,
                    (WorkerOutlier {
                        consecutive_errors: 0,
                        ..old(self)@.workers[worker_idx as int]
                    }),
                )
            } else {
                old(self)@
            },
    {
        if worker_idx < self.workers.len() {
            let mut w = self.workers[worker_idx];
            w.consecutive_errors = 0;
            self.workers.set(worker_idx, w);
        }
    }

    /// Forgets all that is known of worker `worker_idx`.
    pub fn reset(&mut self, worker_idx: usize)
        ensures
            final(self)@ == if worker_idx < old(self)@.workers.len() {
                old(self)@.with(worker_idx as int, fresh_worker())
            } else {
                old(self)@
            },
    {
        if worker_idx < self.workers.len() {
            self.workers.set(
                worker_idx,
                WorkerOutlier { consecutive_errors: 0, ejection_series: 0, ejected: None },
            );
        }
    }

    /// Records an error of worker `worker_idx`. Tells whether it opened the
    /// worker's circuit.
    pub fn record_error(&mut self, worker_idx: usize) -> (opened: bool)
        ensures
            opened == old(self)@.error_opens(worker_idx as int),
            exists|now: u128|
                old(self)@.clock.can_show(now) && final(self)@
                    == #[trigger] old(self)@.after_error(worker_idx as int, now),
    {
        let now: u128 = self.clock.now();
        self.record_error_at(worker_idx, now)
    }

    /// Records an error of worker `worker_idx` that came at `now`, on the clock
    /// of the circuits. Tells whether it opened the worker's circuit.
    pub fn record_error_at(&mut self, worker_idx: usize, now: u128) -> (opened: bool)
        ensures
            opened == old(self)@.error_opens(worker_idx as int),
            final(self)@ == old(self)@.after_error(worker_idx as int, now),
    {
        if worker_idx >= self.workers.len() {
            return false;
        }
        let mut w = self.workers[worker_idx];
        match w.ejected {
            Some(e) => {
                if e.half_open {
                    w.ejection_series = count_up(w.ejection_series);
                    w.ejected = Some(Ejection { at: now, half_open: false });
                    w.consecutive_errors = 0;
                    self.workers.set(worker_idx, w);
                    return true;
                }
                w.consecutive_errors = count_up(w.consecutive_errors);
                self.workers.set(worker_idx, w);
                false
            },
            None => {
                w.consecutive_errors = count_up(w.consecutive_errors);
                if self.consecutive_threshold > 0 && w.consecutive_errors
                    >= self.consecutive_threshold && self.may_eject(worker_idx) {
                    w.ejection_series = count_up(w.ejection_series);
                    w.ejected = Some(Ejection { at: now, half_open: false });
                    self.workers.set(worker_idx, w);
                    true
                } else {
                    self.workers.set(worker_idx, w);
                    false
                }
            },
        }
    }

    /// Whether few enough of the other circuits are open for that of worker
    /// `worker_idx` to be opened.
    fn may_eject(&self, worker_idx: usize) -> (r: bool)
        ensures
            r == (ejected_among(self@.workers, self@.workers.len() as int, worker_idx as int)
                < self@.limit()),
    {
        let mut count: usize = 0;
        let mut i: usize = 0;
        while i < self.workers.len()
            invariant
                i <= self.workers@.len(),
                count <= i,
                count == ejected_among(self.workers@, i as int, worker_idx as int),
            decreases self.workers.len() - i,
        {
            if i != worker_idx && self.workers[i].ejected.is_some() {
                count = count + 1;
            }
            i = i + 1;
        }
        let len: usize = self.workers.len();
        let percent: usize = self.max_ejection_percent;
        assert(0 <= len * percent <= usize::MAX * usize::MAX) by (nonlinear_arith)
            requires
                0 <= len <= usize::MAX,
                0 <= percent <= usize::MAX,
        ;
        assert(usize::MAX * usize::MAX <= u128::MAX) by (nonlinear_arith)
            requires
                usize::MAX <= 0xffff_ffff_ffff_ffff,
        ;
        let share: u128 = len as u128 * percent as u128 / 100;
        let limit: u128 = if share >= 1 {
            share
        } else {
            1
        };
        (count as u128) < limit
    }

    /// Whether worker `worker_idx` is ejected. A look at a worker whose time
    /// has passed makes its circuit half open.
    pub fn is_ejected(&mut self, worker_idx: usize) -> (r: bool)
        ensures
            exists|now: u128|
                old(self)@.clock.can_show(now) && r == old(self)@.ejected_at(
                    worker_idx as int,
                    now,
                ) && final(self)@ == #[trigger] old(self)@.after_look(worker_idx as int, now),
    {
        let now: u128 = self.clock.now();
        self.is_ejected_at(worker_idx, now)
    }

    /// Whether worker `worker_idx` is ejected at `now`, on the clock of the
    /// circuits.
    pub fn is_ejected_at(&mut self, worker_idx: usize, now: u128) -> (r: bool)
        ensures
            r == old(self)@.ejected_at(worker_idx as int, now),
            final(self)@ == old(self)@.after_look(worker_idx as int, now),
    {
        if worker_idx >= self.workers.len() {
            return false;
        }
        let mut w = self.workers[worker_idx];
        match w.ejected {
            None => false,
            Some(e) => {
                if e.half_open {
                    return false;
                }
                let wait = self.backoff(w.ejection_series);
                let passed: u128 = if now >= e.at {
                    now - e.at
                } else {
                    0
                };
                if passed >= wait.nanos {
                    w.ejected = Some(Ejection { at: e.at, half_open: true });
                    w.consecutive_errors = 0;
                    self.workers.set(worker_idx, w);
                    false
                } else {
                    true
                }
            },
        }
    }

    /// How many workers have a closed circuit.
    pub fn active_count(&self) -> (n: usize)
        ensures
            n == closed_among(self@.workers, self@.workers.len() as int),
    {
        let mut count: usize = 0;
        let mut i: usize = 0;
        while i < self.workers.len()
            invariant
                i <= self.workers@.len(),
                count <= i,
                count == closed_among(self.workers@, i as int),
            decreases self.workers.len() - i,
        {
            if self.workers[i].ejected.is_none() {
                count = count + 1;
            }
            i = i + 1;
        }
        count
    }
}

proof fn doubled_grows(base: nat, a: nat, b: nat)
    requires
        a <= b,
    ensures
        doubled(base, a) <= doubled(base, b),
    decreases b,
{
    if a < b {
        doubled_grows(base, a, (b - 1) as nat);
    }
}

/// The time of an ejection never falls with the number of ejections in a row,
/// and never passes the longest time.
pub proof fn backoff_grows_up_to_its_limit(c: Circuits, a: nat, b: nat)
    requires
        a <= b,
    ensures
        c.backoff(a) <= c.backoff(b) <= c.max_time,
{
    doubled_grows(c.base_time, doublings(a), doublings(b));
}

/// With a threshold of 0 no error opens a closed circuit.
pub proof fn threshold_zero_ejects_nobody(c: Circuits, i: int, now: u128)
    requires
        c.threshold == 0,
        0 <= i < c.workers.len(),
        c.workers[i].ejected is None,
    ensures
        !c.error_opens(i),
        c.after_error(i, now).workers[i].ejected is None,
{
}

proof fn ejected_among_update(workers: Seq<WorkerOutlier>, n: int, i: int, w: WorkerOutlier)
    requires
        0 <= n <= workers.len(),
        0 <= i < workers.len(),
    ensures
        ejected_among(workers.update(i, w), n, i) == ejected_among(workers, n, i),
        ejected_among(workers.update(i, w), n, -1) == ejected_among(workers, n, i) + if i < n
            && w.ejected is Some {
            1nat
        } else {
            0nat
        },
    decreases n,
{
    if n > 0 {
        ejected_among_update(workers, n - 1, i, w);
    }
}

/// Whether no more circuits are open or half open than the limit allows.
pub open spec fn within_limit(c: Circuits) -> bool {
    ejected_among(c.workers, c.workers.len() as int, -1) <= c.limit()
}

proof fn fresh_workers_are_closed(n: nat, k: int)
    requires
        0 <= k <= n,
    ensures
        ejected_among(Seq::new(n, |i: int| fresh_worker()), k, -1) == 0,
    decreases k,
{
    if k > 0 {
        fresh_workers_are_closed(n, k - 1);
    }
}

/// No more circuits are ever open or half open than the limit allows: it is so
/// at the beginning, and whatever is recorded or looked at keeps it so.
pub proof fn ejections_stay_within_the_limit(c: Circuits, i: int, now: u128)
    requires
        0 <= i < c.workers.len(),
    ensures
        within_limit(
            Circuits { workers: Seq::new(c.workers.len(), |j: int| fresh_worker()), ..c },
        ),
        within_limit(c) ==> within_limit(c.after_error(i, now)),
        within_limit(c) ==> within_limit(c.after_success(i)),
        within_limit(c) ==> within_limit(c.after_look(i, now)),
        within_limit(c) ==> within_limit(c.with(i, fresh_worker())),
{
    let n = c.workers.len() as int;
    fresh_workers_are_closed(c.workers.len(), n);
    assert(c.workers.update(i, c.workers[i]) =~= c.workers);
    ejected_among_update(c.workers, n, i, c.workers[i]);
    ejected_among_update(c.workers, n, i, c.after_error(i, now).workers[i]);
    ejected_among_update(c.workers, n, i, c.after_success(i).workers[i]);
    ejected_among_update(c.workers, n, i, c.after_look(i, now).workers[i]);
    ejected_among_update(c.workers, n, i, fresh_worker());
}

/// A worker that was just ejected is ejected for as long as its backoff lasts,
/// and is tried again from then on.
pub proof fn ejection_lasts_for_the_backoff(c: Circuits, i: int, at: u128, now: u128)
    requires
        c.error_opens(i),
        0 <= i,
        at <= now,
    ensures
        c.after_error(i, at).ejected_at(i, now) <==> now - at < c.backoff(
            counted(c.workers[i].ejection_series) as nat,
        ),
{
}

/// Looking at workers ejects none: who is not ejected now is not ejected later,
/// whichever workers are looked at in between.
pub proof fn looking_ejects_nobody(c: Circuits, i: int, j: int, now: u128, later: u128)
    requires
        now <= later,
    ensures
        c.after_look(j, now).ejected_at(i, later) ==> c.ejected_at(i, later),
        c.ejected_at(i, later) ==> c.ejected_at(i, now),
{
}

/// Looking twice is looking once.
pub proof fn second_look_changes_nothing(c: Circuits, i: int, now: u128)
    ensures
        c.after_look(i, now).after_look(i, now) == c.after_look(i, now),
        c.after_look(i, now).ejected_at(i, now) == c.ejected_at(i, now),
{
    assert(c.after_look(i, now).after_look(i, now) =~= c.after_look(i, now));
}

/// A half-open circuit is closed by one success, and the next ejection starts
/// with the first time again.
pub proof fn probe_success_closes_the_circuit(c: Circuits, i: int, now: u128)
    requires
        0 <= i < c.workers.len(),
        c.workers[i].ejected matches Some(e) && e.half_open,
    ensures
        c.after_success(i).workers[i] == fresh_worker(),
        !c.after_success(i).ejected_at(i, now),
{
}

/// A half-open circuit is opened by one error, for a longer time, whatever the
/// threshold and the limit are.
pub proof fn probe_error_reopens_the_circuit(c: Circuits, i: int, now: u128)
    requires
        0 <= i < c.workers.len(),
        c.workers[i].ejected matches Some(e) && e.half_open,
    ensures
        c.error_opens(i),
        c.after_error(i, now).workers[i].ejected == Some(Ejection { at: now, half_open: false }),
        c.after_error(i, now).workers[i].ejection_series == counted(c.workers[i].ejection_series),
        c.after_error(i, now).workers[i].consecutive_errors == 0,
        c.workers[i].ejection_series < usize::MAX ==> c.after_error(
            i,
            now,
        ).workers[i].ejection_series == c.workers[i].ejection_series + 1,
{
}

/// Each ejection in a row lasts twice as long as the one before it, up to the
/// longest time and to the twentieth doubling. The first lasts for the configured
/// time.
pub proof fn ejection_times_double(c: Circuits, series: nat)
    requires
        c.base_time <= c.max_time,
        1 <= series,
    ensures
        c.backoff(0) == c.base_time,
        c.backoff(1) == c.base_time,
        series <= 20 && 2 * c.backoff(series) <= c.max_time ==> c.backoff(series + 1) == 2
            * c.backoff(series),
        series <= 20 && 2 * c.backoff(series) > c.max_time ==> c.backoff(series + 1) == c.max_time,
        series >= 21 ==> c.backoff(series + 1) == c.backoff(series),
{
    assert(doubled(c.base_time, 0) == c.base_time);
    if series <= 20 {
        assert(doublings(series + 1) == doublings(series) + 1);
        assert(doubled(c.base_time, doublings(series + 1)) == 2 * doubled(
            c.base_time,
            doublings(series),
        ));
    }
}

/// What is recorded of a worker, and what a look at it does, is kept with that
/// worker: the others and the configuration stay as they are.
pub proof fn only_the_worker_changes(c: Circuits, i: int, j: int, now: u128)
    requires
        0 <= i,
        0 <= j < c.workers.len(),
    ensures
        c.after_error(i, now).workers.len() == c.workers.len(),
        c.after_success(i).workers.len() == c.workers.len(),
        c.after_look(i, now).workers.len() == c.workers.len(),
        i != j ==> c.after_error(i, now).workers[j] == c.workers[j],
        i != j ==> c.after_success(i).workers[j] == c.workers[j],
        i != j ==> c.after_look(i, now).workers[j] == c.workers[j],
        c.after_error(i, now).threshold == c.threshold && c.after_success(i).threshold
            == c.threshold && c.after_look(i, now).threshold == c.threshold,
        c.after_error(i, now).base_time == c.base_time && c.after_success(i).base_time
            == c.base_time && c.after_look(i, now).base_time == c.base_time,
        c.after_error(i, now).max_percent == c.max_percent && c.after_success(i).max_percent
            == c.max_percent && c.after_look(i, now).max_percent == c.max_percent,
        c.after_error(i, now).max_time == c.max_time && c.after_success(i).max_time == c.max_time
            && c.after_look(i, now).max_time == c.max_time,
{
}

/// The circuits after `k` errors of worker `i` in a row.
pub open spec fn after_errors(c: Circuits, i: int, k: nat, now: u128) -> Circuits
    decreases k,
{
    if k == 0 {
        c
    } else {
        after_errors(c, i, (k - 1) as nat, now).after_error(i, now)
    }
}

/// A worker without errors is ejected by as many errors in a row as the threshold
/// says and by no fewer, provided that few enough others are ejected.
pub proof fn the_threshold_ejects(c: Circuits, i: int, k: nat, now: u128)
    requires
        0 <= i < c.workers.len(),
        c.workers[i] == fresh_worker(),
        0 < c.threshold <= usize::MAX,
        k <= c.threshold,
        ejected_among(c.workers, c.workers.len() as int, i) < c.limit(),
    ensures
        k < c.threshold ==> after_errors(c, i, k, now).workers[i] == (WorkerOutlier {
            consecutive_errors: k as usize,
            ejection_series: 0,
            ejected: None,
        }),
        k == c.threshold ==> after_errors(c, i, k, now).workers[i].ejected == Some(
            Ejection { at: now, half_open: false },
        ) && after_errors(c, i, k, now).workers[i].ejection_series == 1 && after_errors(
            c,
            i,
            k,
            now,
        ).workers[i].consecutive_errors == k,
        after_errors(c, i, k, now).workers.len() == c.workers.len(),
        after_errors(c, i, k, now).threshold == c.threshold,
        after_errors(c, i, k, now).limit() == c.limit(),
        ejected_among(after_errors(c, i, k, now).workers, c.workers.len() as int, i)
            == ejected_among(c.workers, c.workers.len() as int, i),
    decreases k,
{
    if k > 0 {
        let before = after_errors(c, i, (k - 1) as nat, now);
        the_threshold_ejects(c, i, (k - 1) as nat, now);
        ejected_among_update(
            before.workers,
            c.workers.len() as int,
            i,
            before.after_error(i, now).workers[i],
        );
        only_the_worker_changes(before, i, i, now);
    }
}

/// While as many others are ejected as the limit allows, no number of errors
/// ejects a worker whose circuit is closed: its errors are counted all the same.
pub proof fn the_limit_keeps_workers(c: Circuits, i: int, now: u128)
    requires
        0 <= i < c.workers.len(),
        c.workers[i].ejected is None,
        ejected_among(c.workers, c.workers.len() as int, i) >= c.limit(),
    ensures
        !c.error_opens(i),
        c.after_error(i, now).workers[i].ejected is None,
        c.workers[i].consecutive_errors < usize::MAX ==> c.after_error(
            i,
            now,
        ).workers[i].consecutive_errors == c.workers[i].consecutive_errors + 1,
{
}

/// The limit is the share of the workers in percent, rounded down, and 1 where that
/// is none.
pub proof fn the_limit_is_the_share(c: Circuits)
    ensures
        c.limit() >= 1,
        c.workers.len() * c.max_percent >= 100 ==> c.limit() * 100 <= c.workers.len()
            * c.max_percent < (c.limit() + 1) * 100,
        c.workers.len() * c.max_percent < 100 ==> c.limit() == 1,
        c.max_percent <= 100 && c.workers.len() >= 1 ==> c.limit() <= c.workers.len(),
{
    if c.max_percent <= 100 {
        assert(c.workers.len() * c.max_percent <= c.workers.len() * 100) by (nonlinear_arith)
            requires
                c.max_percent <= 100,
        ;
    }
}

/// The workers among the first `n` whose circuit is not closed, but for `but`.
pub open spec fn ejected_others(workers: Seq<WorkerOutlier>, n: int, but: int) -> Set<int> {
    Set::new(|k: int| 0 <= k < n && k != but && workers[k].ejected is Some)
}

/// Each ejected worker counts for one, and the others make up the rest.
pub proof fn every_ejected_worker_counts(workers: Seq<WorkerOutlier>, n: int, but: int)
    requires
        0 <= n <= workers.len(),
    ensures
        ejected_others(workers, n, but).finite(),
        ejected_among(workers, n, but) == ejected_others(workers, n, but).len(),
        closed_among(workers, n) + ejected_among(workers, n, -1) == n,
    decreases n,
{
    let all = ejected_others(workers, n, but);
    if n > 0 {
        let before = ejected_others(workers, n - 1, but);
        every_ejected_worker_counts(workers, n - 1, but);
        if n - 1 != but && workers[n - 1].ejected is Some {
            assert(all =~= before.insert(n - 1));
        } else {
            assert(all =~= before);
        }
    } else {
        assert(all =~= Set::<int>::empty());
    }
}

/// A success forgets the errors of a worker. It closes a half-open circuit and
/// leaves one that is open or closed as it is.
pub proof fn success_forgets_the_errors(c: Circuits, i: int)
    requires
        0 <= i < c.workers.len(),
    ensures
        c.after_success(i).workers[i].consecutive_errors == 0,
        c.workers[i].ejected is None ==> c.after_success(i).workers[i].ejected is None
            && c.after_success(i).workers[i].ejection_series == c.workers[i].ejection_series,
        c.workers[i].ejected matches Some(e) ==> (!e.half_open ==> c.after_success(
            i,
        ).workers[i].ejected == Some(e) && c.after_success(i).workers[i].ejection_series
            == c.workers[i].ejection_series),
{
}

/// An open circuit stays open under further errors: neither its time nor its
/// series changes.
pub proof fn errors_leave_open_circuits(c: Circuits, i: int, now: u128)
    requires
        0 <= i < c.workers.len(),
        c.workers[i].ejected matches Some(e) && !e.half_open,
    ensures
        !c.error_opens(i),
        c.after_error(i, now).workers[i].ejected == c.workers[i].ejected,
        c.after_error(i, now).workers[i].ejection_series == c.workers[i].ejection_series,
{
}

/// A circuit that was opened is half open from its time on when it is looked at,
/// and is open until then. Its series stays, and its errors are forgotten once it
/// is half open.
pub proof fn circuits_are_tried_when_their_time_has_passed(c: Circuits, i: int, now: u128)
    requires
        0 <= i < c.workers.len(),
        c.workers[i].ejected matches Some(e) && !e.half_open && e.at <= now,
    ensures
        now - c.workers[i].ejected->0.at >= c.backoff(c.workers[i].ejection_series as nat)
            ==> !c.ejected_at(i, now) && c.after_look(i, now).workers[i] == (WorkerOutlier {
            consecutive_errors: 0,
            ejection_series: c.workers[i].ejection_series,
            ejected: Some(Ejection { at: c.workers[i].ejected->0.at, half_open: true }),
        }),
        now - c.workers[i].ejected->0.at < c.backoff(c.workers[i].ejection_series as nat)
            ==> c.ejected_at(i, now) && c.after_look(i, now) == c,
{
}

/// What is recorded of a worker that there is not changes nothing, and such a
/// worker is never ejected.
pub proof fn unknown_workers_change_nothing(c: Circuits, i: int, now: u128)
    requires
        i >= c.workers.len(),
    ensures
        c.after_error(i, now) == c,
        c.after_success(i) == c,
        c.after_look(i, now) == c,
        !c.error_opens(i),
        !c.ejected_at(i, now),
{
}

} // verus!
