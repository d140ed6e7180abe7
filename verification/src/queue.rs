//! The request queues of all model versions.

use crate::message::{direct_pin, item_priority, pin_of, priority_of, InflightGuard, QueueItem};
use crate::outlier::{counted, Circuits, OutlierState};
use crate::picker::{default_balance, BalanceConfig};
use crate::priority::{head, head_is_the_first_of_the_highest, values, Backlog, PriorityQueue, Received};
use crate::text::{
    dec, find, find_char, lemma_find, mentions, parts_mention_for_the_whole, push_dec, to_chars,
    what_is_joined_is_mentioned,
};
use crate::time::Clock;
use std::collections::hash_map::Entry;
use std::collections::HashMap;
use vstd::prelude::*;

verus! {

/// The name of a model version among the queues: both names with a NUL between
/// them.
pub open spec fn version_key(model: Seq<char>, version: Seq<char>) -> Seq<char> {
    model + seq!['\0'] + version
}

/// The model and the version of a name: what stands before the first NUL and
/// what stands behind it.
pub open spec fn key_parts(key: Seq<char>) -> (Seq<char>, Seq<char>) {
    let i = find(key, '\0');
    (
        key.subrange(0, i),
        if i < key.len() {
            key.subrange(i + 1, key.len() as int)
        } else {
            seq![]
        },
    )
}

/// `String::with_capacity` gives an empty string. It does not return where the
/// capacity passes `isize::MAX`.
pub assume_specification[ String::with_capacity ](capacity: usize) -> (s: String)
    requires
        capacity <= isize::MAX,
    ensures
        s@ == Seq::<char>::empty(),
;

/// The name of a model version among the queues.
pub fn model_version_key(model: &str, version: &str) -> (r: String)
    ensures
        r@ == version_key(model@, version@),
{
    let bytes: u128 = model.len() as u128 + 1 + version.len() as u128;
    let mut key = String::with_capacity(
        if bytes <= 0x7fff_ffff {
            bytes as usize
        } else {
            0
        },
    );
    key.append(model);
    key.push('\0');
    key.append(version);
    assert(key@ =~= version_key(model@, version@));
    key
}

/// The model and the version of a name.
pub fn parse_model_version_key(key: &str) -> (r: (&str, &str))
    ensures
        (r.0@, r.1@) == key_parts(key@),
{
    let chars = to_chars(key);
    let i = find_char(chars.as_slice(), '\0');
    let n: usize = chars.len();
    if i < n {
        (key.substring_char(0, i), key.substring_char(i + 1, n))
    } else {
        let tail = key.substring_char(n, n);
        assert(tail@ =~= Seq::<char>::empty());
        (key.substring_char(0, i), tail)
    }
}

/// A name gives back the model and the version that it was made of, where the
/// model holds no NUL.
pub proof fn key_round_trip(model: Seq<char>, version: Seq<char>)
    requires
        forall|i: int| 0 <= i < model.len() ==> #[trigger] model[i] != '\0',
    ensures
        key_parts(version_key(model, version)) == (model, version),
{
    let key = version_key(model, version);
    let n = model.len() as int;
    assert forall|j: int| 0 <= j < n implies key[j] != '\0' by {
        assert(key[j] == model[j]);
    }
    lemma_find(key, '\0', n);
    assert(key.subrange(0, n) =~= model);
    assert(key.subrange(n + 1, key.len() as int) =~= version);
}

/// Different model versions have different names.
pub proof fn keys_are_distinct(m1: Seq<char>, v1: Seq<char>, m2: Seq<char>, v2: Seq<char>)
    requires
        forall|i: int| 0 <= i < m1.len() ==> #[trigger] m1[i] != '\0',
        forall|i: int| 0 <= i < m2.len() ==> #[trigger] m2[i] != '\0',
        version_key(m1, v1) == version_key(m2, v2),
    ensures
        m1 == m2,
        v1 == v2,
{
    key_round_trip(m1, v1);
    key_round_trip(m2, v2);
}

/// Why a request is not queued.
#[derive(Debug)]
pub enum QueueError {
    Closed,
    NotFound,
    Full,
    InvalidWorker(String),
}

impl QueueError {
    /// The error in words.
    pub open spec fn words(self) -> Seq<char> {
        match self {
            QueueError::Closed => "queue closed"@,
            QueueError::NotFound => "queue not found for model"@,
            QueueError::Full => "queue full"@,
            QueueError::InvalidWorker(msg) => "invalid direct worker pin: "@ + msg@,
        }
    }

    /// The error in words.
    pub fn message(&self) -> (r: String)
        ensures
            r@ == self.words(),
    {
        match self {
            QueueError::Closed => "queue closed".to_string(),
            QueueError::NotFound => "queue not found for model".to_string(),
            QueueError::Full => "queue full".to_string(),
            QueueError::InvalidWorker(msg) => {
                let mut out = "invalid direct worker pin: ".to_string();
                out.append(msg.as_str());
                out
            },
        }
    }
}

/// A concurrent hash map.
#[verifier::external_type_specification]
#[verifier::external_body]
#[verifier::reject_recursive_types(K)]
#[verifier::reject_recursive_types(V)]
#[verifier::reject_recursive_types(S)]
pub struct ExDashMap<K, V, S>(dashmap::DashMap<K, V, S>);

/// The entries of a map from names to slots.
pub uninterp spec fn slots_of(m: dashmap::DashMap<String, usize>) -> Map<Seq<char>, usize>;

/// `DashMap::new` gives a map without entries.
#[verifier::external_body]
fn no_names() -> (m: dashmap::DashMap<String, usize>)
    ensures
        slots_of(m).dom() == Set::<Seq<char>>::empty(),
{
    dashmap::DashMap::new()
}

/// `DashMap::get` gives the value of a key, where the map has the key.
#[verifier::external_body]
fn look_up(m: &dashmap::DashMap<String, usize>, key: &str) -> (r: Option<usize>)
    ensures
        match r {
            Some(v) => slots_of(*m).contains_key(key@) && slots_of(*m)[key@] == v,
            None => !slots_of(*m).contains_key(key@),
        },
{
    m.get(key).map(|e| *e.value())
}

/// `DashMap::contains_key` tells whether the map has a key.
#[verifier::external_body]
fn has_name(m: &dashmap::DashMap<String, usize>, key: &str) -> (r: bool)
    ensures
        r == slots_of(*m).contains_key(key@),
{
    m.contains_key(key)
}

/// `DashMap::insert` sets the value of a key.
#[verifier::external_body]
fn set_name(m: &mut dashmap::DashMap<String, usize>, key: String, slot: usize)
    ensures
        slots_of(*final(m)) == slots_of(*old(m)).insert(key@, slot),
{
    m.insert(key, slot);
}

/// `DashMap::remove` takes a key away and gives the value that it had.
#[verifier::external_body]
fn remove_name(m: &mut dashmap::DashMap<String, usize>, key: &str) -> (r: Option<usize>)
    ensures
        slots_of(*final(m)) == slots_of(*old(m)).remove(key@),
        match r {
            Some(v) => slots_of(*old(m)).contains_key(key@) && slots_of(*old(m))[key@] == v,
            None => !slots_of(*old(m)).contains_key(key@),
        },
{
    m.remove(key).map(|e| e.1)
}

/// The queue of one model version.
pub struct VersionQueue<R> {
    queue: PriorityQueue<QueueItem<R>>,
    outlier: OutlierState,
    inflight: usize,
    worker_count: usize,
}

/// The model of a [`VersionQueue`].
#[verifier::ext_equal]
pub struct Slot<R> {
    /// The requests that wait.
    pub backlog: Backlog<QueueItem<R>>,
    pub circuits: Circuits,
    /// The requests that were accepted and are not answered yet.
    pub inflight: usize,
    pub worker_count: usize,
}

impl<R> View for VersionQueue<R> {
    type V = Slot<R>;

    closed spec fn view(&self) -> Slot<R> {
        Slot {
            backlog: self.queue@,
            circuits: self.outlier@,
            inflight: self.inflight,
            worker_count: self.worker_count,
        }
    }
}

impl<R> Slot<R> {
    /// Whether nothing can come of the queue any more: it takes no requests,
    /// none waits in it and none is under way.
    pub open spec fn is_done(self) -> bool {
        self.backlog.senders == 0 && self.backlog.items.len() == 0 && self.inflight == 0
    }
}

/// An empty queue that is open.
pub open spec fn new_slot<R>(max_queue_size: usize, circuits: Circuits, worker_count: usize) -> Slot<
    R,
> {
    Slot {
        backlog: Backlog {
            items: seq![],
            cap: if max_queue_size >= 1 {
                max_queue_size as nat
            } else {
                1
            },
            senders: 1,
        },
        circuits,
        inflight: 0,
        worker_count,
    }
}

/// The request queues of all model versions, each in a slot of its own. A queue
/// that has lost its name keeps its slot until its last request is answered, and
/// is given back then. No two queues ever have the same slot number.
pub struct InferenceQueue<R> {
    names: dashmap::DashMap<String, usize>,
    slots: HashMap<usize, VersionQueue<R>>,
    next: usize,
    balance: BalanceConfig,
    clock: Clock,
}

/// The model of an [`InferenceQueue`].
#[verifier::ext_equal]
pub struct Queues<R> {
    pub names: Map<Seq<char>, usize>,
    pub slots: Map<usize, Slot<R>>,
    /// The slot number that the next queue gets.
    pub next: usize,
    pub balance: BalanceConfig,
    /// The clock by which requests wait.
    pub clock: Clock,
}

impl<R> View for InferenceQueue<R> {
    type V = Queues<R>;

    closed spec fn view(&self) -> Queues<R> {
        Queues {
            names: slots_of(self.names),
            slots: self.slots@.map_values(|v: VersionQueue<R>| v@),
            next: self.next,
            balance: self.balance,
            clock: self.clock,
        }
    }
}

/// What comes of a request that is submitted.
pub enum Submission {
    /// It waits in its queue.
    Queued,
    NotFound,
    /// It asks for a worker that there is not.
    OutOfRange { worker: nat, workers: nat },
    /// It asks for a worker that is ejected.
    Ejected { worker: nat },
    Full,
}

impl<R> Queues<R> {
    /// Whether the queue in slot `i` has a name.
    pub open spec fn is_named(self, i: usize) -> bool {
        exists|k: Seq<char>| #[trigger] self.names.contains_key(k) && self.names[k] == i
    }

    /// Every name has a slot of its own, whose queue is open, and no other queue
    /// is. No queue holds more than its capacity, and none is kept of which
    /// nothing can come any more.
    pub open spec fn wf(self) -> bool {
        &&& forall|i: usize| #[trigger]
            self.slots.contains_key(i) ==> {
                &&& i < self.next
                &&& self.slots[i].backlog.items.len() <= self.slots[i].backlog.cap
                &&& !self.slots[i].is_done()
                &&& self.slots[i].backlog.senders > 0 ==> self.is_named(i)
            }
        &&& forall|k: Seq<char>| #[trigger]
            self.names.contains_key(k) ==> self.slots.contains_key(self.names[k])
                && self.slots[self.names[k]].backlog.senders == 1
        &&& forall|j: Seq<char>, k: Seq<char>|
            #[trigger] self.names.contains_key(j) && #[trigger] self.names.contains_key(k) && j
                != k ==> self.names[j] != self.names[k]
    }

    /// The queues after the queue in slot `i` has become `s`. It is given back
    /// where nothing can come of it any more.
    pub open spec fn with_slot(self, i: usize, s: Slot<R>) -> Queues<R> {
        Queues {
            slots: if s.is_done() {
                self.slots.remove(i)
            } else {
                self.slots.insert(i, s)
            },
            ..self
        }
    }

    /// The queues after a request of slot `i` was answered.
    pub open spec fn after_release(self, i: usize) -> Queues<R> {
        if self.slots.contains_key(i) {
            let s = self.slots[i];
            self.with_slot(
                i,
                Slot {
                    inflight: if s.inflight > 0 {
                        (s.inflight - 1) as usize
                    } else {
                        0
                    },
                    ..s
                },
            )
        } else {
            self
        }
    }

    /// The queues after the name `key` was taken away, and its queue has become
    /// `s`.
    pub open spec fn without_name(self, key: Seq<char>, s: Slot<R>) -> Queues<R> {
        Queues { names: self.names.remove(key), ..self.with_slot(self.names[key], s) }
    }

    /// The queues after the queue `s` was put into a new slot under the name
    /// `key`.
    pub open spec fn with_queue(self, key: Seq<char>, s: Slot<R>) -> Queues<R> {
        Queues {
            names: self.names.insert(key, self.next),
            slots: self.slots.insert(self.next, s),
            next: (self.next + 1) as usize,
            ..self
        }
    }

    /// What comes of `item`, which is submitted for the name `key` at `now`, on
    /// the clock of the circuits.
    pub open spec fn submission(self, key: Seq<char>, item: QueueItem<R>, now: u128) -> Submission {
        let s = self.slots[self.names[key]];
        if !self.names.contains_key(key) {
            Submission::NotFound
        } else if pin_of(item.meta) matches Some(w) && w >= s.worker_count {
            Submission::OutOfRange {
                worker: pin_of(item.meta)->0,
                workers: s.worker_count as nat,
            }
        } else if pin_of(item.meta) matches Some(w) && s.circuits.ejected_at(w as int, now) {
            Submission::Ejected { worker: pin_of(item.meta)->0 }
        } else if s.backlog.is_full() {
            Submission::Full
        } else {
            Submission::Queued
        }
    }

    /// The queues after `item` was submitted for the name `key` at `now`, on the
    /// clock of the circuits.
    pub open spec fn after_submission(
        self,
        key: Seq<char>,
        item: QueueItem<R>,
        now: u128,
    ) -> Queues<R> {
        let i = self.names[key];
        let s = self.slots[i];
        let seen = match pin_of(item.meta) {
            Some(w) => Slot { circuits: s.circuits.after_look(w as int, now), ..s },
            None => s,
        };
        match self.submission(key, item, now) {
            Submission::NotFound => self,
            Submission::OutOfRange { .. } => self,
            Submission::Ejected { .. } => self.with_slot(i, seen),
            Submission::Full => self.with_slot(i, seen),
            Submission::Queued => self.with_slot(
                i,
                Slot {
                    backlog: s.backlog.with(
                        priority_of(item.meta) as i32,
                        QueueItem { inflight_guard: Some(InflightGuard { slot: i }), ..item },
                    ),
                    inflight: counted(s.inflight),
                    ..seen
                },
            ),
        }
    }
}

proof fn slot_update_keeps_wf<R>(q: Queues<R>, i: usize, s: Slot<R>)
    requires
        q.wf(),
        q.slots.contains_key(i),
        s.backlog.senders == q.slots[i].backlog.senders,
        s.backlog.items.len() <= s.backlog.cap,
    ensures
        q.with_slot(i, s).wf(),
{
    let r = q.with_slot(i, s);
    assert forall|j: usize| r.slots.contains_key(j) && r.slots[j].backlog.senders
        > 0 implies #[trigger] r.is_named(j) by {
        assert(q.slots.contains_key(j) && q.is_named(j));
        let k = choose|k: Seq<char>| #[trigger] q.names.contains_key(k) && q.names[k] == j;
        assert(r.names.contains_key(k));
    }
    assert forall|k: Seq<char>| #[trigger] r.names.contains_key(k) implies r.slots.contains_key(
        r.names[k],
    ) && r.slots[r.names[k]].backlog.senders == 1 by {
        assert(q.names.contains_key(k));
    }
    assert forall|j: Seq<char>, k: Seq<char>|
        #[trigger] r.names.contains_key(j) && #[trigger] r.names.contains_key(k) && j
            != k implies r.names[j] != r.names[k] by {
        assert(q.names.contains_key(j) && q.names.contains_key(k));
    }
}

proof fn lost_name_keeps_wf<R>(q: Queues<R>, key: Seq<char>, s: Slot<R>)
    requires
        q.wf(),
        q.names.contains_key(key),
        s.backlog.senders == 0,
        s.backlog.items.len() <= s.backlog.cap,
    ensures
        q.without_name(key, s).wf(),
{
    let i = q.names[key];
    let r = q.without_name(key, s);
    assert(q.slots.contains_key(i));
    assert forall|j: usize| r.slots.contains_key(j) && r.slots[j].backlog.senders
        > 0 implies #[trigger] r.is_named(j) by {
        assert(q.slots.contains_key(j) && q.is_named(j));
        let k = choose|k: Seq<char>| #[trigger] q.names.contains_key(k) && q.names[k] == j;
        assert(r.names.contains_key(k));
    }
    assert forall|k: Seq<char>| #[trigger] r.names.contains_key(k) implies r.slots.contains_key(
        r.names[k],
    ) && r.slots[r.names[k]].backlog.senders == 1 by {
        assert(q.names.contains_key(k) && k != key);
        assert(q.names[k] != i);
    }
    assert forall|j: Seq<char>, k: Seq<char>|
        #[trigger] r.names.contains_key(j) && #[trigger] r.names.contains_key(k) && j
            != k implies r.names[j] != r.names[k] by {
        assert(q.names.contains_key(j) && q.names.contains_key(k));
    }
}

proof fn new_queue_keeps_wf<R>(q: Queues<R>, key: Seq<char>, s: Slot<R>)
    requires
        q.wf(),
        !q.names.contains_key(key),
        q.next < usize::MAX,
        s.backlog.senders == 1,
        s.backlog.items.len() <= s.backlog.cap,
    ensures
        q.with_queue(key, s).wf(),
{
    let r = q.with_queue(key, s);
    assert forall|j: usize| r.slots.contains_key(j) && r.slots[j].backlog.senders
        > 0 implies #[trigger] r.is_named(j) by {
        if j == q.next {
            assert(r.names.contains_key(key));
        } else {
            assert(q.slots.contains_key(j) && q.is_named(j));
            let k = choose|k: Seq<char>| #[trigger] q.names.contains_key(k) && q.names[k] == j;
            assert(r.names.contains_key(k));
        }
    }
    assert forall|j: usize| #[trigger] r.slots.contains_key(j) implies j < r.next && r.slots[j].backlog.items.len()
        <= r.slots[j].backlog.cap && !r.slots[j].is_done() by {
        if j != q.next {
            assert(q.slots.contains_key(j));
        }
    }
    assert forall|k: Seq<char>| #[trigger] r.names.contains_key(k) implies r.slots.contains_key(
        r.names[k],
    ) && r.slots[r.names[k]].backlog.senders == 1 by {
        if k != key {
            assert(q.names.contains_key(k));
            assert(q.slots.contains_key(q.names[k]));
        }
    }
    assert forall|j: Seq<char>, k: Seq<char>|
        #[trigger] r.names.contains_key(j) && #[trigger] r.names.contains_key(k) && j
            != k implies r.names[j] != r.names[k] by {
        if j != key {
            assert(q.names.contains_key(j));
            assert(q.slots.contains_key(q.names[j]));
        }
        if k != key {
            assert(q.names.contains_key(k));
            assert(q.slots.contains_key(q.names[k]));
        }
    }
}

/// A slot whose queue takes no more requests.
pub open spec fn closed_slot<R>(s: Slot<R>) -> Slot<R> {
    Slot {
        backlog: Backlog {
            senders: if s.backlog.senders > 0 {
                (s.backlog.senders - 1) as nat
            } else {
                0
            },
            ..s.backlog
        },
        ..s
    }
}

/// A slot whose queue takes no more requests and has given up those that wait.
pub open spec fn given_up_slot<R>(s: Slot<R>) -> Slot<R> {
    let c = closed_slot(s);
    let waiting = s.backlog.items.len();
    Slot {
        backlog: Backlog { items: seq![], ..c.backlog },
        inflight: if s.inflight >= waiting {
            (s.inflight - waiting) as usize
        } else {
            0
        },
        ..c
    }
}

/// That a request asks for a worker that there is not, in words.
pub open spec fn out_of_range_words(
    worker: nat,
    model: Seq<char>,
    version: Seq<char>,
    workers: nat,
) -> Seq<char> {
    "x-lite-worker-id "@ + dec(worker) + " out of range for "@ + model + " "@ + version
        + " (workers: "@ + dec(workers) + ")"@
}

/// That a request asks for a worker that is ejected, in words.
pub open spec fn ejected_words(worker: nat, model: Seq<char>, version: Seq<char>) -> Seq<char> {
    "x-lite-worker-id "@ + dec(worker) + " is ejected for "@ + model + " "@ + version
}

fn out_of_range_text(worker: usize, model: &str, version: &str, workers: usize) -> (r: String)
    ensures
        r@ == out_of_range_words(worker as nat, model@, version@, workers as nat),
{
    let mut out = "x-lite-worker-id ".to_string();
    push_dec(&mut out, worker as u64);
    out.append(" out of range for ");
    out.append(model);
    out.append(" ");
    out.append(version);
    out.append(" (workers: ");
    push_dec(&mut out, workers as u64);
    out.append(")");
    out
}

fn ejected_text(worker: usize, model: &str, version: &str) -> (r: String)
    ensures
        r@ == ejected_words(worker as nat, model@, version@),
{
    let mut out = "x-lite-worker-id ".to_string();
    push_dec(&mut out, worker as u64);
    out.append(" is ejected for ");
    out.append(model);
    out.append(" ");
    out.append(version);
    out
}

/// Whether `r` is the answer to a submission.
pub open spec fn is_submit_result(
    r: Result<(), QueueError>,
    s: Submission,
    model: Seq<char>,
    version: Seq<char>,
) -> bool {
    match s {
        Submission::Queued => r is Ok,
        Submission::NotFound => r matches Err(e) && e is NotFound,
        Submission::Full => r matches Err(e) && e is Full,
        Submission::OutOfRange { worker, workers } => r matches Err(e)
            && e matches QueueError::InvalidWorker(msg) && msg@ == out_of_range_words(
            worker,
            model,
            version,
            workers,
        ),
        Submission::Ejected { worker } => r matches Err(e)
            && e matches QueueError::InvalidWorker(msg) && msg@ == ejected_words(
            worker,
            model,
            version,
        ),
    }
}

/// A queue that has lost its name and is run down.
pub struct DrainHandle {
    slot: usize,
}

impl DrainHandle {
    pub closed spec fn slot(&self) -> usize {
        self.slot
    }

    /// The slot of the queue.
    pub fn slot_number(&self) -> (r: usize)
        ensures
            r == self.slot(),
    {
        self.slot
    }
}

/// Where a model version was put.
pub struct Registration<R> {
    pub slot: usize,
    /// The slot that had the name before.
    pub replaced: Option<usize>,
    /// The requests that waited there. They are not served any more.
    pub dropped: Vec<QueueItem<R>>,
}

impl<R> VersionQueue<R> {
    fn is_done(&self) -> (r: bool)
        ensures
            r == self@.is_done(),
    {
        self.queue.is_closed() && self.queue.len() == 0 && self.inflight == 0
    }
}

impl<R> Default for InferenceQueue<R> {
    fn default() -> (q: Self)
        ensures
            q@.names == Map::<Seq<char>, usize>::empty(),
            q@.slots == Map::<usize, Slot<R>>::empty(),
            q@.next == 0,
            q@.balance == default_balance(),
            q@.wf(),
    {
        Self::new()
    }
}

impl<R> InferenceQueue<R> {
    /// No queues, with the default balance.
    pub fn new() -> (q: Self)
        ensures
            q@.names == Map::<Seq<char>, usize>::empty(),
            q@.slots == Map::<usize, Slot<R>>::empty(),
            q@.next == 0,
            q@.balance == default_balance(),
            q@.wf(),
    {
        let balance: BalanceConfig = Default::default();
        Self::with_balance(balance)
    }

    /// No queues.
    pub fn with_balance(balance: BalanceConfig) -> (q: Self)
        ensures
            q@.names == Map::<Seq<char>, usize>::empty(),
            q@.slots == Map::<usize, Slot<R>>::empty(),
            q@.next == 0,
            q@.balance == balance,
            q@.wf(),
    {
        let names = no_names();
        assert(slots_of(names) =~= Map::<Seq<char>, usize>::empty());
        let q = InferenceQueue {
            names,
            slots: HashMap::new(),
            next: 0,
            balance,
            clock: Clock::start(),
        };
        assert(q@.slots =~= Map::<usize, Slot<R>>::empty());
        q
    }

    pub fn balance(&self) -> (b: BalanceConfig)
        ensures
            b == self@.balance,
    {
        self.balance
    }

    /// What the clock by which requests wait shows.
    pub fn now(&self) -> (now: u128)
        ensures
            self@.clock.can_show(now),
    {
        self.clock.now()
    }

    /// Whether there is a number for one more slot.
    pub fn has_number(&self) -> (r: bool)
        ensures
            r == (self@.next < usize::MAX),
    {
        self.next < usize::MAX
    }

    /// Takes the queue out of its slot.
    fn take(&mut self, slot: usize) -> (r: Option<VersionQueue<R>>)
        ensures
            match r {
                Some(v) => {
                    &&& old(self)@.slots.contains_key(slot)
                    &&& old(self)@.slots[slot] == v@
                    &&& final(self)@ == (Queues {
                        slots: old(self)@.slots.remove(slot),
                        ..old(self)@
                    })
                },
                None => !old(self)@.slots.contains_key(slot) && final(self)@ == old(self)@,
            },
    {
        let ghost before = self@;
        let r = self.slots.remove(&slot);
        assert(self@.slots =~= before.slots.remove(slot));
        r
    }

    /// Puts a queue into its slot, unless nothing can come of it any more.
    fn put(&mut self, slot: usize, v: VersionQueue<R>)
        requires
            !old(self)@.slots.contains_key(slot),
        ensures
            final(self)@ == old(self)@.with_slot(slot, v@),
    {
        let ghost before = self@;
        if !v.is_done() {
            self.slots.insert(slot, v);
        }
        assert(self@.slots =~= before.with_slot(slot, v@).slots);
    }

    /// Gives the model version a new, empty queue. The queue that had its name
    /// takes no more requests and gives up those that wait.
    pub fn register_model(
        &mut self,
        model_name: &str,
        version: &str,
        max_queue_size: usize,
        worker_count: usize,
        outlier: OutlierState,
    ) -> (r: Registration<R>)
        requires
            old(self)@.wf(),
            old(self)@.next < usize::MAX,
        ensures
            final(self)@.wf(),
            r.slot == old(self)@.next,
            ({
                let key = version_key(model_name@, version@);
                let s = new_slot(max_queue_size, outlier@, worker_count);
                match r.replaced {
                    Some(i) => {
                        &&& old(self)@.names.contains_key(key)
                        &&& old(self)@.names[key] == i
                        &&& r.dropped@ == values(old(self)@.slots[i].backlog.items)
                        &&& final(self)@ == old(self)@.without_name(
                            key,
                            given_up_slot(old(self)@.slots[i]),
                        ).with_queue(key, s)
                    },
                    None => {
                        &&& !old(self)@.names.contains_key(key)
                        &&& r.dropped@.len() == 0
                        &&& final(self)@ == old(self)@.with_queue(key, s)
                    },
                }
            }),
    {
        let ghost before = self@;
        let key = model_version_key(model_name, version);
        let replaced = remove_name(&mut self.names, key.as_str());
        let mut dropped: Vec<QueueItem<R>> = Vec::new();
        if let Some(i) = replaced {
            assert(before.names.contains_key(key@));
            if let Some(mut v) = self.take(i) {
                v.queue.drop_sender();
                dropped = v.queue.take_all();
                let waiting: usize = dropped.len();
                let inflight: usize = v.inflight;
                v.inflight = if inflight >= waiting {
                    inflight - waiting
                } else {
                    0
                };
                assert(v@ == given_up_slot(before.slots[i]));
                self.put(i, v);
            }
            proof {
                lost_name_keeps_wf(before, key@, given_up_slot(before.slots[i]));
                assert(self@ =~= before.without_name(key@, given_up_slot(before.slots[i])));
            }
        } else {
            assert(self@ =~= before) by {
                assert(self@.names =~= before.names);
            }
        }
        let ghost cleared = self@;
        let slot: usize = self.next;
        let v = VersionQueue {
            queue: PriorityQueue::new(max_queue_size),
            outlier,
            inflight: 0,
            worker_count,
        };
        assert(v@ =~= new_slot(max_queue_size, outlier@, worker_count));
        self.slots.insert(slot, v);
        self.next = slot + 1;
        set_name(&mut self.names, key, slot);
        proof {
            assert(self@.slots =~= cleared.slots.insert(slot, v@));
            assert(self@ =~= cleared.with_queue(key@, v@));
            new_queue_keeps_wf(cleared, key@, v@);
        }
        Registration { slot, replaced, dropped }
    }

    /// Takes the name of the model version away. Its queue takes no more
    /// requests, and those that it has are still served.
    pub fn begin_drain(&mut self, model_name: &str, version: &str) -> (r: Option<DrainHandle>)
        requires
            old(self)@.wf(),
        ensures
            final(self)@.wf(),
            ({
                let key = version_key(model_name@, version@);
                match r {
                    Some(h) => {
                        &&& old(self)@.names.contains_key(key)
                        &&& h.slot() == old(self)@.names[key]
                        &&& final(self)@ == old(self)@.without_name(
                            key,
                            closed_slot(old(self)@.slots[h.slot()]),
                        )
                    },
                    None => !old(self)@.names.contains_key(key) && final(self)@ == old(self)@,
                }
            }),
    {
        let ghost before = self@;
        let key = model_version_key(model_name, version);
        let removed = remove_name(&mut self.names, key.as_str());
        match removed {
            None => {
                assert(self@ =~= before) by {
                    assert(self@.names =~= before.names);
                }
                None
            },
            Some(slot) => {
                assert(before.names.contains_key(key@));
                assert(before.slots.contains_key(slot));
                if let Some(mut v) = self.take(slot) {
                    v.queue.drop_sender();
                    assert(v@ =~= closed_slot(before.slots[slot]));
                    self.put(slot, v);
                }
                proof {
                    lost_name_keeps_wf(before, key@, closed_slot(before.slots[slot]));
                    assert(self@ =~= before.without_name(key@, closed_slot(before.slots[slot])));
                }
                Some(DrainHandle { slot })
            },
        }
    }

    /// Whether every request of a queue that is run down was answered.
    pub fn is_idle(&self, handle: &DrainHandle) -> (r: bool)
        ensures
            r == (!self@.slots.contains_key(handle.slot()) || self@.slots[handle.slot()].inflight
                == 0),
    {
        match self.slots.get(&handle.slot) {
            Some(v) => v.inflight == 0,
            None => true,
        }
    }

    /// Submits `item` for a model version. Whether a worker is ejected is read
    /// from the clock of the version's circuits.
    pub fn try_submit(&mut self, model_name: &str, version: &str, item: QueueItem<R>) -> (r: Result<
        (),
        QueueError,
    >)
        requires
            old(self)@.wf(),
        ensures
            final(self)@.wf(),
            ({
                let key = version_key(model_name@, version@);
                exists|now: u128|
                    {
                        &&& old(self)@.names.contains_key(key)
                            ==> old(self)@.slots[old(self)@.names[key]].circuits.clock.can_show(now)
                        &&& final(self)@ == #[trigger] old(self)@.after_submission(key, item, now)
                        &&& is_submit_result(
                            r,
                            old(self)@.submission(key, item, now),
                            model_name@,
                            version@,
                        )
                    }
            }),
    {
        let now: u128 = match self.get_outlier_state(model_name, version) {
            Some(o) => o.now(),
            None => 0,
        };
        self.try_submit_at(model_name, version, item, now)
    }

    /// Submits `item` for a model version at `now`, on the clock of the
    /// version's circuits.
    pub fn try_submit_at(
        &mut self,
        model_name: &str,
        version: &str,
        item: QueueItem<R>,
        now: u128,
    ) -> (r: Result<(), QueueError>)
        requires
            old(self)@.wf(),
        ensures
            final(self)@.wf(),
            final(self)@ == old(self)@.after_submission(
                version_key(model_name@, version@),
                item,
                now,
            ),
            is_submit_result(
                r,
                old(self)@.submission(version_key(model_name@, version@), item, now),
                model_name@,
                version@,
            ),
    {
        let ghost before = self@;
        let key = model_version_key(model_name, version);
        let slot = match look_up(&self.names, key.as_str()) {
            None => return Err(QueueError::NotFound),
            Some(slot) => slot,
        };
        assert(before.names.contains_key(key@));
        assert(before.slots.contains_key(slot));
        let mut v = match self.take(slot) {
            Some(v) => v,
            None => return Err(QueueError::NotFound),
        };
        let r = submit_to(&mut v, slot, model_name, version, item, now);
        self.put(slot, v);
        proof {
            let s = v@;
            slot_update_keeps_wf(before, slot, s);
            assert(self@.slots =~= before.slots.insert(slot, s));
            assert(before.after_submission(key@, item, now).slots =~= before.slots.insert(slot, s));
            assert(self@ =~= before.after_submission(key@, item, now));
        }
        r
    }

    /// Counts a request as answered.
    pub fn release(&mut self, guard: InflightGuard)
        requires
            old(self)@.wf(),
        ensures
            final(self)@.wf(),
            final(self)@ == old(self)@.after_release(guard.slot),
    {
        let slot: usize = guard.slot;
        let ghost before = self@;
        if let Some(mut v) = self.take(slot) {
            let inflight: usize = v.inflight;
            if inflight > 0 {
                v.inflight = inflight - 1;
            }
            self.put(slot, v);
            proof {
                slot_update_keeps_wf(before, slot, v@);
                assert(self@ =~= before.with_slot(slot, v@));
            }
        }
    }

    /// Takes the next request out of a queue. A queue that was given back is
    /// closed.
    pub fn receive(&mut self, slot: usize) -> (r: Received<QueueItem<R>>)
        requires
            old(self)@.wf(),
        ensures
            final(self)@.wf(),
            ({
                let known = old(self)@.slots.contains_key(slot);
                let s = old(self)@.slots[slot];
                match r {
                    Received::Item(item) => {
                        &&& known
                        &&& s.backlog.items.len() > 0
                        &&& item == s.backlog.items[head(s.backlog.items)].1
                        &&& final(self)@ == old(self)@.with_slot(
                            slot,
                            (Slot { backlog: s.backlog.without_head(), ..s }),
                        )
                    },
                    Received::Closed => {
                        &&& known ==> s.backlog.items.len() == 0 && s.backlog.senders == 0
                        &&& final(self)@ == old(self)@
                    },
                    Received::Nothing => {
                        &&& known
                        &&& s.backlog.items.len() == 0
                        &&& s.backlog.senders > 0
                        &&& final(self)@ == old(self)@
                    },
                }
            }),
    {
        let ghost before = self@;
        let mut v = match self.take(slot) {
            Some(v) => v,
            None => return Received::Closed,
        };
        let r = v.queue.receive();
        self.put(slot, v);
        proof {
            let waiting = before.slots[slot].backlog.items;
            if waiting.len() > 0 {
                head_is_the_first_of_the_highest(waiting);
            }
            slot_update_keeps_wf(before, slot, v@);
            assert(self@ =~= before.with_slot(slot, v@));
            if waiting.len() == 0 {
                assert(v@ =~= before.slots[slot]);
                assert(self@ =~= before);
            }
        }
        r
    }

    /// How many requests wait in a queue.
    pub fn depth(&self, slot: usize) -> (n: usize)
        ensures
            n == if self@.slots.contains_key(slot) {
                self@.slots[slot].backlog.items.len()
            } else {
                0
            },
    {
        match self.slots.get(&slot) {
            Some(v) => v.queue.len(),
            None => 0,
        }
    }

    /// Whether the model version has a queue.
    pub fn has_queue(&self, model_name: &str, version: &str) -> (r: bool)
        ensures
            r == self@.names.contains_key(version_key(model_name@, version@)),
    {
        let key = model_version_key(model_name, version);
        has_name(&self.names, key.as_str())
    }

    /// The circuits of the workers of a model version.
    pub fn get_outlier_state(&self, model_name: &str, version: &str) -> (r: Option<&OutlierState>)
        requires
            self@.wf(),
        ensures
            ({
                let key = version_key(model_name@, version@);
                match r {
                    Some(o) => {
                        &&& self@.names.contains_key(key)
                        &&& o@ == self@.slots[self@.names[key]].circuits
                    },
                    None => !self@.names.contains_key(key),
                }
            }),
    {
        let key = model_version_key(model_name, version);
        match look_up(&self.names, key.as_str()) {
            None => None,
            Some(slot) => {
                assert(self@.names.contains_key(key@));
                assert(self@.slots.contains_key(slot));
                match self.slots.get(&slot) {
                    Some(v) => Some(&v.outlier),
                    None => None,
                }
            },
        }
    }

    /// The circuits of the workers of a slot, to be told of successes and
    /// errors. There are none where the queue was given back.
    pub fn outlier_mut(&mut self, slot: usize) -> (r: Option<&mut OutlierState>)
        requires
            old(self)@.wf(),
        ensures
            match r {
                Some(o) => {
                    &&& old(self)@.slots.contains_key(slot)
                    &&& o@ == old(self)@.slots[slot].circuits
                    &&& final(self)@ == old(self)@.with_slot(
                        slot,
                        (Slot { circuits: final(o)@, ..old(self)@.slots[slot] }),
                    )
                },
                None => !old(self)@.slots.contains_key(slot) && final(self)@ == old(self)@,
            },
            final(self)@.wf(),
    {
        let ghost q = self@;
        match self.slots.entry(slot) {
            Entry::Occupied(e) => {
                let o = &mut e.into_mut().outlier;
                proof {
                    let s = Slot { circuits: final(o)@, ..q.slots[slot] };
                    slot_update_keeps_wf(q, slot, s);
                }
                Some(o)
            },
            Entry::Vacant(_) => {
                assert forall|t: Queues<R>| t =~= q implies #[trigger] t.wf() by {}
                None
            },
        }
    }

    /// The circuits of the workers of a model version, to be told of successes
    /// and errors.
    pub fn get_outlier_state_mut(&mut self, model_name: &str, version: &str) -> (r: Option<
        &mut OutlierState,
    >)
        requires
            old(self)@.wf(),
        ensures
            final(self)@.wf(),
            ({
                let key = version_key(model_name@, version@);
                let slot = old(self)@.names[key];
                match r {
                    Some(o) => {
                        &&& old(self)@.names.contains_key(key)
                        &&& o@ == old(self)@.slots[slot].circuits
                        &&& final(self)@ == old(self)@.with_slot(
                            slot,
                            (Slot { circuits: final(o)@, ..old(self)@.slots[slot] }),
                        )
                    },
                    None => !old(self)@.names.contains_key(key) && final(self)@ == old(self)@,
                }
            }),
    {
        let key = model_version_key(model_name, version);
        match look_up(&self.names, key.as_str()) {
            None => None,
            Some(slot) => {
                assert(self@.names.contains_key(key@));
                assert(self@.slots.contains_key(slot));
                self.outlier_mut(slot)
            },
        }
    }
}

/// The queue after `item` was submitted to it at `now`.
spec fn submitted<R>(s: Slot<R>, slot: usize, item: QueueItem<R>, now: u128) -> Slot<R> {
    let seen = match pin_of(item.meta) {
        Some(w) => Slot { circuits: s.circuits.after_look(w as int, now), ..s },
        None => s,
    };
    if pin_of(item.meta) matches Some(w) && w >= s.worker_count {
        s
    } else if (pin_of(item.meta) matches Some(w) && s.circuits.ejected_at(w as int, now))
        || s.backlog.is_full() {
        seen
    } else {
        Slot {
            backlog: s.backlog.with(
                priority_of(item.meta) as i32,
                QueueItem { inflight_guard: Some(InflightGuard { slot }), ..item },
            ),
            inflight: counted(s.inflight),
            ..seen
        }
    }
}

fn submit_to<R>(
    v: &mut VersionQueue<R>,
    slot: usize,
    model_name: &str,
    version: &str,
    item: QueueItem<R>,
    now: u128,
) -> (r: Result<(), QueueError>)
    ensures
        final(v)@ == submitted(old(v)@, slot, item, now),
        ({
            let s = old(v)@;
            if pin_of(item.meta) matches Some(w) && w >= s.worker_count {
                r matches Err(e) && e matches QueueError::InvalidWorker(msg) && msg@
                    == out_of_range_words(
                    pin_of(item.meta)->0,
                    model_name@,
                    version@,
                    s.worker_count as nat,
                )
            } else if pin_of(item.meta) matches Some(w) && s.circuits.ejected_at(w as int, now) {
                r matches Err(e) && e matches QueueError::InvalidWorker(msg) && msg@
                    == ejected_words(pin_of(item.meta)->0, model_name@, version@)
            } else if s.backlog.is_full() {
                r matches Err(e) && e is Full
            } else {
                r is Ok
            }
        }),
{
    if let Some(w) = direct_pin(&item) {
        if w >= v.worker_count {
            let workers: usize = v.worker_count;
            return Err(
                QueueError::InvalidWorker(out_of_range_text(w, model_name, version, workers)),
            );
        }
        if v.outlier.is_ejected_at(w, now) {
            return Err(QueueError::InvalidWorker(ejected_text(w, model_name, version)));
        }
    }
    let priority = item_priority(&item);
    let mut item = item;
    item.inflight_guard = Some(InflightGuard { slot });
    if !v.queue.try_send(item, priority) {
        return Err(QueueError::Full);
    }
    let inflight: usize = v.inflight;
    v.inflight = if inflight == usize::MAX {
        0
    } else {
        inflight + 1
    };
    Ok(())
}

/// Once a queue is run down, requests for it are refused as unknown, and the
/// other queues go on as before.
pub proof fn drained_queues_take_nothing<R>(
    q: Queues<R>,
    drained: Seq<char>,
    other: Seq<char>,
    item: QueueItem<R>,
    now: u128,
)
    requires
        q.wf(),
        q.names.contains_key(drained),
    ensures
        ({
            let after = q.without_name(drained, closed_slot(q.slots[q.names[drained]]));
            &&& after.submission(drained, item, now) is NotFound
            &&& other != drained ==> after.submission(other, item, now) == q.submission(
                other,
                item,
                now,
            )
        }),
{
    if other != drained && q.names.contains_key(other) {
        assert(q.names[other] != q.names[drained]);
    }
}

/// A queue without a name is kept only while a request waits in it or is under
/// way: with the answer to its last request it is given back.
pub proof fn queues_without_a_name_are_given_back<R>(q: Queues<R>, i: usize)
    requires
        q.wf(),
        !q.is_named(i),
    ensures
        q.slots.contains_key(i) ==> q.slots[i].backlog.items.len() > 0 || q.slots[i].inflight > 0,
        q.slots.contains_key(i) && q.slots[i].backlog.items.len() == 0 && q.slots[i].inflight == 1
            ==> !q.after_release(i).slots.contains_key(i),
{
}

/// A slot number is not given out again: a queue that is registered gets one
/// that no queue has, and one that was given out before keeps below it.
pub proof fn slot_numbers_are_used_once<R>(q: Queues<R>, key: Seq<char>, s: Slot<R>, i: usize)
    requires
        q.wf(),
        q.next < usize::MAX,
    ensures
        !q.slots.contains_key(q.next),
        q.slots.contains_key(i) ==> i < q.next,
        q.with_queue(key, s).next == q.next + 1,
{
}

/// A refused request changes no queue: it takes no place and is not counted.
pub proof fn refused_requests_take_no_place<R>(
    q: Queues<R>,
    key: Seq<char>,
    item: QueueItem<R>,
    now: u128,
    i: usize,
)
    requires
        q.wf(),
        !(q.submission(key, item, now) is Queued),
        q.slots.contains_key(i),
    ensures
        ({
            let after = q.after_submission(key, item, now);
            &&& after.slots.contains_key(i)
            &&& after.slots[i].backlog == q.slots[i].backlog
            &&& after.slots[i].inflight == q.slots[i].inflight
            &&& after.names == q.names
        }),
{
    if q.names.contains_key(key) {
        assert(q.slots.contains_key(q.names[key]));
    }
}

/// A request is counted from the time it is accepted until it is answered: its
/// answer takes away what its acceptance added, and no other queue's count
/// changes.
pub proof fn requests_are_counted_until_they_are_answered<R>(
    q: Queues<R>,
    key: Seq<char>,
    item: QueueItem<R>,
    now: u128,
    i: usize,
)
    requires
        q.wf(),
        q.submission(key, item, now) is Queued,
        q.slots[q.names[key]].inflight < usize::MAX,
        q.slots.contains_key(i),
    ensures
        ({
            let accepted = q.after_submission(key, item, now);
            let answered = accepted.after_release(q.names[key]);
            &&& accepted.slots[q.names[key]].inflight > 0
            &&& answered.slots.contains_key(i)
            &&& answered.slots[i].inflight == q.slots[i].inflight
        }),
{
    assert(q.names.contains_key(key));
    assert(q.slots.contains_key(q.names[key]));
}

/// A name without a NUL is that of a model, with an empty version.
pub proof fn names_without_a_version(key: Seq<char>)
    requires
        forall|i: int| 0 <= i < key.len() ==> #[trigger] key[i] != '\0',
    ensures
        key_parts(key) == (key, Seq::<char>::empty()),
{
    lemma_find(key, '\0', key.len() as int);
    assert(key.subrange(0, key.len() as int) =~= key);
}

/// A request that asks for no worker is refused exactly where there is no queue
/// for it or its queue holds as many requests as it may.
pub proof fn requests_wait_while_there_is_room<R>(
    q: Queues<R>,
    key: Seq<char>,
    item: QueueItem<R>,
    now: u128,
)
    requires
        q.wf(),
        pin_of(item.meta) is None,
    ensures
        !q.names.contains_key(key) ==> q.submission(key, item, now) is NotFound,
        q.names.contains_key(key) && q.slots[q.names[key]].backlog.items.len()
            < q.slots[q.names[key]].backlog.cap ==> q.submission(key, item, now) is Queued,
        q.names.contains_key(key) && q.slots[q.names[key]].backlog.items.len()
            == q.slots[q.names[key]].backlog.cap ==> q.submission(key, item, now) is Full,
        q.names.contains_key(key) ==> q.slots[q.names[key]].backlog.items.len()
            <= q.slots[q.names[key]].backlog.cap,
{
    if q.names.contains_key(key) {
        assert(q.slots.contains_key(q.names[key]));
    }
}

/// A request that asks for a worker is refused where the queue has no such worker
/// or the worker is ejected. Otherwise it waits as any other does.
pub proof fn pinned_requests_need_their_worker<R>(
    q: Queues<R>,
    key: Seq<char>,
    item: QueueItem<R>,
    now: u128,
    w: nat,
)
    requires
        q.wf(),
        pin_of(item.meta) == Some(w),
        q.names.contains_key(key),
    ensures
        w >= q.slots[q.names[key]].worker_count ==> q.submission(key, item, now)
            == (Submission::OutOfRange {
            worker: w,
            workers: q.slots[q.names[key]].worker_count as nat,
        }),
        w < q.slots[q.names[key]].worker_count && q.slots[q.names[key]].circuits.ejected_at(
            w as int,
            now,
        ) ==> q.submission(key, item, now) == (Submission::Ejected { worker: w }),
        w < q.slots[q.names[key]].worker_count && !q.slots[q.names[key]].circuits.ejected_at(
            w as int,
            now,
        ) ==> (q.submission(key, item, now) is Queued <==> q.slots[q.names[key]].backlog.items.len()
            < q.slots[q.names[key]].backlog.cap),
        w < q.slots[q.names[key]].worker_count && !q.slots[q.names[key]].circuits.ejected_at(
            w as int,
            now,
        ) && !(q.submission(key, item, now) is Queued) ==> q.submission(key, item, now) is Full,
{
}

/// An accepted request waits behind all others of its queue, with the priority
/// that it asks for and as it was sent. It counts as one more under way. No other
/// queue and no name changes.
pub proof fn accepted_requests_wait_in_their_queue<R>(
    q: Queues<R>,
    key: Seq<char>,
    item: QueueItem<R>,
    now: u128,
    other: usize,
)
    requires
        q.wf(),
        q.submission(key, item, now) is Queued,
        q.slots[q.names[key]].inflight < usize::MAX,
    ensures
        ({
            let i = q.names[key];
            let s = q.slots[i];
            let after = q.after_submission(key, item, now);
            let t = after.slots[i];
            let (p, sent) = t.backlog.items.last();
            &&& after.slots.contains_key(i)
            &&& t.backlog.items.drop_last() == s.backlog.items
            &&& t.backlog.items.len() == s.backlog.items.len() + 1
            &&& p == priority_of(item.meta)
            &&& sent.uid == item.uid && sent.data == item.data && sent.meta == item.meta
            &&& sent.reply == item.reply && sent.enqueued_at == item.enqueued_at
            &&& sent.inflight_guard matches Some(g) && g.slot == i
            &&& t.backlog.cap == s.backlog.cap && t.backlog.senders == s.backlog.senders
            &&& t.inflight == s.inflight + 1
            &&& t.worker_count == s.worker_count
            &&& other != i ==> after.slots.contains_key(other) == q.slots.contains_key(other)
            &&& other != i && q.slots.contains_key(other) ==> after.slots[other] == q.slots[other]
            &&& after.names == q.names && after.next == q.next && after.balance == q.balance
        }),
{
    let i = q.names[key];
    let s = q.slots[i];
    assert(q.slots.contains_key(i));
    let t = q.after_submission(key, item, now).slots[i];
    priority_is_a_number(item.meta);
    assert(t.backlog.items.drop_last() =~= s.backlog.items);
}

proof fn priority_is_a_number(meta: Option<std::sync::Arc<crate::message::RequestMeta>>)
    ensures
        i32::MIN <= priority_of(meta) <= i32::MAX,
{
    if let Some(v) = crate::message::meta_header(meta, "x-lite-priority"@) {
        crate::text::numbers_stay_below(v, 0);
    }
}

/// A submission is answered with what came of it.
pub proof fn answers_tell_what_came_of_it(
    r: Result<(), QueueError>,
    s: Submission,
    model: Seq<char>,
    version: Seq<char>,
)
    requires
        is_submit_result(r, s, model, version),
    ensures
        r is Ok <==> s is Queued,
        (r matches Err(e) && e is NotFound) <==> s is NotFound,
        (r matches Err(e) && e is Full) <==> s is Full,
        (r matches Err(e) && e is InvalidWorker) <==> s is OutOfRange || s is Ejected,
        s matches Submission::OutOfRange { worker, workers } ==> (r matches Err(
            QueueError::InvalidWorker(msg),
        ) && mentions(msg@, dec(worker)) && mentions(msg@, dec(workers)) && mentions(msg@, model)),
        s matches Submission::Ejected { worker } ==> (r matches Err(QueueError::InvalidWorker(msg))
            && mentions(msg@, dec(worker)) && mentions(msg@, model) && mentions(msg@, version)),
{
    match s {
        Submission::OutOfRange { worker, workers } => {
            refusals_name_the_worker(worker, model, version, workers);
        },
        Submission::Ejected { worker } => {
            refusals_name_the_worker(worker, model, version, 0);
        },
        _ => {},
    }
}

/// A new queue is empty and open, has the workers and circuits that it was given,
/// and takes as many requests as it was made for, and one at least.
pub proof fn new_queues_are_empty<R>(max_queue_size: usize, circuits: Circuits, workers: usize)
    ensures
        ({
            let s = new_slot::<R>(max_queue_size, circuits, workers);
            &&& s.backlog.items.len() == 0
            &&& max_queue_size >= 1 ==> s.backlog.cap == max_queue_size
            &&& max_queue_size == 0 ==> s.backlog.cap == 1
            &&& s.backlog.senders == 1
            &&& !s.backlog.is_full()
            &&& s.inflight == 0
            &&& s.worker_count == workers
            &&& s.circuits == circuits
            &&& !s.is_done()
        }),
{
}

/// A queue that is run down keeps the requests that wait and those under way. One
/// that is replaced gives up those that wait, and they are no longer counted.
pub proof fn closed_queues_keep_their_requests<R>(s: Slot<R>)
    requires
        s.backlog.senders <= 1,
    ensures
        closed_slot(s).backlog.senders == 0,
        closed_slot(s).backlog.items == s.backlog.items,
        closed_slot(s).inflight == s.inflight,
        closed_slot(s).circuits == s.circuits,
        closed_slot(s).worker_count == s.worker_count,
        given_up_slot(s).backlog.senders == 0,
        given_up_slot(s).backlog.items.len() == 0,
        s.inflight >= s.backlog.items.len() ==> given_up_slot(s).inflight + s.backlog.items.len()
            == s.inflight,
        s.inflight < s.backlog.items.len() ==> given_up_slot(s).inflight == 0,
        given_up_slot(s).circuits == s.circuits,
        given_up_slot(s).worker_count == s.worker_count,
{
}

/// An answer takes one away from the count of its queue, unless there is none
/// left, and changes nothing else of it and no other queue.
pub proof fn answers_take_one_away<R>(q: Queues<R>, i: usize, other: usize)
    requires
        q.wf(),
        q.slots.contains_key(i),
    ensures
        ({
            let s = q.slots[i];
            let after = q.after_release(i);
            &&& s.backlog.senders > 0 || s.backlog.items.len() > 0 || s.inflight > 1
                ==> after.slots.contains_key(i)
            &&& after.slots.contains_key(i) ==> {
                let t = after.slots[i];
                &&& t.backlog == s.backlog && t.circuits == s.circuits
                &&& t.worker_count == s.worker_count
                &&& s.inflight > 0 ==> t.inflight == s.inflight - 1
                &&& s.inflight == 0 ==> t.inflight == 0
            }
            &&& other != i ==> after.slots.contains_key(other) == q.slots.contains_key(other)
            &&& other != i && q.slots.contains_key(other) ==> after.slots[other] == q.slots[other]
            &&& after.names == q.names && after.next == q.next
        }),
{
}

/// A registered queue has its name, and no other name changes its queue. A name
/// that is taken away is gone, and the other names and queues stay.
pub proof fn names_lead_to_their_queues<R>(
    q: Queues<R>,
    key: Seq<char>,
    s: Slot<R>,
    other: Seq<char>,
)
    requires
        q.wf(),
        q.next < usize::MAX,
    ensures
        q.with_queue(key, s).names.contains_key(key),
        q.with_queue(key, s).slots[q.with_queue(key, s).names[key]] == s,
        other != key && q.names.contains_key(other) ==> q.with_queue(key, s).names.contains_key(
            other,
        ) && q.with_queue(key, s).names[other] == q.names[other] && q.with_queue(
            key,
            s,
        ).slots[q.names[other]] == q.slots[q.names[other]],
        q.names.contains_key(key) ==> !q.without_name(key, s).names.contains_key(key),
        q.names.contains_key(key) && other != key && q.names.contains_key(other)
            ==> q.without_name(key, s).names.contains_key(other) && q.without_name(
            key,
            s,
        ).names[other] == q.names[other] && q.without_name(key, s).slots[q.names[other]]
            == q.slots[q.names[other]],
{
    if q.names.contains_key(other) {
        assert(q.slots.contains_key(q.names[other]));
        if q.names.contains_key(key) && other != key {
            assert(q.names[other] != q.names[key]);
        }
    }
}

/// A refusal for the worker that a request asks for names the worker, the model
/// and the version, and how many workers there are where that is why.
pub proof fn refusals_name_the_worker(
    worker: nat,
    model: Seq<char>,
    version: Seq<char>,
    workers: nat,
)
    ensures
        mentions(out_of_range_words(worker, model, version, workers), dec(worker)),
        mentions(out_of_range_words(worker, model, version, workers), model),
        mentions(out_of_range_words(worker, model, version, workers), version),
        mentions(out_of_range_words(worker, model, version, workers), dec(workers)),
        mentions(ejected_words(worker, model, version), dec(worker)),
        mentions(ejected_words(worker, model, version), model),
        mentions(ejected_words(worker, model, version), version),
{
    let none = Seq::<char>::empty();
    let a = "x-lite-worker-id "@ + dec(worker);
    let b = a + " out of range for "@ + model;
    let c = b + " "@ + version;
    let d = c + " (workers: "@ + dec(workers);
    what_is_joined_is_mentioned("x-lite-worker-id "@, dec(worker), none);
    parts_mention_for_the_whole(a, dec(worker), none, " out of range for "@);
    parts_mention_for_the_whole(a + " out of range for "@, dec(worker), none, model);
    what_is_joined_is_mentioned(a + " out of range for "@, model, none);
    parts_mention_for_the_whole(b, dec(worker), none, " "@);
    parts_mention_for_the_whole(b, model, none, " "@);
    parts_mention_for_the_whole(b + " "@, dec(worker), none, version);
    parts_mention_for_the_whole(b + " "@, model, none, version);
    what_is_joined_is_mentioned(b + " "@, version, none);
    let open = c + " (workers: "@;
    parts_mention_for_the_whole(c, dec(worker), none, " (workers: "@);
    parts_mention_for_the_whole(c, model, none, " (workers: "@);
    parts_mention_for_the_whole(c, version, none, " (workers: "@);
    parts_mention_for_the_whole(open, dec(worker), none, dec(workers));
    parts_mention_for_the_whole(open, model, none, dec(workers));
    parts_mention_for_the_whole(open, version, none, dec(workers));
    what_is_joined_is_mentioned(open, dec(workers), none);
    parts_mention_for_the_whole(d, dec(worker), none, ")"@);
    parts_mention_for_the_whole(d, model, none, ")"@);
    parts_mention_for_the_whole(d, version, none, ")"@);
    parts_mention_for_the_whole(d, dec(workers), none, ")"@);
    let e = a + " is ejected for "@ + model;
    parts_mention_for_the_whole(a, dec(worker), none, " is ejected for "@);
    parts_mention_for_the_whole(a + " is ejected for "@, dec(worker), none, model);
    what_is_joined_is_mentioned(a + " is ejected for "@, model, none);
    parts_mention_for_the_whole(e, dec(worker), none, " "@);
    parts_mention_for_the_whole(e, model, none, " "@);
    parts_mention_for_the_whole(e + " "@, dec(worker), none, version);
    parts_mention_for_the_whole(e + " "@, model, none, version);
    what_is_joined_is_mentioned(e + " "@, version, none);
}

} // verus!
