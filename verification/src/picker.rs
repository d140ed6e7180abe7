//! The choice of the worker that serves a batch.
//!
//! A batch without affinity goes to the worker with the least load. A batch
//! that belongs to a sequence stays on the worker that serves the sequence,
//! unless that worker carries much more than the others. A sequence that has no
//! worker yet, or has lost it, goes to the worker whose weight for the sequence
//! is the highest, so that no other sequence moves when a worker is lost.

use crate::outlier::{counted, Circuits, OutlierState};
use std::collections::hash_map::DefaultHasher;
use std::hash::Hasher;
use vstd::bytes::{spec_u64_to_le_bytes, u64_to_le_bytes};
use vstd::prelude::*;
use vstd::std_specs::hash::DefaultHasherAdditionalSpecFns;
use vstd::utf8::encode_utf8;

verus! {

/// A share, written as a fraction.
#[derive(Debug, Clone, Copy, PartialEq, Eq, Structural)]
pub struct Ratio {
    pub num: u64,
    pub den: u64,
}

/// When a worker carries so much that a sequence leaves it.
#[derive(Debug, Clone, Copy, PartialEq, Eq, Structural)]
pub struct BalanceConfig {
    /// How many batches more than the least loaded other worker; 0 for any
    /// number.
    pub abs_threshold: u32,
    /// How many times the load of the least loaded other worker; 0 for any
    /// number of times.
    pub rel_threshold: Ratio,
}

/// Two batches more, or half as much again.
pub open spec fn default_balance() -> BalanceConfig {
    BalanceConfig { abs_threshold: 2, rel_threshold: Ratio { num: 3, den: 2 } }
}

impl Default for BalanceConfig {
    fn default() -> (r: Self)
        ensures
            r == default_balance(),
    {
        BalanceConfig { abs_threshold: 2, rel_threshold: Ratio { num: 3, den: 2 } }
    }
}

/// What keeps a batch on one worker: a sequence or key, and the worker that
/// serves it, where one does.
pub struct Affinity {
    pub seq: String,
    pub preferred: Option<usize>,
}

/// The hash of `bytes` by a new hasher of `std`.
pub open spec fn default_hash(bytes: Seq<u8>) -> u64 {
    DefaultHasher::spec_finish(seq![bytes])
}

fn hash_bytes(bytes: &[u8]) -> (h: u64)
    ensures
        h == default_hash(bytes@),
{
    let mut hasher = DefaultHasher::new();
    hasher.write(bytes);
    assert(hasher@ =~= seq![bytes@]);
    hasher.finish()
}

/// `Rng::gen_range` over an inclusive range: some number of the range, which
/// one is left to chance. The range must not be empty.
#[verifier::external_body]
pub(crate) fn random_between(lo: i128, hi: i128) -> (r: i128)
    requires
        lo <= hi,
    ensures
        lo <= r <= hi,
{
    rand::Rng::gen_range(&mut rand::thread_rng(), lo..=hi)
}

/// Whether `exclude` lists worker `i`.
pub open spec fn excluded(exclude: Seq<usize>, i: int) -> bool {
    exists|k: int| 0 <= k < exclude.len() && #[trigger] exclude[k] == i
}

/// Whether worker `i` can be chosen without reserve.
pub open spec fn available(c: Circuits, exclude: Seq<usize>, now: u128, i: int) -> bool {
    !c.ejected_at(i, now) && !excluded(exclude, i)
}

/// Which workers are looked at.
pub enum Looks {
    All,
    But(int),
    NotIn(Seq<usize>),
}

impl Looks {
    pub open spec fn at(self, i: int) -> bool {
        match self {
            Looks::All => true,
            Looks::But(j) => i != j,
            Looks::NotIn(exclude) => !excluded(exclude, i),
        }
    }
}

/// The circuits after those of the first `n` workers that `looks` takes in were
/// looked at.
pub open spec fn looked(c: Circuits, looks: Looks, n: int, now: u128) -> Circuits
    decreases n,
{
    if n <= 0 {
        c
    } else {
        let before = looked(c, looks, n - 1, now);
        if looks.at(n - 1) {
            before.after_look(n - 1, now)
        } else {
            before
        }
    }
}

/// Looking at workers changes nothing about who is ejected at that time.
pub proof fn looking_keeps_the_ejected(c: Circuits, looks: Looks, n: int, now: u128)
    ensures
        looked(c, looks, n, now).workers.len() == c.workers.len(),
        forall|i: int|
            #[trigger] looked(c, looks, n, now).ejected_at(i, now) == c.ejected_at(i, now),
    decreases n,
{
    if n > 0 {
        looking_keeps_the_ejected(c, looks, n - 1, now);
        let before = looked(c, looks, n - 1, now);
        assert forall|i: int| #[trigger]
            before.after_look(n - 1, now).ejected_at(i, now) == before.ejected_at(i, now) by {}
        assert forall|i: int| #[trigger]
            looked(c, looks, n, now).ejected_at(i, now) == c.ejected_at(i, now) by {
            assert(before.ejected_at(i, now) == c.ejected_at(i, now));
        }
    }
}

/// The order in which kinds of workers are chosen: available ones, then ejected
/// ones, then excluded ones.
pub open spec fn rank(c: Circuits, exclude: Seq<usize>, now: u128, i: int) -> int {
    if excluded(exclude, i) {
        2
    } else if c.ejected_at(i, now) {
        1
    } else {
        0
    }
}

/// Whether worker `i` comes before worker `j`: by kind, then by load, then by
/// number.
pub open spec fn comes_before(
    c: Circuits,
    loads: Seq<usize>,
    exclude: Seq<usize>,
    now: u128,
    i: int,
    j: int,
) -> bool {
    let a = rank(c, exclude, now, i);
    let b = rank(c, exclude, now, j);
    a < b || (a == b && (loads[i] < loads[j] || (loads[i] == loads[j] && i <= j)))
}

/// Whether `r` is the least loaded worker of the best kind there is, or 0 where
/// there is no worker.
pub open spec fn is_least_loaded(
    c: Circuits,
    loads: Seq<usize>,
    exclude: Seq<usize>,
    now: u128,
    r: int,
) -> bool {
    if loads.len() == 0 {
        r == 0
    } else {
        &&& 0 <= r < loads.len()
        &&& forall|j: int|
            0 <= j < loads.len() ==> #[trigger] comes_before(c, loads, exclude, now, r, j)
    }
}

/// The circuits after the least loaded worker was chosen.
pub open spec fn after_least_loaded(
    c: Circuits,
    n: int,
    exclude: Seq<usize>,
    now: u128,
) -> Circuits {
    if n == 1 {
        c
    } else {
        looked(c, Looks::NotIn(exclude), n, now)
    }
}

/// Whether `exclude` lists worker `i`.
pub fn is_excluded(exclude: &[usize], i: usize) -> (r: bool)
    ensures
        r == excluded(exclude@, i as int),
{
    let mut k: usize = 0;
    while k < exclude.len()
        invariant
            k <= exclude@.len(),
            forall|j: int| 0 <= j < k ==> #[trigger] exclude@[j] != i,
        decreases exclude.len() - k,
    {
        if exclude[k] == i {
            return true;
        }
        k = k + 1;
    }
    false
}

/// The worker with the least load among the available ones; among the ejected
/// ones where none is available; among the excluded ones where there are no
/// others.
pub fn pick_worker_least_loaded(
    loads: &[usize],
    outlier: &mut OutlierState,
    exclude: &[usize],
    now: u128,
) -> (r: usize)
    ensures
        is_least_loaded(old(outlier)@, loads@, exclude@, now, r as int),
        final(outlier)@ == after_least_loaded(
            old(outlier)@,
            loads@.len() as int,
            exclude@,
            now,
        ),
{
    let ghost c = outlier@;
    let ghost looks = Looks::NotIn(exclude@);
    if loads.len() == 1 {
        return 0;
    }
    let mut best: usize = 0;
    let mut best_rank: u8 = 3;
    let mut i: usize = 0;
    while i < loads.len()
        invariant
            i <= loads@.len(),
            outlier@ == looked(c, looks, i as int, now),
            looks == Looks::NotIn(exclude@),
            i == 0 ==> best == 0 && best_rank == 3,
            i > 0 ==> best < i && best_rank == rank(c, exclude@, now, best as int),
            forall|j: int|
                0 <= j < i ==> #[trigger] comes_before(c, loads@, exclude@, now, best as int, j),
        decreases loads.len() - i,
    {
        proof {
            looking_keeps_the_ejected(c, looks, i as int, now);
        }
        let kind: u8 = if is_excluded(exclude, i) {
            2
        } else if outlier.is_ejected_at(i, now) {
            1
        } else {
            0
        };
        assert(kind == rank(c, exclude@, now, i as int));
        let ghost old_best = best as int;
        if kind < best_rank || (kind == best_rank && loads[i] < loads[best]) {
            best = i;
            best_rank = kind;
        }
        proof {
            assert forall|j: int| 0 <= j < i + 1 implies #[trigger] comes_before(
                c,
                loads@,
                exclude@,
                now,
                best as int,
                j,
            ) by {
                if j < i {
                    assert(comes_before(c, loads@, exclude@, now, old_best, j));
                }
            }
        }
        i = i + 1;
    }
    best
}

/// The highest load of all workers, 0 where there is none.
pub fn update_worker_saturation(loads: &[usize]) -> (max: usize)
    ensures
        forall|i: int| 0 <= i < loads@.len() ==> loads@[i] <= max,
        loads@.len() == 0 ==> max == 0,
        loads@.len() > 0 ==> exists|i: int| 0 <= i < loads@.len() && loads@[i] == max,
{
    let mut max: usize = 0;
    let ghost mut at: int = 0;
    let mut i: usize = 0;
    while i < loads.len()
        invariant
            i <= loads@.len(),
            forall|j: int| 0 <= j < i ==> loads@[j] <= max,
            i == 0 ==> max == 0,
            i > 0 ==> 0 <= at < i && loads@[at] == max,
        decreases loads.len() - i,
    {
        if i == 0 || loads[i] > max {
            max = loads[i];
            proof {
                at = i as int;
            }
        }
        i = i + 1;
    }
    max
}

/// The loads while one more batch is under way at worker `w`.
pub open spec fn load_added(loads: Seq<usize>, w: int) -> Seq<usize> {
    loads.update(w, counted(loads[w]))
}

/// The loads after a batch of worker `w` is done.
pub open spec fn load_removed(loads: Seq<usize>, w: int) -> Seq<usize> {
    loads.update(w, (loads[w] - 1) as usize)
}

/// Counts a batch that goes to worker `w`.
pub fn add_load(loads: &mut Vec<usize>, w: usize)
    requires
        w < old(loads)@.len(),
    ensures
        final(loads)@ == load_added(old(loads)@, w as int),
{
    let load: usize = loads[w];
    loads.set(
        w,
        if load == usize::MAX {
            0
        } else {
            load + 1
        },
    );
}

/// Counts a batch of worker `w` as done.
pub fn remove_load(loads: &mut Vec<usize>, w: usize)
    requires
        w < old(loads)@.len(),
        old(loads)@[w as int] > 0,
    ensures
        final(loads)@ == load_removed(old(loads)@, w as int),
{
    let load: usize = loads[w];
    loads.set(w, load - 1);
}

/// A batch that is done leaves the loads as they were before it was sent.
pub proof fn loads_are_given_back(loads: Seq<usize>, w: int)
    requires
        0 <= w < loads.len(),
        loads[w] < usize::MAX,
    ensures
        load_removed(load_added(loads, w), w) == loads,
{
    assert(load_removed(load_added(loads, w), w) =~= loads);
}

/// The least load of the first `n` workers that are available, but for worker
/// `w`, or `usize::MAX` where there is none.
pub open spec fn least_other_load(
    c: Circuits,
    loads: Seq<usize>,
    exclude: Seq<usize>,
    now: u128,
    w: int,
    n: int,
) -> usize
    decreases n,
{
    if n <= 0 {
        usize::MAX
    } else {
        let before = least_other_load(c, loads, exclude, now, w, n - 1);
        if n - 1 != w && available(c, exclude, now, n - 1) && loads[n - 1] < before {
            loads[n - 1]
        } else {
            before
        }
    }
}

/// Whether a load of `load` is too much beside another worker with `least`.
pub open spec fn too_much(load: usize, least: usize, balance: BalanceConfig) -> bool {
    &&& least < usize::MAX
    &&& {
        ||| balance.abs_threshold > 0 && load > least + balance.abs_threshold
        ||| balance.rel_threshold.num > 0 && least > 0 && load * balance.rel_threshold.den > least
            * balance.rel_threshold.num
    }
}

/// Whether worker `w` carries so much more than the others that a sequence
/// leaves it.
pub open spec fn is_overloaded(
    c: Circuits,
    loads: Seq<usize>,
    exclude: Seq<usize>,
    now: u128,
    w: int,
    balance: BalanceConfig,
) -> bool {
    too_much(
        loads[w],
        least_other_load(c, loads, exclude, now, w, loads.len() as int),
        balance,
    )
}

/// Whether worker `w` carries so much more than the others that a sequence
/// leaves it.
pub fn affinity_overloaded(
    loads: &[usize],
    outlier: &mut OutlierState,
    exclude: &[usize],
    w: usize,
    balance: BalanceConfig,
    now: u128,
) -> (r: bool)
    requires
        w < loads@.len(),
    ensures
        r == is_overloaded(old(outlier)@, loads@, exclude@, now, w as int, balance),
        final(outlier)@ == looked(
            old(outlier)@,
            Looks::But(w as int),
            loads@.len() as int,
            now,
        ),
{
    let ghost c = outlier@;
    let ghost looks = Looks::But(w as int);
    let mut least: usize = usize::MAX;
    let mut i: usize = 0;
    while i < loads.len()
        invariant
            i <= loads@.len(),
            outlier@ == looked(c, looks, i as int, now),
            looks == Looks::But(w as int),
            least == least_other_load(c, loads@, exclude@, now, w as int, i as int),
        decreases loads.len() - i,
    {
        proof {
            looking_keeps_the_ejected(c, looks, i as int, now);
        }
        if i != w {
            let ejected = outlier.is_ejected_at(i, now);
            if !ejected && !is_excluded(exclude, i) && loads[i] < least {
                least = loads[i];
            }
        }
        i = i + 1;
    }
    if least == usize::MAX {
        return false;
    }
    let load: usize = loads[w];
    if balance.abs_threshold > 0 && load as u128 > least as u128 + balance.abs_threshold as u128 {
        return true;
    }
    let den: u64 = balance.rel_threshold.den;
    let num: u64 = balance.rel_threshold.num;
    proof {
        product_fits(load as int, den as int);
        product_fits(least as int, num as int);
    }
    num > 0 && least > 0 && load as u128 * den as u128 > least as u128 * num as u128
}

proof fn product_fits(a: int, b: int)
    requires
        0 <= a <= 0xffff_ffff_ffff_ffff,
        0 <= b <= 0xffff_ffff_ffff_ffff,
    ensures
        0 <= a * b <= u128::MAX,
{
    assert(0 <= a * b <= 0xffff_ffff_ffff_ffff * 0xffff_ffff_ffff_ffff) by (nonlinear_arith)
        requires
            0 <= a <= 0xffff_ffff_ffff_ffff,
            0 <= b <= 0xffff_ffff_ffff_ffff,
    ;
}

/// Those of the first `n` workers that are available, in order.
pub open spec fn live_workers(
    c: Circuits,
    exclude: Seq<usize>,
    now: u128,
    n: int,
) -> Seq<usize>
    decreases n,
{
    if n <= 0 {
        seq![]
    } else {
        let before = live_workers(c, exclude, now, n - 1);
        if available(c, exclude, now, n - 1) {
            before.push((n - 1) as usize)
        } else {
            before
        }
    }
}

proof fn live_workers_are_available(c: Circuits, exclude: Seq<usize>, now: u128, n: int)
    requires
        0 <= n <= usize::MAX,
    ensures
        forall|k: int|
            0 <= k < live_workers(c, exclude, now, n).len() ==> {
                &&& (#[trigger] live_workers(c, exclude, now, n)[k]) < n
                &&& available(
                    c,
                    exclude,
                    now,
                    live_workers(c, exclude, now, n)[k] as int,
                )
            },
        forall|k: int, l: int|
            0 <= k < l < live_workers(c, exclude, now, n).len() ==> (#[trigger] live_workers(
                c,
                exclude,
                now,
                n,
            )[k]) < (#[trigger] live_workers(c, exclude, now, n)[l]),
    decreases n,
{
    if n > 0 {
        live_workers_are_available(c, exclude, now, n - 1);
        let before = live_workers(c, exclude, now, n - 1);
        let after = live_workers(c, exclude, now, n);
        assert forall|k: int| 0 <= k < before.len() implies after[k] == #[trigger] before[k] by {}
        assert forall|k: int| 0 <= k < after.len() implies (#[trigger] after[k]) < n && available(
            c,
            exclude,
            now,
            after[k] as int,
        ) by {
            if k < before.len() {
                assert(before[k] < n - 1);
            }
        }
        assert forall|k: int, l: int| 0 <= k < l < after.len() implies (#[trigger] after[k]) < (
        #[trigger] after[l]) by {
            assert(before[k] < n - 1);
            if l < before.len() {
                assert(before[k] < before[l]);
            }
        }
    }
}

/// Whether `r` is the less loaded of two different available workers, the
/// first of the two where they carry the same.
pub open spec fn is_better_of_two(
    c: Circuits,
    loads: Seq<usize>,
    exclude: Seq<usize>,
    now: u128,
    r: int,
) -> bool {
    exists|a: int, b: int|
        {
            &&& 0 <= a < loads.len()
            &&& 0 <= b < loads.len()
            &&& a != b
            &&& #[trigger] available(c, exclude, now, a)
            &&& #[trigger] available(c, exclude, now, b)
            &&& r == if loads[a] <= loads[b] {
                a
            } else {
                b
            }
        }
}

/// The better of two workers of `live`: that at position `first`, and that at
/// position `second` of the others.
pub fn choose_between(loads: &[usize], live: &[usize], first: usize, second: usize) -> (r: usize)
    requires
        forall|k: int| 0 <= k < live@.len() ==> #[trigger] live@[k] < loads@.len(),
        first < live@.len(),
        second < live@.len() - 1,
    ensures
        r == ({
            let a = live@[first as int];
            let b = live@[if second < first {
                second as int
            } else {
                second + 1
            }];
            if loads@[a as int] <= loads@[b as int] {
                a
            } else {
                b
            }
        }),
{
    let a: usize = live[first];
    let b: usize = if second < first {
        live[second]
    } else {
        live[second + 1]
    };
    if loads[a] <= loads[b] {
        a
    } else {
        b
    }
}

/// The less loaded of two available workers that are drawn at random; the least
/// loaded worker where fewer than two are available.
pub fn power_of_two_pick(
    loads: &[usize],
    outlier: &mut OutlierState,
    exclude: &[usize],
    now: u128,
) -> (r: usize)
    ensures
        ({
            let n = loads@.len() as int;
            let all = looked(old(outlier)@, Looks::All, n, now);
            if live_workers(old(outlier)@, exclude@, now, n).len() < 2 {
                &&& is_least_loaded(old(outlier)@, loads@, exclude@, now, r as int)
                &&& final(outlier)@ == after_least_loaded(all, n, exclude@, now)
            } else {
                &&& is_better_of_two(old(outlier)@, loads@, exclude@, now, r as int)
                &&& final(outlier)@ == all
            }
        }),
{
    let ghost c = outlier@;
    let ghost n = loads@.len() as int;
    let mut live: Vec<usize> = Vec::new();
    let mut i: usize = 0;
    while i < loads.len()
        invariant
            i <= loads@.len(),
            outlier@ == looked(c, Looks::All, i as int, now),
            live@ == live_workers(c, exclude@, now, i as int),
        decreases loads.len() - i,
    {
        proof {
            looking_keeps_the_ejected(c, Looks::All, i as int, now);
        }
        let ejected = outlier.is_ejected_at(i, now);
        if !ejected && !is_excluded(exclude, i) {
            live.push(i);
        }
        i = i + 1;
    }
    proof {
        looking_keeps_the_ejected(c, Looks::All, n, now);
        live_workers_are_available(c, exclude@, now, n);
    }
    if live.len() < 2 {
        let ghost all = outlier@;
        let r = pick_worker_least_loaded(loads, outlier, exclude, now);
        proof {
            same_ejected_same_choice(all, c, loads@, exclude@, now, r as int);
        }
        return r;
    }
    let first: i128 = random_between(0, live.len() as i128 - 1);
    let second: i128 = random_between(0, live.len() as i128 - 2);
    let r = choose_between(loads, live.as_slice(), first as usize, second as usize);
    proof {
        let a = live@[first as int] as int;
        let k = if second < first {
            second as int
        } else {
            second + 1
        };
        let b = live@[k] as int;
        assert(a != b) by {
            if first < k {
                assert(live@[first as int] < live@[k]);
            } else {
                assert(live@[k] < live@[first as int]);
            }
        }
        assert(available(c, exclude@, now, a));
        assert(available(c, exclude@, now, b));
    }
    r
}

proof fn same_ejected_same_choice(
    c: Circuits,
    d: Circuits,
    loads: Seq<usize>,
    exclude: Seq<usize>,
    now: u128,
    r: int,
)
    requires
        forall|i: int| #[trigger] c.ejected_at(i, now) == d.ejected_at(i, now),
        is_least_loaded(c, loads, exclude, now, r),
    ensures
        is_least_loaded(d, loads, exclude, now, r),
{
    if loads.len() > 0 {
        assert forall|j: int| 0 <= j < loads.len() implies #[trigger] comes_before(
            d,
            loads,
            exclude,
            now,
            r,
            j,
        ) by {
            assert(comes_before(c, loads, exclude, now, r, j));
            assert(c.ejected_at(r, now) == d.ejected_at(r, now));
            assert(c.ejected_at(j, now) == d.ejected_at(j, now));
        }
    }
}

/// What is hashed for worker `i` and the sequence `seq`: the sequence's text, an
/// end mark and the worker's number.
pub open spec fn weighed(seq: Seq<char>, i: int) -> Seq<u8> {
    encode_utf8(seq) + seq![0xffu8] + spec_u64_to_le_bytes(i as u64)
}

/// The weight of worker `i` for the sequence `seq`.
pub open spec fn weight(seq: Seq<char>, i: int) -> u64 {
    default_hash(weighed(seq, i))
}

/// The weights of the first `n` workers for the sequence `seq`.
pub open spec fn weights(seq: Seq<char>, n: int) -> Seq<u64> {
    Seq::new(n as nat, |i: int| weight(seq, i))
}

/// The first of the workers with the highest weight, among the first `n`
/// workers that are in `live`.
pub open spec fn heaviest(weights: Seq<u64>, live: Set<int>, n: int) -> Option<int>
    decreases n,
{
    if n <= 0 {
        None
    } else {
        let before = heaviest(weights, live, n - 1);
        if !live.contains(n - 1) {
            before
        } else {
            match before {
                None => Some(n - 1),
                Some(b) => if weights[n - 1] > weights[b] {
                    Some(n - 1)
                } else {
                    before
                },
            }
        }
    }
}

/// The workers that are available.
pub open spec fn available_set(c: Circuits, exclude: Seq<usize>, now: u128) -> Set<int> {
    Set::new(|i: int| available(c, exclude, now, i))
}

fn worker_weight(seq: &str, i: usize) -> (w: u64)
    ensures
        w == weight(seq@, i as int),
{
    let text = seq.as_bytes();
    let number = u64_to_le_bytes(i as u64);
    let mut bytes: Vec<u8> = Vec::new();
    let mut k: usize = 0;
    while k < text.len()
        invariant
            k <= text@.len(),
            bytes@ == text@.take(k as int),
        decreases text.len() - k,
    {
        bytes.push(text[k]);
        assert(text@.take(k + 1) =~= text@.take(k as int).push(text@[k as int]));
        k = k + 1;
    }
    assert(text@.take(k as int) =~= text@);
    bytes.push(0xff);
    let ghost front = bytes@;
    let mut m: usize = 0;
    while m < number.len()
        invariant
            m <= number@.len(),
            bytes@ == front + number@.take(m as int),
        decreases number.len() - m,
    {
        bytes.push(number[m]);
        assert(front + number@.take(m + 1) =~= (front + number@.take(m as int)).push(
            number@[m as int],
        ));
        m = m + 1;
    }
    assert(number@.take(m as int) =~= number@);
    assert(bytes@ =~= encode_utf8(seq@) + seq![0xffu8] + spec_u64_to_le_bytes(i as u64));
    hash_bytes(bytes.as_slice())
}

/// The available worker whose weight for the sequence `seq` is the highest.
pub fn rendezvous_pick(
    seq: &str,
    num_workers: usize,
    outlier: &mut OutlierState,
    exclude: &[usize],
    now: u128,
) -> (r: Option<usize>)
    ensures
        match r {
            Some(i) => heaviest(
                weights(seq@, num_workers as int),
                available_set(old(outlier)@, exclude@, now),
                num_workers as int,
            ) == Some(i as int),
            None => heaviest(
                weights(seq@, num_workers as int),
                available_set(old(outlier)@, exclude@, now),
                num_workers as int,
            ) is None,
        },
        r matches Some(i) ==> i < num_workers,
        final(outlier)@ == looked(old(outlier)@, Looks::All, num_workers as int, now),
{
    let ghost c = outlier@;
    let ghost w = weights(seq@, num_workers as int);
    let ghost live = available_set(c, exclude@, now);
    let mut best: Option<(u64, usize)> = None;
    let mut i: usize = 0;
    while i < num_workers
        invariant
            i <= num_workers,
            outlier@ == looked(c, Looks::All, i as int, now),
            w == weights(seq@, num_workers as int),
            live == available_set(c, exclude@, now),
            match best {
                Some((h, b)) => b < i && h == w[b as int] && heaviest(w, live, i as int) == Some(
                    b as int,
                ),
                None => heaviest(w, live, i as int) is None,
            },
        decreases num_workers - i,
    {
        proof {
            looking_keeps_the_ejected(c, Looks::All, i as int, now);
        }
        let ejected = outlier.is_ejected_at(i, now);
        if !ejected && !is_excluded(exclude, i) {
            assert(live.contains(i as int));
            let h: u64 = worker_weight(seq, i);
            best = match best {
                None => Some((h, i)),
                Some((top, b)) => if h > top {
                    Some((h, i))
                } else {
                    Some((top, b))
                },
            };
        } else {
            assert(!live.contains(i as int));
        }
        i = i + 1;
    }
    match best {
        Some((_, b)) => Some(b),
        None => None,
    }
}

/// Whether the worker that serves a sequence can be chosen.
pub open spec fn preferred_fits(
    c: Circuits,
    n: int,
    exclude: Seq<usize>,
    now: u128,
    preferred: Option<usize>,
) -> bool {
    preferred matches Some(w) && w < n && available(c, exclude, now, w as int)
}

/// The circuits after the worker that serves a sequence was looked at.
pub open spec fn after_preferred(
    c: Circuits,
    n: int,
    now: u128,
    preferred: Option<usize>,
) -> Circuits {
    match preferred {
        Some(w) => if w < n {
            c.after_look(w as int, now)
        } else {
            c
        },
        None => c,
    }
}

/// Whether `r` is a right choice for a batch and leaves the circuits as `d`.
pub open spec fn is_pick(
    c: Circuits,
    loads: Seq<usize>,
    exclude: Seq<usize>,
    now: u128,
    affinity: Option<(Seq<char>, Option<usize>)>,
    balance: BalanceConfig,
    r: int,
    d: Circuits,
) -> bool {
    let n = loads.len() as int;
    match affinity {
        None => {
            &&& is_least_loaded(c, loads, exclude, now, r)
            &&& d == after_least_loaded(c, n, exclude, now)
        },
        Some((key, preferred)) => if n <= 1 {
            r == 0 && d == c
        } else {
            let seen = after_preferred(c, n, now, preferred);
            if preferred_fits(c, n, exclude, now, preferred) {
                let w = preferred->0 as int;
                let compared = looked(seen, Looks::But(w), n, now);
                if !is_overloaded(c, loads, exclude, now, w, balance) {
                    r == w && d == compared
                } else {
                    let all = looked(compared, Looks::All, n, now);
                    if live_workers(c, exclude, now, n).len() < 2 {
                        &&& is_least_loaded(c, loads, exclude, now, r)
                        &&& d == after_least_loaded(all, n, exclude, now)
                    } else {
                        is_better_of_two(c, loads, exclude, now, r) && d == all
                    }
                }
            } else {
                let all = looked(seen, Looks::All, n, now);
                match heaviest(weights(key, n), available_set(c, exclude, now), n) {
                    Some(i) => r == i && d == all,
                    None => {
                        &&& is_least_loaded(c, loads, exclude, now, r)
                        &&& d == after_least_loaded(all, n, exclude, now)
                    },
                }
            }
        },
    }
}

/// The model of an affinity.
pub open spec fn affinity_view(a: Option<Affinity>) -> Option<(Seq<char>, Option<usize>)> {
    match a {
        Some(a) => Some((a.seq@, a.preferred)),
        None => None,
    }
}

proof fn same_ejected_same_facts(
    c: Circuits,
    d: Circuits,
    loads: Seq<usize>,
    exclude: Seq<usize>,
    now: u128,
)
    requires
        forall|i: int| #[trigger] c.ejected_at(i, now) == d.ejected_at(i, now),
    ensures
        forall|i: int|
            #[trigger] available(c, exclude, now, i) == available(d, exclude, now, i),
        available_set(c, exclude, now) == available_set(d, exclude, now),
        forall|w: int, n: int|
            #[trigger] least_other_load(c, loads, exclude, now, w, n) == least_other_load(
                d,
                loads,
                exclude,
                now,
                w,
                n,
            ),
        forall|n: int|
            #[trigger] live_workers(c, exclude, now, n) == live_workers(d, exclude, now, n),
        forall|r: int|
            #[trigger] is_better_of_two(c, loads, exclude, now, r) ==> is_better_of_two(
                d,
                loads,
                exclude,
                now,
                r,
            ),
        forall|r: int|
            #[trigger] is_least_loaded(c, loads, exclude, now, r) ==> is_least_loaded(
                d,
                loads,
                exclude,
                now,
                r,
            ),
{
    assert forall|i: int| #[trigger] available(c, exclude, now, i) == available(
        d,
        exclude,
        now,
        i,
    ) by {
        assert(c.ejected_at(i, now) == d.ejected_at(i, now));
    }
    assert(available_set(c, exclude, now) =~= available_set(d, exclude, now));
    assert forall|w: int, n: int| #[trigger]
        least_other_load(c, loads, exclude, now, w, n) == least_other_load(
            d,
            loads,
            exclude,
            now,
            w,
            n,
        ) by {
        same_least_other_load(c, d, loads, exclude, now, w, n);
    }
    assert forall|n: int| #[trigger] live_workers(c, exclude, now, n) == live_workers(
        d,
        exclude,
        now,
        n,
    ) by {
        same_live_workers(c, d, exclude, now, n);
    }
    assert forall|r: int| #[trigger] is_better_of_two(c, loads, exclude, now, r) implies
        is_better_of_two(d, loads, exclude, now, r) by {
        let (a, b) = choose|a: int, b: int|
            {
                &&& 0 <= a < loads.len()
                &&& 0 <= b < loads.len()
                &&& a != b
                &&& #[trigger] available(c, exclude, now, a)
                &&& #[trigger] available(c, exclude, now, b)
                &&& r == if loads[a] <= loads[b] {
                    a
                } else {
                    b
                }
            };
        assert(available(d, exclude, now, a));
        assert(available(d, exclude, now, b));
    }
    assert forall|r: int| #[trigger] is_least_loaded(c, loads, exclude, now, r) implies
        is_least_loaded(d, loads, exclude, now, r) by {
        same_ejected_same_choice(c, d, loads, exclude, now, r);
    }
}

proof fn same_least_other_load(
    c: Circuits,
    d: Circuits,
    loads: Seq<usize>,
    exclude: Seq<usize>,
    now: u128,
    w: int,
    n: int,
)
    requires
        forall|i: int|
            #[trigger] available(c, exclude, now, i) == available(d, exclude, now, i),
    ensures
        least_other_load(c, loads, exclude, now, w, n) == least_other_load(
            d,
            loads,
            exclude,
            now,
            w,
            n,
        ),
    decreases n,
{
    if n > 0 {
        same_least_other_load(c, d, loads, exclude, now, w, n - 1);
    }
}

proof fn same_live_workers(c: Circuits, d: Circuits, exclude: Seq<usize>, now: u128, n: int)
    requires
        forall|i: int|
            #[trigger] available(c, exclude, now, i) == available(d, exclude, now, i),
    ensures
        live_workers(c, exclude, now, n) == live_workers(d, exclude, now, n),
    decreases n,
{
    if n > 0 {
        same_live_workers(c, d, exclude, now, n - 1);
    }
}

/// The worker that a batch goes to.
pub fn pick_worker(
    loads: &[usize],
    outlier: &mut OutlierState,
    exclude: &[usize],
    affinity: Option<Affinity>,
    balance: BalanceConfig,
    now: u128,
) -> (r: usize)
    ensures
        is_pick(
            old(outlier)@,
            loads@,
            exclude@,
            now,
            affinity_view(affinity),
            balance,
            r as int,
            final(outlier)@,
        ),
        loads@.len() > 0 ==> r < loads@.len(),
{
    let ghost c = outlier@;
    let ghost n = loads@.len() as int;
    let a = match affinity {
        None => return pick_worker_least_loaded(loads, outlier, exclude, now),
        Some(a) => a,
    };
    if loads.len() <= 1 {
        return 0;
    }
    let mut fits = false;
    let mut w: usize = 0;
    if let Some(p) = a.preferred {
        if p < loads.len() {
            w = p;
            fits = !outlier.is_ejected_at(p, now) && !is_excluded(exclude, p);
        }
    }
    let ghost seen = outlier@;
    proof {
        assert(seen == after_preferred(c, n, now, a.preferred));
        assert(fits == preferred_fits(c, n, exclude@, now, a.preferred));
        assert forall|i: int| #[trigger] seen.ejected_at(i, now) == c.ejected_at(i, now) by {}
        same_ejected_same_facts(seen, c, loads@, exclude@, now);
    }
    if fits {
        if !affinity_overloaded(loads, outlier, exclude, w, balance, now) {
            return w;
        }
        let ghost compared = outlier@;
        proof {
            looking_keeps_the_ejected(seen, Looks::But(w as int), n, now);
            assert forall|i: int| #[trigger]
                compared.ejected_at(i, now) == c.ejected_at(i, now) by {
                assert(seen.ejected_at(i, now) == c.ejected_at(i, now));
            }
            same_ejected_same_facts(compared, c, loads@, exclude@, now);
        }
        return power_of_two_pick(loads, outlier, exclude, now);
    }
    match rendezvous_pick(a.seq.as_str(), loads.len(), outlier, exclude, now) {
        Some(i) => i,
        None => {
            let ghost all = outlier@;
            let r = pick_worker_least_loaded(loads, outlier, exclude, now);
            proof {
                looking_keeps_the_ejected(seen, Looks::All, n, now);
                assert forall|i: int| #[trigger]
                    all.ejected_at(i, now) == c.ejected_at(i, now) by {
                    assert(seen.ejected_at(i, now) == c.ejected_at(i, now));
                }
                same_ejected_same_choice(all, c, loads@, exclude@, now, r as int);
            }
            r
        },
    }
}

/// The heaviest live worker is live, outweighs every live worker, and strictly
/// those before it; there is one where any worker is live.
pub proof fn heaviest_outweighs_the_others(weights: Seq<u64>, live: Set<int>, n: int)
    ensures
        match heaviest(weights, live, n) {
            Some(b) => {
                &&& 0 <= b < n
                &&& live.contains(b)
                &&& forall|i: int|
                    0 <= i < n && #[trigger] live.contains(i) ==> weights[i] <= weights[b] && (i
                        < b ==> weights[i] < weights[b])
            },
            None => forall|i: int| 0 <= i < n ==> !#[trigger] live.contains(i),
        },
    decreases n,
{
    if n > 0 {
        heaviest_outweighs_the_others(weights, live, n - 1);
    }
}

/// When workers are lost, only the sequences that they served move: a sequence
/// whose worker is still live keeps it.
pub proof fn only_sequences_of_lost_workers_move(
    weights: Seq<u64>,
    live: Set<int>,
    fewer: Set<int>,
    n: int,
)
    requires
        fewer.subset_of(live),
        heaviest(weights, live, n) matches Some(b) && fewer.contains(b),
    ensures
        heaviest(weights, fewer, n) == heaviest(weights, live, n),
{
    heaviest_outweighs_the_others(weights, live, n);
    heaviest_outweighs_the_others(weights, fewer, n);
    let b = heaviest(weights, live, n)->0;
    match heaviest(weights, fewer, n) {
        Some(d) => {
            assert(live.contains(d));
            assert(fewer.contains(b));
        },
        None => {
            assert(fewer.contains(b));
        },
    }
}

/// An available worker is preferred to one that is not, whatever they carry.
pub proof fn available_workers_come_first(
    c: Circuits,
    loads: Seq<usize>,
    exclude: Seq<usize>,
    now: u128,
    r: int,
    i: int,
)
    requires
        is_least_loaded(c, loads, exclude, now, r),
        0 <= i < loads.len(),
        available(c, exclude, now, i),
    ensures
        available(c, exclude, now, r),
        loads[r] <= loads[i],
{
    assert(comes_before(c, loads, exclude, now, r, i));
}

/// A batch goes to an available worker where there is one, whatever it stays
/// with: neither to one that is ejected nor to one that has just failed it.
pub proof fn available_workers_are_picked(
    c: Circuits,
    loads: Seq<usize>,
    exclude: Seq<usize>,
    now: u128,
    affinity: Option<(Seq<char>, Option<usize>)>,
    balance: BalanceConfig,
    r: int,
    d: Circuits,
    i: int,
)
    requires
        is_pick(c, loads, exclude, now, affinity, balance, r, d),
        0 <= i < loads.len(),
        available(c, exclude, now, i),
    ensures
        0 <= r < loads.len(),
        available(c, exclude, now, r),
{
    let n = loads.len() as int;
    if is_least_loaded(c, loads, exclude, now, r) {
        available_workers_come_first(c, loads, exclude, now, r, i);
    }
    if let Some((key, _)) = affinity {
        heaviest_outweighs_the_others(weights(key, n), available_set(c, exclude, now), n);
        assert(available_set(c, exclude, now).contains(i));
    }
}

/// Where the loads and circuits are the same, so is the least loaded worker.
pub proof fn least_loaded_is_unique(
    c: Circuits,
    loads: Seq<usize>,
    exclude: Seq<usize>,
    now: u128,
    r: int,
    s: int,
)
    requires
        is_least_loaded(c, loads, exclude, now, r),
        is_least_loaded(c, loads, exclude, now, s),
    ensures
        r == s,
{
    if loads.len() > 0 {
        assert(comes_before(c, loads, exclude, now, r, s));
        assert(comes_before(c, loads, exclude, now, s, r));
    }
}

/// A worker can be chosen without reserve exactly where its circuit lets requests
/// through and it is not in the list of those to be left out.
pub proof fn neither_ejected_nor_excluded(c: Circuits, exclude: Seq<usize>, now: u128, i: usize)
    ensures
        available(c, exclude, now, i as int) == (!c.ejected_at(i as int, now) && !exclude.contains(i)),
{
    if exclude.contains(i) {
        let k = choose|k: int| 0 <= k < exclude.len() && exclude[k] == i;
        assert(exclude[k] == i as int);
    }
    if excluded(exclude, i as int) {
        let k = choose|k: int| 0 <= k < exclude.len() && #[trigger] exclude[k] == i as int;
        assert(exclude.contains(exclude[k]));
    }
}

/// The load that a worker is held against is a minimum: no other worker that can
/// be chosen carries less, and one of them carries just that, where there is one.
pub proof fn least_other_load_is_a_minimum(
    c: Circuits,
    loads: Seq<usize>,
    exclude: Seq<usize>,
    now: u128,
    w: int,
    n: int,
)
    requires
        0 <= n <= loads.len(),
        loads.len() <= usize::MAX,
    ensures
        forall|i: usize|
            i < n && i != w && !c.ejected_at(i as int, now) && !exclude.contains(i)
                ==> least_other_load(c, loads, exclude, now, w, n) <= #[trigger] loads[i as int],
        least_other_load(c, loads, exclude, now, w, n) < usize::MAX ==> exists|i: usize|
            {
                &&& i < n
                &&& i != w
                &&& !c.ejected_at(i as int, now)
                &&& !exclude.contains(i)
                &&& #[trigger] loads[i as int] == least_other_load(c, loads, exclude, now, w, n)
            },
    decreases n,
{
    if n > 0 {
        let last = (n - 1) as usize;
        least_other_load_is_a_minimum(c, loads, exclude, now, w, n - 1);
        neither_ejected_nor_excluded(c, exclude, now, last);
        let before = least_other_load(c, loads, exclude, now, w, n - 1);
        let least = least_other_load(c, loads, exclude, now, w, n);
        assert(least <= before);
        assert forall|i: usize|
            i < n && i != w && !c.ejected_at(i as int, now) && !exclude.contains(
                i,
            ) implies least <= #[trigger] loads[i as int] by {
            if i == last {
                assert(available(c, exclude, now, n - 1));
            }
        }
        if least < usize::MAX {
            if least == before {
                let i = choose|i: usize|
                    {
                        &&& i < n - 1
                        &&& i != w
                        &&& !c.ejected_at(i as int, now)
                        &&& !exclude.contains(i)
                        &&& #[trigger] loads[i as int] == before
                    };
                assert(loads[i as int] == least);
            } else {
                assert(loads[last as int] == least);
            }
        }
    }
}

/// A worker that carries more than `abs_threshold` batches more than another one
/// that can be chosen is overloaded.
pub proof fn many_batches_more_is_too_much(
    c: Circuits,
    loads: Seq<usize>,
    exclude: Seq<usize>,
    now: u128,
    w: int,
    balance: BalanceConfig,
    i: usize,
)
    requires
        0 <= w < loads.len() <= usize::MAX,
        i < loads.len(),
        i != w,
        !c.ejected_at(i as int, now),
        !exclude.contains(i),
        balance.abs_threshold > 0,
        loads[w] > loads[i as int] + balance.abs_threshold,
    ensures
        is_overloaded(c, loads, exclude, now, w, balance),
{
    least_other_load_is_a_minimum(c, loads, exclude, now, w, loads.len() as int);
    assert(least_other_load(c, loads, exclude, now, w, loads.len() as int) <= loads[i as int]);
}

/// A worker that carries more than `rel_threshold` times as much as another one
/// that can be chosen is overloaded, where none of those is idle.
pub proof fn many_times_as_much_is_too_much(
    c: Circuits,
    loads: Seq<usize>,
    exclude: Seq<usize>,
    now: u128,
    w: int,
    balance: BalanceConfig,
    i: usize,
)
    requires
        0 <= w < loads.len() <= usize::MAX,
        i < loads.len(),
        i != w,
        !c.ejected_at(i as int, now),
        !exclude.contains(i),
        balance.rel_threshold.num > 0,
        loads[w] * balance.rel_threshold.den > loads[i as int] * balance.rel_threshold.num,
        loads[i as int] < usize::MAX,
        forall|j: usize|
            j < loads.len() && j != w && !c.ejected_at(j as int, now) && !exclude.contains(j)
                ==> #[trigger] loads[j as int] > 0,
    ensures
        is_overloaded(c, loads, exclude, now, w, balance),
{
    let n = loads.len() as int;
    least_other_load_is_a_minimum(c, loads, exclude, now, w, n);
    let least = least_other_load(c, loads, exclude, now, w, n);
    assert(least <= loads[i as int]);
    let j = choose|j: usize|
        {
            &&& j < n
            &&& j != w
            &&& !c.ejected_at(j as int, now)
            &&& !exclude.contains(j)
            &&& #[trigger] loads[j as int] == least
        };
    assert(loads[j as int] > 0);
    let num = balance.rel_threshold.num as int;
    let other = loads[i as int] as int;
    assert(least * num <= other * num) by (nonlinear_arith)
        requires
            least <= other,
            num >= 0,
    ;
}

/// A worker is overloaded only beside another one that can be chosen: it carries
/// more than `abs_threshold` batches more than that one, or more than
/// `rel_threshold` times as much, and a threshold of 0 counts for nothing.
pub proof fn overload_is_beside_another(
    c: Circuits,
    loads: Seq<usize>,
    exclude: Seq<usize>,
    now: u128,
    w: int,
    balance: BalanceConfig,
) -> (i: usize)
    requires
        0 <= w < loads.len() <= usize::MAX,
        is_overloaded(c, loads, exclude, now, w, balance),
    ensures
        i < loads.len(),
        i != w,
        !c.ejected_at(i as int, now),
        !exclude.contains(i),
        (balance.abs_threshold > 0 && loads[w] > loads[i as int] + balance.abs_threshold) || (
        balance.rel_threshold.num > 0 && loads[i as int] > 0 && loads[w]
            * balance.rel_threshold.den > loads[i as int] * balance.rel_threshold.num),
{
    let n = loads.len() as int;
    least_other_load_is_a_minimum(c, loads, exclude, now, w, n);
    let least = least_other_load(c, loads, exclude, now, w, n);
    choose|j: usize|
        {
            &&& j < n
            &&& j != w
            &&& !c.ejected_at(j as int, now)
            &&& !exclude.contains(j)
            &&& #[trigger] loads[j as int] == least
        }
}

/// A sequence stays with its worker while that can be chosen, unless another one
/// that can be chosen carries so much less: by more than `abs_threshold` batches,
/// or by more than `rel_threshold` times.
pub proof fn sequences_stay_unless_another_carries_much_less(
    c: Circuits,
    loads: Seq<usize>,
    exclude: Seq<usize>,
    now: u128,
    key: Seq<char>,
    w: usize,
    balance: BalanceConfig,
    r: int,
    d: Circuits,
)
    requires
        is_pick(c, loads, exclude, now, Some((key, Some(w))), balance, r, d),
        w < loads.len() <= usize::MAX,
        !c.ejected_at(w as int, now),
        !exclude.contains(w),
        forall|i: usize|
            i < loads.len() && i != w && !c.ejected_at(i as int, now) && !exclude.contains(i) ==> {
                &&& balance.abs_threshold == 0 || loads[w as int] <= #[trigger] loads[i as int]
                    + balance.abs_threshold
                &&& balance.rel_threshold.num == 0 || loads[i as int] == 0 || loads[w as int]
                    * balance.rel_threshold.den <= loads[i as int] * balance.rel_threshold.num
            },
    ensures
        r == w,
{
    neither_ejected_nor_excluded(c, exclude, now, w);
    if loads.len() > 1 && is_overloaded(c, loads, exclude, now, w as int, balance) {
        let i = overload_is_beside_another(c, loads, exclude, now, w as int, balance);
    }
}

/// A sequence whose worker is overloaded goes where less is carried: to a worker
/// that can be chosen and beside which another one carries at least as much. So
/// it does not stay with a worker that carries more than all others.
pub proof fn overloaded_workers_lose_the_sequence(
    c: Circuits,
    loads: Seq<usize>,
    exclude: Seq<usize>,
    now: u128,
    key: Seq<char>,
    w: usize,
    balance: BalanceConfig,
    r: int,
    d: Circuits,
)
    requires
        is_pick(c, loads, exclude, now, Some((key, Some(w))), balance, r, d),
        w < loads.len() <= usize::MAX,
        !c.ejected_at(w as int, now),
        !exclude.contains(w),
        is_overloaded(c, loads, exclude, now, w as int, balance),
    ensures
        0 <= r < loads.len(),
        !c.ejected_at(r, now),
        !exclude.contains(r as usize),
        exists|b: usize|
            {
                &&& b < loads.len()
                &&& b != r
                &&& !c.ejected_at(b as int, now)
                &&& !exclude.contains(b)
                &&& loads[r] <= #[trigger] loads[b as int]
            },
        (forall|i: usize|
            i < loads.len() && i != w && !c.ejected_at(i as int, now) && !exclude.contains(i)
                ==> #[trigger] loads[i as int] < loads[w as int]) ==> r != w,
{
    let n = loads.len() as int;
    let i = overload_is_beside_another(c, loads, exclude, now, w as int, balance);
    neither_ejected_nor_excluded(c, exclude, now, w);
    neither_ejected_nor_excluded(c, exclude, now, i);
    two_are_live(c, exclude, now, n, w, i);
    let (a, b) = choose|a: int, b: int|
        {
            &&& 0 <= a < loads.len()
            &&& 0 <= b < loads.len()
            &&& a != b
            &&& #[trigger] available(c, exclude, now, a)
            &&& #[trigger] available(c, exclude, now, b)
            &&& r == if loads[a] <= loads[b] {
                a
            } else {
                b
            }
        };
    neither_ejected_nor_excluded(c, exclude, now, a as usize);
    neither_ejected_nor_excluded(c, exclude, now, b as usize);
    let other = if r == a {
        b
    } else {
        a
    };
    assert(loads[r] <= loads[other as usize as int]);
}

proof fn live_worker_is_listed(c: Circuits, exclude: Seq<usize>, now: u128, n: int, w: usize) -> (k: int)
    requires
        w < n <= usize::MAX,
        available(c, exclude, now, w as int),
    ensures
        0 <= k < live_workers(c, exclude, now, n).len(),
        live_workers(c, exclude, now, n)[k] == w,
    decreases n,
{
    if w == n - 1 {
        live_workers(c, exclude, now, n).len() - 1
    } else {
        live_worker_is_listed(c, exclude, now, n - 1, w)
    }
}

proof fn two_are_live(c: Circuits, exclude: Seq<usize>, now: u128, n: int, a: usize, b: usize)
    requires
        a < n <= usize::MAX,
        b < n,
        a != b,
        available(c, exclude, now, a as int),
        available(c, exclude, now, b as int),
    ensures
        live_workers(c, exclude, now, n).len() >= 2,
{
    let j = live_worker_is_listed(c, exclude, now, n, a);
    let k = live_worker_is_listed(c, exclude, now, n, b);
}

/// A sequence that has no worker, or has lost it, goes to the worker that weighs
/// most for it among those that can be chosen, whatever they carry.
pub proof fn other_sequences_go_by_weight(
    c: Circuits,
    loads: Seq<usize>,
    exclude: Seq<usize>,
    now: u128,
    key: Seq<char>,
    preferred: Option<usize>,
    balance: BalanceConfig,
    r: int,
    d: Circuits,
    i: usize,
)
    requires
        is_pick(c, loads, exclude, now, Some((key, preferred)), balance, r, d),
        preferred matches Some(w) ==> w >= loads.len() || c.ejected_at(w as int, now)
            || exclude.contains(w),
        i < loads.len() <= usize::MAX,
        !c.ejected_at(i as int, now),
        !exclude.contains(i),
    ensures
        0 <= r < loads.len(),
        loads.len() > 1 ==> !c.ejected_at(r, now) && !exclude.contains(r as usize),
        weight(key, i as int) <= weight(key, r),
{
    let n = loads.len() as int;
    neither_ejected_nor_excluded(c, exclude, now, i);
    if let Some(w) = preferred {
        neither_ejected_nor_excluded(c, exclude, now, w);
    }
    let live = available_set(c, exclude, now);
    assert(live.contains(i as int));
    heaviest_outweighs_the_others(weights(key, n), live, n);
    if n > 1 {
        assert(live.contains(r));
        neither_ejected_nor_excluded(c, exclude, now, r as usize);
        assert(weights(key, n)[i as int] == weight(key, i as int));
        assert(weights(key, n)[r] == weight(key, r));
    }
}

/// The load decides among workers of one kind, and their number among those with
/// the same load. Workers that are ejected are taken only where none can be
/// chosen, and those to be left out only where there are no others.
pub proof fn the_best_kind_with_the_least_load(
    c: Circuits,
    loads: Seq<usize>,
    exclude: Seq<usize>,
    now: u128,
    r: int,
    i: usize,
)
    requires
        is_least_loaded(c, loads, exclude, now, r),
        i < loads.len() <= usize::MAX,
    ensures
        0 <= r < loads.len(),
        !exclude.contains(i) ==> !exclude.contains(r as usize),
        !exclude.contains(i) && !c.ejected_at(i as int, now) ==> !c.ejected_at(r, now),
        exclude.contains(i) == exclude.contains(r as usize) && (exclude.contains(i) || c.ejected_at(
            i as int,
            now,
        ) == c.ejected_at(r, now)) ==> loads[r] < loads[i as int] || (loads[r] == loads[i as int]
            && r <= i),
{
    neither_ejected_nor_excluded(c, exclude, now, i);
    neither_ejected_nor_excluded(c, exclude, now, r as usize);
    assert(comes_before(c, loads, exclude, now, r, i as int));
    listed_is_excluded(exclude, i);
    listed_is_excluded(exclude, r as usize);
}

proof fn listed_is_excluded(exclude: Seq<usize>, i: usize)
    ensures
        excluded(exclude, i as int) == exclude.contains(i),
{
    if exclude.contains(i) {
        let k = choose|k: int| 0 <= k < exclude.len() && exclude[k] == i;
        assert(exclude[k] == i as int);
    }
    if excluded(exclude, i as int) {
        let k = choose|k: int| 0 <= k < exclude.len() && #[trigger] exclude[k] == i as int;
        assert(exclude.contains(exclude[k]));
    }
}

/// A batch counts once, and only at the worker that it is sent to.
pub proof fn batches_count_at_their_worker(loads: Seq<usize>, w: int, i: int)
    requires
        0 <= w < loads.len(),
        0 <= i < loads.len(),
    ensures
        load_added(loads, w).len() == loads.len(),
        i != w ==> load_added(loads, w)[i] == loads[i],
        loads[w] < usize::MAX ==> load_added(loads, w)[w] == loads[w] + 1,
        i != w ==> load_removed(loads, w)[i] == loads[i],
        loads[w] > 0 ==> load_removed(loads, w)[w] == loads[w] - 1,
{
}

/// Looking at a worker lets its circuit half open at most: it changes neither how
/// long the worker stays ejected nor any other worker's circuit.
pub proof fn looking_changes_no_other_circuit(c: Circuits, looks: Looks, n: int, now: u128, i: int)
    requires
        0 <= i < c.workers.len(),
    ensures
        looked(c, looks, n, now).workers.len() == c.workers.len(),
        looked(c, looks, n, now).workers[i].ejection_series == c.workers[i].ejection_series,
        c.workers[i].ejected is None || i >= n || c.ejected_at(i, now) ==> looked(
            c,
            looks,
            n,
            now,
        ).workers[i] == c.workers[i],
    decreases n,
{
    if n > 0 {
        looking_changes_no_other_circuit(c, looks, n - 1, now, i);
        looking_keeps_the_ejected(c, looks, n - 1, now);
        let before = looked(c, looks, n - 1, now);
        assert(before.ejected_at(i, now) == c.ejected_at(i, now));
    }
}

/// Different sequences, and different workers for one sequence, are weighed by
/// different bytes.
pub proof fn no_two_are_weighed_alike(s: Seq<char>, i: u64, t: Seq<char>, j: u64)
    requires
        weighed(s, i as int) == weighed(t, j as int),
    ensures
        s == t,
        i == j,
        weight(s, i as int) == DefaultHasher::spec_finish(seq![weighed(s, i as int)]),
{
    vstd::bytes::lemma_auto_spec_u64_to_from_le_bytes();
    let a = weighed(s, i as int);
    let n = a.len() as int;
    assert(a.subrange(n - 8, n) =~= spec_u64_to_le_bytes(i));
    assert(weighed(t, j as int).subrange(n - 8, n) =~= spec_u64_to_le_bytes(j));
    assert(a.subrange(0, n - 9) =~= encode_utf8(s));
    assert(weighed(t, j as int).subrange(0, n - 9) =~= encode_utf8(t));
    vstd::utf8::encode_utf8_decode_utf8(s);
    vstd::utf8::encode_utf8_decode_utf8(t);
}

/// A look at a worker whose ejection is over lets its circuit half open. Workers
/// that are not looked at stay as they are.
pub proof fn looks_let_circuits_half_open(c: Circuits, looks: Looks, n: int, now: u128, i: int)
    requires
        0 <= i < c.workers.len(),
    ensures
        i < n && looks.at(i) && (c.workers[i].ejected matches Some(e) && !e.half_open)
            && !c.ejected_at(i, now) ==> (looked(c, looks, n, now).workers[i].ejected matches Some(e)
            && e.half_open && e.at == c.workers[i].ejected->0.at),
        !looks.at(i) ==> looked(c, looks, n, now).workers[i] == c.workers[i],
        (c.workers[i].ejected matches Some(e) && e.half_open) ==> looked(
            c,
            looks,
            n,
            now,
        ).workers[i] == c.workers[i],
        looked(c, looks, n, now).base_time == c.base_time && looked(c, looks, n, now).max_time
            == c.max_time,
    decreases n,
{
    if n > 0 {
        looks_let_circuits_half_open(c, looks, n - 1, now, i);
        looking_changes_no_other_circuit(c, looks, n - 1, now, i);
        looking_keeps_the_ejected(c, looks, n - 1, now);
        let before = looked(c, looks, n - 1, now);
        assert(before.ejected_at(i, now) == c.ejected_at(i, now));
    }
}

/// All workers are looked at, all but one, or all that are not listed.
pub proof fn looks_take_in_workers(i: usize, j: usize, exclude: Seq<usize>)
    ensures
        Looks::All.at(i as int),
        Looks::But(j as int).at(i as int) <==> i != j,
        Looks::NotIn(exclude).at(i as int) <==> !exclude.contains(i),
{
    listed_is_excluded(exclude, i);
}

/// Choosing a worker by load looks at all workers that may be chosen, and at none
/// where there is one worker only. A batch of a sequence looks at all workers, so
/// every ejection that is over ends in a trial.
pub proof fn choices_end_ejections_that_are_over(
    c: Circuits,
    loads: Seq<usize>,
    exclude: Seq<usize>,
    now: u128,
    affinity: Option<(Seq<char>, Option<usize>)>,
    balance: BalanceConfig,
    r: int,
    d: Circuits,
    i: usize,
)
    requires
        is_pick(c, loads, exclude, now, affinity, balance, r, d),
        i < c.workers.len(),
        i < loads.len() <= usize::MAX,
        c.workers[i as int].ejected matches Some(e) && !e.half_open,
        !c.ejected_at(i as int, now),
    ensures
        loads.len() == 1 ==> d == c,
        loads.len() > 1 && (affinity is Some || !exclude.contains(i)) ==> (
        d.workers[i as int].ejected matches Some(e) && e.half_open),
        affinity is None && exclude.contains(i) ==> d.workers[i as int] == c.workers[i as int],
{
    let n = loads.len() as int;
    let k = i as int;
    listed_is_excluded(exclude, i);
    match affinity {
        None => {
            looks_let_circuits_half_open(c, Looks::NotIn(exclude), n, now, k);
        },
        Some((key, preferred)) => if n > 1 {
            let seen = after_preferred(c, n, now, preferred);
            if preferred_fits(c, n, exclude, now, preferred) {
                let w = preferred->0 as int;
                let compared = looked(seen, Looks::But(w), n, now);
                half_open_after(seen, Looks::But(w), n, now, k);
                if is_overloaded(c, loads, exclude, now, w, balance) {
                    half_open_after(compared, Looks::All, n, now, k);
                    let all = looked(compared, Looks::All, n, now);
                    half_open_after(all, Looks::NotIn(exclude), n, now, k);
                }
            } else {
                half_open_after(seen, Looks::All, n, now, k);
                let all = looked(seen, Looks::All, n, now);
                half_open_after(all, Looks::NotIn(exclude), n, now, k);
            }
        },
    }
}

proof fn half_open_after(c: Circuits, looks: Looks, n: int, now: u128, i: int)
    requires
        0 <= i < c.workers.len(),
        i < n,
        !c.ejected_at(i, now),
        c.workers[i].ejected matches Some(e) && (e.half_open || looks.at(i)),
    ensures
        looked(c, looks, n, now).workers.len() == c.workers.len(),
        !looked(c, looks, n, now).ejected_at(i, now),
        looked(c, looks, n, now).workers[i].ejected matches Some(e) && e.half_open,
{
    looks_let_circuits_half_open(c, looks, n, now, i);
    looking_keeps_the_ejected(c, looks, n, now);
    assert(looked(c, looks, n, now).ejected_at(i, now) == c.ejected_at(i, now));
}

/// A worker is weighed for a sequence by the text of the sequence with a byte 255
/// behind it, and the number of the worker in eight bytes, the lowest first.
pub proof fn workers_are_weighed_by_text_and_number(s: Seq<char>, i: u64)
    ensures
        ({
            let b = weighed(s, i as int);
            let n = encode_utf8(s).len() as int;
            &&& b.len() == n + 9
            &&& b.take(n) == encode_utf8(s)
            &&& b[n] == 255
            &&& vstd::bytes::spec_u64_from_le_bytes(b.subrange(n + 1, n + 9)) == i
        }),
{
    vstd::bytes::lemma_auto_spec_u64_to_from_le_bytes();
    let b = weighed(s, i as int);
    let n = encode_utf8(s).len() as int;
    assert(b.subrange(n + 1, n + 9) =~= spec_u64_to_le_bytes(i));
    assert(b.take(n) =~= encode_utf8(s));
}

} // verus!
