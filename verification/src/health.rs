//! Active health checks: workers are probed at intervals, the circuits are told
//! of the outcome, and a worker that fails too often is replaced.

use crate::outlier::{fresh_worker, Circuits, OutlierState, WorkerOutlier};
use crate::text::{dec, push_dec};
use crate::time::Duration;
use vstd::prelude::*;

verus! {

/// A request to load a model version anew.
#[derive(Debug)]
pub struct ReloadSignal {
    pub model_name: String,
    pub version: String,
}

/// A request to replace one worker.
#[derive(Debug)]
pub struct RespawnSignal {
    pub model_name: String,
    pub version: String,
    pub worker_id: u32,
    pub reason: &'static str,
}

/// How the workers of a model version are probed.
#[derive(Debug, Clone, Copy, PartialEq, Eq, Structural)]
pub struct HealthConfig {
    /// The time between two probes; none are sent where it is 0.
    pub interval: Duration,
    pub probe_timeout: Duration,
    /// The failures in a row after which a worker is replaced; 0 for never.
    pub kill_threshold: usize,
}

impl HealthConfig {
    /// Whether workers are probed.
    pub fn is_active(&self) -> (r: bool)
        ensures
            r == (self.interval.nanos > 0),
    {
        !self.interval.is_zero()
    }

    /// Whether workers are to be replaced for failing probes that are never
    /// sent.
    pub fn kill_never_runs(&self) -> (r: bool)
        ensures
            r == (self.kill_threshold > 0 && self.interval.nanos == 0),
    {
        self.kill_threshold > 0 && self.interval.is_zero()
    }
}

/// What came of a probe.
#[derive(Debug, Clone, Copy, PartialEq, Eq, Structural)]
pub enum Probe {
    /// The worker answered.
    Answered,
    /// The worker answered with an error.
    AnsweredError,
    /// The worker could not be reached or did not answer in time.
    Failed,
}

/// What follows from a probe.
pub struct ProbeResult {
    /// Whether the probe counts as passed.
    pub passed: bool,
    /// Whether the worker was ejected by it.
    pub ejected: bool,
    /// The request to replace the worker, where its failures have reached the
    /// threshold.
    pub respawn: Option<RespawnSignal>,
    /// Whether the worker serves requests from now on.
    pub healthy: bool,
}

/// Whether the errors of worker `idx` call for its replacement.
pub open spec fn kill_is_due(c: Circuits, idx: int, kill_threshold: nat, can_respawn: bool) -> bool {
    &&& kill_threshold > 0
    &&& can_respawn
    &&& 0 <= idx < c.workers.len()
    &&& c.workers[idx].consecutive_errors >= kill_threshold
}

/// The circuits after worker `idx` was given up: its errors are forgotten.
pub open spec fn after_kill(c: Circuits, idx: int) -> Circuits {
    c.with(idx, WorkerOutlier { consecutive_errors: 0, ..c.workers[idx] })
}

/// Whether `s` asks for worker `idx` of this model version to be replaced.
pub open spec fn asks_for_respawn(
    s: RespawnSignal,
    model: Seq<char>,
    version: Seq<char>,
    idx: usize,
) -> bool {
    &&& s.model_name@ == model
    &&& s.version@ == version
    &&& s.worker_id == idx as u32
    &&& s.reason@ == "health_check"@
}

/// Asks for worker `idx` to be replaced where its errors in a row have reached
/// `kill_threshold`, and forgets them.
pub fn escalate_to_kill(
    outlier: &mut OutlierState,
    idx: usize,
    kill_threshold: usize,
    can_respawn: bool,
    model_name: &str,
    version: &str,
) -> (r: Option<RespawnSignal>)
    ensures
        r is Some <==> kill_is_due(old(outlier)@, idx as int, kill_threshold as nat, can_respawn),
        match r {
            Some(s) => asks_for_respawn(s, model_name@, version@, idx) && final(outlier)@
                == after_kill(old(outlier)@, idx as int),
            None => final(outlier)@ == old(outlier)@,
        },
{
    if kill_threshold == 0 || outlier.consecutive_errors(idx) < kill_threshold {
        return None;
    }
    if !can_respawn {
        return None;
    }
    outlier.reset_error_count(idx);
    Some(
        RespawnSignal {
            model_name: model_name.to_string(),
            version: version.to_string(),
            worker_id: idx as u32,
            reason: "health_check",
        },
    )
}

/// The identifier of the request that probes worker `idx`.
pub fn probe_uid(model_name: &str, version: &str, idx: usize) -> (r: String)
    ensures
        r@ == "health-"@ + model_name@ + "-"@ + version@ + "-"@ + dec(idx as nat),
{
    let mut out = "health-".to_string();
    out.append(model_name);
    out.append("-");
    out.append(version);
    out.append("-");
    push_dec(&mut out, idx as u64);
    out
}

/// Looks at the circuit of worker `idx` before it is probed: whether the worker
/// is ejected. An ejection that is over becomes a trial, on which the probe
/// decides.
pub fn begin_probe(outlier: &mut OutlierState, idx: usize, now: u128) -> (was_ejected: bool)
    ensures
        was_ejected == old(outlier)@.ejected_at(idx as int, now),
        final(outlier)@ == old(outlier)@.after_look(idx as int, now),
{
    outlier.is_ejected_at(idx, now)
}

/// The circuits after worker `idx` has answered a probe: its errors are
/// forgotten, and its ejection is over, even before its time has passed.
pub open spec fn after_answer(c: Circuits, idx: int) -> Circuits {
    if 0 <= idx < c.workers.len() && c.workers[idx].ejected is Some {
        c.with(idx, fresh_worker())
    } else {
        c.after_success(idx)
    }
}

/// The circuits after a probe of worker `idx` that was told at `now`, before
/// its health is read.
pub open spec fn after_probe_told(
    c: Circuits,
    idx: int,
    probe: Probe,
    kill_threshold: nat,
    can_respawn: bool,
    now: u128,
) -> Circuits {
    if probe == Probe::Answered {
        after_answer(c, idx)
    } else {
        let told = c.after_error(idx, now);
        if kill_is_due(told, idx, kill_threshold, can_respawn) {
            after_kill(told, idx)
        } else {
            told
        }
    }
}

/// Tells the circuits of the outcome of a probe of worker `idx`. A worker that
/// answers serves requests again at once.
pub fn after_probe(
    outlier: &mut OutlierState,
    idx: usize,
    probe: Probe,
    kill_threshold: usize,
    can_respawn: bool,
    model_name: &str,
    version: &str,
    now: u128,
) -> (r: ProbeResult)
    ensures
        r.passed == (probe == Probe::Answered),
        r.ejected == (probe != Probe::Answered && old(outlier)@.error_opens(idx as int)),
        r.respawn is Some <==> probe != Probe::Answered && kill_is_due(
            old(outlier)@.after_error(idx as int, now),
            idx as int,
            kill_threshold as nat,
            can_respawn,
        ),
        r.respawn matches Some(s) ==> asks_for_respawn(s, model_name@, version@, idx),
        ({
            let told = after_probe_told(
                old(outlier)@,
                idx as int,
                probe,
                kill_threshold as nat,
                can_respawn,
                now,
            );
            &&& r.healthy == !told.ejected_at(idx as int, now)
            &&& final(outlier)@ == told.after_look(idx as int, now)
        }),
        probe == Probe::Answered ==> r.healthy && !final(outlier)@.ejected_at(idx as int, now),
{
    let answered = match probe {
        Probe::Answered => true,
        Probe::AnsweredError => false,
        Probe::Failed => false,
    };
    if answered {
        if outlier.is_ejected_at(idx, now) {
            outlier.reset(idx);
        } else {
            outlier.record_success(idx);
        }
        proof {
            assert(outlier@ == after_answer(old(outlier)@, idx as int));
        }
        let healthy = !outlier.is_ejected_at(idx, now);
        return ProbeResult { passed: true, ejected: false, respawn: None, healthy };
    }
    let ejected = outlier.record_error_at(idx, now);
    let respawn = escalate_to_kill(
        outlier,
        idx,
        kill_threshold,
        can_respawn,
        model_name,
        version,
    );
    let healthy = !outlier.is_ejected_at(idx, now);
    ProbeResult { passed: false, ejected, respawn, healthy }
}

/// A worker is asked to be replaced only when `kill_threshold` of its errors
/// have come in a row since it last answered or was last given up.
pub proof fn kill_needs_errors_in_a_row(
    c: Circuits,
    idx: int,
    kill_threshold: nat,
    can_respawn: bool,
)
    requires
        0 <= idx < c.workers.len(),
        kill_threshold > 0,
    ensures
        !kill_is_due(c.after_success(idx), idx, kill_threshold, can_respawn),
        !kill_is_due(after_answer(c, idx), idx, kill_threshold, can_respawn),
        !kill_is_due(after_kill(c, idx), idx, kill_threshold, can_respawn),
{
}

/// A worker that answers a probe is not ejected any more, whenever it was
/// ejected, and its circuit is as good as new; the other circuits stay as they
/// are.
pub proof fn answered_probes_end_the_ejection(c: Circuits, idx: int, j: int, at: u128, now: u128)
    requires
        0 <= idx < c.workers.len(),
        0 <= j < c.workers.len(),
        c.ejected_at(idx, at),
    ensures
        !after_answer(c, idx).ejected_at(idx, now),
        after_answer(c, idx).workers[idx] == fresh_worker(),
        j != idx ==> after_answer(c, idx).workers[j] == c.workers[j],
{
}

/// A probe that failed, or was answered with an error, counts as one more error in
/// a row of a worker whose circuit is closed. The worker is replaced exactly where
/// that makes as many errors as the threshold, and its errors are forgotten then.
pub proof fn failed_probes_add_up(
    c: Circuits,
    idx: int,
    probe: Probe,
    kill_threshold: nat,
    can_respawn: bool,
    now: u128,
)
    requires
        0 <= idx < c.workers.len(),
        c.workers[idx].ejected is None,
        c.workers[idx].consecutive_errors < usize::MAX,
        probe != Probe::Answered,
    ensures
        ({
            let errors = c.workers[idx].consecutive_errors + 1;
            let due = kill_is_due(c.after_error(idx, now), idx, kill_threshold, can_respawn);
            let told = after_probe_told(c, idx, probe, kill_threshold, can_respawn, now);
            &&& kill_threshold == 0 || !can_respawn ==> !due
            &&& kill_threshold > 0 && can_respawn ==> (due <==> errors >= kill_threshold)
            &&& due ==> told.workers[idx].consecutive_errors == 0
            &&& !due ==> told.workers[idx].consecutive_errors == errors
            &&& told.workers[idx].ejected == c.after_error(idx, now).workers[idx].ejected
            &&& told == after_probe_told(c, idx, Probe::Failed, kill_threshold, can_respawn, now)
        }),
{
}

/// An answered probe forgets the errors of the worker, whatever its circuit was.
/// No probe changes another worker or the configuration.
pub proof fn probes_touch_their_worker_only(
    c: Circuits,
    idx: int,
    j: int,
    probe: Probe,
    kill_threshold: nat,
    can_respawn: bool,
    now: u128,
)
    requires
        0 <= idx < c.workers.len(),
        0 <= j < c.workers.len(),
    ensures
        ({
            let told = after_probe_told(c, idx, probe, kill_threshold, can_respawn, now);
            &&& told.workers.len() == c.workers.len()
            &&& j != idx ==> told.workers[j] == c.workers[j]
            &&& told.threshold == c.threshold && told.base_time == c.base_time
            &&& told.max_percent == c.max_percent && told.max_time == c.max_time
            &&& probe == Probe::Answered ==> told.workers[idx].consecutive_errors == 0
                && told.workers[idx].ejected is None
        }),
        after_kill(c, idx).workers[idx].ejected == c.workers[idx].ejected,
        after_kill(c, idx).workers[idx].ejection_series == c.workers[idx].ejection_series,
        j != idx ==> after_kill(c, idx).workers[j] == c.workers[j],
{
}

/// A request to replace a worker names one worker of one model version.
pub proof fn respawns_name_one_worker(
    s: RespawnSignal,
    model: Seq<char>,
    version: Seq<char>,
    idx: usize,
    other_model: Seq<char>,
    other_version: Seq<char>,
    other: usize,
)
    requires
        asks_for_respawn(s, model, version, idx),
        asks_for_respawn(s, other_model, other_version, other),
        idx <= u32::MAX,
        other <= u32::MAX,
    ensures
        model == other_model,
        version == other_version,
        idx == other,
        s.worker_id == idx,
        s.reason@ == "health_check"@,
{
}

/// What is told of a worker that there is not changes nothing.
pub proof fn unknown_workers_are_not_probed(
    c: Circuits,
    idx: int,
    probe: Probe,
    kill_threshold: nat,
    can_respawn: bool,
    now: u128,
)
    requires
        idx >= c.workers.len(),
    ensures
        !kill_is_due(c, idx, kill_threshold, can_respawn),
        after_probe_told(c, idx, probe, kill_threshold, can_respawn, now) == c,
{
}

} // verus!
