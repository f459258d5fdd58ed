//! The per-tick check scheduler.
//!
//! On each tick every configured target is checked once: a bare
//! endpoint by a reachability probe, a functional-check target by a
//! browser-driven measurement.  The outside process performs the
//! blocking work and reports one outcome per target; this module turns
//! each target's report into its result record, each independently of
//! the others, so one target's failure never touches another's result.

use vstd::prelude::*;
use crate::address::Endpoint;
use crate::measure::MeasureError;

verus! {

/// Pause between two ticks, in milliseconds.
pub const TICK_PERIOD_MS: u64 = 60000;

/// One browser-driven functional check, immutable per invocation.
#[derive(Debug)]
pub struct FunctionalCheckSpec {
    /// The page whose functional time is measured.
    pub url: String,
    /// The readiness selector; absent means navigation completion
    /// already counts as functional.
    pub selector: Option<String>,
    /// Whether the browser runs headless.
    pub headless: bool,
    /// Address of the browser-automation server.
    pub session_endpoint: String,
}

/// One configured monitoring target.
#[derive(Debug)]
pub enum Target {
    /// Probe the endpoint for TCP reachability.
    Reach { endpoint: Endpoint },
    /// Measure the page's functional time.
    Functional { check: FunctionalCheckSpec },
}

/// What the outside process reports for one target's check.
#[derive(Clone, Copy, Debug)]
pub enum TargetReport {
    /// Outcome of a reachability probe: every failure mode collapses to
    /// `open == false`.
    Reach { open: bool },
    /// Outcome of a functional-time measurement, with the failed-close
    /// secondary signal.
    Functional { outcome: Result<u64, MeasureError>, close_failed: bool },
}

/// One stored check result.  Produced exactly once per check attempt.
#[derive(Debug)]
pub enum CheckResult {
    /// The endpoint answered (or not) within the probe timeout.
    Reachability { endpoint: Endpoint, open: bool, probed_at: u64 },
    /// The page became functional after `duration_ms`.
    FunctionalTime {
        check: FunctionalCheckSpec,
        duration_ms: u64,
        probed_at: u64,
        close_failed: bool,
    },
    /// The measurement failed; the tick goes on regardless.
    CheckError {
        check: FunctionalCheckSpec,
        kind: MeasureError,
        probed_at: u64,
        close_failed: bool,
    },
}

/// Whether a report is of the kind the target calls for.
pub open spec fn kinds_match(t: Target, rep: TargetReport) -> bool {
    match (t, rep) {
        (Target::Reach { .. }, TargetReport::Reach { .. }) => true,
        (Target::Functional { .. }, TargetReport::Functional { .. }) => true,
        _ => false,
    }
}

/// The result record one target's report yields, at `probed_at`.
pub open spec fn spec_result_of(t: Target, rep: TargetReport, probed_at: u64) -> CheckResult {
    match (t, rep) {
        (Target::Reach { endpoint }, TargetReport::Reach { open }) => CheckResult::Reachability {
            endpoint,
            open,
            probed_at,
        },
        (Target::Functional { check }, TargetReport::Functional { outcome, close_failed }) => match outcome {
            Ok(duration_ms) => CheckResult::FunctionalTime {
                check,
                duration_ms,
                probed_at,
                close_failed,
            },
            Err(kind) => CheckResult::CheckError { check, kind, probed_at, close_failed },
        },
        (_, _) => CheckResult::Reachability {
            endpoint: Endpoint {
                host: crate::address::HostV4 { o0: 0, o1: 0, o2: 0, o3: 0 },
                port: 0,
            },
            open: false,
            probed_at,
        },
    }
}

/// Turns one target's report into its result record.
pub fn record_result(t: Target, rep: TargetReport, probed_at: u64) -> (r: CheckResult)
    requires
        kinds_match(t, rep),
    ensures
        r == spec_result_of(t, rep, probed_at),
{
    match t {
        Target::Reach { endpoint } => match rep {
            TargetReport::Reach { open } => CheckResult::Reachability {
                endpoint,
                open,
                probed_at,
            },
            _ => CheckResult::Reachability { endpoint, open: false, probed_at },
        },
        Target::Functional { check } => match rep {
            TargetReport::Functional { outcome, close_failed } => match outcome {
                Ok(duration_ms) => CheckResult::FunctionalTime {
                    check,
                    duration_ms,
                    probed_at,
                    close_failed,
                },
                Err(kind) => CheckResult::CheckError { check, kind, probed_at, close_failed },
            },
            _ => CheckResult::CheckError {
                check,
                kind: MeasureError::SessionError,
                probed_at,
                close_failed: false,
            },
        },
    }
}

/// Turns a whole tick's reports into result records: exactly one result
/// per configured target, and each target's result depends on its own
/// report alone, so no target's failure aborts the tick for the others.
/// The scheduler keeps no state from one tick to the next.
pub fn collect_tick(targets: Vec<Target>, reports: &Vec<TargetReport>, probed_at: u64) -> (r:
    Vec<CheckResult>)
    requires
        reports@.len() == targets@.len(),
        forall|i: int|
            0 <= i < targets@.len() ==> kinds_match(#[trigger] targets@[i], reports@[i]),
    ensures
        r@.len() == targets@.len(),
        forall|i: int|
            0 <= i < r@.len() ==> #[trigger] r@[i] == spec_result_of(
                targets@[i],
                reports@[i],
                probed_at,
            ),
{
    let ghost tv = targets@;
    let mut ts = targets;
    let mut rev: Vec<CheckResult> = Vec::new();
    while ts.len() > 0
        invariant
            ts@ =~= tv.take(ts@.len() as int),
            reports@.len() == tv.len(),
            ts@.len() + rev@.len() == tv.len(),
            forall|i: int|
                0 <= i < tv.len() ==> kinds_match(#[trigger] tv[i], reports@[i]),
            forall|k: int|
                0 <= k < rev@.len() ==> #[trigger] rev@[k] == spec_result_of(
                    tv[tv.len() - 1 - k],
                    reports@[tv.len() - 1 - k],
                    probed_at,
                ),
        decreases ts@.len(),
    {
        let i = ts.len() - 1;
        let t = ts.pop().unwrap();
        proof {
            assert(tv.take(i + 1).drop_last() =~= tv.take(i as int));
            assert(t == tv[i as int]);
        }
        let rep = reports[i];
        rev.push(record_result(t, rep, probed_at));
    }
    let mut r: Vec<CheckResult> = Vec::new();
    while rev.len() > 0
        invariant
            rev@.len() + r@.len() == tv.len(),
            reports@.len() == tv.len(),
            forall|k: int|
                0 <= k < rev@.len() ==> #[trigger] rev@[k] == spec_result_of(
                    tv[tv.len() - 1 - k],
                    reports@[tv.len() - 1 - k],
                    probed_at,
                ),
            forall|i: int|
                0 <= i < r@.len() ==> #[trigger] r@[i] == spec_result_of(
                    tv[i],
                    reports@[i],
                    probed_at,
                ),
        decreases rev@.len(),
    {
        let ghost rev0 = rev@;
        let x = rev.pop().unwrap();
        proof {
            assert(x == rev0.last());
            assert(rev@ =~= rev0.drop_last());
        }
        r.push(x);
    }
    r
}

} // verus!
