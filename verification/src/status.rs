//! Records handed to the result sink.
//!
//! The sink is an external persistence collaborator: it accepts one
//! record per check attempt and stores it under a server-assigned
//! identifier.  This module holds the records as plain values — the
//! event time as milliseconds since the epoch, the attached object data
//! as already-serialized text — and the rule that fills a status row
//! from a check result.

use vstd::prelude::*;
use crate::address::Endpoint;
use crate::schedule::CheckResult;

verus! {

/// A monitored network, named and addressed.
#[derive(Debug)]
pub struct NetworkStatus {
    pub network_id: String,
    pub network_address: Endpoint,
}

/// One row of the status log.  `id` is assigned by the store; a row
/// built locally carries 0 until it is inserted.
#[derive(Debug)]
pub struct PostgresStatus {
    pub id: i32,
    /// Event time as milliseconds since the epoch.
    pub event_time_ms: i64,
    pub agent_name: String,
    pub status_ok: bool,
    /// Serialized object data, if any.
    pub object_data: Option<String>,
}

/// Whether a check result counts as healthy: an open endpoint or a
/// completed measurement; every error, and a closed endpoint, does not.
pub open spec fn spec_status_ok(r: CheckResult) -> bool {
    match r {
        CheckResult::Reachability { open, .. } => open,
        CheckResult::FunctionalTime { .. } => true,
        CheckResult::CheckError { .. } => false,
    }
}

/// Exec mirror of `spec_status_ok`.
pub fn status_ok_of(r: &CheckResult) -> (b: bool)
    ensures
        b == spec_status_ok(*r),
{
    match r {
        CheckResult::Reachability { open, .. } => *open,
        CheckResult::FunctionalTime { .. } => true,
        CheckResult::CheckError { .. } => false,
    }
}

/// Builds the status row for one check result, before insertion.
pub fn row_for_result(agent_name: String, event_time_ms: i64, r: &CheckResult) -> (row:
    PostgresStatus)
    ensures
        row.id == 0,
        row.event_time_ms == event_time_ms,
        row.agent_name@ == agent_name@,
        row.status_ok == spec_status_ok(*r),
        row.object_data is None,
{
    PostgresStatus {
        id: 0,
        event_time_ms,
        agent_name,
        status_ok: status_ok_of(r),
        object_data: None,
    }
}

} // verus!
