//! One reconciliation pass: compare observed state to desired state, decide
//! the corrective action, and return the outcome that schedules the next
//! pass. Also the error/backoff policy that maps a failed pass to its
//! requeue delay.

use vstd::prelude::*;
use crate::crd::{GuardianPolicyStatus, PolicyObject, VerdictKind};
use crate::governance::spec_allows;

verus! {

/// The periodic re-check interval after a successful pass, in time-units:
/// drift is re-detected even without external changes.
pub const DEFAULT_REQUEUE_SECS: u64 = 300;

/// The retry interval after a failed pass, in time-units: shorter than the
/// success interval, so transient errors self-heal quickly.
pub const FAILURE_REQUEUE_SECS: u64 = 60;

/// What one reconciliation pass returned. Not persisted; consumed by the
/// scheduler to pick the next wake time for the object.
pub enum ReconcileOutcome {
    Success { requeue_after: u64 },
    Failure { reason: String, requeue_after: u64 },
}

/// The failures a pass can run into. Validation errors never reach the
/// reconciler (the webhook gates the write path), and fatal startup errors
/// end the process before any pass runs, so neither appears here.
pub enum ReconcileError {
    /// Store connectivity or conflict; retried with backoff, never surfaced.
    TransientStore,
    /// A pass that exceeded its bounded timeout; treated as a failure.
    Timeout,
    /// A corrective action that failed; retried per the backoff policy.
    Logic { reason: String },
}

/// What a pass decided: the status write to apply, if the observed status
/// diverges from the desired one, and the outcome for the scheduler.
pub struct PassResult {
    pub status_update: Option<GuardianPolicyStatus>,
    pub outcome: ReconcileOutcome,
}

/// The verdict a pass records for an object: allowed exactly when the
/// evaluator admits it.
pub open spec fn desired_result(obj: PolicyObject) -> VerdictKind {
    if spec_allows(obj) {
        VerdictKind::Allowed
    } else {
        VerdictKind::Denied
    }
}

/// Whether the observed status already records the desired verdict, so that
/// a pass has no corrective action to apply.
pub open spec fn status_settled(obj: PolicyObject) -> bool {
    match obj.status {
        Some(st) => st.last_result == desired_result(obj),
        None => false,
    }
}

/// What one pass over `obj` at time `now` decides.
pub open spec fn spec_reconcile(obj: PolicyObject, now: u64) -> PassResult {
    PassResult {
        status_update: if status_settled(obj) {
            None
        } else {
            Some(GuardianPolicyStatus { last_reconciled: now, last_result: desired_result(obj) })
        },
        outcome: ReconcileOutcome::Success { requeue_after: DEFAULT_REQUEUE_SECS },
    }
}

/// One reconciliation pass: evaluates the object, emits a status write only
/// when the recorded verdict diverges from the desired one (no duplicate
/// side effects), and requeues at the default periodic interval.
pub fn reconcile(obj: &PolicyObject, now: u64) -> (r: PassResult)
    ensures
        r == spec_reconcile(*obj, now),
{
    let desired = if obj.policy_spec.enabled {
        VerdictKind::Allowed
    } else {
        VerdictKind::Denied
    };
    let settled = match obj.status {
        Some(st) => st.last_result == desired,
        None => false,
    };
    PassResult {
        status_update: if settled {
            None
        } else {
            Some(GuardianPolicyStatus { last_reconciled: now, last_result: desired })
        },
        outcome: ReconcileOutcome::Success { requeue_after: DEFAULT_REQUEUE_SECS },
    }
}

/// The object after a pass's status write is accepted: only the status
/// sub-resource changes, and the resource version increases.
pub open spec fn spec_apply_status(obj: PolicyObject, st: GuardianPolicyStatus) -> PolicyObject {
    PolicyObject {
        resource_version: (obj.resource_version + 1) as u64,
        status: Some(st),
        ..obj
    }
}

/// Applies a status write to an object: identifier and specification are
/// untouched, the resource version strictly increases.
pub fn apply_status(obj: &mut PolicyObject, st: GuardianPolicyStatus)
    requires
        old(obj).resource_version < u64::MAX,
    ensures
        *final(obj) == spec_apply_status(*old(obj), st),
        final(obj).resource_version > old(obj).resource_version,
{
    obj.status = Some(st);
    obj.resource_version = obj.resource_version + 1;
}

/// The backoff policy: maps a failed pass on an object to its requeue delay.
/// Pure; the minimal design ignores consecutive-failure history and always
/// returns the fixed short delay.
pub fn error_policy(obj: &PolicyObject, err: &ReconcileError) -> (d: u64)
    ensures
        d == FAILURE_REQUEUE_SECS,
{
    FAILURE_REQUEUE_SECS
}

/// The delay after a success is never shorter than the delay after a
/// failure: a failed pass always retries at least as soon.
pub proof fn lemma_success_delay_dominates_failure_delay()
    ensures
        DEFAULT_REQUEUE_SECS >= FAILURE_REQUEUE_SECS,
{
}

/// Reconciliation is idempotent: once a pass's status write is applied,
/// a second pass with no intervening external change applies no further
/// write and returns the same outcome.
pub proof fn lemma_reconcile_idempotent(obj: PolicyObject, now1: u64, now2: u64)
    requires
        obj.resource_version < u64::MAX,
    ensures
        ({
            let first = spec_reconcile(obj, now1);
            let settled_obj = match first.status_update {
                Some(st) => spec_apply_status(obj, st),
                None => obj,
            };
            let second = spec_reconcile(settled_obj, now2);
            second.status_update is None && second.outcome == first.outcome
        }),
{
}

} // verus!
