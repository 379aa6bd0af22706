//! The admission webhook's validation logic: a synchronous gate over the
//! write path. The HTTP plumbing lives outside the crate; it hands the
//! proposed object in and serialises the response out.

use vstd::prelude::*;
use vstd::string::StringExecFns;
use crate::crd::{valid_severity, parse_severity, PolicyObject};
use crate::governance::{evaluate_object, spec_allows, EvaluationVerdict};

verus! {

/// The webhook's reply: an allow/deny verdict plus a human-readable reason.
pub struct AdmissionResponse {
    pub allowed: bool,
    pub reason: String,
}

/// Whether validation of a proposed object admits the write: the severity
/// must name an enumerated level and the evaluator must allow the policy.
pub open spec fn spec_admits(obj: PolicyObject) -> bool {
    valid_severity(obj.policy_spec.severity@) && spec_allows(obj)
}

/// Validates a proposed policy object: schema constraints first (enumerated
/// severity), then the policy evaluator. Allows exactly the schema-valid,
/// enabled policies; every denial carries its reason.
pub fn validate(obj: &PolicyObject) -> (r: AdmissionResponse)
    ensures
        r.allowed == spec_admits(*obj),
        !valid_severity(obj.policy_spec.severity@) ==> r.reason@ == "invalid severity"@,
        valid_severity(obj.policy_spec.severity@) && !spec_allows(*obj) ==> r.reason@
            == "policy disabled"@,
        r.allowed ==> r.reason@ == "ok"@,
{
    if parse_severity(&obj.policy_spec.severity).is_none() {
        return AdmissionResponse {
            allowed: false,
            reason: String::from_str("invalid severity"),
        };
    }
    match evaluate_object(obj) {
        EvaluationVerdict::Allow => AdmissionResponse {
            allowed: true,
            reason: String::from_str("ok"),
        },
        EvaluationVerdict::Deny { reason } => AdmissionResponse { allowed: false, reason },
    }
}

/// The fail-closed reply for an internal webhook failure: accepting an
/// unvalidated policy is the higher-risk outcome, so the verdict is deny.
pub fn fail_closed() -> (r: AdmissionResponse)
    ensures
        !r.allowed,
        r.reason@ == "internal error"@,
{
    AdmissionResponse { allowed: false, reason: String::from_str("internal error") }
}

} // verus!
