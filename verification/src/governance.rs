//! The policy evaluator: pure, deterministic verdicts over policy objects.

use vstd::prelude::*;
use vstd::string::StringExecFns;
use crate::crd::PolicyObject;

verus! {

/// The verdict one evaluation produces. Never stored; consumed per admission
/// request or per reconciliation pass.
pub enum EvaluationVerdict {
    Allow,
    Deny { reason: String },
}

/// An evaluation strategy over a policy variant. Each implementor states in
/// `allows` which values it admits, and `evaluate` is held to that statement,
/// so a new variant never changes what callers may conclude.
pub trait PolicyEvaluator {
    /// The set of values this evaluator admits.
    spec fn allows(&self) -> bool;

    /// Decides admission; pure, and never fails.
    fn evaluate(&self) -> (r: bool)
        ensures
            r == self.allows(),
    ;
}

/// The minimal policy variant: admitted exactly when enabled.
pub struct Policy {
    pub enabled: bool,
}

impl PolicyEvaluator for Policy {
    open spec fn allows(&self) -> bool {
        self.enabled
    }

    fn evaluate(&self) -> (r: bool) {
        self.enabled
    }
}

impl PolicyEvaluator for PolicyObject {
    open spec fn allows(&self) -> bool {
        self.policy_spec.enabled
    }

    fn evaluate(&self) -> (r: bool) {
        self.policy_spec.enabled
    }
}

/// Whether a full evaluation of `obj` ends in `Allow`.
pub open spec fn spec_allows(obj: PolicyObject) -> bool {
    obj.policy_spec.enabled
}

/// The verdict for a policy object: enabled policies are allowed, all
/// others are denied with a diagnostic reason, and there is no failure path.
pub fn evaluate_object(obj: &PolicyObject) -> (r: EvaluationVerdict)
    ensures
        r is Allow <==> spec_allows(*obj),
        r matches EvaluationVerdict::Deny { reason } ==> reason@ == "policy disabled"@,
{
    if obj.policy_spec.enabled {
        EvaluationVerdict::Allow
    } else {
        EvaluationVerdict::Deny { reason: String::from_str("policy disabled") }
    }
}

} // verus!
