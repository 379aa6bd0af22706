//! The custom resource: a governance policy object with its specification,
//! identifier, resource version and status.

use vstd::prelude::*;
use vstd::string::StringExecFns;

verus! {

/// The enumerated severity levels a policy specification may carry.
#[derive(Clone, Copy, PartialEq, Eq, Structural, Debug)]
pub enum Severity {
    Low,
    Medium,
    High,
    Critical,
}

/// A severity string is valid when it names one of the enumerated levels.
pub open spec fn valid_severity(s: Seq<char>) -> bool {
    ||| s == "low"@
    ||| s == "medium"@
    ||| s == "high"@
    ||| s == "critical"@
}

/// The severity level a valid severity string names.
pub open spec fn severity_of(s: Seq<char>) -> Severity
    recommends
        valid_severity(s),
{
    if s == "low"@ {
        Severity::Low
    } else if s == "medium"@ {
        Severity::Medium
    } else if s == "high"@ {
        Severity::High
    } else {
        Severity::Critical
    }
}

/// Parses a severity string; `None` exactly on strings outside the
/// enumerated set.
pub fn parse_severity(s: &String) -> (r: Option<Severity>)
    ensures
        r is Some <==> valid_severity(s@),
        valid_severity(s@) ==> r == Some(severity_of(s@)),
{
    if *s == String::from_str("low") {
        Some(Severity::Low)
    } else if *s == String::from_str("medium") {
        Some(Severity::Medium)
    } else if *s == String::from_str("high") {
        Some(Severity::High)
    } else if *s == String::from_str("critical") {
        Some(Severity::Critical)
    } else {
        None
    }
}

/// The unique identifier of a policy object: namespace plus name.
/// Immutable after creation; the store and the controller key by it.
pub struct ObjectId {
    pub namespace: String,
    pub name: String,
}

impl ObjectId {
    /// The mathematical key this identifier denotes.
    pub open spec fn key(&self) -> (Seq<char>, Seq<char>) {
        (self.namespace@, self.name@)
    }

    /// Identifier equality, decided character for character.
    pub fn same_as(&self, other: &ObjectId) -> (r: bool)
        ensures
            r == (self.key() == other.key()),
    {
        self.namespace == other.namespace && self.name == other.name
    }

    pub fn clone_id(&self) -> (r: ObjectId)
        ensures
            r == *self,
    {
        ObjectId { namespace: self.namespace.clone(), name: self.name.clone() }
    }
}

fn clone_strings(v: &Vec<String>) -> (r: Vec<String>)
    ensures
        r@ == v@,
{
    let mut out: Vec<String> = Vec::new();
    let mut i: usize = 0;
    while i < v.len()
        invariant
            i <= v.len(),
            out@ =~= v@.subrange(0, i as int),
        decreases v.len() - i,
    {
        out.push(v[i].clone());
        proof {
            assert(out@ =~= v@.subrange(0, i + 1 as int));
        }
        i = i + 1;
    }
    proof {
        assert(out@ =~= v@);
    }
    out
}

/// The declarative specification of a governance policy.
pub struct GuardianPolicySpec {
    /// One of the enumerated severity names; the admission webhook rejects
    /// any other value.
    pub severity: String,
    /// Whether the policy is in force; the evaluator allows exactly the
    /// enabled policies.
    pub enabled: bool,
    /// An optional rule set carried for richer policy variants.
    pub rules: Option<Vec<String>>,
}

/// The mathematical value of a policy specification.
pub struct PolicySpecModel {
    pub severity: Seq<char>,
    pub enabled: bool,
    pub rules: Option<Seq<Seq<char>>>,
}

impl View for GuardianPolicySpec {
    type V = PolicySpecModel;

    open spec fn view(&self) -> PolicySpecModel {
        PolicySpecModel {
            severity: self.severity@,
            enabled: self.enabled,
            rules: match self.rules {
                Some(v) => Some(v.deep_view()),
                None => None,
            },
        }
    }
}

impl GuardianPolicySpec {
    pub fn duplicate(&self) -> (r: GuardianPolicySpec)
        ensures
            r@ == self@,
    {
        let r = GuardianPolicySpec {
            severity: self.severity.clone(),
            enabled: self.enabled,
            rules: match &self.rules {
                Some(v) => Some(clone_strings(v)),
                None => None,
            },
        };
        proof {
            assert(r@.rules == self@.rules);
        }
        r
    }
}

/// What the last reconciliation pass concluded about the policy.
#[derive(Clone, Copy, PartialEq, Eq, Structural, Debug)]
pub enum VerdictKind {
    Allowed,
    Denied,
}

/// The status sub-resource: what was last observed, and when.
/// Written only by the controller.
#[derive(Clone, Copy, PartialEq, Eq, Structural, Debug)]
pub struct GuardianPolicyStatus {
    /// The time of the pass that last wrote the status, in time-units.
    pub last_reconciled: u64,
    /// The verdict that pass recorded.
    pub last_result: VerdictKind,
}

/// A stored policy object: identifier, specification, optimistic-concurrency
/// token and status.
pub struct PolicyObject {
    pub id: ObjectId,
    pub policy_spec: GuardianPolicySpec,
    /// Strictly increases on every accepted mutation.
    pub resource_version: u64,
    pub status: Option<GuardianPolicyStatus>,
}

/// The mathematical value of a policy object.
pub struct PolicyObjectModel {
    pub id: (Seq<char>, Seq<char>),
    pub policy_spec: PolicySpecModel,
    pub resource_version: u64,
    pub status: Option<GuardianPolicyStatus>,
}

impl View for PolicyObject {
    type V = PolicyObjectModel;

    open spec fn view(&self) -> PolicyObjectModel {
        PolicyObjectModel {
            id: self.id.key(),
            policy_spec: self.policy_spec@,
            resource_version: self.resource_version,
            status: self.status,
        }
    }
}

impl PolicyObject {
    pub fn duplicate(&self) -> (r: PolicyObject)
        ensures
            r@ == self@,
            r.id == self.id,
            r.resource_version == self.resource_version,
            r.status == self.status,
    {
        PolicyObject {
            id: self.id.clone_id(),
            policy_spec: self.policy_spec.duplicate(),
            resource_version: self.resource_version,
            status: self.status,
        }
    }
}

} // verus!
