use guardian::controller::{run_pass, step, update_with_retry, Directive, Event, Phase, Tracker};
use guardian::crd::{GuardianPolicySpec, ObjectId, PolicyObject, Severity, VerdictKind};
use guardian::crd::parse_severity;
use guardian::governance::{evaluate_object, EvaluationVerdict, Policy, PolicyEvaluator};
use guardian::reconcile::{
    error_policy, reconcile, ReconcileError, ReconcileOutcome, DEFAULT_REQUEUE_SECS,
    FAILURE_REQUEUE_SECS,
};
use guardian::store::{ObjectStore, StoreError};
use guardian::webhook::{fail_closed, validate};

fn object(namespace: &str, name: &str, severity: &str, enabled: bool) -> PolicyObject {
    PolicyObject {
        id: ObjectId { namespace: namespace.to_string(), name: name.to_string() },
        policy_spec: GuardianPolicySpec {
            severity: severity.to_string(),
            enabled,
            rules: None,
        },
        resource_version: 0,
        status: None,
    }
}

#[test]
fn enabled_policy_is_allowed() {
    let obj = object("default", "p1", "high", true);
    assert!(matches!(evaluate_object(&obj), EvaluationVerdict::Allow));
    assert!(Policy { enabled: true }.evaluate());
}

#[test]
fn disabled_policy_is_denied() {
    let obj = object("default", "p1", "high", false);
    match evaluate_object(&obj) {
        EvaluationVerdict::Deny { reason } => assert_eq!(reason, "policy disabled"),
        EvaluationVerdict::Allow => panic!("disabled policy was allowed"),
    }
    assert!(!Policy { enabled: false }.evaluate());
}

#[test]
fn severity_parsing_accepts_exactly_the_enumerated_levels() {
    assert_eq!(parse_severity(&"low".to_string()), Some(Severity::Low));
    assert_eq!(parse_severity(&"medium".to_string()), Some(Severity::Medium));
    assert_eq!(parse_severity(&"high".to_string()), Some(Severity::High));
    assert_eq!(parse_severity(&"critical".to_string()), Some(Severity::Critical));
    assert_eq!(parse_severity(&"unknown".to_string()), None);
    assert_eq!(parse_severity(&"HIGH".to_string()), None);
    assert_eq!(parse_severity(&"".to_string()), None);
}

#[test]
fn webhook_allows_valid_enabled_policy() {
    let r = validate(&object("default", "p1", "high", true));
    assert!(r.allowed);
    assert_eq!(r.reason, "ok");
}

#[test]
fn webhook_rejects_unknown_severity() {
    let r = validate(&object("default", "p1", "unknown", true));
    assert!(!r.allowed);
    assert_eq!(r.reason, "invalid severity");
}

#[test]
fn webhook_denies_disabled_policy() {
    let r = validate(&object("default", "p1", "low", false));
    assert!(!r.allowed);
    assert_eq!(r.reason, "policy disabled");
}

#[test]
fn webhook_fails_closed() {
    let r = fail_closed();
    assert!(!r.allowed);
    assert_eq!(r.reason, "internal error");
}

#[test]
fn success_delay_dominates_failure_delay() {
    assert_eq!(DEFAULT_REQUEUE_SECS, 300);
    assert_eq!(FAILURE_REQUEUE_SECS, 60);
    assert!(DEFAULT_REQUEUE_SECS >= FAILURE_REQUEUE_SECS);
    let obj = object("default", "p1", "low", true);
    match reconcile(&obj, 0).outcome {
        ReconcileOutcome::Success { requeue_after } => assert_eq!(requeue_after, 300),
        ReconcileOutcome::Failure { .. } => panic!("fresh pass failed"),
    }
    assert_eq!(error_policy(&obj, &ReconcileError::TransientStore), 60);
    assert_eq!(error_policy(&obj, &ReconcileError::Timeout), 60);
    assert_eq!(
        error_policy(&obj, &ReconcileError::Logic { reason: "boom".to_string() }),
        60
    );
}

#[test]
fn watch_event_during_inflight_pass_starts_no_second_pass() {
    // A pass is started, a rapid second watch event arrives while it is
    // still in flight: the machine only marks the object for a rerun.
    let (ph, d) = step(Phase::Pending, Event::Observed, 0);
    assert_eq!(d, Directive::StartPass);
    assert!(matches!(ph, Phase::Reconciling { rerun: false }));
    let (ph, d) = step(ph, Event::Observed, 1);
    assert_eq!(d, Directive::Idle);
    assert!(matches!(ph, Phase::Reconciling { rerun: true }));
    // Only the completion of the delayed pass starts the next one.
    let (ph, d) = step(
        ph,
        Event::PassFinished {
            outcome: ReconcileOutcome::Success { requeue_after: DEFAULT_REQUEUE_SECS },
        },
        2,
    );
    assert_eq!(d, Directive::StartPass);
    assert!(matches!(ph, Phase::Reconciling { rerun: false }));
    let (ph, d) = step(
        ph,
        Event::PassFinished {
            outcome: ReconcileOutcome::Success { requeue_after: DEFAULT_REQUEUE_SECS },
        },
        10,
    );
    assert_eq!(d, Directive::Idle);
    assert!(matches!(ph, Phase::Scheduled { wake: 310 }));
}

#[test]
fn timer_wakes_scheduled_object_and_watch_preempts_it() {
    let ph = Phase::Scheduled { wake: 100 };
    // The timer has not fired yet.
    let (ph, d) = step(ph, Event::TimerFired, 99);
    assert_eq!(d, Directive::Idle);
    assert!(matches!(ph, Phase::Scheduled { wake: 100 }));
    // A watch event preempts the timer.
    let (ph2, d2) = step(ph, Event::Observed, 99);
    assert_eq!(d2, Directive::StartPass);
    assert!(matches!(ph2, Phase::Reconciling { rerun: false }));
    // Or the wake time arrives.
    let (ph3, d3) = step(Phase::Scheduled { wake: 100 }, Event::TimerFired, 100);
    assert_eq!(d3, Directive::StartPass);
    assert!(matches!(ph3, Phase::Reconciling { rerun: false }));
}

#[test]
fn failed_pass_is_rescheduled_with_the_short_delay() {
    let (ph, d) = step(
        Phase::Reconciling { rerun: false },
        Event::PassFinished {
            outcome: ReconcileOutcome::Failure {
                reason: "boom".to_string(),
                requeue_after: FAILURE_REQUEUE_SECS,
            },
        },
        1000,
    );
    assert_eq!(d, Directive::Idle);
    assert!(matches!(ph, Phase::Scheduled { wake: 1060 }));
}

#[test]
fn wake_time_saturates() {
    let (ph, _) = step(
        Phase::Reconciling { rerun: false },
        Event::PassFinished {
            outcome: ReconcileOutcome::Success { requeue_after: u64::MAX },
        },
        5,
    );
    assert!(matches!(ph, Phase::Scheduled { wake: u64::MAX }));
}

#[test]
fn deletion_is_terminal_and_schedules_nothing_more() {
    for ph in [
        Phase::Pending,
        Phase::Reconciling { rerun: true },
        Phase::Scheduled { wake: 42 },
    ] {
        let (ph, d) = step(ph, Event::ObservedDeleted, 7);
        assert_eq!(d, Directive::Cleanup);
        assert!(matches!(ph, Phase::Terminal));
    }
    for ev in [
        Event::Observed,
        Event::ObservedDeleted,
        Event::TimerFired,
        Event::PassFinished {
            outcome: ReconcileOutcome::Success { requeue_after: 1 },
        },
    ] {
        let (ph, d) = step(Phase::Terminal, ev, 8);
        assert_eq!(d, Directive::Idle);
        assert!(matches!(ph, Phase::Terminal));
    }
}

#[test]
fn reconcile_pass_records_the_verdict_once() {
    let mut store = ObjectStore::new();
    let obj = object("default", "p1", "high", true);
    let id = ObjectId { namespace: "default".to_string(), name: "p1".to_string() };
    assert_eq!(store.create(obj), Ok(1));

    // First pass writes the status and bumps the version.
    match run_pass(&mut store, &id, 50) {
        ReconcileOutcome::Success { requeue_after } => assert_eq!(requeue_after, 300),
        ReconcileOutcome::Failure { .. } => panic!("first pass failed"),
    }
    let stored = store.get(&id).expect("object vanished");
    assert_eq!(stored.resource_version, 2);
    let st = stored.status.expect("no status written");
    assert_eq!(st.last_reconciled, 50);
    assert_eq!(st.last_result, VerdictKind::Allowed);

    // The second pass finds the status settled and writes nothing.
    match run_pass(&mut store, &id, 99) {
        ReconcileOutcome::Success { requeue_after } => assert_eq!(requeue_after, 300),
        ReconcileOutcome::Failure { .. } => panic!("second pass failed"),
    }
    let stored = store.get(&id).expect("object vanished");
    assert_eq!(stored.resource_version, 2);
    let st = stored.status.expect("status vanished");
    assert_eq!(st.last_reconciled, 50);
    assert_eq!(st.last_result, VerdictKind::Allowed);
}

#[test]
fn pass_on_unknown_identifier_fails_with_short_delay() {
    let mut store = ObjectStore::new();
    let id = ObjectId { namespace: "default".to_string(), name: "ghost".to_string() };
    match run_pass(&mut store, &id, 0) {
        ReconcileOutcome::Failure { reason, requeue_after } => {
            assert_eq!(reason, "object not found");
            assert_eq!(requeue_after, 60);
        }
        ReconcileOutcome::Success { .. } => panic!("pass on a missing object succeeded"),
    }
}

#[test]
fn stale_write_is_rejected_not_applied() {
    let mut store = ObjectStore::new();
    assert_eq!(store.create(object("default", "p1", "high", true)), Ok(1));

    let mut stale = object("default", "p1", "high", false);
    stale.resource_version = 5;
    let r = store.update(stale, 5);
    assert_eq!(r, Err(StoreError::Conflict { current_version: 1 }));
    // The store kept the version and the content it had.
    let id = ObjectId { namespace: "default".to_string(), name: "p1".to_string() };
    let stored = store.get(&id).expect("object vanished");
    assert_eq!(stored.resource_version, 1);
    assert!(stored.policy_spec.enabled);
}

#[test]
fn controller_retries_stale_write_with_refreshed_version() {
    let mut store = ObjectStore::new();
    assert_eq!(store.create(object("default", "p1", "high", true)), Ok(1));

    let mut stale = object("default", "p1", "high", false);
    stale.resource_version = 7;
    assert_eq!(update_with_retry(&mut store, stale), Ok(2));
    let id = ObjectId { namespace: "default".to_string(), name: "p1".to_string() };
    let stored = store.get(&id).expect("object vanished");
    assert_eq!(stored.resource_version, 2);
    assert!(!stored.policy_spec.enabled);
}

#[test]
fn store_rejects_duplicate_create_and_missing_lookups() {
    let mut store = ObjectStore::new();
    assert_eq!(store.create(object("default", "p1", "low", true)), Ok(1));
    assert_eq!(
        store.create(object("default", "p1", "high", false)),
        Err(StoreError::AlreadyExists)
    );
    let other = ObjectId { namespace: "default".to_string(), name: "p2".to_string() };
    assert!(store.get(&other).is_none());
    let mut upd = object("default", "p2", "low", true);
    upd.resource_version = 1;
    assert_eq!(store.update(upd, 1), Err(StoreError::NotFound));
    assert_eq!(store.delete(&other), Err(StoreError::NotFound));
}

#[test]
fn delete_removes_the_object() {
    let mut store = ObjectStore::new();
    assert_eq!(store.create(object("default", "p1", "low", true)), Ok(1));
    assert_eq!(store.create(object("other", "p1", "low", true)), Ok(1));
    let id = ObjectId { namespace: "default".to_string(), name: "p1".to_string() };
    assert_eq!(store.delete(&id), Ok(()));
    assert!(store.get(&id).is_none());
    // The other namespace's object is untouched.
    let other = ObjectId { namespace: "other".to_string(), name: "p1".to_string() };
    assert!(store.get(&other).is_some());
    assert_eq!(store.delete(&id), Err(StoreError::NotFound));
}

#[test]
fn tracker_drops_deleted_identifier() {
    let id = ObjectId { namespace: "default".to_string(), name: "p1".to_string() };
    let mut tracker = Tracker::new();
    assert_eq!(tracker.observe(&id, Event::Observed, 0), Directive::StartPass);
    assert_eq!(tracker.observe(&id, Event::ObservedDeleted, 1), Directive::Cleanup);
    // The identifier is tracked no further: timers and stale pass
    // completions schedule nothing.
    assert_eq!(tracker.observe(&id, Event::TimerFired, 2), Directive::Idle);
    assert_eq!(
        tracker.observe(
            &id,
            Event::PassFinished {
                outcome: ReconcileOutcome::Success { requeue_after: 300 },
            },
            3,
        ),
        Directive::Idle
    );
}

#[test]
fn tracker_keeps_identifiers_independent() {
    let a = ObjectId { namespace: "default".to_string(), name: "a".to_string() };
    let b = ObjectId { namespace: "default".to_string(), name: "b".to_string() };
    let mut tracker = Tracker::new();
    assert_eq!(tracker.observe(&a, Event::Observed, 0), Directive::StartPass);
    assert_eq!(tracker.observe(&b, Event::Observed, 0), Directive::StartPass);
    // Deleting one object does not touch the other's in-flight pass.
    assert_eq!(tracker.observe(&a, Event::ObservedDeleted, 1), Directive::Cleanup);
    assert_eq!(
        tracker.observe(
            &b,
            Event::PassFinished {
                outcome: ReconcileOutcome::Success { requeue_after: 300 },
            },
            2,
        ),
        Directive::Idle
    );
    assert_eq!(tracker.observe(&b, Event::TimerFired, 302), Directive::StartPass);
}

#[test]
fn duplicate_copies_every_field() {
    let mut obj = object("ns", "n", "critical", true);
    obj.policy_spec.rules = Some(vec!["r1".to_string(), "r2".to_string()]);
    obj.resource_version = 9;
    let copy = obj.duplicate();
    assert_eq!(copy.id.namespace, "ns");
    assert_eq!(copy.id.name, "n");
    assert_eq!(copy.policy_spec.severity, "critical");
    assert!(copy.policy_spec.enabled);
    assert_eq!(
        copy.policy_spec.rules,
        Some(vec!["r1".to_string(), "r2".to_string()])
    );
    assert_eq!(copy.resource_version, 9);
    assert!(copy.status.is_none());
}
