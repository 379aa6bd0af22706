//! The per-object scheduling state machine of the reconciliation controller.
//!
//! The controller tracks each object in one of four phases and reacts to
//! events — watch notifications, timer firings, pass completions — with a
//! directive for the worker that drives it. The loop around it (watching the
//! store, sleeping until the wake time, running the pass) lives outside the
//! crate; it feeds events in and performs the directives.

use vstd::prelude::*;
use vstd::string::StringExecFns;
use crate::crd::{GuardianPolicyStatus, ObjectId, PolicyObject, PolicyObjectModel};
use crate::reconcile::{
    desired_result, reconcile, status_settled, ReconcileOutcome, DEFAULT_REQUEUE_SECS,
    FAILURE_REQUEUE_SECS,
};
use crate::store::{ObjectStore, StoreError};

verus! {

/// The phase the controller holds a tracked object in.
#[derive(Clone, Copy, PartialEq, Eq, Structural, Debug)]
pub enum Phase {
    /// Newly observed, not yet reconciled.
    Pending,
    /// A pass is in flight. `rerun` records that a watch event arrived
    /// meanwhile, so another pass must follow as soon as this one ends.
    Reconciling { rerun: bool },
    /// Awaiting the wake time of the next pass.
    Scheduled { wake: u64 },
    /// Deleted; the identifier is tracked no further.
    Terminal,
}

/// An event the loop hands the state machine.
pub enum Event {
    /// The watch stream reported the object created or updated.
    Observed,
    /// The watch stream reported the object deleted.
    ObservedDeleted,
    /// The per-object requeue timer fired.
    TimerFired,
    /// The in-flight pass finished with this outcome.
    PassFinished { outcome: ReconcileOutcome },
}

/// What the worker must do after a step.
#[derive(PartialEq, Eq, Structural, Debug)]
pub enum Directive {
    /// Run one reconciliation pass for the object.
    StartPass,
    /// Run the cleanup of a deleted object.
    Cleanup,
    /// Nothing; wait for the next event.
    Idle,
}

/// The requeue delay an outcome asks for: what a successful pass returned,
/// or the backoff policy's fixed delay after a failure.
pub open spec fn spec_requeue_delay(outcome: ReconcileOutcome) -> u64 {
    match outcome {
        ReconcileOutcome::Success { requeue_after } => requeue_after,
        ReconcileOutcome::Failure { .. } => FAILURE_REQUEUE_SECS,
    }
}

/// The next wake time, saturating at the largest representable time.
pub open spec fn spec_wake_time(now: u64, delay: u64) -> u64 {
    if now + delay <= u64::MAX {
        (now + delay) as u64
    } else {
        u64::MAX
    }
}

/// One step of the per-object state machine.
///
/// Deletion sends every live phase to `Terminal`, where nothing is ever
/// scheduled again. A watch event preempts the timer of a scheduled object,
/// but while a pass is in flight it only marks the object for a rerun:
/// at most one pass per identifier is ever in flight.
pub open spec fn spec_step(phase: Phase, ev: Event, now: u64) -> (Phase, Directive) {
    match (phase, ev) {
        (Phase::Terminal, _) => (Phase::Terminal, Directive::Idle),
        (_, Event::ObservedDeleted) => (Phase::Terminal, Directive::Cleanup),
        (Phase::Pending, Event::Observed) => (
            Phase::Reconciling { rerun: false },
            Directive::StartPass,
        ),
        (Phase::Pending, _) => (Phase::Pending, Directive::Idle),
        (Phase::Reconciling { rerun: _ }, Event::Observed) => (
            Phase::Reconciling { rerun: true },
            Directive::Idle,
        ),
        (Phase::Reconciling { rerun }, Event::TimerFired) => (
            Phase::Reconciling { rerun },
            Directive::Idle,
        ),
        (Phase::Reconciling { rerun: true }, Event::PassFinished { .. }) => (
            Phase::Reconciling { rerun: false },
            Directive::StartPass,
        ),
        (Phase::Reconciling { rerun: false }, Event::PassFinished { outcome }) => (
            Phase::Scheduled { wake: spec_wake_time(now, spec_requeue_delay(outcome)) },
            Directive::Idle,
        ),
        (Phase::Scheduled { wake: _ }, Event::Observed) => (
            Phase::Reconciling { rerun: false },
            Directive::StartPass,
        ),
        (Phase::Scheduled { wake }, Event::TimerFired) => if now >= wake {
            (Phase::Reconciling { rerun: false }, Directive::StartPass)
        } else {
            (Phase::Scheduled { wake }, Directive::Idle)
        },
        (Phase::Scheduled { wake }, Event::PassFinished { .. }) => (
            Phase::Scheduled { wake },
            Directive::Idle,
        ),
    }
}

/// Runs one step of the state machine for one tracked object.
pub fn step(phase: Phase, ev: Event, now: u64) -> (r: (Phase, Directive))
    ensures
        r == spec_step(phase, ev, now),
{
    match (phase, ev) {
        (Phase::Terminal, _) => (Phase::Terminal, Directive::Idle),
        (_, Event::ObservedDeleted) => (Phase::Terminal, Directive::Cleanup),
        (Phase::Pending, Event::Observed) => (
            Phase::Reconciling { rerun: false },
            Directive::StartPass,
        ),
        (Phase::Pending, _) => (Phase::Pending, Directive::Idle),
        (Phase::Reconciling { rerun: _ }, Event::Observed) => (
            Phase::Reconciling { rerun: true },
            Directive::Idle,
        ),
        (Phase::Reconciling { rerun }, Event::TimerFired) => (
            Phase::Reconciling { rerun },
            Directive::Idle,
        ),
        (Phase::Reconciling { rerun: true }, Event::PassFinished { .. }) => (
            Phase::Reconciling { rerun: false },
            Directive::StartPass,
        ),
        (Phase::Reconciling { rerun: false }, Event::PassFinished { outcome }) => {
            let delay = match outcome {
                ReconcileOutcome::Success { requeue_after } => requeue_after,
                ReconcileOutcome::Failure { .. } => FAILURE_REQUEUE_SECS,
            };
            let wake = if now <= u64::MAX - delay {
                now + delay
            } else {
                u64::MAX
            };
            (Phase::Scheduled { wake }, Directive::Idle)
        },
        (Phase::Scheduled { wake: _ }, Event::Observed) => (
            Phase::Reconciling { rerun: false },
            Directive::StartPass,
        ),
        (Phase::Scheduled { wake }, Event::TimerFired) => if now >= wake {
            (Phase::Reconciling { rerun: false }, Directive::StartPass)
        } else {
            (Phase::Scheduled { wake }, Directive::Idle)
        },
        (Phase::Scheduled { wake }, Event::PassFinished { .. }) => (
            Phase::Scheduled { wake },
            Directive::Idle,
        ),
    }
}

/// One tracked identifier and the phase the controller holds it in.
pub struct TrackedObject {
    pub id: ObjectId,
    pub phase: Phase,
}

/// No two tracked entries share an identifier.
pub open spec fn distinct_ids(s: Seq<TrackedObject>) -> bool {
    forall|i: int, j: int|
        0 <= i < j < s.len() ==> (#[trigger] s[i].id.key()) != (#[trigger] s[j].id.key())
}

/// The controller's tracking table: the phase of every watched identifier.
/// An identifier enters as `Pending` with its first event and leaves the
/// table when its phase reaches `Terminal`.
pub struct Tracker {
    entries: Vec<TrackedObject>,
}

impl Tracker {
    /// The tracked entries, in order of first observation.
    pub closed spec fn contents(&self) -> Seq<TrackedObject> {
        self.entries@
    }

    pub open spec fn wf(&self) -> bool {
        distinct_ids(self.contents())
    }

    /// Whether this identifier is tracked.
    pub open spec fn tracks(&self, k: (Seq<char>, Seq<char>)) -> bool {
        exists|i: int| 0 <= i < self.contents().len() && (#[trigger] self.contents()[i].id.key())
            == k
    }

    /// The position of the entry for this identifier, if any.
    pub open spec fn index_of(&self, k: (Seq<char>, Seq<char>)) -> int {
        choose|i: int| 0 <= i < self.contents().len() && (#[trigger] self.contents()[i].id.key())
            == k
    }

    /// The phase this identifier is held in.
    pub open spec fn phase_of(&self, k: (Seq<char>, Seq<char>)) -> Phase {
        self.contents()[self.index_of(k)].phase
    }

    pub fn new() -> (r: Tracker)
        ensures
            r.wf(),
            r.contents() == Seq::<TrackedObject>::empty(),
    {
        let r = Tracker { entries: Vec::new() };
        proof {
            assert(r.contents() =~= Seq::<TrackedObject>::empty());
        }
        r
    }

    fn find(&self, id: &ObjectId) -> (r: Option<usize>)
        ensures
            match r {
                Some(i) => i < self.contents().len() && self.contents()[i as int].id.key()
                    == id.key(),
                None => !self.tracks(id.key()),
            },
    {
        let mut i: usize = 0;
        while i < self.entries.len()
            invariant
                i <= self.contents().len(),
                forall|j: int| 0 <= j < i ==> (#[trigger] self.contents()[j].id.key()) != id.key(),
            decreases self.entries.len() - i,
        {
            if self.entries[i].id.same_as(id) {
                return Some(i);
            }
            i = i + 1;
        }
        None
    }

    /// The phase an identifier stands in: its tracked phase, or `Pending`
    /// before its first event.
    pub open spec fn current_phase(&self, k: (Seq<char>, Seq<char>)) -> Phase {
        if self.tracks(k) {
            self.phase_of(k)
        } else {
            Phase::Pending
        }
    }

    /// Feeds one event for one identifier through the state machine. An
    /// untracked identifier starts from `Pending`; an identifier whose phase
    /// reaches `Terminal` is tracked no further. No other identifier's phase
    /// moves: one object's events never touch another object's state.
    pub fn observe(&mut self, id: &ObjectId, ev: Event, now: u64) -> (d: Directive)
        requires
            old(self).wf(),
        ensures
            final(self).wf(),
            d == spec_step(old(self).current_phase(id.key()), ev, now).1,
            spec_step(old(self).current_phase(id.key()), ev, now).0 == Phase::Terminal
                ==> !final(self).tracks(id.key()),
            spec_step(old(self).current_phase(id.key()), ev, now).0 != Phase::Terminal
                ==> final(self).tracks(id.key()) && final(self).phase_of(id.key()) == spec_step(
                old(self).current_phase(id.key()),
                ev,
                now,
            ).0,
            forall|k2: (Seq<char>, Seq<char>)|
                k2 != id.key() ==> #[trigger] final(self).tracks(k2) == old(self).tracks(k2),
            forall|k2: (Seq<char>, Seq<char>)|
                k2 != id.key() && old(self).tracks(k2) ==> #[trigger] final(self).phase_of(k2)
                    == old(self).phase_of(k2),
    {
        match self.find(id) {
            None => {
                let (next, d) = step(Phase::Pending, ev, now);
                match next {
                    Phase::Terminal => d,
                    _ => {
                        let entry = TrackedObject { id: id.clone_id(), phase: next };
                        proof {
                            let olds = self.contents();
                            let news = olds.push(entry);
                            assert forall|a: int, b: int|
                                0 <= a < b < news.len() implies (#[trigger] news[a].id.key())
                                != (#[trigger] news[b].id.key()) by {
                                assert(news[a] == olds[a]);
                                if b < olds.len() {
                                    assert(olds[a].id.key() != olds[b].id.key());
                                } else {
                                    assert(olds[a].id.key() != id.key());
                                }
                            }
                        }
                        self.entries.push(entry);
                        proof {
                            lemma_unique_tracking(*self);
                            lemma_unique_tracking(*old(self));
                            let k = id.key();
                            assert(self.contents()[self.contents().len() - 1].id.key() == k);
                            assert(self.tracks(k));
                            assert(self.index_of(k) == self.contents().len() - 1);
                            assert forall|k2: (Seq<char>, Seq<char>)| k2 != k implies #[trigger] self
                                .tracks(k2) == old(self).tracks(k2) by {
                                lemma_same_entries_same_tracking(*old(self), *self, k, k2);
                            }
                            assert forall|k2: (Seq<char>, Seq<char>)|
                                k2 != k && old(self).tracks(k2) implies #[trigger] self.phase_of(k2)
                                == old(self).phase_of(k2) by {
                                lemma_same_entries_same_tracking(*old(self), *self, k, k2);
                            }
                        }
                        d
                    },
                }
            },
            Some(i) => {
                proof {
                    lemma_unique_tracking(*self);
                    assert(self.tracks(id.key()));
                    assert(self.index_of(id.key()) == i as int);
                }
                let (next, d) = step(self.entries[i].phase, ev, now);
                match next {
                    Phase::Terminal => {
                        proof {
                            let k = id.key();
                            let olds = self.contents();
                            let news = olds.remove(i as int);
                            assert forall|a: int, b: int|
                                0 <= a < b < news.len() implies (#[trigger] news[a].id.key())
                                != (#[trigger] news[b].id.key()) by {
                                let oa = if a < i as int {
                                    a
                                } else {
                                    a + 1
                                };
                                let ob = if b < i as int {
                                    b
                                } else {
                                    b + 1
                                };
                                assert(news[a] == olds[oa]);
                                assert(news[b] == olds[ob]);
                                assert(olds[oa].id.key() != olds[ob].id.key());
                            }
                        }
                        self.entries.remove(i);
                        proof {
                            lemma_unique_tracking(*self);
                            lemma_unique_tracking(*old(self));
                            let k = id.key();
                            assert forall|j: int|
                                0 <= j < self.contents().len() implies (
                            #[trigger] self.contents()[j].id.key()) != k by {
                                let oj = if j < i as int {
                                    j
                                } else {
                                    j + 1
                                };
                                assert(self.contents()[j] == old(self).contents()[oj]);
                            }
                            assert(!self.tracks(k));
                            assert forall|k2: (Seq<char>, Seq<char>)| k2 != k implies #[trigger] self
                                .tracks(k2) == old(self).tracks(k2) by {
                                lemma_removed_entry_other_tracking(*old(self), *self, i as int, k2);
                            }
                            assert forall|k2: (Seq<char>, Seq<char>)|
                                k2 != k && old(self).tracks(k2) implies #[trigger] self.phase_of(k2)
                                == old(self).phase_of(k2) by {
                                lemma_removed_entry_other_tracking(*old(self), *self, i as int, k2);
                            }
                        }
                        d
                    },
                    _ => {
                        let ghost olds = self.contents();
                        let moved = TrackedObject { id: id.clone_id(), phase: next };
                        let ghost news = olds.update(i as int, moved);
                        proof {
                            assert forall|a: int, b: int|
                                0 <= a < b < news.len() implies (#[trigger] news[a].id.key())
                                != (#[trigger] news[b].id.key()) by {
                                assert(news[a].id.key() == olds[a].id.key());
                                assert(news[b].id.key() == olds[b].id.key());
                                assert(olds[a].id.key() != olds[b].id.key());
                            }
                        }
                        self.entries[i] = moved;
                        proof {
                            let k = id.key();
                            assert(self.contents() == news);
                            assert(self.contents()[i as int].id.key() == k);
                            lemma_unique_tracking(*self);
                            lemma_unique_tracking(*old(self));
                            assert(self.tracks(k));
                            assert(self.index_of(k) == i as int);
                            assert(self.phase_of(k) == next);
                            assert forall|k2: (Seq<char>, Seq<char>)| k2 != k implies #[trigger] self
                                .tracks(k2) == old(self).tracks(k2) by {
                                lemma_same_entries_same_tracking(*old(self), *self, k, k2);
                            }
                            assert forall|k2: (Seq<char>, Seq<char>)|
                                k2 != k && old(self).tracks(k2) implies #[trigger] self.phase_of(k2)
                                == old(self).phase_of(k2) by {
                                lemma_same_entries_same_tracking(*old(self), *self, k, k2);
                            }
                        }
                        d
                    },
                }
            },
        }
    }
}

/// In a well-formed tracker the entry for a tracked key is the one
/// `index_of` picks, at a unique position.
proof fn lemma_unique_tracking(t: Tracker)
    requires
        t.wf(),
    ensures
        forall|j: int|
            0 <= j < t.contents().len() ==> t.tracks(#[trigger] t.contents()[j].id.key())
                && t.index_of(t.contents()[j].id.key()) == j,
{
    assert forall|j: int| 0 <= j < t.contents().len() implies t.tracks(
        #[trigger] t.contents()[j].id.key(),
    ) && t.index_of(t.contents()[j].id.key()) == j by {
        let k = t.contents()[j].id.key();
        assert(t.tracks(k));
        let w = t.index_of(k);
        assert(0 <= w < t.contents().len() && t.contents()[w].id.key() == k);
        if w != j {
            assert(t.contents()[w].id.key() != t.contents()[j].id.key());
        }
    }
}

/// Two well-formed trackers that agree on every entry but position `i` of
/// the first — dropped in the second — agree on every other key.
proof fn lemma_removed_entry_other_tracking(
    before: Tracker,
    after: Tracker,
    i: int,
    k2: (Seq<char>, Seq<char>),
)
    requires
        before.wf(),
        after.wf(),
        0 <= i < before.contents().len(),
        after.contents() == before.contents().remove(i),
        k2 != before.contents()[i].id.key(),
    ensures
        after.tracks(k2) == before.tracks(k2),
        before.tracks(k2) ==> after.phase_of(k2) == before.phase_of(k2),
{
    lemma_unique_tracking(before);
    lemma_unique_tracking(after);
    if before.tracks(k2) {
        let w = before.index_of(k2);
        assert(before.contents()[w].id.key() == k2);
        assert(w != i);
        let v = if w < i {
            w
        } else {
            w - 1
        };
        assert(after.contents()[v] == before.contents()[w]);
        assert(after.tracks(k2));
        assert(after.index_of(k2) == v);
    }
    if after.tracks(k2) {
        let v = after.index_of(k2);
        let w = if v < i {
            v
        } else {
            v + 1
        };
        assert(after.contents()[v] == before.contents()[w]);
        assert(before.tracks(k2));
    }
}

/// Two well-formed trackers whose entries carry the same keys in the same
/// positions — entries may differ only at the stepped key `kx`, and the
/// second may append one extra entry under `kx` — agree on every other key.
proof fn lemma_same_entries_same_tracking(
    before: Tracker,
    after: Tracker,
    kx: (Seq<char>, Seq<char>),
    k2: (Seq<char>, Seq<char>),
)
    requires
        before.wf(),
        after.wf(),
        k2 != kx,
        before.contents().len() <= after.contents().len(),
        after.contents().len() <= before.contents().len() + 1,
        forall|j: int|
            0 <= j < before.contents().len() ==> ((#[trigger] after.contents()[j].id.key())
                == before.contents()[j].id.key() && (before.contents()[j].id.key() != kx
                ==> after.contents()[j] == before.contents()[j])),
        after.contents().len() > before.contents().len()
            ==> after.contents()[before.contents().len() as int].id.key() == kx,
    ensures
        after.tracks(k2) == before.tracks(k2),
        before.tracks(k2) ==> after.phase_of(k2) == before.phase_of(k2),
{
    lemma_unique_tracking(before);
    lemma_unique_tracking(after);
    if before.tracks(k2) {
        let w = before.index_of(k2);
        assert(after.contents()[w].id.key() == k2);
        assert(after.tracks(k2));
        assert(after.index_of(k2) == w);
        assert(after.contents()[w] == before.contents()[w]);
    }
    if after.tracks(k2) {
        let v = after.index_of(k2);
        if v < before.contents().len() {
            assert(before.contents()[v].id.key() == k2);
            assert(before.tracks(k2));
        }
    }
}

/// Writes an object back to the store the way the controller does: first
/// with the resource version the pass read, and, when that version has gone
/// stale meanwhile, once more with the refreshed current version — never by
/// overwriting unseen. Succeeds exactly when the identifier is present and
/// its version is not exhausted; the stored object then carries the written
/// content under the strictly increased version, and nothing else moves.
pub fn update_with_retry(store: &mut ObjectStore, obj: PolicyObject) -> (r: Result<
    u64,
    StoreError,
>)
    requires
        old(store).wf(),
    ensures
        final(store).wf(),
        match r {
            Ok(v) => {
                &&& old(store).spec_get(obj.id.key()) matches Some(cur) && cur.resource_version
                    < u64::MAX && v == cur.resource_version + 1
                &&& final(store).contents().len() == old(store).contents().len()
                &&& final(store).contents()[old(store).index_of(obj.id.key())]@
                    == (PolicyObjectModel { resource_version: v, ..obj@ })
                &&& forall|j: int|
                    0 <= j < old(store).contents().len() && j != old(store).index_of(obj.id.key())
                        ==> final(store).contents()[j] == old(store).contents()[j]
            },
            Err(StoreError::NotFound) => !old(store).has_key(obj.id.key())
                && final(store).contents() == old(store).contents(),
            Err(StoreError::Conflict { current_version }) => {
                &&& current_version == u64::MAX
                &&& old(store).spec_get(obj.id.key()) matches Some(cur) && cur.resource_version
                    == u64::MAX
                &&& final(store).contents() == old(store).contents()
            },
            Err(StoreError::AlreadyExists) => false,
        },
{
    if obj.resource_version < u64::MAX {
        let expected = obj.resource_version;
        let copy = obj.duplicate();
        match store.update(copy, expected) {
            Ok(v) => Ok(v),
            Err(StoreError::NotFound) => Err(StoreError::NotFound),
            Err(StoreError::Conflict { current_version }) => {
                if current_version == u64::MAX {
                    Err(StoreError::Conflict { current_version })
                } else {
                    match store.update(obj, current_version) {
                        Ok(v) => Ok(v),
                        Err(e) => {
                            proof {
                                assert(false);
                            }
                            Err(e)
                        },
                    }
                }
            },
            Err(StoreError::AlreadyExists) => {
                proof {
                    assert(false);
                }
                Err(StoreError::AlreadyExists)
            },
        }
    } else {
        let current_version = match store.get(&obj.id) {
            None => {
                return Err(StoreError::NotFound);
            },
            Some(o) => o.resource_version,
        };
        if current_version == u64::MAX {
            Err(StoreError::Conflict { current_version })
        } else {
            match store.update(obj, current_version) {
                Ok(v) => Ok(v),
                Err(e) => {
                    proof {
                        assert(false);
                    }
                    Err(e)
                },
            }
        }
    }
}

/// One full reconciliation pass for one identifier: read the current
/// object, decide the pass, write the status back only when it diverges
/// from the desired one, and return the outcome for the scheduler.
///
/// A settled object is left untouched — running a pass twice in a row has
/// no second effect. An identifier that is gone, or whose resource version
/// is exhausted, yields a `Failure` with the short retry delay; no other
/// object is ever moved.
pub fn run_pass(store: &mut ObjectStore, id: &ObjectId, now: u64) -> (r: ReconcileOutcome)
    requires
        old(store).wf(),
    ensures
        final(store).wf(),
        !old(store).has_key(id.key()) ==> final(store).contents() == old(store).contents(),
        match r {
            ReconcileOutcome::Success { requeue_after } => {
                &&& requeue_after == DEFAULT_REQUEUE_SECS
                &&& old(store).has_key(id.key())
                &&& {
                    let cur = old(store).contents()[old(store).index_of(id.key())];
                    if status_settled(cur) {
                        final(store).contents() == old(store).contents()
                    } else {
                        &&& final(store).contents().len() == old(store).contents().len()
                        &&& final(store).contents()[old(store).index_of(id.key())]@
                            == (PolicyObjectModel {
                            resource_version: (cur.resource_version + 1) as u64,
                            status: Some(
                                GuardianPolicyStatus {
                                    last_reconciled: now,
                                    last_result: desired_result(cur),
                                },
                            ),
                            ..cur@
                        })
                        &&& forall|j: int|
                            0 <= j < old(store).contents().len() && j != old(store).index_of(
                                id.key(),
                            ) ==> final(store).contents()[j] == old(store).contents()[j]
                    }
                }
            },
            ReconcileOutcome::Failure { reason, requeue_after } => {
                &&& requeue_after == FAILURE_REQUEUE_SECS
                &&& final(store).contents() == old(store).contents()
                &&& (!old(store).has_key(id.key()) && reason@ == "object not found"@) || (old(
                    store,
                ).has_key(id.key()) && reason@ == "store conflict"@ && old(store).contents()[old(
                    store,
                ).index_of(id.key())].resource_version == u64::MAX)
            },
        },
{
    let current = match store.get(id) {
        None => {
            return ReconcileOutcome::Failure {
                reason: String::from_str("object not found"),
                requeue_after: FAILURE_REQUEUE_SECS,
            };
        },
        Some(o) => o.duplicate(),
    };
    let decision = reconcile(&current, now);
    match decision.status_update {
        None => ReconcileOutcome::Success { requeue_after: DEFAULT_REQUEUE_SECS },
        Some(st) => {
            if current.resource_version == u64::MAX {
                return ReconcileOutcome::Failure {
                    reason: String::from_str("store conflict"),
                    requeue_after: FAILURE_REQUEUE_SECS,
                };
            }
            let expected = current.resource_version;
            let mut written = current;
            written.status = Some(st);
            match store.update(written, expected) {
                Ok(_) => ReconcileOutcome::Success { requeue_after: DEFAULT_REQUEUE_SECS },
                Err(e) => {
                    proof {
                        assert(false);
                    }
                    ReconcileOutcome::Failure {
                        reason: String::from_str("store conflict"),
                        requeue_after: FAILURE_REQUEUE_SECS,
                    }
                },
            }
        },
    }
}

/// At most one pass in flight per identifier: while an object is in
/// `Reconciling`, no event but the completion of the in-flight pass can make
/// the machine start another pass — a rapid second watch event only marks
/// the object for a rerun.
pub proof fn lemma_at_most_one_in_flight(phase: Phase, ev: Event, now: u64)
    requires
        phase matches Phase::Reconciling { .. },
    ensures
        spec_step(phase, ev, now).1 == Directive::StartPass ==> ev matches Event::PassFinished {
            ..
        },
{
}

/// Deletion is terminal: observing a deletion sends every phase to
/// `Terminal`, and from `Terminal` no event ever schedules another pass or
/// leaves the phase.
pub proof fn lemma_deletion_terminal(phase: Phase, ev: Event, now: u64)
    ensures
        spec_step(phase, Event::ObservedDeleted, now).0 == Phase::Terminal,
        spec_step(Phase::Terminal, ev, now) == (Phase::Terminal, Directive::Idle),
{
}

} // verus!
