//! A verified core for a Kubernetes-style governance-policy controller.
//!
//! The crate models the custom resource (`crd`), the policy evaluator
//! (`governance`), the admission webhook's validation logic (`webhook`),
//! the per-pass reconciliation logic and backoff policy (`reconcile`),
//! the per-object scheduling state machine (`controller`), and an object
//! store with optimistic concurrency (`store`). All I/O — the HTTP server,
//! the watch stream, timers — lives outside this crate; callers drive the
//! state machine with events and perform the directives it returns.

pub mod controller;
pub mod crd;
pub mod governance;
pub mod reconcile;
pub mod store;
pub mod webhook;
