//! Reconciliation: from what is wanted to what is in force.
pub mod adapters;
pub mod bootstrap;
pub mod convergence;
pub mod diff;
pub mod dns_flow;
pub mod dummy;
pub mod error;
pub mod executor_client;
pub mod plan;
pub mod reconciler;
pub mod sinks;
