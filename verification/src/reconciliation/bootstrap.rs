//! The state that the daemon starts from.
use vstd::prelude::*;
use vstd::string::*;

use crate::model::DesiredState;
use crate::reconciliation::error::ReconciliationError;
use crate::reconciliation::reconciler::{Reconciler, ReconcilerConfig};
use crate::text::owned;

verus! {

/// What a state store gave.
#[derive(Debug)]
pub enum StateLoad {
    /// A state that was kept, or why it could not be read.
    Found(Result<DesiredState, String>),
    /// Nothing was kept.
    Missing,
    /// The store could not be read, for a reason.
    Failed(String),
}

/// The state to start from: what was kept, or an empty one where nothing was or
/// the store could not be read. What was kept and cannot be read is an error.
pub fn load_desired_state(load: StateLoad) -> (r: Result<DesiredState, String>)
    ensures
        match load {
            StateLoad::Found(Ok(state)) => r == Ok::<DesiredState, String>(state),
            StateLoad::Found(Err(e)) => r matches Err(m) && m@ == "Failed to deserialize desired state: "@ + e@,
            _ => r matches Ok(s) && s.rules@.len() == 0 && s.drivers@.len() == 0 && s.qos@.len() == 0,
        },
{
    match load {
        StateLoad::Found(Ok(state)) => Ok(state),
        StateLoad::Found(Err(e)) => {
            let mut s = owned("Failed to deserialize desired state: ");
            s.append(e.as_str());
            Err(s)
        },
        StateLoad::Missing => Ok(DesiredState::default()),
        StateLoad::Failed(_) => Ok(DesiredState::default()),
    }
}

/// A reconciler for what a store gave. Nothing is in force yet: the caller runs
/// the first cycle, and goes on where that fails.
pub fn bootstrap(load: StateLoad) -> (r: Result<Reconciler, String>)
    ensures
        match load {
            StateLoad::Found(Ok(state)) => r matches Ok(rec) && rec.desired == state && fresh(rec),
            StateLoad::Found(Err(e)) => r matches Err(m) && m@ == "Failed to deserialize desired state: "@ + e@,
            _ => r matches Ok(rec) && rec.desired.rules@.len() == 0 && rec.desired.drivers@.len() == 0
                && rec.desired.qos@.len() == 0 && fresh(rec),
        },
{
    match load_desired_state(load) {
        Ok(desired) => Ok(Reconciler::new(desired, ReconcilerConfig::default())),
        Err(e) => Err(e),
    }
}

/// Whether a reconciler is new, with the default configuration.
pub open spec fn fresh(rec: Reconciler) -> bool {
    &&& rec.desired_raw is None
    &&& rec.actual.active_rules@.len() == 0
    &&& rec.flow_compiler is None
    &&& rec.fingerprint is None
    &&& rec.generation == 1
    &&& rec.config.check_interval_secs == 30
    &&& rec.config.max_retries == 3
    &&& rec.config.retry_delay_secs == 5
    &&& rec.config.watchdog_timeout_secs == 30
    &&& rec.config.atomic_rollback
    &&& rec.config.resync_every_n_cycles == 3
    &&& rec.config.dns_resync_interval_secs == 60
}

/// A reconciler for what a store gave. A store that could not be read is an
/// error.
pub fn from_state_store(load: StateLoad) -> (r: Result<Reconciler, ReconciliationError>)
    ensures
        match load {
            StateLoad::Found(Ok(state)) => r matches Ok(rec) && rec.desired == state && fresh(rec),
            StateLoad::Found(Err(e)) => r matches Err(x) && x == ReconciliationError::Deserialize(e),
            StateLoad::Missing => r matches Ok(rec) && rec.desired.rules@.len() == 0 && rec.desired.drivers@.len() == 0
                && rec.desired.qos@.len() == 0 && fresh(rec),
            StateLoad::Failed(e) => r matches Err(x) && x == ReconciliationError::StateLoad(e),
        },
{
    match load {
        StateLoad::Found(Ok(state)) => Ok(Reconciler::new(state, ReconcilerConfig::default())),
        StateLoad::Found(Err(e)) => Err(ReconciliationError::Deserialize(e)),
        StateLoad::Missing => Ok(Reconciler::new(DesiredState::default(), ReconcilerConfig::default())),
        StateLoad::Failed(e) => Err(ReconciliationError::StateLoad(e)),
    }
}

/// A daemon that starts has nothing in force, nothing compiled, and the usual
/// intervals.
pub proof fn what_a_start_begins_with(rec: Reconciler)
    requires
        fresh(rec),
    ensures
        rec.actual.active_rules@.len() == 0,
        rec.desired_raw is None,
        rec.flow_compiler is None,
        rec.fingerprint is None,
        rec.generation == 1,
        rec.config == (ReconcilerConfig {
            check_interval_secs: 30,
            max_retries: 3,
            retry_delay_secs: 5,
            watchdog_timeout_secs: 30,
            atomic_rollback: true,
            resync_every_n_cycles: 3,
            dns_resync_interval_secs: 60,
        }),
{
}

} // verus!
