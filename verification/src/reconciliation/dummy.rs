//! An executor that only counts.
use vstd::prelude::*;

use crate::model::ActionResult;
use crate::policy::compiler::ActionRequest;

verus! {

/// An executor that only counts.
#[derive(Debug)]
pub struct DummyExecutorAdapter {
    pub count: u32,
}

impl DummyExecutorAdapter {
    pub fn new() -> (r: Self)
        ensures
            r.count == 0,
    {
        DummyExecutorAdapter { count: 0 }
    }

    /// Counts a rule, and numbers it from one. There have to be fewer rules than
    /// can be numbered.
    pub fn execute(&mut self, _request: &ActionRequest) -> (r: ActionResult)
        requires
            old(self).count < u32::MAX,
        ensures
            final(self).count == old(self).count + 1,
            r == (ActionResult::Applied { execution_time_us: 100, rule_id: Some((old(self).count + 1) as u32) }),
    {
        self.count = self.count + 1;
        ActionResult::Applied { execution_time_us: 100, rule_id: Some(self.count) }
    }

    pub fn rule_count(&self) -> (r: u32)
        ensures
            r == self.count,
    {
        self.count
    }

    /// Counts one rule less; below zero the count starts again at the top.
    pub fn remove_rule(&mut self, rule_id: u32) -> (r: ActionResult)
        ensures
            final(self).count == if old(self).count == 0 { u32::MAX as int } else { old(self).count - 1 },
            r == (ActionResult::Applied { execution_time_us: 50, rule_id: Some(rule_id) }),
    {
        self.count = self.count.wrapping_sub(1);
        ActionResult::Applied { execution_time_us: 50, rule_id: Some(rule_id) }
    }
}

impl Default for DummyExecutorAdapter {
    fn default() -> (r: DummyExecutorAdapter)
        ensures
            r.count == 0,
    {
        DummyExecutorAdapter::new()
    }
}

} // verus!
