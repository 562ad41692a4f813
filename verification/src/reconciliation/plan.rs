//! What has to be done so that what is becomes what is wanted.
use vstd::prelude::*;
use vstd::string::*;

use crate::model::{DesiredRule, DriverId};
use crate::text::{decimal_of, owned};

verus! {

/// One thing that has to be done.
#[derive(Debug)]
pub enum ReconciliationOperation {
    CreateDriver(DriverId),
    RemoveDriver(DriverId),
    RestartDriver(DriverId),
    UpdatePolicy(DesiredRule),
    /// Remove a rule, by its id.
    RemovePolicy(u32),
    NoOp,
}

impl ReconciliationOperation {
    /// The same operation, owned separately.
    pub fn duplicate(&self) -> (r: ReconciliationOperation)
        ensures
            r == *self,
    {
        match self {
            ReconciliationOperation::CreateDriver(d) => ReconciliationOperation::CreateDriver(*d),
            ReconciliationOperation::RemoveDriver(d) => ReconciliationOperation::RemoveDriver(*d),
            ReconciliationOperation::RestartDriver(d) => ReconciliationOperation::RestartDriver(*d),
            ReconciliationOperation::UpdatePolicy(rule) => ReconciliationOperation::UpdatePolicy(rule.duplicate()),
            ReconciliationOperation::RemovePolicy(id) => ReconciliationOperation::RemovePolicy(*id),
            ReconciliationOperation::NoOp => ReconciliationOperation::NoOp,
        }
    }
}

/// What has to be done, in order.
#[derive(Debug)]
pub struct ReconciliationPlan {
    pub operations: Vec<ReconciliationOperation>,
}

/// An operation in words.
pub open spec fn operation_text(op: ReconciliationOperation) -> Seq<char> {
    match op {
        ReconciliationOperation::CreateDriver(d) => "Create driver "@ + crate::model::driver_label(d),
        ReconciliationOperation::RemoveDriver(d) => "Remove driver "@ + crate::model::driver_label(d),
        ReconciliationOperation::RestartDriver(d) => "Restart driver "@ + crate::model::driver_label(d),
        ReconciliationOperation::UpdatePolicy(rule) => "Update policy "@ + crate::text::decimal(rule.id as nat),
        ReconciliationOperation::RemovePolicy(id) => "Remove policy "@ + crate::text::decimal(id as nat),
        ReconciliationOperation::NoOp => "No operation"@,
    }
}

/// Operations in words, each on a line of its own.
pub open spec fn operations_text(ops: Seq<ReconciliationOperation>) -> Seq<char>
    decreases ops.len(),
{
    if ops.len() == 0 {
        Seq::empty()
    } else {
        operations_text(ops.drop_last()) + "\n"@ + operation_text(ops.last())
    }
}

fn words_with(text: &str, more: &str) -> (r: String)
    ensures
        r@ == text@ + more@,
{
    let mut s = owned(text);
    s.append(more);
    s
}

impl ReconciliationOperation {
    /// The operation in words.
    pub fn to_text(&self) -> (r: String)
        ensures
            r@ == operation_text(*self),
    {
        match self {
            ReconciliationOperation::CreateDriver(d) => words_with("Create driver ", d.label().as_str()),
            ReconciliationOperation::RemoveDriver(d) => words_with("Remove driver ", d.label().as_str()),
            ReconciliationOperation::RestartDriver(d) => words_with("Restart driver ", d.label().as_str()),
            ReconciliationOperation::UpdatePolicy(rule) => words_with(
                "Update policy ",
                decimal_of(rule.id as u64).as_str(),
            ),
            ReconciliationOperation::RemovePolicy(id) => words_with("Remove policy ", decimal_of(*id as u64).as_str()),
            ReconciliationOperation::NoOp => owned("No operation"),
        }
    }
}

impl ReconciliationPlan {
    pub fn new(operations: Vec<ReconciliationOperation>) -> (r: Self)
        ensures
            r.operations == operations,
    {
        ReconciliationPlan { operations }
    }

    /// Whether there is nothing to do.
    pub fn is_empty(&self) -> (r: bool)
        ensures
            r == forall|i: int|
                0 <= i < self.operations@.len() ==> #[trigger] self.operations@[i] == ReconciliationOperation::NoOp,
    {
        let mut i: usize = 0;
        while i < self.operations.len()
            invariant
                i <= self.operations@.len(),
                forall|k: int| 0 <= k < i ==> #[trigger] self.operations@[k] == ReconciliationOperation::NoOp,
            decreases self.operations.len() - i,
        {
            if !matches!(self.operations[i], ReconciliationOperation::NoOp) {
                assert(self.operations@[i as int] != ReconciliationOperation::NoOp);
                return false;
            }
            i += 1;
        }
        true
    }

    /// The plan in words, with the generation that it is made for.
    pub fn explain(&self, generation: u64) -> (r: String)
        ensures
            r@ == "generation: "@ + crate::text::decimal(generation as nat) + operations_text(self.operations@),
    {
        let mut s = words_with("generation: ", decimal_of(generation).as_str());
        let ghost head = s@;
        let mut i: usize = 0;
        assert(self.operations@.take(0) =~= Seq::<ReconciliationOperation>::empty());
        assert(s@ =~= head + operations_text(self.operations@.take(0)));
        while i < self.operations.len()
            invariant
                i <= self.operations@.len(),
                s@ == head + operations_text(self.operations@.take(i as int)),
            decreases self.operations.len() - i,
        {
            assert(self.operations@.take(i as int + 1).drop_last() =~= self.operations@.take(i as int));
            s.append("\n");
            s.append(self.operations[i].to_text().as_str());
            assert(s@ =~= head + operations_text(self.operations@.take(i as int + 1)));
            i += 1;
        }
        assert(self.operations@.take(i as int) =~= self.operations@);
        s
    }
}

/// An operation is explained by what is done and to what.
pub proof fn operations_are_explained(op: ReconciliationOperation)
    ensures
        op matches ReconciliationOperation::UpdatePolicy(rule) ==> operation_text(op) == "Update policy "@
            + crate::text::decimal(rule.id as nat),
        op matches ReconciliationOperation::RemovePolicy(id) ==> operation_text(op) == "Remove policy "@
            + crate::text::decimal(id as nat),
        op matches ReconciliationOperation::CreateDriver(d) ==> operation_text(op) == "Create driver "@
            + crate::model::driver_label(d),
        op matches ReconciliationOperation::RemoveDriver(d) ==> operation_text(op) == "Remove driver "@
            + crate::model::driver_label(d),
        op matches ReconciliationOperation::RestartDriver(d) ==> operation_text(op) == "Restart driver "@
            + crate::model::driver_label(d),
        op == ReconciliationOperation::NoOp ==> operation_text(op) == "No operation"@,
{
}

/// A plan is explained operation by operation, each on a line of its own.
pub proof fn plans_are_explained_line_by_line(ops: Seq<ReconciliationOperation>, op: ReconciliationOperation)
    ensures
        ops.len() == 0 ==> operations_text(ops).len() == 0,
        operations_text(ops.push(op)) == operations_text(ops) + "\n"@ + operation_text(op),
{
    assert(ops.push(op).drop_last() =~= ops);
}

} // verus!
