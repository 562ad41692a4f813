//! What can go wrong on the way from what is to what is wanted.
use vstd::prelude::*;
use vstd::string::*;

use crate::text::owned;

verus! {

/// What can go wrong on the way from what is to what is wanted.
#[derive(Debug)]
pub enum ReconciliationError {
    Config(String),
    StateLoad(String),
    StateSave(String),
    Deserialize(String),
    Serialize(String),
    Reconcile(String),
    ApplyRule(String),
}

/// An error in words.
pub open spec fn reconciliation_error_text(e: ReconciliationError) -> Seq<char> {
    match e {
        ReconciliationError::Config(m) => "failed to load default reconciliation config: "@ + m@,
        ReconciliationError::StateLoad(m) => "failed to read persisted desired state: "@ + m@,
        ReconciliationError::StateSave(m) => "failed to persist desired state: "@ + m@,
        ReconciliationError::Deserialize(m) => "failed to deserialize desired state: "@ + m@,
        ReconciliationError::Serialize(m) => "failed to serialize desired state: "@ + m@,
        ReconciliationError::Reconcile(m) => "reconciliation cycle failed: "@ + m@,
        ReconciliationError::ApplyRule(m) => "executor failed to apply a rule: "@ + m@,
    }
}

impl ReconciliationError {
    /// The error in words.
    pub fn message(&self) -> (r: String)
        ensures
            r@ == reconciliation_error_text(*self),
    {
        let (head, m) = match self {
            ReconciliationError::Config(m) => ("failed to load default reconciliation config: ", m),
            ReconciliationError::StateLoad(m) => ("failed to read persisted desired state: ", m),
            ReconciliationError::StateSave(m) => ("failed to persist desired state: ", m),
            ReconciliationError::Deserialize(m) => ("failed to deserialize desired state: ", m),
            ReconciliationError::Serialize(m) => ("failed to serialize desired state: ", m),
            ReconciliationError::Reconcile(m) => ("reconciliation cycle failed: ", m),
            ReconciliationError::ApplyRule(m) => ("executor failed to apply a rule: ", m),
        };
        let mut s = owned(head);
        s.append(m.as_str());
        s
    }
}

/// Every message ends in what went wrong.
pub proof fn messages_end_in_what_went_wrong(e: ReconciliationError)
    ensures
        e matches ReconciliationError::Config(m) ==> crate::text::ends_in(reconciliation_error_text(e), m@),
        e matches ReconciliationError::StateLoad(m) ==> crate::text::ends_in(reconciliation_error_text(e), m@),
        e matches ReconciliationError::StateSave(m) ==> crate::text::ends_in(reconciliation_error_text(e), m@),
        e matches ReconciliationError::Deserialize(m) ==> crate::text::ends_in(reconciliation_error_text(e), m@),
        e matches ReconciliationError::Serialize(m) ==> crate::text::ends_in(reconciliation_error_text(e), m@),
        e matches ReconciliationError::Reconcile(m) ==> crate::text::ends_in(reconciliation_error_text(e), m@),
        e matches ReconciliationError::ApplyRule(m) ==> crate::text::ends_in(reconciliation_error_text(e), m@),
{
    let text = reconciliation_error_text(e);
    match e {
        ReconciliationError::Config(m) => {
            assert(text.skip(text.len() - m@.len()) =~= m@);
        },
        ReconciliationError::StateLoad(m) => {
            assert(text.skip(text.len() - m@.len()) =~= m@);
        },
        ReconciliationError::StateSave(m) => {
            assert(text.skip(text.len() - m@.len()) =~= m@);
        },
        ReconciliationError::Deserialize(m) => {
            assert(text.skip(text.len() - m@.len()) =~= m@);
        },
        ReconciliationError::Serialize(m) => {
            assert(text.skip(text.len() - m@.len()) =~= m@);
        },
        ReconciliationError::Reconcile(m) => {
            assert(text.skip(text.len() - m@.len()) =~= m@);
        },
        ReconciliationError::ApplyRule(m) => {
            assert(text.skip(text.len() - m@.len()) =~= m@);
        },
    }
}

} // verus!
