//! Carrying a plan out, and taking it back.
//!
//! What is in force is known only from what the executor answered: a rule
//! counts as in force when it was applied, and as gone when its removal was.
use vstd::prelude::*;
use vstd::string::*;

use crate::model::{duplicate_flow, ActionResult, ActionType, ActualRule, ActualState, DesiredRule};
use crate::policy::compiler::{ActionRequest, PolicyCompiler};
use crate::reconciliation::error::ReconciliationError;
use crate::reconciliation::plan::{ReconciliationOperation, ReconciliationPlan};
use crate::text::owned;

verus! {

/// `uuid::Uuid::new_v4`: a random identifier. Version and variant are those of
/// a random UUID; the other bits are left to chance, and nothing is said of
/// them.
#[verifier::external_body]
fn random_uuid() -> (r: u128)
    ensures
        (r / 0x1000_0000_0000_0000_0000) % 16 == 4,
        (r / 0x4000_0000_0000_0000) % 4 == 2,
{
    uuid::Uuid::new_v4().as_u128()
}

/// What an operation asks of the executor.
pub enum OperationRequest {
    Apply(ActionRequest),
    /// Remove a rule, by its id.
    Remove(u32),
    /// Nothing: drivers are not the executor's.
    Nothing,
}

/// What an operation asks of the executor.
pub fn operation_request(op: &ReconciliationOperation) -> (r: OperationRequest)
    ensures
        *op matches ReconciliationOperation::UpdatePolicy(rule) ==> (r matches OperationRequest::Apply(q) && q@
            == crate::policy::compiler::asked_by(rule)),
        *op matches ReconciliationOperation::RemovePolicy(id) ==> r == OperationRequest::Remove(id),
        !(*op is UpdatePolicy) && !(*op is RemovePolicy) ==> r == OperationRequest::Nothing,
{
    match op {
        ReconciliationOperation::UpdatePolicy(rule) => OperationRequest::Apply(PolicyCompiler::compile(rule)),
        ReconciliationOperation::RemovePolicy(id) => OperationRequest::Remove(*id),
        _ => OperationRequest::Nothing,
    }
}

/// The rules without those that have an id.
pub open spec fn without_id(rules: Seq<ActualRule>, id: u32) -> Seq<ActualRule>
    decreases rules.len(),
{
    if rules.len() == 0 {
        rules
    } else if rules.last().id == id {
        without_id(rules.drop_last(), id)
    } else {
        without_id(rules.drop_last(), id).push(rules.last())
    }
}

/// A rule that is in force.
pub open spec fn in_force(rule: DesiredRule, rule_id: Option<u32>) -> ActualRule {
    ActualRule { id: rule.id, action: rule.action, rule_id, flow: rule.flow }
}

/// What is in force after an operation was answered.
pub open spec fn after_answer(
    rules: Seq<ActualRule>,
    op: ReconciliationOperation,
    answer: ActionResult,
) -> Seq<ActualRule> {
    match op {
        ReconciliationOperation::UpdatePolicy(rule) => match answer {
            ActionResult::Applied { rule_id, .. } => without_id(rules, rule.id).push(in_force(rule, rule_id)),
            _ => rules,
        },
        ReconciliationOperation::RemovePolicy(id) => match answer {
            ActionResult::Applied { .. } | ActionResult::AlreadyApplied => without_id(rules, id),
            _ => rules,
        },
        _ => rules,
    }
}

/// Whether an operation asks anything of the executor.
pub open spec fn asks(op: ReconciliationOperation) -> bool {
    op is UpdatePolicy || op is RemovePolicy
}

/// Whether an answer says that what was asked for is in force.
pub open spec fn granted(answer: ActionResult) -> bool {
    answer is Applied || answer is AlreadyApplied
}

/// What is in force after operations were answered, in order.
pub open spec fn after_answers(
    rules: Seq<ActualRule>,
    ops: Seq<ReconciliationOperation>,
    answers: Seq<ActionResult>,
) -> Seq<ActualRule>
    decreases ops.len(),
{
    if ops.len() == 0 {
        rules
    } else {
        after_answer(after_answers(rules, ops.drop_last(), answers), ops.last(), answers[ops.len() - 1])
    }
}

/// How many operations were granted, or refused.
pub open spec fn count(ops: Seq<ReconciliationOperation>, answers: Seq<ActionResult>, ok: bool) -> nat
    decreases ops.len(),
{
    if ops.len() == 0 {
        0
    } else {
        count(ops.drop_last(), answers, ok) + if asks(ops.last()) && granted(answers[ops.len() - 1]) == ok {
            1nat
        } else {
            0nat
        }
    }
}

fn remove_id(rules: &mut Vec<ActualRule>, id: u32)
    ensures
        final(rules)@ == without_id(old(rules)@, id),
{
    let mut rest: Vec<ActualRule> = Vec::new();
    std::mem::swap(&mut rest, rules);
    let ghost all = rest@;
    let mut kept: Vec<ActualRule> = Vec::new();
    let ghost mut n: int = 0;
    assert(all.take(0) =~= Seq::<ActualRule>::empty());
    while rest.len() > 0
        invariant
            0 <= n <= all.len(),
            rest@ == all.skip(n),
            kept@ == without_id(all.take(n), id),
        decreases rest.len(),
    {
        let rule = rest.remove(0);
        proof {
            assert(rule == all[n]);
            assert(all.take(n + 1).drop_last() =~= all.take(n));
            assert(rest@ =~= all.skip(n + 1));
            n = n + 1;
        }
        if rule.id != id {
            kept.push(rule);
        }
    }
    assert(all.take(n) =~= all);
    *rules = kept;
}

/// The name of a kind of action.
pub open spec fn kind_text(t: ActionType) -> Seq<char> {
    match t {
        ActionType::Route => "Route"@,
        ActionType::Forward => "Forward"@,
        ActionType::Block => "Block"@,
        ActionType::Reject => "Reject"@,
        ActionType::Allow => "Allow"@,
    }
}

fn kind_name(t: ActionType) -> (r: &'static str)
    ensures
        r@ == kind_text(t),
{
    match t {
        ActionType::Route => "Route",
        ActionType::Forward => "Forward",
        ActionType::Block => "Block",
        ActionType::Reject => "Reject",
        ActionType::Allow => "Allow",
    }
}

/// Why a rule was not applied.
pub open spec fn refusal(answer: ActionResult) -> Seq<char> {
    match answer {
        ActionResult::Failed { message, .. } => match message {
            Some(m) => m@,
            None => "rule failed"@,
        },
        ActionResult::Unsupported { action_type } => "unexpected result: Unsupported { action_type: "@ + kind_text(
            action_type,
        ) + " }"@,
        _ => Seq::empty(),
    }
}

/// Take note of what the executor answered to a rule that it was to apply.
pub fn apply_rule(actual: &mut ActualState, rule: &DesiredRule, answer: &ActionResult) -> (r: Result<
    (),
    ReconciliationError,
>)
    ensures
        final(actual).active_rules@ == after_answer(
            old(actual).active_rules@,
            ReconciliationOperation::UpdatePolicy(*rule),
            *answer,
        ),
        r is Ok <==> granted(*answer),
        r matches Err(e) ==> (e matches ReconciliationError::ApplyRule(m) && m@ == refusal(*answer)),
{
    match answer {
        ActionResult::Applied { rule_id, .. } => {
            remove_id(&mut actual.active_rules, rule.id);
            actual.active_rules.push(
                ActualRule { id: rule.id, action: rule.action, rule_id: *rule_id, flow: duplicate_flow(&rule.flow) },
            );
            Ok(())
        },
        ActionResult::AlreadyApplied => Ok(()),
        ActionResult::Failed { message, .. } => {
            let text = match message {
                Some(m) => m.clone(),
                None => owned("rule failed"),
            };
            Err(ReconciliationError::ApplyRule(text))
        },
        ActionResult::Unsupported { action_type } => {
            let mut s = owned("unexpected result: Unsupported { action_type: ");
            s.append(kind_name(*action_type));
            s.append(" }");
            Err(ReconciliationError::ApplyRule(s))
        },
    }
}

/// A plan that is being carried out: how many operations were granted, and how
/// many were refused.
#[derive(Debug, Clone, Copy, PartialEq, Eq, Structural)]
pub struct Execution {
    pub succeeded: usize,
    pub failed: usize,
}

impl Execution {
    pub fn new() -> (r: Self)
        ensures
            r == (Execution { succeeded: 0, failed: 0 }),
    {
        Execution { succeeded: 0, failed: 0 }
    }

    /// Take note of what the executor answered to an operation.
    pub fn record(&mut self, actual: &mut ActualState, op: &ReconciliationOperation, answer: &ActionResult)
        requires
            old(self).succeeded < usize::MAX,
            old(self).failed < usize::MAX,
        ensures
            final(actual).active_rules@ == after_answer(old(actual).active_rules@, *op, *answer),
            final(self).succeeded == old(self).succeeded + if asks(*op) && granted(*answer) { 1int } else { 0int },
            final(self).failed == old(self).failed + if asks(*op) && !granted(*answer) { 1int } else { 0int },
    {
        match op {
            ReconciliationOperation::UpdatePolicy(rule) => {
                match apply_rule(actual, rule, answer) {
                    Ok(_) => {
                        self.succeeded = self.succeeded + 1;
                    },
                    Err(_) => {
                        self.failed = self.failed + 1;
                    },
                }
            },
            ReconciliationOperation::RemovePolicy(id) => {
                match answer {
                    ActionResult::Applied { .. } | ActionResult::AlreadyApplied => {
                        remove_id(&mut actual.active_rules, *id);
                        self.succeeded = self.succeeded + 1;
                    },
                    _ => {
                        self.failed = self.failed + 1;
                    },
                }
            },
            _ => {},
        }
    }
}

/// What became of a plan.
#[derive(Debug)]
pub struct ExecutionReport {
    pub id: u128,
    pub operations: Vec<ReconciliationOperation>,
    pub succeeded: usize,
    pub failed: usize,
    pub total: usize,
    pub success: bool,
}

/// Whether an identifier is a random UUID.
pub open spec fn is_random_uuid(id: u128) -> bool {
    (id / 0x1000_0000_0000_0000_0000) % 16 == 4 && (id / 0x4000_0000_0000_0000) % 4 == 2
}

fn duplicate_operations(v: &Vec<ReconciliationOperation>) -> (r: Vec<ReconciliationOperation>)
    ensures
        r@ == v@,
{
    let mut out: Vec<ReconciliationOperation> = Vec::new();
    let mut i: usize = 0;
    while i < v.len()
        invariant
            i <= v@.len(),
            out@ == v@.take(i as int),
        decreases v.len() - i,
    {
        out.push(v[i].duplicate());
        i += 1;
        assert(out@ =~= v@.take(i as int));
    }
    assert(out@ =~= v@);
    out
}

/// Carry a plan out, given what the executor answers to each of its operations.
pub fn execute(actual: &mut ActualState, plan: &ReconciliationPlan, answers: &Vec<ActionResult>) -> (r: ExecutionReport)
    requires
        answers@.len() == plan.operations@.len(),
    ensures
        final(actual).active_rules@ == after_answers(old(actual).active_rules@, plan.operations@, answers@),
        r.operations@ == plan.operations@,
        r.total == plan.operations@.len(),
        r.succeeded == count(plan.operations@, answers@, true),
        r.failed == count(plan.operations@, answers@, false),
        r.success == (r.failed == 0),
        is_random_uuid(r.id),
{
    let ghost ops = plan.operations@;
    let ghost before = actual.active_rules@;
    let mut run = Execution::new();
    let mut i: usize = 0;
    assert(ops.take(0) =~= Seq::<ReconciliationOperation>::empty());
    while i < plan.operations.len()
        invariant
            i <= ops.len(),
            ops == plan.operations@,
            answers@.len() == ops.len(),
            actual.active_rules@ == after_answers(before, ops.take(i as int), answers@),
            run.succeeded == count(ops.take(i as int), answers@, true),
            run.failed == count(ops.take(i as int), answers@, false),
            run.succeeded <= i,
            run.failed <= i,
        decreases plan.operations.len() - i,
    {
        assert(ops.take(i as int + 1).drop_last() =~= ops.take(i as int));
        run.record(actual, &plan.operations[i], &answers[i]);
        i += 1;
    }
    assert(ops.take(i as int) =~= ops);
    ExecutionReport {
        id: random_uuid(),
        operations: duplicate_operations(&plan.operations),
        succeeded: run.succeeded,
        failed: run.failed,
        total: plan.operations.len(),
        success: run.failed == 0,
    }
}

/// The rules that came into force since a snapshot.
pub open spec fn added_since(live: Seq<ActualRule>, snapshot: Seq<ActualRule>) -> Seq<u32>
    decreases live.len(),
{
    if live.len() == 0 {
        Seq::empty()
    } else if has_id(snapshot, live.last().id) {
        added_since(live.drop_last(), snapshot)
    } else {
        added_since(live.drop_last(), snapshot).push(live.last().id)
    }
}

pub open spec fn has_id(rules: Seq<ActualRule>, id: u32) -> bool {
    exists|i: int| 0 <= i < rules.len() && (#[trigger] rules[i]).id == id
}

fn holds_id(rules: &Vec<ActualRule>, id: u32) -> (r: bool)
    ensures
        r == has_id(rules@, id),
{
    let mut i: usize = 0;
    while i < rules.len()
        invariant
            i <= rules@.len(),
            forall|k: int| 0 <= k < i ==> (#[trigger] rules@[k]).id != id,
        decreases rules.len() - i,
    {
        if rules[i].id == id {
            return true;
        }
        i += 1;
    }
    false
}

/// Take what is known to be in force back to a snapshot. The rules in the result
/// have to be removed at the executor; whether that succeeds changes nothing
/// here.
pub fn rollback(actual: &mut ActualState, snapshot: &ActualState) -> (r: Vec<u32>)
    ensures
        r@ == added_since(old(actual).active_rules@, snapshot.active_rules@),
        final(actual).active_rules@ == snapshot.active_rules@,
{
    let ghost live = actual.active_rules@;
    let ghost kept = snapshot.active_rules@;
    let mut out: Vec<u32> = Vec::new();
    let mut i: usize = 0;
    assert(live.take(0) =~= Seq::<ActualRule>::empty());
    while i < actual.active_rules.len()
        invariant
            i <= live.len(),
            live == actual.active_rules@,
            kept == snapshot.active_rules@,
            out@ == added_since(live.take(i as int), kept),
        decreases actual.active_rules.len() - i,
    {
        assert(live.take(i as int + 1).drop_last() =~= live.take(i as int));
        let id = actual.active_rules[i].id;
        if !holds_id(&snapshot.active_rules, id) {
            out.push(id);
        }
        i += 1;
    }
    assert(live.take(i as int) =~= live);
    *actual = snapshot.duplicate();
    out
}

/// An executor without a mechanism: nothing is ever applied.
#[derive(Debug, Clone, Copy, PartialEq, Eq, Structural)]
pub struct PendingMechanismAdapter;

impl PendingMechanismAdapter {
    pub fn execute(&self, request: &ActionRequest) -> (r: ActionResult)
        ensures
            r == (ActionResult::Unsupported { action_type: request.action.kind() }),
    {
        ActionResult::Unsupported { action_type: request.action.action_type() }
    }

    pub fn rule_count(&self) -> (r: u32)
        ensures
            r == 0,
    {
        0
    }

    pub fn remove_rule(&self, _rule_id: u32) -> (r: ActionResult)
        ensures
            r == (ActionResult::Unsupported { action_type: ActionType::Block }),
    {
        ActionResult::Unsupported { action_type: ActionType::Block }
    }
}

/// Where the executor grants nothing, what is known to be in force stays, and
/// nothing counts as done.
pub proof fn what_is_refused_changes_nothing(
    rules: Seq<ActualRule>,
    ops: Seq<ReconciliationOperation>,
    answers: Seq<ActionResult>,
)
    requires
        answers.len() == ops.len(),
        forall|i: int| 0 <= i < answers.len() ==> !granted(#[trigger] answers[i]),
    ensures
        after_answers(rules, ops, answers) == rules,
        count(ops, answers, true) == 0,
{
    refused_from(rules, ops, answers);
}

proof fn refused_from(rules: Seq<ActualRule>, ops: Seq<ReconciliationOperation>, answers: Seq<ActionResult>)
    requires
        answers.len() >= ops.len(),
        forall|i: int| 0 <= i < answers.len() ==> !granted(#[trigger] answers[i]),
    ensures
        after_answers(rules, ops, answers) == rules,
        count(ops, answers, true) == 0,
    decreases ops.len(),
{
    if ops.len() > 0 {
        refused_from(rules, ops.drop_last(), answers);
        assert(!granted(answers[ops.len() - 1]));
    }
}

/// The rules that a rollback has removed at the executor are those that are in
/// force and were not when the snapshot was taken, and no others.
pub proof fn rollbacks_remove_what_was_added(live: Seq<ActualRule>, snapshot: Seq<ActualRule>, id: u32)
    ensures
        added_since(live, snapshot).contains(id) <==> has_id(live, id) && !has_id(snapshot, id),
    decreases live.len(),
{
    if live.len() > 0 {
        let front = live.drop_last();
        let last = live.last().id;
        rollbacks_remove_what_was_added(front, snapshot, id);
        let before = added_since(front, snapshot);
        assert(has_id(live, id) <==> has_id(front, id) || last == id) by {
            if has_id(front, id) {
                let i = choose|i: int| 0 <= i < front.len() && (#[trigger] front[i]).id == id;
                assert(live[i].id == id);
            }
            if has_id(live, id) {
                let i = choose|i: int| 0 <= i < live.len() && (#[trigger] live[i]).id == id;
                if i < front.len() {
                    assert(front[i].id == id);
                }
            }
            if last == id {
                assert(live[live.len() - 1].id == id);
            }
        }
        if !has_id(snapshot, last) {
            assert(before.push(last).contains(id) <==> before.contains(id) || last == id) by {
                if before.contains(id) {
                    let k = choose|k: int| 0 <= k < before.len() && before[k] == id;
                    assert(before.push(last)[k] == id);
                }
                if last == id {
                    assert(before.push(last)[before.len() as int] == id);
                }
                if before.push(last).contains(id) {
                    let k = choose|k: int| 0 <= k < before.push(last).len() && before.push(last)[k] == id;
                    if k < before.len() {
                        assert(before[k] == id);
                    }
                }
            }
        }
    }
}

/// Taking an id out of a list leaves the other rules as they are, in their
/// order.
pub proof fn taking_an_id_out(first: Seq<ActualRule>, second: Seq<ActualRule>, id: u32)
    ensures
        without_id(first + second, id) == without_id(first, id) + without_id(second, id),
        second.len() == 1 && second[0].id == id ==> without_id(second, id).len() == 0,
        second.len() == 1 && second[0].id != id ==> without_id(second, id) == second,
        (forall|i: int| 0 <= i < second.len() ==> (#[trigger] second[i]).id != id) ==> without_id(second, id)
            == second,
        forall|i: int|
            0 <= i < without_id(second, id).len() ==> (#[trigger] without_id(second, id)[i]).id != id,
    decreases second.len(),
{
    if second.len() == 0 {
        assert(first + second =~= first);
        assert(without_id(first, id) + without_id(second, id) =~= without_id(first, id));
    } else {
        let front = second.drop_last();
        taking_an_id_out(first, front, id);
        assert((first + second).drop_last() =~= first + front);
        assert((first + second).last() == second.last());
        assert(without_id(first + second, id) =~= without_id(first, id) + without_id(second, id));
        assert(second[second.len() - 1] == second.last());
        if forall|i: int| 0 <= i < second.len() ==> (#[trigger] second[i]).id != id {
            assert forall|i: int| 0 <= i < front.len() implies (#[trigger] front[i]).id != id by {
                assert(second[i] == front[i]);
            }
            assert(front.push(second.last()) =~= second);
        }
        if second.len() == 1 {
            assert(without_id(front, id).len() == 0);
            assert(second.last().id != id ==> without_id(second, id) =~= second);
        }
    }
}

/// A rule that was applied is in force as it was wanted, with the id that the
/// executor gave it, behind the rules with other ids, which stay as they were.
/// No other rule with its id is in force any more.
pub proof fn applied_rules_are_in_force(
    rules: Seq<ActualRule>,
    rule: DesiredRule,
    execution_time_us: u64,
    rule_id: Option<u32>,
)
    ensures
        ({
            let after = after_answer(
                rules,
                ReconciliationOperation::UpdatePolicy(rule),
                ActionResult::Applied { execution_time_us, rule_id },
            );
            &&& after.len() > 0
            &&& after.last().id == rule.id
            &&& after.last().action == rule.action
            &&& after.last().rule_id == rule_id
            &&& after.last().flow == rule.flow
            &&& after.drop_last() == without_id(rules, rule.id)
            &&& forall|i: int| 0 <= i < after.len() - 1 ==> (#[trigger] after[i]).id != rule.id
        }),
{
    let after = after_answer(
        rules,
        ReconciliationOperation::UpdatePolicy(rule),
        ActionResult::Applied { execution_time_us, rule_id },
    );
    taking_an_id_out(Seq::empty(), rules, rule.id);
    assert(after.drop_last() =~= without_id(rules, rule.id));
    assert forall|i: int| 0 <= i < after.len() - 1 implies (#[trigger] after[i]).id != rule.id by {
        assert(after[i] == without_id(rules, rule.id)[i]);
    }
}

/// Only an executor that says so changes what is in force: an update that was
/// not applied anew changes nothing, a removal takes its id out where it was
/// applied or there was nothing to remove, and nothing else does anything.
pub proof fn answers_decide_what_is_in_force(
    rules: Seq<ActualRule>,
    op: ReconciliationOperation,
    answer: ActionResult,
)
    ensures
        op is UpdatePolicy && !(answer is Applied) ==> after_answer(rules, op, answer) == rules,
        op matches ReconciliationOperation::RemovePolicy(id) ==> {
            &&& answer is Applied || answer is AlreadyApplied ==> after_answer(rules, op, answer) == without_id(
                rules,
                id,
            )
            &&& answer is Failed || answer is Unsupported ==> after_answer(rules, op, answer) == rules
        },
        !(op is UpdatePolicy) && !(op is RemovePolicy) ==> after_answer(rules, op, answer) == rules,
{
}

proof fn answers_read_alike(
    rules: Seq<ActualRule>,
    ops: Seq<ReconciliationOperation>,
    a: Seq<ActionResult>,
    b: Seq<ActionResult>,
)
    requires
        forall|i: int| 0 <= i < ops.len() ==> #[trigger] a[i] == b[i],
    ensures
        after_answers(rules, ops, a) == after_answers(rules, ops, b),
        forall|ok: bool| #[trigger] count(ops, a, ok) == count(ops, b, ok),
    decreases ops.len(),
{
    if ops.len() > 0 {
        answers_read_alike(rules, ops.drop_last(), a, b);
        assert(a[ops.len() - 1] == b[ops.len() - 1]);
        assert forall|ok: bool| #[trigger] count(ops, a, ok) == count(ops, b, ok) by {
            assert(count(ops.drop_last(), a, ok) == count(ops.drop_last(), b, ok));
        }
    }
}

/// Operations are carried out one after another, each on what the ones before
/// it left.
pub proof fn operations_follow_one_another(
    rules: Seq<ActualRule>,
    ops: Seq<ReconciliationOperation>,
    answers: Seq<ActionResult>,
    op: ReconciliationOperation,
    answer: ActionResult,
)
    requires
        answers.len() == ops.len(),
    ensures
        ops.len() == 0 ==> after_answers(rules, ops, answers) == rules,
        after_answers(rules, ops.push(op), answers.push(answer)) == after_answer(
            after_answers(rules, ops, answers),
            op,
            answer,
        ),
{
    assert(ops.push(op).drop_last() =~= ops);
    answers_read_alike(rules, ops, answers, answers.push(answer));
}

/// Every update and every removal counts once: as done where the executor
/// applied it or had nothing to do, as failed otherwise. Nothing has failed
/// exactly where each of them was granted.
pub proof fn every_step_counts_once(ops: Seq<ReconciliationOperation>, answers: Seq<ActionResult>)
    requires
        answers.len() >= ops.len(),
    ensures
        count(ops, answers, true) + count(ops, answers, false) <= ops.len(),
        (forall|i: int| 0 <= i < ops.len() ==> (#[trigger] ops[i]) is UpdatePolicy || ops[i] is RemovePolicy) ==> count(
            ops,
            answers,
            true,
        ) + count(ops, answers, false) == ops.len(),
        count(ops, answers, false) == 0 <==> forall|i: int|
            0 <= i < ops.len() && ((#[trigger] ops[i]) is UpdatePolicy || ops[i] is RemovePolicy) ==> answers[i] is Applied
                || answers[i] is AlreadyApplied,
        count(ops, answers, true) == 0 <==> forall|i: int|
            0 <= i < ops.len() && ((#[trigger] ops[i]) is UpdatePolicy || ops[i] is RemovePolicy) ==> answers[i] is Failed
                || answers[i] is Unsupported,
    decreases ops.len(),
{
    if ops.len() > 0 {
        let front = ops.drop_last();
        every_step_counts_once(front, answers);
        let n = ops.len() - 1;
        assert(ops[n] == ops.last());
        assert forall|i: int| 0 <= i < front.len() implies #[trigger] front[i] == ops[i] by {}
        if count(front, answers, false) == 0 {
            assert forall|i: int| 0 <= i < n && ((#[trigger] ops[i]) is UpdatePolicy || ops[i] is RemovePolicy) implies
                answers[i] is Applied || answers[i] is AlreadyApplied by {
                assert(front[i] == ops[i]);
            }
        } else {
            let i = choose|i: int|
                0 <= i < front.len() && ((#[trigger] front[i]) is UpdatePolicy || front[i] is RemovePolicy) && !(
                answers[i] is Applied || answers[i] is AlreadyApplied);
            assert(ops[i] == front[i]);
        }
        if count(front, answers, true) == 0 {
            assert forall|i: int| 0 <= i < n && ((#[trigger] ops[i]) is UpdatePolicy || ops[i] is RemovePolicy) implies
                answers[i] is Failed || answers[i] is Unsupported by {
                assert(front[i] == ops[i]);
            }
        } else {
            let i = choose|i: int|
                0 <= i < front.len() && ((#[trigger] front[i]) is UpdatePolicy || front[i] is RemovePolicy) && !(
                answers[i] is Failed || answers[i] is Unsupported);
            assert(ops[i] == front[i]);
        }
        if forall|i: int| 0 <= i < ops.len() ==> (#[trigger] ops[i]) is UpdatePolicy || ops[i] is RemovePolicy {
            assert forall|i: int| 0 <= i < front.len() implies (#[trigger] front[i]) is UpdatePolicy
                || front[i] is RemovePolicy by {
                assert(ops[i] == front[i]);
            }
        }
    }
}

/// A refusal is reported in the executor's own words, where it has any.
pub proof fn refusals_are_told(code: u32, message: Option<String>, kind: ActionType)
    ensures
        message matches Some(m) ==> refusal(ActionResult::Failed { code, message }) == m@,
        message is None ==> refusal(ActionResult::Failed { code, message }) == "rule failed"@,
        refusal(ActionResult::Unsupported { action_type: kind }) == "unexpected result: Unsupported { action_type: "@
            + kind_text(kind) + " }"@,
{
}

/// A rollback has the rules that were added removed in the order in which they
/// are in force.
pub proof fn rollbacks_keep_the_order(first: Seq<ActualRule>, second: Seq<ActualRule>, snapshot: Seq<ActualRule>)
    ensures
        added_since(first + second, snapshot) == added_since(first, snapshot) + added_since(second, snapshot),
        second.len() == 1 && (forall|i: int| 0 <= i < snapshot.len() ==> (#[trigger] snapshot[i]).id != second[0].id)
            ==> added_since(second, snapshot) == seq![second[0].id],
        second.len() == 1 && (exists|i: int| 0 <= i < snapshot.len() && (#[trigger] snapshot[i]).id == second[0].id)
            ==> added_since(second, snapshot).len() == 0,
    decreases second.len(),
{
    if second.len() == 0 {
        assert(first + second =~= first);
        assert(added_since(first, snapshot) + added_since(second, snapshot) =~= added_since(first, snapshot));
    } else {
        let front = second.drop_last();
        rollbacks_keep_the_order(first, front, snapshot);
        assert((first + second).drop_last() =~= first + front);
        assert((first + second).last() == second.last());
        assert(added_since(first + second, snapshot) =~= added_since(first, snapshot) + added_since(
            second,
            snapshot,
        ));
        if second.len() == 1 {
            assert(added_since(front, snapshot).len() == 0);
        }
    }
}

} // verus!
