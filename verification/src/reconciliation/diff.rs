//! The difference between what is wanted and what is.
use vstd::prelude::*;

use crate::model::{Action, ActualRule, ActualState, DesiredRule, DesiredState};
use crate::reconciliation::plan::{ReconciliationOperation, ReconciliationPlan};

verus! {

/// The action of the first rule with an id.
pub open spec fn action_in(rules: Seq<ActualRule>, id: u32) -> Option<Action>
    decreases rules.len(),
{
    if rules.len() == 0 {
        None
    } else if rules[0].id == id {
        Some(rules[0].action)
    } else {
        action_in(rules.skip(1), id)
    }
}

/// Whether a rule with an id is wanted.
pub open spec fn wanted(rules: Seq<DesiredRule>, id: u32) -> bool {
    exists|i: int| 0 <= i < rules.len() && (#[trigger] rules[i]).id == id
}

/// The rules that have to be brought into force: those that are missing and
/// those with another action.
pub open spec fn updates(rules: Seq<DesiredRule>, actual: Seq<ActualRule>) -> Seq<ReconciliationOperation>
    decreases rules.len(),
{
    if rules.len() == 0 {
        Seq::empty()
    } else {
        let front = updates(rules.drop_last(), actual);
        let rule = rules.last();
        if action_in(actual, rule.id) == Some(rule.action) {
            front
        } else {
            front.push(ReconciliationOperation::UpdatePolicy(rule))
        }
    }
}

/// The rules that have to go: those that are not wanted.
pub open spec fn removals(actual: Seq<ActualRule>, rules: Seq<DesiredRule>) -> Seq<ReconciliationOperation>
    decreases actual.len(),
{
    if actual.len() == 0 {
        Seq::empty()
    } else {
        let front = removals(actual.drop_last(), rules);
        if wanted(rules, actual.last().id) {
            front
        } else {
            front.push(ReconciliationOperation::RemovePolicy(actual.last().id))
        }
    }
}

/// What has to be done so that what is becomes what is wanted.
pub open spec fn difference(rules: Seq<DesiredRule>, actual: Seq<ActualRule>) -> Seq<ReconciliationOperation> {
    updates(rules, actual) + removals(actual, rules)
}

fn find_action(rules: &Vec<ActualRule>, id: u32) -> (r: Option<Action>)
    ensures
        r == action_in(rules@, id),
{
    let mut i: usize = 0;
    assert(rules@.skip(0) =~= rules@);
    while i < rules.len()
        invariant
            i <= rules@.len(),
            action_in(rules@, id) == action_in(rules@.skip(i as int), id),
        decreases rules.len() - i,
    {
        assert(rules@.skip(i as int)[0] == rules@[i as int]);
        assert(rules@.skip(i as int).skip(1) =~= rules@.skip(i as int + 1));
        if rules[i].id == id {
            return Some(rules[i].action);
        }
        i += 1;
    }
    None
}

fn is_wanted(rules: &Vec<DesiredRule>, id: u32) -> (r: bool)
    ensures
        r == wanted(rules@, id),
{
    let mut i: usize = 0;
    while i < rules.len()
        invariant
            i <= rules@.len(),
            forall|k: int| 0 <= k < i ==> (#[trigger] rules@[k]).id != id,
        decreases rules.len() - i,
    {
        if rules[i].id == id {
            return true;
        }
        i += 1;
    }
    false
}

/// Finds the difference between what is wanted and what is.
pub struct StateDiff;

impl StateDiff {
    /// What has to be done so that what is becomes what is wanted.
    pub fn build(desired: &DesiredState, actual: &ActualState) -> (r: ReconciliationPlan)
        ensures
            r.operations@ == difference(desired.rules@, actual.active_rules@),
    {
        let ghost rules = desired.rules@;
        let ghost active = actual.active_rules@;
        let mut ops: Vec<ReconciliationOperation> = Vec::new();
        let mut i: usize = 0;
        assert(rules.take(0) =~= Seq::<DesiredRule>::empty());
        while i < desired.rules.len()
            invariant
                i <= rules.len(),
                rules == desired.rules@,
                active == actual.active_rules@,
                ops@ == updates(rules.take(i as int), active),
            decreases desired.rules.len() - i,
        {
            assert(rules.take(i as int + 1).drop_last() =~= rules.take(i as int));
            let rule = &desired.rules[i];
            let same = match find_action(&actual.active_rules, rule.id) {
                Some(action) => action == rule.action,
                None => false,
            };
            if !same {
                ops.push(ReconciliationOperation::UpdatePolicy(rule.duplicate()));
            }
            i += 1;
        }
        assert(rules.take(i as int) =~= rules);
        let ghost first = ops@;
        let mut j: usize = 0;
        assert(active.take(0) =~= Seq::<ActualRule>::empty());
        assert(ops@ =~= first + removals(active.take(0), rules));
        while j < actual.active_rules.len()
            invariant
                j <= active.len(),
                rules == desired.rules@,
                active == actual.active_rules@,
                ops@ == first + removals(active.take(j as int), rules),
            decreases actual.active_rules.len() - j,
        {
            assert(active.take(j as int + 1).drop_last() =~= active.take(j as int));
            let id = actual.active_rules[j].id;
            if !is_wanted(&desired.rules, id) {
                ops.push(ReconciliationOperation::RemovePolicy(id));
            }
            assert(ops@ =~= first + removals(active.take(j as int + 1), rules));
            j += 1;
        }
        assert(active.take(j as int) =~= active);
        ReconciliationPlan::new(ops)
    }
}

proof fn consistent_rules_need_no_update(rules: Seq<DesiredRule>, actual: Seq<ActualRule>)
    requires
        forall|i: int| 0 <= i < rules.len() ==> action_in(actual, (#[trigger] rules[i]).id) == Some(rules[i].action),
    ensures
        updates(rules, actual).len() == 0,
    decreases rules.len(),
{
    if rules.len() > 0 {
        let front = rules.drop_last();
        assert forall|i: int| 0 <= i < front.len() implies action_in(actual, (#[trigger] front[i]).id) == Some(
            front[i].action,
        ) by {
            assert(front[i] == rules[i]);
        }
        consistent_rules_need_no_update(front, actual);
        assert(rules[rules.len() - 1] == rules.last());
    }
}

proof fn wanted_rules_stay(actual: Seq<ActualRule>, rules: Seq<DesiredRule>)
    requires
        forall|i: int| 0 <= i < actual.len() ==> wanted(rules, (#[trigger] actual[i]).id),
    ensures
        removals(actual, rules).len() == 0,
    decreases actual.len(),
{
    if actual.len() > 0 {
        let front = actual.drop_last();
        assert forall|i: int| 0 <= i < front.len() implies wanted(rules, (#[trigger] front[i]).id) by {
            assert(front[i] == actual[i]);
        }
        wanted_rules_stay(front, rules);
        assert(actual[actual.len() - 1] == actual.last());
    }
}

/// Where each wanted rule is in force with its action, and nothing else is in
/// force, there is nothing to do.
pub proof fn agreement_needs_nothing(rules: Seq<DesiredRule>, actual: Seq<ActualRule>)
    requires
        forall|i: int| 0 <= i < rules.len() ==> action_in(actual, (#[trigger] rules[i]).id) == Some(rules[i].action),
        forall|i: int| 0 <= i < actual.len() ==> wanted(rules, (#[trigger] actual[i]).id),
    ensures
        difference(rules, actual).len() == 0,
{
    consistent_rules_need_no_update(rules, actual);
    wanted_rules_stay(actual, rules);
}

proof fn action_of_the_first(actual: Seq<ActualRule>, id: u32)
    ensures
        forall|j: int|
            0 <= j < actual.len() && (#[trigger] actual[j]).id == id && (forall|k: int|
                0 <= k < j ==> (#[trigger] actual[k]).id != id) ==> action_in(actual, id) == Some(actual[j].action),
        action_in(actual, id) is Some ==> exists|j: int|
            0 <= j < actual.len() && (#[trigger] actual[j]).id == id && actual[j].action == action_in(actual, id)->0
                && forall|k: int| 0 <= k < j ==> (#[trigger] actual[k]).id != id,
    decreases actual.len(),
{
    if actual.len() > 0 {
        let rest = actual.skip(1);
        action_of_the_first(rest, id);
        if actual[0].id != id {
            assert forall|j: int|
                0 <= j < actual.len() && (#[trigger] actual[j]).id == id && (forall|k: int|
                    0 <= k < j ==> (#[trigger] actual[k]).id != id) implies action_in(actual, id) == Some(
                actual[j].action,
            ) by {
                assert(rest[j - 1] == actual[j]);
                assert forall|k: int| 0 <= k < j - 1 implies (#[trigger] rest[k]).id != id by {
                    assert(rest[k] == actual[k + 1]);
                }
            }
            if action_in(actual, id) is Some {
                let j = choose|j: int|
                    0 <= j < rest.len() && (#[trigger] rest[j]).id == id && rest[j].action == action_in(rest, id)->0
                        && forall|k: int| 0 <= k < j ==> (#[trigger] rest[k]).id != id;
                assert(actual[j + 1] == rest[j]);
                assert forall|k: int| 0 <= k < j + 1 implies (#[trigger] actual[k]).id != id by {
                    if k > 0 {
                        assert(actual[k] == rest[k - 1]);
                    }
                }
            }
        } else {
            assert(actual[0].id == id);
        }
    }
}

proof fn planned_updates(rules: Seq<DesiredRule>, actual: Seq<ActualRule>, op: ReconciliationOperation)
    ensures
        updates(rules, actual).contains(op) <==> exists|i: int|
            0 <= i < rules.len() && op == ReconciliationOperation::UpdatePolicy(#[trigger] rules[i]) && action_in(
                actual,
                rules[i].id,
            ) != Some(rules[i].action),
    decreases rules.len(),
{
    if rules.len() > 0 {
        let front = rules.drop_last();
        planned_updates(front, actual, op);
        crate::seqs::contains_after_push(
            updates(front, actual),
            ReconciliationOperation::UpdatePolicy(rules.last()),
            op,
        );
        assert(rules[rules.len() - 1] == rules.last());
        assert forall|i: int| 0 <= i < front.len() implies #[trigger] front[i] == rules[i] by {}
        if exists|i: int|
            0 <= i < rules.len() && op == ReconciliationOperation::UpdatePolicy(#[trigger] rules[i]) && action_in(
                actual,
                rules[i].id,
            ) != Some(rules[i].action) {
            let i = choose|i: int|
                0 <= i < rules.len() && op == ReconciliationOperation::UpdatePolicy(#[trigger] rules[i]) && action_in(
                    actual,
                    rules[i].id,
                ) != Some(rules[i].action);
            if i < front.len() {
                assert(front[i] == rules[i]);
            }
        }
    }
}

proof fn planned_removals(actual: Seq<ActualRule>, rules: Seq<DesiredRule>, op: ReconciliationOperation)
    ensures
        removals(actual, rules).contains(op) <==> exists|j: int|
            0 <= j < actual.len() && op == ReconciliationOperation::RemovePolicy((#[trigger] actual[j]).id) && !wanted(
                rules,
                actual[j].id,
            ),
    decreases actual.len(),
{
    if actual.len() > 0 {
        let front = actual.drop_last();
        planned_removals(front, rules, op);
        crate::seqs::contains_after_push(
            removals(front, rules),
            ReconciliationOperation::RemovePolicy(actual.last().id),
            op,
        );
        assert(actual[actual.len() - 1] == actual.last());
        assert forall|i: int| 0 <= i < front.len() implies #[trigger] front[i] == actual[i] by {}
        if exists|j: int|
            0 <= j < actual.len() && op == ReconciliationOperation::RemovePolicy((#[trigger] actual[j]).id) && !wanted(
                rules,
                actual[j].id,
            ) {
            let j = choose|j: int|
                0 <= j < actual.len() && op == ReconciliationOperation::RemovePolicy((#[trigger] actual[j]).id)
                    && !wanted(rules, actual[j].id);
            if j < front.len() {
                assert(front[j] == actual[j]);
            }
        }
    }
}

proof fn difference_holds(rules: Seq<DesiredRule>, actual: Seq<ActualRule>, op: ReconciliationOperation)
    ensures
        difference(rules, actual).contains(op) <==> updates(rules, actual).contains(op) || removals(
            actual,
            rules,
        ).contains(op),
{
    let u = updates(rules, actual);
    let r = removals(actual, rules);
    let d = difference(rules, actual);
    if u.contains(op) {
        assert(d[u.index_of(op)] == op);
    }
    if r.contains(op) {
        assert(d[u.len() + r.index_of(op)] == op);
    }
    if d.contains(op) {
        let k = d.index_of(op);
        if k < u.len() {
            assert(u[k] == op);
        } else {
            assert(r[k - u.len()] == op);
        }
    }
}

/// A plan brings each wanted rule that is missing, or in force with another
/// action, into force exactly as it is wanted: with its id, its action, its
/// priority and its flow.
pub proof fn wanted_rules_are_carried_unchanged(rules: Seq<DesiredRule>, actual: Seq<ActualRule>, i: int)
    requires
        0 <= i < rules.len(),
    ensures
        (forall|j: int| 0 <= j < actual.len() ==> (#[trigger] actual[j]).id != rules[i].id) ==> difference(
            rules,
            actual,
        ).contains(ReconciliationOperation::UpdatePolicy(rules[i])),
        (forall|j: int|
            0 <= j < actual.len() && (#[trigger] actual[j]).id == rules[i].id ==> actual[j].action != rules[i].action)
            ==> difference(rules, actual).contains(ReconciliationOperation::UpdatePolicy(rules[i])),
        (exists|j: int|
            0 <= j < actual.len() && (#[trigger] actual[j]).id == rules[i].id && actual[j].action != rules[i].action
                && forall|k: int| 0 <= k < j ==> (#[trigger] actual[k]).id != rules[i].id) ==> difference(
            rules,
            actual,
        ).contains(ReconciliationOperation::UpdatePolicy(rules[i])),
{
    let op = ReconciliationOperation::UpdatePolicy(rules[i]);
    action_of_the_first(actual, rules[i].id);
    planned_updates(rules, actual, op);
    difference_holds(rules, actual, op);
}

/// A plan holds nothing but wanted rules that are not in force with their
/// action, as they are wanted, and the ids of rules that are in force and not
/// wanted.
pub proof fn plans_hold_nothing_else(rules: Seq<DesiredRule>, actual: Seq<ActualRule>, k: int)
    requires
        0 <= k < difference(rules, actual).len(),
    ensures
        match difference(rules, actual)[k] {
            ReconciliationOperation::UpdatePolicy(rule) => rules.contains(rule) && forall|j: int|
                0 <= j < actual.len() && (#[trigger] actual[j]).id == rule.id && (forall|n: int|
                    0 <= n < j ==> (#[trigger] actual[n]).id != rule.id) ==> actual[j].action != rule.action,
            ReconciliationOperation::RemovePolicy(id) => (exists|j: int|
                0 <= j < actual.len() && (#[trigger] actual[j]).id == id) && forall|i: int|
                0 <= i < rules.len() ==> (#[trigger] rules[i]).id != id,
            _ => false,
        },
{
    let op = difference(rules, actual)[k];
    planned_updates(rules, actual, op);
    planned_removals(actual, rules, op);
    difference_holds(rules, actual, op);
    match op {
        ReconciliationOperation::UpdatePolicy(rule) => {
            action_of_the_first(actual, rule.id);
        },
        _ => {},
    }
}

/// A plan removes every rule that is in force and not wanted.
pub proof fn unwanted_rules_are_removed(rules: Seq<DesiredRule>, actual: Seq<ActualRule>, j: int)
    requires
        0 <= j < actual.len(),
        forall|i: int| 0 <= i < rules.len() ==> (#[trigger] rules[i]).id != actual[j].id,
    ensures
        difference(rules, actual).contains(ReconciliationOperation::RemovePolicy(actual[j].id)),
{
    let op = ReconciliationOperation::RemovePolicy(actual[j].id);
    planned_removals(actual, rules, op);
    difference_holds(rules, actual, op);
}

proof fn operations_are_distinct(rules: Seq<DesiredRule>, actual: Seq<ActualRule>)
    requires
        forall|i: int, k: int| 0 <= i < k < rules.len() ==> (#[trigger] rules[i]).id != (#[trigger] rules[k]).id,
        forall|i: int, k: int| 0 <= i < k < actual.len() ==> (#[trigger] actual[i]).id != (#[trigger] actual[k]).id,
    ensures
        updates(rules, actual).no_duplicates(),
        removals(actual, rules).no_duplicates(),
    decreases rules.len() + actual.len(),
{
    if rules.len() > 0 {
        let front = rules.drop_last();
        operations_are_distinct(front, actual);
        planned_updates(front, actual, ReconciliationOperation::UpdatePolicy(rules.last()));
        assert forall|i: int| 0 <= i < front.len() implies #[trigger] front[i] != rules.last() by {
            assert(front[i] == rules[i]);
            assert(rules[rules.len() - 1] == rules.last());
        }
    }
    if actual.len() > 0 {
        let front = actual.drop_last();
        operations_are_distinct(rules, front);
        planned_removals(front, rules, ReconciliationOperation::RemovePolicy(actual.last().id));
        assert forall|i: int| 0 <= i < front.len() implies (#[trigger] front[i]).id != actual.last().id by {
            assert(front[i] == actual[i]);
            assert(actual[actual.len() - 1] == actual.last());
        }
    }
}

/// Where no id occurs twice, a plan holds no operation twice, and nothing is
/// removed before everything is brought into force.
pub proof fn plans_are_in_order(rules: Seq<DesiredRule>, actual: Seq<ActualRule>)
    requires
        forall|i: int, k: int| 0 <= i < k < rules.len() ==> (#[trigger] rules[i]).id != (#[trigger] rules[k]).id,
        forall|i: int, k: int| 0 <= i < k < actual.len() ==> (#[trigger] actual[i]).id != (#[trigger] actual[k]).id,
    ensures
        difference(rules, actual).no_duplicates(),
        forall|a: int, b: int|
            0 <= a < b < difference(rules, actual).len() && (#[trigger] difference(rules, actual)[a]) is RemovePolicy
                ==> (#[trigger] difference(rules, actual)[b]) is RemovePolicy,
{
    operations_are_distinct(rules, actual);
    let u = updates(rules, actual);
    let r = removals(actual, rules);
    let d = difference(rules, actual);
    assert forall|k: int| 0 <= k < u.len() implies (#[trigger] u[k]) is UpdatePolicy && d[k] == u[k] by {
        planned_updates(rules, actual, u[k]);
        assert(u.contains(u[k]));
    }
    assert forall|k: int| 0 <= k < r.len() implies (#[trigger] r[k]) is RemovePolicy && d[u.len() + k] == r[k] by {
        planned_removals(actual, rules, r[k]);
        assert(r.contains(r[k]));
    }
    assert forall|a: int, b: int| 0 <= a < d.len() && 0 <= b < d.len() && a != b implies d[a] != d[b] by {
        if a >= u.len() {
            assert(d[a] == r[a - u.len()]);
        } else {
            assert(d[a] == u[a]);
        }
        if b >= u.len() {
            assert(d[b] == r[b - u.len()]);
        } else {
            assert(d[b] == u[b]);
        }
    }
    assert forall|a: int, b: int| 0 <= a < b < d.len() && (#[trigger] d[a]) is RemovePolicy implies (
    #[trigger] d[b]) is RemovePolicy by {
        if b < u.len() {
            assert(d[a] == u[a]);
        } else {
            assert(d[b] == r[b - u.len()]);
        }
    }
}

proof fn updates_keep_order(rules: Seq<DesiredRule>, actual: Seq<ActualRule>, a: int, b: int)
    requires
        forall|i: int, k: int| 0 <= i < k < rules.len() ==> (#[trigger] rules[i]).id != (#[trigger] rules[k]).id,
        0 <= a < b < updates(rules, actual).len(),
    ensures
        exists|i: int, k: int|
            0 <= i < k < rules.len() && updates(rules, actual)[a] == ReconciliationOperation::UpdatePolicy(
                #[trigger] rules[i],
            ) && updates(rules, actual)[b] == ReconciliationOperation::UpdatePolicy(#[trigger] rules[k]),
    decreases rules.len(),
{
    let front = rules.drop_last();
    let u = updates(front, actual);
    if b < u.len() {
        updates_keep_order(front, actual, a, b);
        let (i, k) = choose|i: int, k: int|
            0 <= i < k < front.len() && u[a] == ReconciliationOperation::UpdatePolicy(#[trigger] front[i]) && u[b]
                == ReconciliationOperation::UpdatePolicy(#[trigger] front[k]);
        assert(front[i] == rules[i] && front[k] == rules[k]);
    } else {
        planned_updates(front, actual, u[a]);
        assert(u.contains(u[a]));
        let i = choose|i: int|
            0 <= i < front.len() && u[a] == ReconciliationOperation::UpdatePolicy(#[trigger] front[i]) && action_in(
                actual,
                front[i].id,
            ) != Some(front[i].action);
        assert(front[i] == rules[i]);
        assert(rules[rules.len() - 1] == rules.last());
    }
}

/// Rules are brought into force in the order in which they are wanted.
pub proof fn updates_come_in_the_wanted_order(rules: Seq<DesiredRule>, actual: Seq<ActualRule>, a: int, b: int)
    requires
        forall|i: int, k: int| 0 <= i < k < rules.len() ==> (#[trigger] rules[i]).id != (#[trigger] rules[k]).id,
        0 <= a < b < difference(rules, actual).len(),
        difference(rules, actual)[b] is UpdatePolicy,
    ensures
        exists|i: int, k: int|
            0 <= i < k < rules.len() && difference(rules, actual)[a] == ReconciliationOperation::UpdatePolicy(
                #[trigger] rules[i],
            ) && difference(rules, actual)[b] == ReconciliationOperation::UpdatePolicy(#[trigger] rules[k]),
{
    let u = updates(rules, actual);
    let r = removals(actual, rules);
    let d = difference(rules, actual);
    if b >= u.len() {
        assert(d[b] == r[b - u.len()]);
        assert(r.contains(d[b]));
        planned_removals(actual, rules, d[b]);
    }
    assert(d[a] == u[a] && d[b] == u[b]);
    updates_keep_order(rules, actual, a, b);
}

} // verus!
