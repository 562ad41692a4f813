//! A plan that is granted brings what is in force to what is wanted.
use vstd::prelude::*;

use crate::model::{Action, ActionResult, ActualRule, DesiredRule};
use crate::reconciliation::plan::ReconciliationOperation;

verus! {

/// The action with which a rule is in force after operations, given the one
/// before.
spec fn effect(ops: Seq<ReconciliationOperation>, id: u32, start: Option<Action>) -> Option<Action>
    decreases ops.len(),
{
    if ops.len() == 0 {
        start
    } else {
        match ops.last() {
            ReconciliationOperation::UpdatePolicy(rule) if rule.id == id => Some(rule.action),
            ReconciliationOperation::RemovePolicy(gone) if gone == id => None,
            _ => effect(ops.drop_last(), id, start),
        }
    }
}

proof fn action_in_prefix(rules: Seq<ActualRule>, id: u32)
    requires
        rules.len() > 0,
    ensures
        crate::reconciliation::diff::action_in(rules, id) == match crate::reconciliation::diff::action_in(
            rules.drop_last(),
            id,
        ) {
            Some(a) => Some(a),
            None => if rules.last().id == id { Some(rules.last().action) } else { None },
        },
    decreases rules.len(),
{
    reveal_with_fuel(crate::reconciliation::diff::action_in, 2);
    if rules.len() > 1 && rules[0].id != id {
        action_in_prefix(rules.skip(1), id);
        assert(rules.skip(1).drop_last() =~= rules.drop_last().skip(1));
    }
}

proof fn removing(rules: Seq<ActualRule>, gone: u32, id: u32)
    ensures
        crate::reconciliation::diff::action_in(crate::reconciliation::adapters::without_id(rules, gone), id)
            == if id == gone { None } else { crate::reconciliation::diff::action_in(rules, id) },
    decreases rules.len(),
{
    if rules.len() > 0 {
        removing(rules.drop_last(), gone, id);
        action_in_prefix(rules, id);
        let rest = crate::reconciliation::adapters::without_id(rules.drop_last(), gone);
        if rules.last().id != gone {
            action_in_prefix(rest.push(rules.last()), id);
            assert(rest.push(rules.last()).drop_last() =~= rest);
        }
    }
}

/// Every answer grants what was asked for, and says so by applying it.
pub open spec fn all_applied(ops: Seq<ReconciliationOperation>, answers: Seq<ActionResult>) -> bool {
    answers.len() == ops.len() && forall|i: int| 0 <= i < answers.len() ==> (#[trigger] answers[i]) is Applied
}

proof fn effect_of_answers(
    rules: Seq<ActualRule>,
    ops: Seq<ReconciliationOperation>,
    answers: Seq<ActionResult>,
    id: u32,
)
    requires
        answers.len() >= ops.len(),
        forall|i: int| 0 <= i < ops.len() ==> (#[trigger] answers[i]) is Applied,
    ensures
        crate::reconciliation::diff::action_in(
            crate::reconciliation::adapters::after_answers(rules, ops, answers),
            id,
        ) == effect(ops, id, crate::reconciliation::diff::action_in(rules, id)),
    decreases ops.len(),
{
    if ops.len() > 0 {
        effect_of_answers(rules, ops.drop_last(), answers, id);
        let before = crate::reconciliation::adapters::after_answers(rules, ops.drop_last(), answers);
        assert(answers[ops.len() - 1] is Applied);
        match ops.last() {
            ReconciliationOperation::UpdatePolicy(rule) => {
                removing(before, rule.id, id);
                let rest = crate::reconciliation::adapters::without_id(before, rule.id);
                let after = crate::reconciliation::adapters::after_answers(rules, ops, answers);
                action_in_prefix(after, id);
                assert(after.drop_last() =~= rest);
            },
            ReconciliationOperation::RemovePolicy(gone) => {
                removing(before, gone, id);
            },
            _ => {},
        }
    }
}

proof fn effect_of_updates(rules: Seq<DesiredRule>, actual: Seq<ActualRule>, id: u32, start: Option<Action>)
    requires
        forall|i: int, j: int| 0 <= i < j < rules.len() ==> (#[trigger] rules[i]).id != (#[trigger] rules[j]).id,
    ensures
        forall|i: int| 0 <= i < rules.len() && (#[trigger] rules[i]).id == id ==> effect(
            crate::reconciliation::diff::updates(rules, actual),
            id,
            start,
        ) == if crate::reconciliation::diff::action_in(actual, id) == Some(rules[i].action) {
            start
        } else {
            Some(rules[i].action)
        },
        !crate::reconciliation::diff::wanted(rules, id) ==> effect(
            crate::reconciliation::diff::updates(rules, actual),
            id,
            start,
        ) == start,
    decreases rules.len(),
{
    if rules.len() > 0 {
        let front = rules.drop_last();
        let ops = crate::reconciliation::diff::updates(front, actual);
        assert forall|i: int, j: int| 0 <= i < j < front.len() implies (#[trigger] front[i]).id != (
        #[trigger] front[j]).id by {
            assert(rules[i].id != rules[j].id);
        }
        effect_of_updates(front, actual, id, start);
        let all = crate::reconciliation::diff::updates(rules, actual);
        let op = ReconciliationOperation::UpdatePolicy(rules.last());
        assert(ops.push(op).drop_last() =~= ops);
        if rules.last().id == id {
            if crate::reconciliation::diff::wanted(front, id) {
                let k = choose|k: int| 0 <= k < front.len() && (#[trigger] front[k]).id == id;
                assert(rules[k].id != rules[rules.len() - 1].id);
            }
            assert(effect(ops, id, start) == start);
        }
        assert forall|i: int| 0 <= i < rules.len() && (#[trigger] rules[i]).id == id implies effect(all, id, start)
            == if crate::reconciliation::diff::action_in(actual, id) == Some(rules[i].action) {
            start
        } else {
            Some(rules[i].action)
        } by {
            if i < front.len() {
                assert(front[i] == rules[i]);
                assert(rules[i].id != rules[rules.len() - 1].id);
            }
        }
        if !crate::reconciliation::diff::wanted(rules, id) {
            if crate::reconciliation::diff::wanted(front, id) {
                let k = choose|k: int| 0 <= k < front.len() && (#[trigger] front[k]).id == id;
                assert(rules[k].id == id);
            }
            assert(rules[rules.len() - 1].id != id);
        }
    }
}

proof fn effect_of_removals(
    ops: Seq<ReconciliationOperation>,
    actual: Seq<ActualRule>,
    rules: Seq<DesiredRule>,
    id: u32,
    start: Option<Action>,
)
    ensures
        effect(ops + crate::reconciliation::diff::removals(actual, rules), id, start)
            == if crate::reconciliation::diff::wanted(rules, id) || !crate::reconciliation::adapters::has_id(
            actual,
            id,
        ) {
            effect(ops, id, start)
        } else {
            None
        },
    decreases actual.len(),
{
    if actual.len() == 0 {
        assert(ops + crate::reconciliation::diff::removals(actual, rules) =~= ops);
    } else {
        let front = actual.drop_last();
        effect_of_removals(ops, front, rules, id, start);
        let part = ops + crate::reconciliation::diff::removals(front, rules);
        let all = ops + crate::reconciliation::diff::removals(actual, rules);
        assert(actual[actual.len() - 1] == actual.last());
        assert(crate::reconciliation::adapters::has_id(actual, id) <==> crate::reconciliation::adapters::has_id(
            front,
            id,
        ) || actual.last().id == id) by {
            if crate::reconciliation::adapters::has_id(front, id) {
                let k = choose|k: int| 0 <= k < front.len() && (#[trigger] front[k]).id == id;
                assert(actual[k].id == id);
            }
            if crate::reconciliation::adapters::has_id(actual, id) {
                let k = choose|k: int| 0 <= k < actual.len() && (#[trigger] actual[k]).id == id;
                if k < front.len() {
                    assert(front[k].id == id);
                }
            }
        }
        if crate::reconciliation::diff::wanted(rules, actual.last().id) {
            assert(all =~= part);
        } else {
            let op = ReconciliationOperation::RemovePolicy(actual.last().id);
            assert(all =~= part.push(op));
            assert(all.drop_last() =~= part);
        }
    }
}

proof fn present_has_action(rules: Seq<ActualRule>, id: u32)
    ensures
        crate::reconciliation::adapters::has_id(rules, id) <==> crate::reconciliation::diff::action_in(rules, id) is Some,
    decreases rules.len(),
{
    if rules.len() > 0 {
        let front = rules.drop_last();
        present_has_action(front, id);
        action_in_prefix(rules, id);
        assert(rules[rules.len() - 1] == rules.last());
        if crate::reconciliation::adapters::has_id(front, id) {
            let k = choose|k: int| 0 <= k < front.len() && (#[trigger] front[k]).id == id;
            assert(rules[k].id == id);
        }
        if crate::reconciliation::adapters::has_id(rules, id) {
            let k = choose|k: int| 0 <= k < rules.len() && (#[trigger] rules[k]).id == id;
            if k < front.len() {
                assert(front[k].id == id);
            }
        }
    }
}

/// Where no two wanted rules have the same id, a plan whose every step is
/// applied leaves nothing to do: what is in force is what is wanted.
pub proof fn applied_plans_converge(
    rules: Seq<DesiredRule>,
    actual: Seq<ActualRule>,
    answers: Seq<ActionResult>,
)
    requires
        forall|i: int, j: int| 0 <= i < j < rules.len() ==> (#[trigger] rules[i]).id != (#[trigger] rules[j]).id,
        all_applied(crate::reconciliation::diff::difference(rules, actual), answers),
    ensures
        crate::reconciliation::diff::difference(
            rules,
            crate::reconciliation::adapters::after_answers(
                actual,
                crate::reconciliation::diff::difference(rules, actual),
                answers,
            ),
        ).len() == 0,
{
    let ops = crate::reconciliation::diff::difference(rules, actual);
    let ups = crate::reconciliation::diff::updates(rules, actual);
    let after = crate::reconciliation::adapters::after_answers(actual, ops, answers);
    assert forall|i: int| 0 <= i < rules.len() implies crate::reconciliation::diff::action_in(
        after,
        (#[trigger] rules[i]).id,
    ) == Some(rules[i].action) by {
        let id = rules[i].id;
        let start = crate::reconciliation::diff::action_in(actual, id);
        effect_of_answers(actual, ops, answers, id);
        effect_of_removals(ups, actual, rules, id, start);
        effect_of_updates(rules, actual, id, start);
        assert(crate::reconciliation::diff::wanted(rules, id));
    }
    assert forall|i: int| 0 <= i < after.len() implies crate::reconciliation::diff::wanted(
        rules,
        (#[trigger] after[i]).id,
    ) by {
        let id = after[i].id;
        let start = crate::reconciliation::diff::action_in(actual, id);
        effect_of_answers(actual, ops, answers, id);
        effect_of_removals(ups, actual, rules, id, start);
        effect_of_updates(rules, actual, id, start);
        present_has_action(after, id);
        present_has_action(actual, id);
        assert(crate::reconciliation::adapters::has_id(after, id));
    }
    crate::reconciliation::diff::agreement_needs_nothing(rules, after);
}

/// Rules that an executor lists and that are not wanted are removed by the next
/// plan: what came into force without the daemon does not stay.
pub proof fn listed_rules_are_taken_over(rules: Seq<DesiredRule>, ids: Seq<u32>, i: int)
    requires
        0 <= i < ids.len(),
        !crate::reconciliation::diff::wanted(rules, ids[i]),
    ensures
        crate::reconciliation::diff::difference(rules, crate::reconciliation::reconciler::seeded(ids)).contains(
            ReconciliationOperation::RemovePolicy(ids[i]),
        ),
{
    let actual = crate::reconciliation::reconciler::seeded(ids);
    removal_is_planned(actual, rules, i);
    let ups = crate::reconciliation::diff::updates(rules, actual);
    let rem = crate::reconciliation::diff::removals(actual, rules);
    let op = ReconciliationOperation::RemovePolicy(ids[i]);
    let k = rem.index_of(op);
    assert((ups + rem)[ups.len() + k] == op);
}

proof fn removal_is_planned(actual: Seq<ActualRule>, rules: Seq<DesiredRule>, i: int)
    requires
        0 <= i < actual.len(),
        !crate::reconciliation::diff::wanted(rules, actual[i].id),
    ensures
        crate::reconciliation::diff::removals(actual, rules).contains(
            ReconciliationOperation::RemovePolicy(actual[i].id),
        ),
    decreases actual.len(),
{
    let op = ReconciliationOperation::RemovePolicy(actual[i].id);
    let front = crate::reconciliation::diff::removals(actual.drop_last(), rules);
    if i == actual.len() - 1 {
        crate::seqs::contains_after_push(front, op, op);
    } else {
        removal_is_planned(actual.drop_last(), rules, i);
        crate::seqs::contains_after_push(front, ReconciliationOperation::RemovePolicy(actual.last().id), op);
    }
}

} // verus!
