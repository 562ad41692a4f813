//! The loop that keeps what is in force at what is wanted.
//!
//! A cycle compares what is wanted with what is in force, has the difference
//! carried out, and keeps the result; where a step is refused, what is known is
//! taken back to where it was.
use vstd::prelude::*;
use vstd::string::*;

use crate::model::{Action, ActionResult, ActualRule, ActualState, DesiredRule, DesiredState, DriverId, FlowCriteria};
use crate::net::IpAddr;
use crate::reconciliation::adapters::{execute, rollback};
use crate::reconciliation::diff::StateDiff;
use crate::reconciliation::dns_flow::FlowCompiler;
use crate::reconciliation::error::ReconciliationError;
use crate::reconciliation::plan::ReconciliationPlan;
use crate::text::{decimal_of, same_text};

verus! {

/// How often what is done.
#[derive(Debug, Clone, Copy, PartialEq, Eq, Structural)]
pub struct ReconcilerConfig {
    pub check_interval_secs: u64,
    pub max_retries: u32,
    pub retry_delay_secs: u64,
    pub watchdog_timeout_secs: u64,
    pub atomic_rollback: bool,
    /// After how many cycles the executor is asked again what is in force; zero
    /// means never.
    pub resync_every_n_cycles: u32,
    /// How often domains are looked up again; zero means never.
    pub dns_resync_interval_secs: u64,
}

impl Default for ReconcilerConfig {
    fn default() -> (r: ReconcilerConfig)
        ensures
            r == (ReconcilerConfig {
                check_interval_secs: 30,
                max_retries: 3,
                retry_delay_secs: 5,
                watchdog_timeout_secs: 30,
                atomic_rollback: true,
                resync_every_n_cycles: 3,
                dns_resync_interval_secs: 60,
            }),
    {
        ReconcilerConfig {
            check_interval_secs: 30,
            max_retries: 3,
            retry_delay_secs: 5,
            watchdog_timeout_secs: 30,
            atomic_rollback: true,
            resync_every_n_cycles: 3,
            dns_resync_interval_secs: 60,
        }
    }
}

/// The criteria of a flow, with the domain as text.
pub struct FlowText {
    pub src_ip: Option<IpAddr>,
    pub dst_ip: Option<IpAddr>,
    pub src_port: Option<u16>,
    pub dst_port: Option<u16>,
    pub protocol: Option<u8>,
    pub dst_domain: Option<Seq<char>>,
}

/// A rule, with the domain as text.
pub struct RuleText {
    pub id: u32,
    pub action: Action,
    pub priority: u32,
    pub flow: Option<FlowText>,
}

pub open spec fn flow_text(flow: Option<FlowCriteria>) -> Option<FlowText> {
    match flow {
        Some(f) => Some(
            FlowText {
                src_ip: f.src_ip,
                dst_ip: f.dst_ip,
                src_port: f.src_port,
                dst_port: f.dst_port,
                protocol: f.protocol,
                dst_domain: crate::text::text_of(f.dst_domain),
            },
        ),
        None => None,
    }
}

pub open spec fn rule_text(r: DesiredRule) -> RuleText {
    RuleText { id: r.id, action: r.action, priority: r.priority, flow: flow_text(r.flow) }
}

pub open spec fn rule_texts(v: Seq<DesiredRule>) -> Seq<RuleText> {
    Seq::new(v.len(), |i: int| rule_text(v[i]))
}

fn same_flow(a: &Option<FlowCriteria>, b: &Option<FlowCriteria>) -> (r: bool)
    ensures
        r == (flow_text(*a) == flow_text(*b)),
{
    match (a, b) {
        (Some(x), Some(y)) => {
            let domains = match (&x.dst_domain, &y.dst_domain) {
                (Some(d), Some(e)) => same_text(d.as_str(), e.as_str()),
                (None, None) => true,
                _ => false,
            };
            domains && x.src_ip == y.src_ip && x.dst_ip == y.dst_ip && x.src_port == y.src_port && x.dst_port
                == y.dst_port && x.protocol == y.protocol
        },
        (None, None) => true,
        _ => false,
    }
}

fn same_rules(a: &Vec<DesiredRule>, b: &Vec<DesiredRule>) -> (r: bool)
    ensures
        r == (rule_texts(a@) == rule_texts(b@)),
{
    if a.len() != b.len() {
        assert(rule_texts(a@).len() != rule_texts(b@).len());
        return false;
    }
    let mut i: usize = 0;
    while i < a.len()
        invariant
            i <= a@.len(),
            a@.len() == b@.len(),
            forall|k: int| 0 <= k < i ==> rule_text(#[trigger] a@[k]) == rule_text(b@[k]),
        decreases a.len() - i,
    {
        let same = a[i].id == b[i].id && a[i].action == b[i].action && a[i].priority == b[i].priority && same_flow(
            &a[i].flow,
            &b[i].flow,
        );
        assert(same == (rule_text(a@[i as int]) == rule_text(b@[i as int])));
        if !same {
            assert(rule_texts(a@)[i as int] != rule_texts(b@)[i as int]);
            return false;
        }
        i += 1;
    }
    assert(rule_texts(a@) =~= rule_texts(b@));
    true
}

fn same_drivers(a: &Vec<DriverId>, b: &Vec<DriverId>) -> (r: bool)
    ensures
        r == (a@ == b@),
{
    if a.len() != b.len() {
        return false;
    }
    let mut i: usize = 0;
    while i < a.len()
        invariant
            i <= a@.len(),
            a@.len() == b@.len(),
            forall|k: int| 0 <= k < i ==> a@[k] == b@[k],
        decreases a.len() - i,
    {
        if a[i] != b[i] {
            return false;
        }
        i += 1;
    }
    assert(a@ =~= b@);
    true
}

/// What rules compile to: themselves where there is no compiler.
pub open spec fn compiled_by(
    compiler: Option<FlowCompiler>,
    rules: Seq<DesiredRule>,
    now_ms: u64,
) -> Seq<DesiredRule> {
    match compiler {
        Some(c) => crate::reconciliation::dns_flow::compiled_rules(rules, c.registry, now_ms),
        None => rules,
    }
}

/// Whether two compilers know the same at a time.
pub open spec fn same_knowledge(a: Option<FlowCompiler>, b: Option<FlowCompiler>, now_ms: u64) -> bool {
    match (a, b) {
        (Some(x), Some(y)) => forall|d: Seq<char>| #[trigger]
            x.registry.known(d, now_ms) == y.registry.known(d, now_ms),
        (None, None) => true,
        _ => false,
    }
}

fn compile_with(compiler: &mut Option<FlowCompiler>, state: &DesiredState, now_ms: u64) -> (r: DesiredState)
    ensures
        r.rules@ == compiled_by(*old(compiler), state.rules@, now_ms),
        r.drivers@ == state.drivers@,
        crate::qos::wanted(r.qos@) == crate::qos::wanted(state.qos@),
        same_knowledge(*final(compiler), *old(compiler), now_ms),
{
    match compiler {
        Some(c) => c.compile(state, now_ms),
        None => state.duplicate(),
    }
}

/// Keeps what is in force at what is wanted.
pub struct Reconciler {
    /// What is wanted, without domains.
    pub desired: DesiredState,
    /// What is wanted, as it was written.
    pub desired_raw: Option<DesiredState>,
    /// What is known to be in force.
    pub actual: ActualState,
    pub config: ReconcilerConfig,
    pub flow_compiler: Option<FlowCompiler>,
    /// The fingerprint of what was last accepted.
    pub fingerprint: Option<u64>,
    /// How often what is in force was brought to what is wanted, from one.
    pub generation: u64,
}

/// A reload that is under way.
pub struct Reload {
    /// What was wanted before.
    pub prev: DesiredState,
    /// What is to be wanted, as it was written.
    pub raw: DesiredState,
    pub fingerprint: u64,
}

/// What is said of a plan that was not carried out whole.
pub open spec fn steps_failed(failed: nat, total: nat) -> Seq<char> {
    crate::text::decimal(failed) + " of "@ + crate::text::decimal(total) + " steps failed"@
}

/// The rules that an executor lists, with an action that stands for any.
pub open spec fn seeded(ids: Seq<u32>) -> Seq<ActualRule> {
    Seq::new(ids.len(), |i: int| ActualRule { id: ids[i], action: Action::Allow, rule_id: None, flow: None })
}

impl Reconciler {
    /// A reconciler that knows nothing to be in force.
    pub fn new(desired: DesiredState, config: ReconcilerConfig) -> (r: Self)
        ensures
            r.desired == desired,
            r.desired_raw is None,
            r.actual.active_rules@.len() == 0,
            r.config == config,
            r.flow_compiler is None,
            r.fingerprint is None,
            r.generation == 1,
    {
        Reconciler {
            desired,
            desired_raw: None,
            actual: ActualState::default(),
            config,
            flow_compiler: None,
            fingerprint: None,
            generation: 1,
        }
    }

    /// Want another state. Rules that name domains are compiled first, and what
    /// comes of that is what the fingerprint is taken of.
    pub fn set_desired<F: Fn(&DesiredState) -> u64>(&mut self, state: DesiredState, now_ms: u64, fingerprint: F)
        requires
            forall|s: &DesiredState| call_requires(fingerprint, (s,)),
        ensures
            final(self).desired.rules@ == compiled_by(old(self).flow_compiler, state.rules@, now_ms),
            final(self).desired.drivers@ == state.drivers@,
            crate::qos::wanted(final(self).desired.qos@) == crate::qos::wanted(state.qos@),
            final(self).desired_raw == Some(state),
            final(self).fingerprint matches Some(n) && call_ensures(fingerprint, (&final(self).desired,), n),
            final(self).actual == old(self).actual,
            final(self).config == old(self).config,
            final(self).generation == old(self).generation,
            same_knowledge(final(self).flow_compiler, old(self).flow_compiler, now_ms),
    {
        let compiled = compile_with(&mut self.flow_compiler, &state, now_ms);
        self.fingerprint = Some(fingerprint(&compiled));
        self.desired_raw = Some(state);
        self.desired = compiled;
    }

    /// Compile rules that name domains from now on.
    pub fn with_flow_compiler(&mut self, compiler: FlowCompiler)
        ensures
            final(self).flow_compiler == Some(compiler),
            final(self).desired == old(self).desired,
            final(self).desired_raw == old(self).desired_raw,
            final(self).actual == old(self).actual,
            final(self).config == old(self).config,
            final(self).fingerprint == old(self).fingerprint,
            final(self).generation == old(self).generation,
    {
        self.flow_compiler = Some(compiler);
    }

    /// The fingerprint of what was last accepted.
    pub fn config_fingerprint(&self) -> (r: Option<u64>)
        ensures
            r == self.fingerprint,
    {
        self.fingerprint
    }

    /// Begin to reload: the candidate is wanted, but not accepted yet. The
    /// fingerprint is taken of what comes of compiling it.
    pub fn begin_reload<F: Fn(&DesiredState) -> u64>(
        &mut self,
        candidate: DesiredState,
        now_ms: u64,
        fingerprint: F,
    ) -> (r: Reload)
        requires
            forall|s: &DesiredState| call_requires(fingerprint, (s,)),
        ensures
            final(self).desired.rules@ == compiled_by(old(self).flow_compiler, candidate.rules@, now_ms),
            final(self).desired.drivers@ == candidate.drivers@,
            crate::qos::wanted(final(self).desired.qos@) == crate::qos::wanted(candidate.qos@),
            r.prev == old(self).desired,
            r.raw == candidate,
            call_ensures(fingerprint, (&final(self).desired,), r.fingerprint),
            final(self).desired_raw == old(self).desired_raw,
            final(self).fingerprint == old(self).fingerprint,
            final(self).actual == old(self).actual,
            final(self).config == old(self).config,
            final(self).generation == old(self).generation,
            same_knowledge(final(self).flow_compiler, old(self).flow_compiler, now_ms),
    {
        let mut compiled = compile_with(&mut self.flow_compiler, &candidate, now_ms);
        let taken: u64 = fingerprint(&compiled);
        std::mem::swap(&mut compiled, &mut self.desired);
        Reload { prev: compiled, raw: candidate, fingerprint: taken }
    }

    /// End a reload, given how its cycle ended. Where it failed, what was wanted
    /// before is wanted again.
    pub fn finish_reload(&mut self, reload: Reload, outcome: Result<(), String>) -> (r: Result<(), ReconciliationError>)
        ensures
            outcome is Ok ==> r is Ok && final(self).desired == old(self).desired && final(self).desired_raw == Some(
                reload.raw,
            ) && final(self).fingerprint == Some(reload.fingerprint),
            outcome matches Err(m) ==> final(self).desired == reload.prev && final(self).desired_raw == old(self).desired_raw && final(self).fingerprint == old(self).fingerprint && r == Err::<(), ReconciliationError>(
                ReconciliationError::Reconcile(m),
            ),
            final(self).actual == old(self).actual,
            final(self).config == old(self).config,
            final(self).generation == old(self).generation,
            final(self).flow_compiler == old(self).flow_compiler,
    {
        match outcome {
            Ok(_) => {
                self.desired_raw = Some(reload.raw);
                self.fingerprint = Some(reload.fingerprint);
                Ok(())
            },
            Err(m) => {
                self.desired = reload.prev;
                Err(ReconciliationError::Reconcile(m))
            },
        }
    }

    /// A whole reload, given how its cycle ends. Either the candidate is
    /// accepted, or everything that is wanted is what it was.
    pub fn reload<F: Fn(&DesiredState) -> u64>(
        &mut self,
        candidate: DesiredState,
        now_ms: u64,
        fingerprint: F,
        outcome: Result<(), String>,
    ) -> (r: Result<(), ReconciliationError>)
        requires
            forall|s: &DesiredState| call_requires(fingerprint, (s,)),
        ensures
            r is Ok <==> outcome is Ok,
            outcome is Ok ==> final(self).desired.rules@ == compiled_by(
                old(self).flow_compiler,
                candidate.rules@,
                now_ms,
            ) && final(self).desired.drivers@ == candidate.drivers@ && crate::qos::wanted(final(self).desired.qos@)
                == crate::qos::wanted(candidate.qos@) && final(self).desired_raw == Some(candidate) && (
            final(self).fingerprint matches Some(n) && call_ensures(fingerprint, (&final(self).desired,), n)),
            outcome matches Err(m) ==> final(self).desired == old(self).desired && final(self).desired_raw == old(self).desired_raw && final(self).fingerprint == old(self).fingerprint && r == Err::<(), ReconciliationError>(
                ReconciliationError::Reconcile(m),
            ),
            final(self).actual == old(self).actual,
            final(self).config == old(self).config,
            final(self).generation == old(self).generation,
            same_knowledge(final(self).flow_compiler, old(self).flow_compiler, now_ms),
    {
        let reload = self.begin_reload(candidate, now_ms, fingerprint);
        self.finish_reload(reload, outcome)
    }

    /// Want one more rule.
    pub fn add_rule(&mut self, rule: DesiredRule)
        ensures
            final(self).desired.rules@ == old(self).desired.rules@.push(rule),
            final(self).desired.drivers == old(self).desired.drivers,
            final(self).desired.qos == old(self).desired.qos,
            final(self).desired_raw == old(self).desired_raw,
            final(self).fingerprint == old(self).fingerprint,
            final(self).actual == old(self).actual,
            final(self).config == old(self).config,
            final(self).flow_compiler == old(self).flow_compiler,
            final(self).generation == old(self).generation,
    {
        self.desired.rules.push(rule);
    }

    /// No longer want the rules with an id.
    pub fn remove_rule(&mut self, id: u32)
        ensures
            final(self).desired.rules@ == unwanted(old(self).desired.rules@, id),
            final(self).desired.drivers == old(self).desired.drivers,
            final(self).desired.qos == old(self).desired.qos,
            final(self).desired_raw == old(self).desired_raw,
            final(self).fingerprint == old(self).fingerprint,
            final(self).actual == old(self).actual,
            final(self).config == old(self).config,
            final(self).flow_compiler == old(self).flow_compiler,
            final(self).generation == old(self).generation,
    {
        let mut rest: Vec<DesiredRule> = Vec::new();
        std::mem::swap(&mut rest, &mut self.desired.rules);
        let ghost all = rest@;
        let mut kept: Vec<DesiredRule> = Vec::new();
        let ghost mut n: int = 0;
        assert(all.take(0) =~= Seq::<DesiredRule>::empty());
        while rest.len() > 0
            invariant
                0 <= n <= all.len(),
                rest@ == all.skip(n),
                kept@ == unwanted(all.take(n), id),
            decreases rest.len(),
        {
            let rule = rest.remove(0);
            proof {
                assert(rule == all[n]);
                assert(all.take(n + 1).drop_last() =~= all.take(n));
                assert(rest@ =~= all.skip(n + 1));
                n = n + 1;
            }
            if rule.id != id {
                kept.push(rule);
            }
        }
        assert(all.take(n) =~= all);
        self.desired.rules = kept;
    }

    /// Take what the executor lists for what is in force. It lists only ids, so
    /// every rule gets an action that stands for any.
    pub fn sync_actual_from_executor(&mut self, ids: &Vec<u32>)
        ensures
            final(self).actual.active_rules@ == seeded(ids@),
            final(self).desired == old(self).desired,
            final(self).desired_raw == old(self).desired_raw,
            final(self).config == old(self).config,
            final(self).flow_compiler == old(self).flow_compiler,
            final(self).fingerprint == old(self).fingerprint,
            final(self).generation == old(self).generation,
    {
        let mut rules: Vec<ActualRule> = Vec::new();
        let mut i: usize = 0;
        while i < ids.len()
            invariant
                i <= ids@.len(),
                rules@ == seeded(ids@).take(i as int),
            decreases ids.len() - i,
        {
            rules.push(ActualRule { id: ids[i], action: Action::Allow, rule_id: None, flow: None });
            i += 1;
            assert(rules@ =~= seeded(ids@).take(i as int));
        }
        assert(seeded(ids@).take(i as int) =~= seeded(ids@));
        self.actual = ActualState { active_rules: rules };
    }

    /// What has to be done so that what is in force becomes what is wanted.
    pub fn build_plan(&self) -> (r: ReconciliationPlan)
        ensures
            r.operations@ == crate::reconciliation::diff::difference(self.desired.rules@, self.actual.active_rules@),
    {
        StateDiff::build(&self.desired, &self.actual)
    }

    /// What a cycle would do. Nothing is done.
    pub fn dry_run(&self) -> (r: ReconciliationPlan)
        ensures
            r.operations@ == crate::reconciliation::diff::difference(self.desired.rules@, self.actual.active_rules@),
    {
        self.build_plan()
    }

    /// What a cycle would do, in words.
    pub fn explain(&self) -> (r: String)
        ensures
            r@ == "generation: "@ + crate::text::decimal(self.generation as nat)
                + crate::reconciliation::plan::operations_text(
                crate::reconciliation::diff::difference(self.desired.rules@, self.actual.active_rules@),
            ),
    {
        self.build_plan().explain(self.generation)
    }

    /// Carry a plan out, given what the executor answers to each of its
    /// operations.
    pub fn apply_plan(&mut self, plan: &ReconciliationPlan, answers: &Vec<ActionResult>) -> (r: Result<
        (),
        ReconciliationError,
    >)
        requires
            answers@.len() == plan.operations@.len(),
        ensures
            final(self).actual.active_rules@ == crate::reconciliation::adapters::after_answers(
                old(self).actual.active_rules@,
                plan.operations@,
                answers@,
            ),
            r is Ok <==> crate::reconciliation::adapters::count(plan.operations@, answers@, false) == 0,
            r matches Err(e) ==> (e matches ReconciliationError::Reconcile(m) && m@ == steps_failed(
                crate::reconciliation::adapters::count(plan.operations@, answers@, false),
                plan.operations@.len(),
            )),
            final(self).desired == old(self).desired,
            final(self).desired_raw == old(self).desired_raw,
            final(self).config == old(self).config,
            final(self).flow_compiler == old(self).flow_compiler,
            final(self).fingerprint == old(self).fingerprint,
            final(self).generation == old(self).generation,
    {
        let report = execute(&mut self.actual, plan, answers);
        if report.success {
            Ok(())
        } else {
            let mut s = decimal_of(report.failed as u64);
            s.append(" of ");
            s.append(decimal_of(report.total as u64).as_str());
            s.append(" steps failed");
            Err(ReconciliationError::Reconcile(s))
        }
    }

    /// End a cycle: keep what its plan brought about, or take it back where a
    /// step was refused. The rules in the second result have to be removed at
    /// the executor.
    pub fn finish_cycle(&mut self, plan: &ReconciliationPlan, answers: &Vec<ActionResult>) -> (r: (
        Result<(), ReconciliationError>,
        Vec<u32>,
    ))
        requires
            answers@.len() == plan.operations@.len(),
        ensures
            ({
                let failed = crate::reconciliation::adapters::count(plan.operations@, answers@, false);
                let after = crate::reconciliation::adapters::after_answers(
                    old(self).actual.active_rules@,
                    plan.operations@,
                    answers@,
                );
                &&& r.0 is Ok <==> failed == 0
                &&& failed == 0 ==> final(self).actual.active_rules@ == after && r.1@.len() == 0 && final(self).generation == if old(self).generation == u64::MAX {
                    u64::MAX as int
                } else {
                    old(self).generation + 1
                }
                &&& failed > 0 ==> final(self).actual.active_rules@ == old(self).actual.active_rules@ && final(self).generation == old(self).generation && r.1@ == crate::reconciliation::adapters::added_since(
                    after,
                    old(self).actual.active_rules@,
                ) && (r.0 matches Err(ReconciliationError::Reconcile(m)) && m@ == steps_failed(
                    failed,
                    plan.operations@.len(),
                ))
            }),
            final(self).desired == old(self).desired,
            final(self).desired_raw == old(self).desired_raw,
            final(self).config == old(self).config,
            final(self).flow_compiler == old(self).flow_compiler,
            final(self).fingerprint == old(self).fingerprint,
    {
        let snapshot = self.actual.duplicate();
        match self.apply_plan(plan, answers) {
            Ok(_) => {
                if self.generation < u64::MAX {
                    self.generation = self.generation + 1;
                }
                (Ok(()), Vec::new())
            },
            Err(e) => {
                let revert = rollback(&mut self.actual, &snapshot);
                (Err(e), revert)
            },
        }
    }

    /// Whether the executor is to be asked what is in force before a cycle.
    pub fn resync_due(&self, cycle: u32) -> (r: bool)
        ensures
            r == (self.config.resync_every_n_cycles > 0 && cycle as int % self.config.resync_every_n_cycles as int
                == 0),
    {
        self.config.resync_every_n_cycles > 0 && cycle % self.config.resync_every_n_cycles == 0
    }

    /// Compile what was written again, and want the result where it differs from
    /// what is wanted. Whether it does.
    pub fn dns_resync<F: Fn(&DesiredState) -> u64>(&mut self, now_ms: u64, fingerprint: F) -> (r: bool)
        requires
            forall|s: &DesiredState| call_requires(fingerprint, (s,)),
        ensures
            r == (old(self).flow_compiler is Some && old(self).desired_raw is Some && (rule_texts(
                compiled_by(old(self).flow_compiler, old(self).desired_raw->0.rules@, now_ms),
            ) != rule_texts(old(self).desired.rules@) || old(self).desired_raw->0.drivers@ != old(self).desired.drivers@
                || crate::qos::wanted(old(self).desired_raw->0.qos@) != crate::qos::wanted(old(self).desired.qos@))),
            r ==> final(self).desired.rules@ == compiled_by(
                old(self).flow_compiler,
                old(self).desired_raw->0.rules@,
                now_ms,
            ) && final(self).desired.drivers@ == old(self).desired_raw->0.drivers@ && crate::qos::wanted(
                final(self).desired.qos@,
            ) == crate::qos::wanted(old(self).desired_raw->0.qos@) && (
            final(self).fingerprint matches Some(n) && call_ensures(fingerprint, (&final(self).desired,), n)),
            !r ==> final(self).desired == old(self).desired && final(self).fingerprint == old(self).fingerprint,
            final(self).desired_raw == old(self).desired_raw,
            final(self).actual == old(self).actual,
            final(self).config == old(self).config,
            final(self).generation == old(self).generation,
            same_knowledge(final(self).flow_compiler, old(self).flow_compiler, now_ms),
    {
        if self.flow_compiler.is_none() {
            return false;
        }
        let recompiled = match &self.desired_raw {
            Some(raw) => compile_with(&mut self.flow_compiler, raw, now_ms),
            None => {
                return false;
            },
        };
        if same_rules(&self.desired.rules, &recompiled.rules) && same_drivers(
            &self.desired.drivers,
            &recompiled.drivers,
        ) && crate::qos::same_configs(&self.desired.qos, &recompiled.qos) {
            return false;
        }
        self.fingerprint = Some(fingerprint(&recompiled));
        self.desired = recompiled;
        true
    }
}

/// The rules without those that have an id.
pub open spec fn unwanted(rules: Seq<DesiredRule>, id: u32) -> Seq<DesiredRule>
    decreases rules.len(),
{
    if rules.len() == 0 {
        rules
    } else if rules.last().id == id {
        unwanted(rules.drop_last(), id)
    } else {
        unwanted(rules.drop_last(), id).push(rules.last())
    }
}

/// Taking a rule out of what is wanted leaves the others as they are, in their
/// order.
pub proof fn removing_a_rule_keeps_the_others(first: Seq<DesiredRule>, second: Seq<DesiredRule>, id: u32)
    ensures
        unwanted(first + second, id) == unwanted(first, id) + unwanted(second, id),
        second.len() == 1 && second[0].id == id ==> unwanted(second, id).len() == 0,
        second.len() == 1 && second[0].id != id ==> unwanted(second, id) == second,
        forall|i: int| 0 <= i < unwanted(second, id).len() ==> (#[trigger] unwanted(second, id)[i]).id != id,
    decreases second.len(),
{
    if second.len() == 0 {
        assert(first + second =~= first);
        assert(unwanted(first, id) + unwanted(second, id) =~= unwanted(first, id));
    } else {
        let front = second.drop_last();
        removing_a_rule_keeps_the_others(first, front, id);
        assert((first + second).drop_last() =~= first + front);
        assert((first + second).last() == second.last());
        assert(unwanted(first + second, id) =~= unwanted(first, id) + unwanted(second, id));
        if second.len() == 1 {
            assert(unwanted(front, id).len() == 0);
            assert(second.last().id != id ==> unwanted(second, id) =~= second);
        }
    }
}

/// What the executor lists counts as in force under its id, in its order, with
/// nothing known of it but that it is there.
pub proof fn listed_rules_are_known_by_id(ids: Seq<u32>, i: int)
    requires
        0 <= i < ids.len(),
    ensures
        seeded(ids).len() == ids.len(),
        seeded(ids)[i].id == ids[i],
        seeded(ids)[i].action == Action::Allow,
        seeded(ids)[i].rule_id is None,
        seeded(ids)[i].flow is None,
{
}

/// Two rules read the same exactly where nothing about them differs: not their
/// ids, actions or priorities, nor any part of their flows.
pub proof fn rules_that_read_the_same(a: DesiredRule, b: DesiredRule)
    ensures
        rule_text(a) == rule_text(b) <==> a.id == b.id && a.action == b.action && a.priority == b.priority && (a.flow
            is None <==> b.flow is None) && (a.flow is Some && b.flow is Some ==> {
            &&& a.flow->0.src_ip == b.flow->0.src_ip
            &&& a.flow->0.dst_ip == b.flow->0.dst_ip
            &&& a.flow->0.src_port == b.flow->0.src_port
            &&& a.flow->0.dst_port == b.flow->0.dst_port
            &&& a.flow->0.protocol == b.flow->0.protocol
            &&& a.flow->0.dst_domain is None <==> b.flow->0.dst_domain is None
            &&& a.flow->0.dst_domain is Some && b.flow->0.dst_domain is Some ==> a.flow->0.dst_domain->0@
                == b.flow->0.dst_domain->0@
        }),
{
}

/// Two lists of rules read the same exactly where they have the same length and
/// read the same place by place.
pub proof fn lists_that_read_the_same(a: Seq<DesiredRule>, b: Seq<DesiredRule>)
    ensures
        rule_texts(a) == rule_texts(b) <==> a.len() == b.len() && forall|i: int|
            0 <= i < a.len() ==> rule_text(#[trigger] a[i]) == rule_text(b[i]),
{
    if rule_texts(a) == rule_texts(b) {
        assert(rule_texts(a).len() == rule_texts(b).len());
        assert forall|i: int| 0 <= i < a.len() implies rule_text(#[trigger] a[i]) == rule_text(b[i]) by {
            assert(rule_texts(a)[i] == rule_texts(b)[i]);
        }
    }
    if a.len() == b.len() && forall|i: int| 0 <= i < a.len() ==> rule_text(#[trigger] a[i]) == rule_text(b[i]) {
        assert(rule_texts(a) =~= rule_texts(b));
    }
}

/// Rules are wanted as they are where nothing compiles them, and where none of
/// them names a domain.
pub proof fn plain_rules_are_wanted_as_they_are(
    compiler: Option<FlowCompiler>,
    rules: Seq<DesiredRule>,
    now_ms: u64,
)
    ensures
        compiler is None ==> compiled_by(compiler, rules, now_ms) == rules,
        compiler is Some ==> compiled_by(compiler, rules, now_ms) == crate::reconciliation::dns_flow::compiled_rules(
            rules,
            compiler->0.registry,
            now_ms,
        ),
        (forall|i: int|
            0 <= i < rules.len() ==> (#[trigger] rules[i]).flow is None || rules[i].flow->0.dst_domain is None)
            ==> compiled_by(compiler, rules, now_ms) == rules,
    decreases rules.len(),
{
    if rules.len() > 0 && compiler is Some && forall|i: int|
        0 <= i < rules.len() ==> (#[trigger] rules[i]).flow is None || rules[i].flow->0.dst_domain is None {
        let front = rules.drop_last();
        assert forall|i: int| 0 <= i < front.len() implies (#[trigger] front[i]).flow is None
            || front[i].flow->0.dst_domain is None by {
            assert(rules[i] == front[i]);
        }
        plain_rules_are_wanted_as_they_are(compiler, front, now_ms);
        assert(rules[rules.len() - 1] == rules.last());
        assert(front + seq![rules.last()] =~= rules);
    }
}

} // verus!
