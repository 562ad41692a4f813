//! From a rule to what an executor is asked for.
//!
//! Policy speaks of flows and domains; an executor installs concrete addresses,
//! ports and protocols. This is the one place where the first becomes the
//! second.
use vstd::prelude::*;

use crate::model::{Action, DesiredRule};
use crate::net::IpAddr;
use smallvec::SmallVec;

verus! {

/// The steps of a decision, in a `SmallVec` of the crate `smallvec`. Verus
/// cannot declare that type, for its parameter is bound by a trait of its crate.
#[verifier::external_body]
pub struct StepList {
    inner: SmallVec<[u32; 4]>,
}

/// The steps that a list holds.
pub uninterp spec fn steps_in(v: StepList) -> Seq<u32>;

/// `SmallVec::new`: a list without elements.
#[verifier::external_body]
fn no_steps() -> (r: StepList)
    ensures
        steps_in(r) == Seq::<u32>::empty(),
{
    StepList { inner: SmallVec::new() }
}

/// `SmallVec::len`: how many elements a list holds.
#[verifier::external_body]
fn steps_len(v: &StepList) -> (r: usize)
    ensures
        r == steps_in(*v).len(),
{
    v.inner.len()
}

/// How a decision came about.
pub struct DecisionTrace {
    /// The rule that decided.
    pub policy_id: u32,
    pub steps: StepList,
    pub action: Action,
    pub execution_time_us: u64,
    pub correlation_id: u64,
}

impl DecisionTrace {
    /// How many steps the decision took.
    pub fn step_count(&self) -> (r: usize)
        ensures
            r == steps_in(self.steps).len(),
    {
        steps_len(&self.steps)
    }
}

/// What an executor is asked for. An unspecified address, a port of zero and a
/// protocol of zero match anything.
pub struct ActionRequest {
    pub action: Action,
    pub src_ip: IpAddr,
    pub dst_ip: IpAddr,
    pub src_port: u16,
    pub dst_port: u16,
    pub protocol: u8,
    pub interface: u32,
    pub trace: DecisionTrace,
}

/// What is asked for, field by field.
pub struct Asked {
    pub action: Action,
    pub src_ip: IpAddr,
    pub dst_ip: IpAddr,
    pub src_port: u16,
    pub dst_port: u16,
    pub protocol: u8,
    pub interface: u32,
    pub trace: Traced,
}

/// The trace of a decision: the steps that led to it are the numbers of rules.
pub struct Traced {
    pub policy_id: u32,
    pub steps: Seq<u32>,
    pub action: Action,
    pub execution_time_us: u64,
    pub correlation_id: u64,
}

/// The trace of a rule that is compiled: nothing was decided yet.
pub open spec fn traced(rule: DesiredRule) -> Traced {
    Traced {
        policy_id: rule.id,
        steps: Seq::empty(),
        action: rule.action,
        execution_time_us: 0,
        correlation_id: 0,
    }
}

impl View for ActionRequest {
    type V = Asked;

    open spec fn view(&self) -> Asked {
        Asked {
            action: self.action,
            src_ip: self.src_ip,
            dst_ip: self.dst_ip,
            src_port: self.src_port,
            dst_port: self.dst_port,
            protocol: self.protocol,
            interface: self.interface,
            trace: Traced {
                policy_id: self.trace.policy_id,
                steps: steps_in(self.trace.steps),
                action: self.trace.action,
                execution_time_us: self.trace.execution_time_us,
                correlation_id: self.trace.correlation_id,
            },
        }
    }
}

/// An address, or the unspecified one.
pub open spec fn address_or_any(a: Option<IpAddr>) -> IpAddr {
    match a {
        Some(ip) => ip,
        None => IpAddr::V4(0),
    }
}

pub open spec fn port_or_any(p: Option<u16>) -> u16 {
    match p {
        Some(n) => n,
        None => 0,
    }
}

pub open spec fn protocol_or_any(p: Option<u8>) -> u8 {
    match p {
        Some(n) => n,
        None => 0,
    }
}

/// What an executor is asked for so that a rule is in force.
pub open spec fn asked_by(rule: DesiredRule) -> Asked {
    match rule.flow {
        Some(f) => Asked {
            action: rule.action,
            src_ip: address_or_any(f.src_ip),
            dst_ip: address_or_any(f.dst_ip),
            src_port: port_or_any(f.src_port),
            dst_port: port_or_any(f.dst_port),
            protocol: protocol_or_any(f.protocol),
            interface: 0,
            trace: traced(rule),
        },
        None => Asked {
            action: rule.action,
            src_ip: IpAddr::V4(0),
            dst_ip: IpAddr::V4(0),
            src_port: 0,
            dst_port: 0,
            protocol: 0,
            interface: 0,
            trace: traced(rule),
        },
    }
}

/// Compiles rules.
#[derive(Debug, Clone, Copy, PartialEq, Eq, Structural)]
pub struct PolicyCompiler;

impl PolicyCompiler {
    /// What an executor is asked for so that a rule is in force. What the flow
    /// of the rule leaves open matches anything.
    pub fn compile(rule: &DesiredRule) -> (r: ActionRequest)
        ensures
            r@ == asked_by(*rule),
    {
        let any = IpAddr::V4(0);
        let trace = DecisionTrace {
            policy_id: rule.id,
            steps: no_steps(),
            action: rule.action,
            execution_time_us: 0,
            correlation_id: 0,
        };
        match &rule.flow {
            Some(f) => ActionRequest {
                action: rule.action,
                src_ip: f.src_ip.unwrap_or(any),
                dst_ip: f.dst_ip.unwrap_or(any),
                src_port: f.src_port.unwrap_or(0),
                dst_port: f.dst_port.unwrap_or(0),
                protocol: f.protocol.unwrap_or(0),
                interface: 0,
                trace,
            },
            None => ActionRequest {
                action: rule.action,
                src_ip: any,
                dst_ip: any,
                src_port: 0,
                dst_port: 0,
                protocol: 0,
                interface: 0,
                trace,
            },
        }
    }
}

/// What an executor is asked for does not depend on a domain or on a priority:
/// rules that differ only in these ask for the same.
pub proof fn domains_do_not_reach_the_executor(a: DesiredRule, b: DesiredRule)
    requires
        a.id == b.id,
        a.action == b.action,
        a.flow is Some,
        b.flow is Some,
        a.flow->0.src_ip == b.flow->0.src_ip,
        a.flow->0.dst_ip == b.flow->0.dst_ip,
        a.flow->0.src_port == b.flow->0.src_port,
        a.flow->0.dst_port == b.flow->0.dst_port,
        a.flow->0.protocol == b.flow->0.protocol,
    ensures
        asked_by(a) == asked_by(b),
{
}

/// The executor is asked for the action of a rule, for the addresses, ports and
/// protocol of its flow, and for any where the flow names none; the request
/// carries the id of the rule and its action in its trace.
pub proof fn requests_carry_the_rule(rule: DesiredRule)
    ensures
        asked_by(rule).action == rule.action,
        asked_by(rule).trace.policy_id == rule.id,
        asked_by(rule).trace.action == rule.action,
        asked_by(rule).trace.steps.len() == 0,
        asked_by(rule).trace.execution_time_us == 0,
        asked_by(rule).trace.correlation_id == 0,
        asked_by(rule).interface == 0,
        rule.flow matches Some(f) ==> {
            &&& f.src_ip is Some ==> asked_by(rule).src_ip == f.src_ip->0
            &&& f.dst_ip is Some ==> asked_by(rule).dst_ip == f.dst_ip->0
            &&& f.src_port is Some ==> asked_by(rule).src_port == f.src_port->0
            &&& f.dst_port is Some ==> asked_by(rule).dst_port == f.dst_port->0
            &&& f.protocol is Some ==> asked_by(rule).protocol == f.protocol->0
            &&& f.src_ip is None ==> asked_by(rule).src_ip == IpAddr::V4(0)
            &&& f.dst_ip is None ==> asked_by(rule).dst_ip == IpAddr::V4(0)
            &&& f.src_port is None ==> asked_by(rule).src_port == 0
            &&& f.dst_port is None ==> asked_by(rule).dst_port == 0
            &&& f.protocol is None ==> asked_by(rule).protocol == 0
        },
        rule.flow is None ==> asked_by(rule).src_ip == IpAddr::V4(0) && asked_by(rule).dst_ip == IpAddr::V4(0)
            && asked_by(rule).src_port == 0 && asked_by(rule).dst_port == 0 && asked_by(rule).protocol == 0,
{
}

} // verus!
