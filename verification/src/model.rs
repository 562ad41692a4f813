//! The vocabulary that the control plane shares: rules, states, drivers and
//! what an executor answers.
use vstd::prelude::*;
use vstd::string::*;

use crate::net::IpAddr;
use crate::qos::{clone_configs, QosConfig};
use crate::text::{decimal_of, owned, same_text};

verus! {

/// What is done with a flow.
#[derive(Clone, Copy, Debug, PartialEq, Eq, Structural)]
pub enum Action {
    Route { table: u32 },
    Forward { driver: u32 },
    Block,
    Reject,
    Allow,
}

/// The kind of an action, without its parameters.
#[derive(Clone, Copy, Debug, PartialEq, Eq, Structural)]
pub enum ActionType {
    Route,
    Forward,
    Block,
    Reject,
    Allow,
}

impl Action {
    pub open spec fn kind(self) -> ActionType {
        match self {
            Action::Route { .. } => ActionType::Route,
            Action::Forward { .. } => ActionType::Forward,
            Action::Block => ActionType::Block,
            Action::Reject => ActionType::Reject,
            Action::Allow => ActionType::Allow,
        }
    }

    /// The kind of the action.
    pub fn action_type(&self) -> (r: ActionType)
        ensures
            r == self.kind(),
    {
        match *self {
            Action::Route { .. } => ActionType::Route,
            Action::Forward { .. } => ActionType::Forward,
            Action::Block => ActionType::Block,
            Action::Reject => ActionType::Reject,
            Action::Allow => ActionType::Allow,
        }
    }
}

/// Which flows a rule is about. What is absent is not looked at.
#[derive(Debug)]
pub struct FlowCriteria {
    pub src_ip: Option<IpAddr>,
    pub dst_ip: Option<IpAddr>,
    pub src_port: Option<u16>,
    pub dst_port: Option<u16>,
    pub protocol: Option<u8>,
    pub dst_domain: Option<String>,
}

/// A rule as the operator wants it.
#[derive(Debug)]
pub struct DesiredRule {
    pub id: u32,
    pub action: Action,
    pub priority: u32,
    pub flow: Option<FlowCriteria>,
}

/// A rule as the executor holds it.
#[derive(Debug)]
pub struct ActualRule {
    pub id: u32,
    pub action: Action,
    pub rule_id: Option<u32>,
    pub flow: Option<FlowCriteria>,
}

/// A driver of the daemon.
#[derive(Clone, Copy, Debug, PartialEq, Eq, Structural)]
pub enum DriverId {
    WireGuard,
    AmneziaWG,
    Xray,
    Hysteria,
    B4,
    DnsForwarder,
    Custom(u32),
}

/// What a driver is able to do.
#[derive(Clone, Copy, Debug, PartialEq, Eq, Structural)]
pub struct Capabilities {
    pub tunnel: bool,
    pub proxy: bool,
    pub packet_processor: bool,
    pub dns: bool,
}

/// How a driver says it is.
#[derive(Clone, Copy, Debug, PartialEq, Eq, Structural)]
pub enum HealthStatus {
    Unknown,
    Healthy,
    Degraded { reason: u32 },
    Unhealthy { reason: u32 },
}

/// Why a driver did not do what it was told.
#[derive(Debug)]
pub enum DriverError {
    StartFailed(String),
    StopFailed(String),
    BinaryNotFound(String),
    InterfaceError(String),
    ConfigInvalid(String),
}

/// What the operator wants: rules, the drivers that have to run, and how traffic
/// is shaped.
#[derive(Debug)]
pub struct DesiredState {
    pub rules: Vec<DesiredRule>,
    pub drivers: Vec<DriverId>,
    pub qos: Vec<QosConfig>,
}

/// What the executor holds.
#[derive(Debug)]
pub struct ActualState {
    pub active_rules: Vec<ActualRule>,
}

/// What an executor answers to a request.
#[derive(Debug)]
pub enum ActionResult {
    Applied { execution_time_us: u64, rule_id: Option<u32> },
    AlreadyApplied,
    Failed { code: u32, message: Option<String> },
    Unsupported { action_type: ActionType },
}

impl FlowCriteria {
    /// Criteria that every flow meets.
    pub open spec fn any() -> FlowCriteria {
        FlowCriteria { src_ip: None, dst_ip: None, src_port: None, dst_port: None, protocol: None, dst_domain: None }
    }

    /// The same criteria, owned separately.
    pub fn duplicate(&self) -> (r: FlowCriteria)
        ensures
            r == *self,
    {
        let dst_domain: Option<String> = match &self.dst_domain {
            Some(d) => Some(d.clone()),
            None => None,
        };
        FlowCriteria {
            src_ip: self.src_ip,
            dst_ip: self.dst_ip,
            src_port: self.src_port,
            dst_port: self.dst_port,
            protocol: self.protocol,
            dst_domain,
        }
    }
}

impl Default for FlowCriteria {
    fn default() -> (r: FlowCriteria)
        ensures
            r == FlowCriteria::any(),
    {
        FlowCriteria { src_ip: None, dst_ip: None, src_port: None, dst_port: None, protocol: None, dst_domain: None }
    }
}

/// The same criteria, owned separately.
pub fn duplicate_flow(flow: &Option<FlowCriteria>) -> (r: Option<FlowCriteria>)
    ensures
        r == *flow,
{
    match flow {
        Some(f) => Some(f.duplicate()),
        None => None,
    }
}

impl DesiredRule {
    /// The same rule, owned separately.
    pub fn duplicate(&self) -> (r: DesiredRule)
        ensures
            r == *self,
    {
        DesiredRule { id: self.id, action: self.action, priority: self.priority, flow: duplicate_flow(&self.flow) }
    }
}

impl ActualRule {
    /// The same rule, owned separately.
    pub fn duplicate(&self) -> (r: ActualRule)
        ensures
            r == *self,
    {
        ActualRule { id: self.id, action: self.action, rule_id: self.rule_id, flow: duplicate_flow(&self.flow) }
    }
}

/// The same rules, owned separately.
pub fn duplicate_rules(v: &Vec<DesiredRule>) -> (r: Vec<DesiredRule>)
    ensures
        r@ == v@,
{
    let mut out: Vec<DesiredRule> = Vec::new();
    let mut i: usize = 0;
    while i < v.len()
        invariant
            i <= v.len(),
            out@ == v@.take(i as int),
        decreases v.len() - i,
    {
        out.push(v[i].duplicate());
        assert(v@.take(i as int).push(v@[i as int]) =~= v@.take(i as int + 1));
        i += 1;
    }
    assert(v@.take(i as int) =~= v@);
    out
}

/// The same rules, owned separately.
pub fn duplicate_actual_rules(v: &Vec<ActualRule>) -> (r: Vec<ActualRule>)
    ensures
        r@ == v@,
{
    let mut out: Vec<ActualRule> = Vec::new();
    let mut i: usize = 0;
    while i < v.len()
        invariant
            i <= v.len(),
            out@ == v@.take(i as int),
        decreases v.len() - i,
    {
        out.push(v[i].duplicate());
        assert(v@.take(i as int).push(v@[i as int]) =~= v@.take(i as int + 1));
        i += 1;
    }
    assert(v@.take(i as int) =~= v@);
    out
}

/// The same drivers, owned separately.
pub fn duplicate_drivers(v: &Vec<DriverId>) -> (r: Vec<DriverId>)
    ensures
        r@ == v@,
{
    let mut out: Vec<DriverId> = Vec::new();
    let mut i: usize = 0;
    while i < v.len()
        invariant
            i <= v.len(),
            out@ == v@.take(i as int),
        decreases v.len() - i,
    {
        out.push(v[i]);
        assert(v@.take(i as int).push(v@[i as int]) =~= v@.take(i as int + 1));
        i += 1;
    }
    assert(v@.take(i as int) =~= v@);
    out
}

impl DesiredState {
    /// The same state, owned separately.
    pub fn duplicate(&self) -> (r: DesiredState)
        ensures
            r.rules@ == self.rules@,
            r.drivers@ == self.drivers@,
            crate::qos::wanted(r.qos@) == crate::qos::wanted(self.qos@),
    {
        DesiredState {
            rules: duplicate_rules(&self.rules),
            drivers: duplicate_drivers(&self.drivers),
            qos: clone_configs(&self.qos),
        }
    }
}

impl Default for DesiredState {
    fn default() -> (r: DesiredState)
        ensures
            r.rules@ == Seq::<DesiredRule>::empty(),
            r.drivers@ == Seq::<DriverId>::empty(),
            r.qos@ == Seq::<QosConfig>::empty(),
    {
        DesiredState { rules: Vec::new(), drivers: Vec::new(), qos: Vec::new() }
    }
}

impl ActualState {
    /// The same state, owned separately.
    pub fn duplicate(&self) -> (r: ActualState)
        ensures
            r.active_rules@ == self.active_rules@,
    {
        ActualState { active_rules: duplicate_actual_rules(&self.active_rules) }
    }
}

impl Default for ActualState {
    fn default() -> (r: ActualState)
        ensures
            r.active_rules@ == Seq::<ActualRule>::empty(),
    {
        ActualState { active_rules: Vec::new() }
    }
}

/// How a driver is that should run, and whose process or interface is or is not
/// there.
pub open spec fn process_health(running: bool, present: bool) -> HealthStatus {
    if !running {
        HealthStatus::Unhealthy { reason: 1 }
    } else if !present {
        HealthStatus::Degraded { reason: 1 }
    } else {
        HealthStatus::Healthy
    }
}

pub fn health_of_process(running: bool, present: bool) -> (r: HealthStatus)
    ensures
        r == process_health(running, present),
{
    if !running {
        return HealthStatus::Unhealthy { reason: 1 };
    }
    if !present {
        return HealthStatus::Degraded { reason: 1 };
    }
    HealthStatus::Healthy
}

/// The name of a driver as it is written in messages.
pub open spec fn driver_label(id: DriverId) -> Seq<char> {
    match id {
        DriverId::WireGuard => "WireGuard"@,
        DriverId::AmneziaWG => "AmneziaWG"@,
        DriverId::Xray => "Xray"@,
        DriverId::Hysteria => "Hysteria"@,
        DriverId::B4 => "B4"@,
        DriverId::DnsForwarder => "DnsForwarder"@,
        DriverId::Custom(n) => "Custom("@ + crate::text::decimal(n as nat) + ")"@,
    }
}

/// The driver that a configuration names.
pub open spec fn driver_named(name: Seq<char>) -> Option<DriverId> {
    if name == "wireguard"@ {
        Some(DriverId::WireGuard)
    } else if name == "amneziawg"@ {
        Some(DriverId::AmneziaWG)
    } else if name == "xray"@ {
        Some(DriverId::Xray)
    } else if name == "hysteria"@ {
        Some(DriverId::Hysteria)
    } else if name == "b4"@ {
        Some(DriverId::B4)
    } else if name == "dns"@ {
        Some(DriverId::DnsForwarder)
    } else {
        None
    }
}

impl DriverId {
    /// The driver that a configuration names.
    pub fn from_name(name: &str) -> (r: Option<DriverId>)
        ensures
            r == driver_named(name@),
    {
        if same_text(name, "wireguard") {
            Some(DriverId::WireGuard)
        } else if same_text(name, "amneziawg") {
            Some(DriverId::AmneziaWG)
        } else if same_text(name, "xray") {
            Some(DriverId::Xray)
        } else if same_text(name, "hysteria") {
            Some(DriverId::Hysteria)
        } else if same_text(name, "b4") {
            Some(DriverId::B4)
        } else if same_text(name, "dns") {
            Some(DriverId::DnsForwarder)
        } else {
            None
        }
    }

    /// The name of the driver as it is written in messages.
    pub fn label(self) -> (r: String)
        ensures
            r@ == driver_label(self),
    {
        match self {
            DriverId::WireGuard => owned("WireGuard"),
            DriverId::AmneziaWG => owned("AmneziaWG"),
            DriverId::Xray => owned("Xray"),
            DriverId::Hysteria => owned("Hysteria"),
            DriverId::B4 => owned("B4"),
            DriverId::DnsForwarder => owned("DnsForwarder"),
            DriverId::Custom(n) => {
                let mut s = owned("Custom(");
                s.append(decimal_of(n as u64).as_str());
                s.append(")");
                s
            },
        }
    }
}

/// A mechanism is healthy exactly where its process runs and what it makes is
/// there; without a process it is unhealthy, whatever is there.
pub proof fn processes_decide_health(running: bool, present: bool)
    ensures
        running && present <==> process_health(running, present) == HealthStatus::Healthy,
        !running ==> process_health(running, present) == (HealthStatus::Unhealthy { reason: 1 }),
        running && !present ==> process_health(running, present) == (HealthStatus::Degraded { reason: 1 }),
{
}

/// No two names stand for one driver.
pub proof fn driver_names_are_distinct(a: Seq<char>, b: Seq<char>)
    requires
        driver_named(a) is Some,
        driver_named(a) == driver_named(b),
    ensures
        a == b,
        !(driver_named(a)->0 is Custom),
{
}

/// The kind of an action says which action it is.
pub proof fn kinds_tell_actions_apart(a: Action, b: Action)
    ensures
        a is Route <==> a.kind() == ActionType::Route,
        a is Forward <==> a.kind() == ActionType::Forward,
        a is Block <==> a.kind() == ActionType::Block,
        a is Reject <==> a.kind() == ActionType::Reject,
        a is Allow <==> a.kind() == ActionType::Allow,
        a == b ==> a.kind() == b.kind(),
{
}

} // verus!
