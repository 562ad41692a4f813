//! The cycle of the engine: from an observation to a decision.
use vstd::prelude::*;
use vstd::string::*;

use crate::b4_engine::classify::{classify, B4Class};
use crate::b4_engine::observe::{B4Observation, B4Observer};
use crate::b4_engine::policy::{B4Capability, B4FailSemantic, B4Policy, B4Profile, Profile};
use crate::text::{decimal_of, owned};
use crate::text_map::TextMap;

verus! {

/// The state of a flow.
#[derive(Debug, Clone, Copy, PartialEq, Eq, Structural)]
pub enum B4State {
    /// Nothing was observed yet.
    Idle,
    /// Signals are being collected.
    Observing,
    /// An adaptation is being applied.
    Adapting,
    /// An adaptation was applied and is being watched.
    Monitoring,
    /// The direct path is healthy.
    Recovered,
    /// A restricted fallback is in use.
    Fallback,
    /// There is no secure mechanism, and the flow must not bypass.
    StrictFail,
}

/// What is to be done for a flow.
#[derive(Debug, Clone, Copy, PartialEq, Eq, Structural)]
pub enum B4Decision {
    /// Nothing.
    Noop,
    /// Lower the size of packets to this.
    AdaptMtu { mtu: u16 },
    /// Resolve through another DNS path.
    SwitchDnsPath,
    /// Use the fallback that policy allows.
    UseFallback,
    /// Fail the flow.
    FailStrict,
    /// The direct path is healthy.
    Recovered,
}

/// The name of a state.
pub open spec fn state_text(s: B4State) -> Seq<char> {
    match s {
        B4State::Idle => "Idle"@,
        B4State::Observing => "Observing"@,
        B4State::Adapting => "Adapting"@,
        B4State::Monitoring => "Monitoring"@,
        B4State::Recovered => "Recovered"@,
        B4State::Fallback => "Fallback"@,
        B4State::StrictFail => "StrictFail"@,
    }
}

impl B4State {
    /// The name of the state.
    pub fn name(self) -> (r: &'static str)
        ensures
            r@ == state_text(self),
    {
        match self {
            B4State::Idle => "Idle",
            B4State::Observing => "Observing",
            B4State::Adapting => "Adapting",
            B4State::Monitoring => "Monitoring",
            B4State::Recovered => "Recovered",
            B4State::Fallback => "Fallback",
            B4State::StrictFail => "StrictFail",
        }
    }
}

/// A decision as it is written.
pub open spec fn decision_text(d: B4Decision) -> Seq<char> {
    match d {
        B4Decision::Noop => "Noop"@,
        B4Decision::AdaptMtu { mtu } => "AdaptMtu { mtu: "@ + crate::text::decimal(mtu as nat) + " }"@,
        B4Decision::SwitchDnsPath => "SwitchDnsPath"@,
        B4Decision::UseFallback => "UseFallback"@,
        B4Decision::FailStrict => "FailStrict"@,
        B4Decision::Recovered => "Recovered"@,
    }
}

impl B4Decision {
    /// The decision as it is written.
    pub fn to_text(self) -> (r: String)
        ensures
            r@ == decision_text(self),
    {
        match self {
            B4Decision::Noop => owned("Noop"),
            B4Decision::AdaptMtu { mtu } => {
                let mut s = owned("AdaptMtu { mtu: ");
                s.append(decimal_of(mtu as u64).as_str());
                s.append(" }");
                s
            },
            B4Decision::SwitchDnsPath => owned("SwitchDnsPath"),
            B4Decision::UseFallback => owned("UseFallback"),
            B4Decision::FailStrict => owned("FailStrict"),
            B4Decision::Recovered => owned("Recovered"),
        }
    }
}

/// What happened in a cycle.
#[derive(Debug)]
pub enum B4Event {
    Classified { flow: String, class: B4Class },
    Adapted { flow: String, capability: B4Capability },
    Recovered { flow: String },
    StrictFailed { flow: String },
}

/// What happened in a cycle, for the flow it is about.
pub enum Note {
    Classified(B4Class),
    Adapted(B4Capability),
    Recovered,
    StrictFailed,
}

/// The flow that an event is about.
pub open spec fn event_flow(e: B4Event) -> Seq<char> {
    match e {
        B4Event::Classified { flow, .. } => flow@,
        B4Event::Adapted { flow, .. } => flow@,
        B4Event::Recovered { flow } => flow@,
        B4Event::StrictFailed { flow } => flow@,
    }
}

/// What an event says of its flow.
pub open spec fn event_note(e: B4Event) -> Note {
    match e {
        B4Event::Classified { class, .. } => Note::Classified(class),
        B4Event::Adapted { capability, .. } => Note::Adapted(capability),
        B4Event::Recovered { .. } => Note::Recovered,
        B4Event::StrictFailed { .. } => Note::StrictFailed,
    }
}

/// Whether events are about one flow and say some things of it, in this order.
pub open spec fn events_say(v: Seq<B4Event>, flow: Seq<char>, notes: Seq<Note>) -> bool {
    &&& v.len() == notes.len()
    &&& forall|i: int| 0 <= i < v.len() ==> event_flow(#[trigger] v[i]) == flow && event_note(v[i]) == notes[i]
}

/// What the engine remembers of a flow.
#[derive(Debug, Clone, Copy, PartialEq, Eq, Structural)]
pub struct FlowContext {
    pub state: B4State,
    /// The size of packets that an adaptation set.
    pub mtu: Option<u16>,
    /// How many adaptations were tried in a row.
    pub attempts: u32,
}

impl FlowContext {
    pub open spec fn idle() -> FlowContext {
        FlowContext { state: B4State::Idle, mtu: None, attempts: 0 }
    }
}

impl Default for FlowContext {
    fn default() -> (r: FlowContext)
        ensures
            r == FlowContext::idle(),
    {
        FlowContext { state: B4State::Idle, mtu: None, attempts: 0 }
    }
}

/// Bounds on what the engine does.
#[derive(Debug, Clone, Copy, PartialEq, Eq, Structural)]
pub struct B4EngineConfig {
    /// The most adaptations that are tried in a row.
    pub max_attempts: u32,
    /// Whether anything is adapted at all.
    pub enabled: bool,
}

impl Default for B4EngineConfig {
    fn default() -> (r: B4EngineConfig)
        ensures
            r == (B4EngineConfig { max_attempts: 3, enabled: true }),
    {
        B4EngineConfig { max_attempts: 3, enabled: true }
    }
}

/// The size of packets without any adaptation.
pub const PLAIN_MTU: u16 = 1500;

/// The size of packets below which no adaptation goes.
pub const LEAST_MTU: u16 = 1280;

/// By how much an adaptation lowers the size of packets.
pub const MTU_STEP: u16 = 20;

/// The outcome of a cycle: what is remembered of the flow, what is to be done,
/// and what happened.
pub struct Outcome {
    pub ctx: FlowContext,
    pub decision: B4Decision,
    pub notes: Seq<Note>,
}

/// The size of packets after one more adaptation.
pub open spec fn lowered_mtu(mtu: Option<u16>) -> u16 {
    let current = match mtu {
        Some(m) => m,
        None => PLAIN_MTU,
    };
    if current > LEAST_MTU { (current - MTU_STEP) as u16 } else { current }
}

/// The outcome for a flow that no adaptation helps: the fallback that policy
/// allows, or strict failure.
pub open spec fn given_up(ctx: FlowContext, profile: Profile) -> Outcome {
    if profile.allow_tunnel || (profile.allow_direct && profile.fail != B4FailSemantic::Strict) {
        Outcome {
            ctx: FlowContext { state: B4State::Fallback, ..ctx },
            decision: B4Decision::UseFallback,
            notes: Seq::empty(),
        }
    } else {
        Outcome {
            ctx: FlowContext { state: B4State::StrictFail, ..ctx },
            decision: B4Decision::FailStrict,
            notes: seq![Note::StrictFailed],
        }
    }
}

/// One more than a count, as far as it can be counted.
pub open spec fn counted(n: u32) -> u32 {
    if n == u32::MAX { n } else { (n + 1) as u32 }
}

/// The outcome for a flow that does not work well: an adaptation that policy
/// allows and the signals ask for, as long as there are attempts left.
pub open spec fn adapted(ctx: FlowContext, profile: Profile, obs: B4Observation, max_attempts: u32) -> Outcome {
    let tried = FlowContext { state: B4State::Adapting, attempts: counted(ctx.attempts), ..ctx };
    if tried.attempts > max_attempts {
        given_up(tried, profile)
    } else if obs.mtu_symptom == Some(true) && profile.capabilities.contains(B4Capability::Mtu) {
        Outcome {
            ctx: FlowContext { state: B4State::Monitoring, mtu: Some(lowered_mtu(ctx.mtu)), ..tried },
            decision: B4Decision::AdaptMtu { mtu: lowered_mtu(ctx.mtu) },
            notes: seq![Note::Adapted(B4Capability::Mtu)],
        }
    } else if obs.dns_ok == Some(false) && profile.capabilities.contains(B4Capability::DnsPath) {
        Outcome {
            ctx: FlowContext { state: B4State::Monitoring, ..tried },
            decision: B4Decision::SwitchDnsPath,
            notes: seq![Note::Adapted(B4Capability::DnsPath)],
        }
    } else {
        given_up(tried, profile)
    }
}

/// The outcome for a flow of some class.
pub open spec fn decided(
    ctx: FlowContext,
    profile: Profile,
    class: B4Class,
    obs: B4Observation,
    max_attempts: u32,
) -> Outcome {
    match class {
        B4Class::Direct => Outcome {
            ctx: FlowContext { state: B4State::Recovered, attempts: 0, ..ctx },
            decision: B4Decision::Recovered,
            notes: Seq::empty(),
        },
        B4Class::Unknown => Outcome {
            ctx: FlowContext { state: B4State::Observing, ..ctx },
            decision: B4Decision::Noop,
            notes: Seq::empty(),
        },
        B4Class::Degraded | B4Class::Interfered => adapted(ctx, profile, obs, max_attempts),
        B4Class::Blocked => given_up(ctx, profile),
    }
}

/// Recovery within what policy allows.
pub fn recover(ctx: &mut FlowContext, profile: &B4Profile, flow: &str) -> (r: (B4Decision, Vec<B4Event>))
    ensures
        *final(ctx) == given_up(*old(ctx), profile@).ctx,
        r.0 == given_up(*old(ctx), profile@).decision,
        events_say(r.1@, flow@, given_up(*old(ctx), profile@).notes),
{
    if profile.allow_tunnel || (profile.allow_direct && profile.fail != B4FailSemantic::Strict) {
        ctx.state = B4State::Fallback;
        return (B4Decision::UseFallback, Vec::new());
    }
    ctx.state = B4State::StrictFail;
    let mut events: Vec<B4Event> = Vec::new();
    events.push(B4Event::StrictFailed { flow: owned(flow) });
    (B4Decision::FailStrict, events)
}

/// Choose an adaptation within what policy allows.
pub fn adapt(
    ctx: &mut FlowContext,
    profile: &B4Profile,
    obs: &B4Observation,
    max_attempts: u32,
    flow: &str,
) -> (r: (B4Decision, Vec<B4Event>))
    ensures
        *final(ctx) == adapted(*old(ctx), profile@, *obs, max_attempts).ctx,
        r.0 == adapted(*old(ctx), profile@, *obs, max_attempts).decision,
        events_say(r.1@, flow@, adapted(*old(ctx), profile@, *obs, max_attempts).notes),
{
    ctx.state = B4State::Adapting;
    if ctx.attempts < u32::MAX {
        ctx.attempts = ctx.attempts + 1;
    }
    if ctx.attempts > max_attempts {
        return recover(ctx, profile, flow);
    }
    let symptom = match obs.mtu_symptom {
        Some(b) => b,
        None => false,
    };
    if symptom && profile.allows(B4Capability::Mtu) {
        let current: u16 = match ctx.mtu {
            Some(m) => m,
            None => PLAIN_MTU,
        };
        let mtu: u16 = if current > LEAST_MTU { current - MTU_STEP } else { current };
        ctx.mtu = Some(mtu);
        ctx.state = B4State::Monitoring;
        let mut events: Vec<B4Event> = Vec::new();
        events.push(B4Event::Adapted { flow: owned(flow), capability: B4Capability::Mtu });
        return (B4Decision::AdaptMtu { mtu }, events);
    }
    let dns_failed = match obs.dns_ok {
        Some(b) => !b,
        None => false,
    };
    if dns_failed && profile.allows(B4Capability::DnsPath) {
        ctx.state = B4State::Monitoring;
        let mut events: Vec<B4Event> = Vec::new();
        events.push(B4Event::Adapted { flow: owned(flow), capability: B4Capability::DnsPath });
        return (B4Decision::SwitchDnsPath, events);
    }
    recover(ctx, profile, flow)
}

/// Decide what is to be done for a flow of some class.
pub fn decide(
    ctx: &mut FlowContext,
    profile: &B4Profile,
    class: B4Class,
    obs: &B4Observation,
    max_attempts: u32,
    flow: &str,
) -> (r: (B4Decision, Vec<B4Event>))
    ensures
        *final(ctx) == decided(*old(ctx), profile@, class, *obs, max_attempts).ctx,
        r.0 == decided(*old(ctx), profile@, class, *obs, max_attempts).decision,
        events_say(r.1@, flow@, decided(*old(ctx), profile@, class, *obs, max_attempts).notes),
{
    match class {
        B4Class::Direct => {
            ctx.state = B4State::Recovered;
            ctx.attempts = 0;
            (B4Decision::Recovered, Vec::new())
        },
        B4Class::Unknown => {
            ctx.state = B4State::Observing;
            (B4Decision::Noop, Vec::new())
        },
        B4Class::Degraded | B4Class::Interfered => adapt(ctx, profile, obs, max_attempts, flow),
        B4Class::Blocked => recover(ctx, profile, flow),
    }
}

/// The engine: policy, and what is remembered of each flow.
pub struct B4Engine {
    policy: B4Policy,
    config: B4EngineConfig,
    flows: TextMap<FlowContext>,
    last_decisions: TextMap<B4Decision>,
    last_observations: TextMap<B4Observation>,
}

impl B4Engine {
    /// The profile that policy gives a flow.
    pub open spec fn profile(&self, flow: Seq<char>) -> Profile {
        crate::b4_engine::policy::profile_in(self.rules().flows@, flow)
    }

    pub closed spec fn rules(&self) -> B4Policy {
        self.policy
    }

    pub closed spec fn settings(&self) -> B4EngineConfig {
        self.config
    }

    /// What is remembered of each flow.
    pub closed spec fn contexts(&self) -> Map<Seq<char>, FlowContext> {
        self.flows@
    }

    /// The flows in the order in which they first came.
    pub closed spec fn order(&self) -> Seq<Seq<char>> {
        self.flows.keys()
    }

    /// The flows in order, after a flow came.
    pub open spec fn order_with(&self, flow: Seq<char>) -> Seq<Seq<char>> {
        if self.contexts().contains_key(flow) { self.order() } else { self.order().push(flow) }
    }

    pub closed spec fn decisions(&self) -> Map<Seq<char>, B4Decision> {
        self.last_decisions@
    }

    pub closed spec fn observations(&self) -> Map<Seq<char>, B4Observation> {
        self.last_observations@
    }

    /// What is remembered of a flow; nothing yet where it never came.
    pub open spec fn context(&self, flow: Seq<char>) -> FlowContext {
        if self.contexts().contains_key(flow) { self.contexts()[flow] } else { FlowContext::idle() }
    }

    /// Whether every size of packets that is remembered is one that adaptations
    /// lead to.
    pub open spec fn bounded(&self) -> bool {
        forall|flow: Seq<char>| #[trigger]
            self.contexts().contains_key(flow) ==> mtu_in_bounds(self.contexts()[flow])
    }

    /// The outcome of a cycle of an engine that is switched on.
    pub open spec fn outcome(&self, flow: Seq<char>, obs: B4Observation) -> Outcome {
        decided(
            self.context(flow),
            self.profile(flow),
            crate::b4_engine::classify::class_of(obs),
            obs,
            self.settings().max_attempts,
        )
    }

    /// An engine with the default bounds.
    pub fn new(policy: B4Policy) -> (r: Self)
        ensures
            r.rules() == policy,
            r.settings() == (B4EngineConfig { max_attempts: 3, enabled: true }),
            r.contexts() == Map::<Seq<char>, FlowContext>::empty(),
            r.decisions() == Map::<Seq<char>, B4Decision>::empty(),
            r.observations() == Map::<Seq<char>, B4Observation>::empty(),
            r.order() == Seq::<Seq<char>>::empty(),
            r.bounded(),
    {
        B4Engine::with_config(policy, B4EngineConfig::default())
    }

    pub fn with_config(policy: B4Policy, config: B4EngineConfig) -> (r: Self)
        ensures
            r.rules() == policy,
            r.settings() == config,
            r.contexts() == Map::<Seq<char>, FlowContext>::empty(),
            r.decisions() == Map::<Seq<char>, B4Decision>::empty(),
            r.observations() == Map::<Seq<char>, B4Observation>::empty(),
            r.order() == Seq::<Seq<char>>::empty(),
            r.bounded(),
    {
        B4Engine {
            policy,
            config,
            flows: TextMap::new(),
            last_decisions: TextMap::new(),
            last_observations: TextMap::new(),
        }
    }

    /// The profile that policy gives a flow.
    pub fn profile_of(&self, flow: &str) -> (r: B4Profile)
        ensures
            r@ == self.profile(flow@),
    {
        self.policy.profile_for(flow)
    }

    /// The state of a flow.
    pub fn state_of(&self, flow: &str) -> (r: B4State)
        ensures
            r == self.context(flow@).state,
    {
        match self.flows.get(flow) {
            Some(ctx) => ctx.state,
            None => B4State::Idle,
        }
    }

    /// Mark a known flow as being adapted.
    pub fn mark_adapting(&mut self, flow: &str)
        ensures
            final(self).contexts() == if old(self).contexts().contains_key(flow@) {
                old(self).contexts().insert(
                    flow@,
                    (FlowContext { state: B4State::Adapting, ..old(self).contexts()[flow@] }),
                )
            } else {
                old(self).contexts()
            },
            final(self).rules() == old(self).rules(),
            final(self).settings() == old(self).settings(),
            final(self).decisions() == old(self).decisions(),
            final(self).observations() == old(self).observations(),
            final(self).order() == old(self).order(),
            old(self).bounded() ==> final(self).bounded(),
    {
        let found: Option<FlowContext> = match self.flows.get(flow) {
            Some(ctx) => Some(*ctx),
            None => None,
        };
        if let Some(ctx) = found {
            let next = FlowContext { state: B4State::Adapting, mtu: ctx.mtu, attempts: ctx.attempts };
            self.flows.insert(flow, next);
        }
    }

    /// The last decision for a flow.
    pub fn last_decision(&self, flow: &str) -> (r: Option<&B4Decision>)
        ensures
            r == if self.decisions().contains_key(flow@) { Some(&self.decisions()[flow@]) } else { None },
    {
        self.last_decisions.get(flow)
    }

    /// The last observation of a flow.
    pub fn last_observation(&self, flow: &str) -> (r: Option<&B4Observation>)
        ensures
            r == if self.observations().contains_key(flow@) { Some(&self.observations()[flow@]) } else { None },
    {
        self.last_observations.get(flow)
    }

    /// How many flows are known.
    pub fn tracked_flows(&self) -> (r: usize)
        ensures
            r == self.order().len(),
    {
        self.flows.len()
    }

    /// The flows that are known.
    pub fn flow_keys(&self) -> (r: Vec<String>)
        ensures
            crate::text::strings(r@) == self.order(),
    {
        let mut out: Vec<String> = Vec::new();
        let mut i: usize = 0;
        let n = self.flows.len();
        while i < n
            invariant
                i <= n,
                n == self.order().len(),
                crate::text::strings(out@) == self.order().take(i as int),
            decreases n - i,
        {
            let ghost before = out@;
            let (key, _) = self.flows.entry(i);
            out.push(key.clone());
            assert(crate::text::strings(out@) =~= crate::text::strings(before).push(self.order()[i as int]));
            i += 1;
            assert(self.order().take(i as int) =~= self.order().take(i as int - 1).push(self.order()[i as int - 1]));
        }
        assert(self.order().take(i as int) =~= self.order());
        out
    }

    /// The domains that policy knows.
    pub fn policy_domains(&self) -> (r: Vec<String>)
        ensures
            crate::text::strings(r@) == crate::b4_engine::policy::domains_in(self.rules().flows@),
    {
        self.policy.flow_domains()
    }

    /// Remember a flow that was not observed yet.
    pub fn seed(&mut self, flow: &str)
        ensures
            final(self).contexts() == if old(self).contexts().contains_key(flow@) {
                old(self).contexts()
            } else {
                old(self).contexts().insert(flow@, FlowContext::idle())
            },
            final(self).order() == old(self).order_with(flow@),
            final(self).rules() == old(self).rules(),
            final(self).settings() == old(self).settings(),
            final(self).decisions() == old(self).decisions(),
            final(self).observations() == old(self).observations(),
            old(self).bounded() ==> final(self).bounded(),
    {
        if !self.flows.contains_key(flow) {
            self.flows.insert(flow, FlowContext::default());
        }
    }

    /// Run one cycle for a flow with what was observed of it. An engine that is
    /// switched off only classifies.
    pub fn evaluate(&mut self, flow: &str, obs: &B4Observation) -> (r: (B4Decision, Vec<B4Event>))
        ensures
            final(self).rules() == old(self).rules(),
            final(self).settings() == old(self).settings(),
            !old(self).settings().enabled ==> r.0 == B4Decision::Noop && events_say(
                r.1@,
                flow@,
                seq![Note::Classified(crate::b4_engine::classify::class_of(*obs))],
            ) && *final(self) == *old(self),
            old(self).settings().enabled ==> {
                let out = old(self).outcome(flow@, *obs);
                &&& r.0 == out.decision
                &&& final(self).order() == old(self).order_with(flow@)
                &&& events_say(
                    r.1@,
                    flow@,
                    seq![Note::Classified(crate::b4_engine::classify::class_of(*obs))] + out.notes,
                )
                &&& final(self).contexts() == old(self).contexts().insert(flow@, out.ctx)
                &&& final(self).decisions() == old(self).decisions().insert(flow@, out.decision)
                &&& final(self).observations() == old(self).observations().insert(flow@, *obs)
            },
            old(self).bounded() ==> final(self).bounded(),
            old(self).settings().enabled && old(self).bounded() ==> permitted(r.0, old(self).profile(flow@), *obs),
    {
        let class = classify(obs);
        let mut events: Vec<B4Event> = Vec::new();
        events.push(B4Event::Classified { flow: owned(flow), class });
        if !self.config.enabled {
            return (B4Decision::Noop, events);
        }
        let profile = self.policy.profile_for(flow);
        let mut ctx: FlowContext = match self.flows.get(flow) {
            Some(c) => *c,
            None => FlowContext::default(),
        };
        let (decision, mut more) = decide(&mut ctx, &profile, class, obs, self.config.max_attempts, flow);
        let ghost first = events@;
        let ghost rest = more@;
        events.append(&mut more);
        assert forall|i: int| 0 <= i < events@.len() implies event_flow(#[trigger] events@[i]) == flow@ && event_note(
            events@[i],
        ) == (seq![Note::Classified(class)] + old(self).outcome(flow@, *obs).notes)[i] by {
            if i == 0 {
                assert(events@[i] == first[0]);
            } else {
                assert(events@[i] == rest[i - 1]);
            }
        }
        self.flows.insert(flow, ctx);
        self.last_decisions.insert(flow, decision);
        self.last_observations.insert(flow, *obs);
        proof {
            if old(self).bounded() {
                decisions_are_permitted(*old(self), flow@, *obs);
            }
        }
        (decision, events)
    }

    /// Run one cycle for a flow with what an observer sees of it.
    pub fn observe_and_evaluate<O: B4Observer>(&mut self, observer: &mut O, flow: &str) -> (r: (
        B4Decision,
        Vec<B4Event>,
    ))
        ensures
            final(self).rules() == old(self).rules(),
            final(self).settings() == old(self).settings(),
            !old(self).settings().enabled ==> r.0 == B4Decision::Noop && *final(self) == *old(self),
            exists|obs: B4Observation, asked: &mut O| {
                let out = old(self).outcome(flow@, obs);
                let class = Note::Classified(crate::b4_engine::classify::class_of(obs));
                &&& #[trigger] call_ensures(O::observe, (asked, flow), obs)
                &&& *asked == *old(observer)
                &&& *final(asked) == *final(observer)
                &&& !old(self).settings().enabled ==> events_say(r.1@, flow@, seq![class])
                &&& old(self).settings().enabled ==> {
                    &&& r.0 == out.decision
                    &&& events_say(r.1@, flow@, seq![class] + out.notes)
                    &&& final(self).order() == old(self).order_with(flow@)
                    &&& final(self).contexts() == old(self).contexts().insert(flow@, out.ctx)
                    &&& final(self).decisions() == old(self).decisions().insert(flow@, out.decision)
                    &&& final(self).observations() == old(self).observations().insert(flow@, obs)
                    &&& old(self).bounded() ==> permitted(r.0, old(self).profile(flow@), obs)
                }
            },
            old(self).bounded() ==> final(self).bounded(),
    {
        let obs = observer.observe(flow);
        self.evaluate(flow, &obs)
    }
}

/// A strict flow that may not use a tunnel never falls back: where it cannot be
/// adapted, it fails.
pub proof fn strict_flows_never_bypass(
    ctx: FlowContext,
    profile: Profile,
    class: B4Class,
    obs: B4Observation,
    max_attempts: u32,
)
    requires
        profile.fail == B4FailSemantic::Strict,
        !profile.allow_tunnel,
    ensures
        decided(ctx, profile, class, obs, max_attempts).decision != B4Decision::UseFallback,
{
}

/// A flow that policy does not admit is never adapted and never falls back.
pub proof fn unadmitted_flows_are_not_adapted(
    ctx: FlowContext,
    class: B4Class,
    obs: B4Observation,
    max_attempts: u32,
)
    ensures
        ({
            let d = decided(ctx, crate::b4_engine::policy::default_profile(), class, obs, max_attempts).decision;
            d == B4Decision::Noop || d == B4Decision::Recovered || d == B4Decision::FailStrict
        }),
{
}

/// Whether the size of packets that is remembered is one that adaptations lead
/// to.
pub open spec fn mtu_in_bounds(ctx: FlowContext) -> bool {
    ctx.mtu matches Some(m) ==> LEAST_MTU <= m < PLAIN_MTU && m % MTU_STEP == 0
}

/// The size of packets stays within its bounds in every cycle.
pub proof fn mtu_stays_in_bounds(
    ctx: FlowContext,
    profile: Profile,
    class: B4Class,
    obs: B4Observation,
    max_attempts: u32,
)
    requires
        mtu_in_bounds(ctx),
    ensures
        mtu_in_bounds(decided(ctx, profile, class, obs, max_attempts).ctx),
        decided(ctx, profile, class, obs, max_attempts).decision matches B4Decision::AdaptMtu { mtu } ==> LEAST_MTU
            <= mtu < PLAIN_MTU,
{
}

/// Whether a decision is one that a profile and what was observed permit: an
/// adaptation that the profile has and a symptom asks for, within the bounds on
/// the size of packets, or the fallback that the profile allows. A flow recovered
/// where it works and is left alone where nothing is known of it.
pub open spec fn permitted(d: B4Decision, p: Profile, obs: B4Observation) -> bool {
    let class = crate::b4_engine::classify::class_of(obs);
    let fallback = p.allow_tunnel || (p.allow_direct && p.fail != B4FailSemantic::Strict);
    &&& d matches B4Decision::AdaptMtu { mtu } ==> p.capabilities.contains(B4Capability::Mtu) && obs.mtu_symptom
        == Some(true) && 1280 <= mtu <= 1480
    &&& d == B4Decision::SwitchDnsPath ==> p.capabilities.contains(B4Capability::DnsPath) && obs.dns_ok == Some(false)
    &&& d == B4Decision::UseFallback ==> fallback
    &&& d == B4Decision::FailStrict ==> !fallback
    &&& d == B4Decision::Recovered <==> class == B4Class::Direct
    &&& d == B4Decision::Noop <==> class == B4Class::Unknown
}

/// Every decision is one that the profile of the flow, as policy gives it, and
/// what was observed permit, and every cycle keeps the sizes of packets within
/// their bounds.
pub proof fn decisions_are_permitted(engine: B4Engine, flow: Seq<char>, obs: B4Observation)
    requires
        engine.bounded(),
    ensures
        permitted(
            engine.outcome(flow, obs).decision,
            crate::b4_engine::policy::profile_in(engine.rules().flows@, flow),
            obs,
        ),
        mtu_in_bounds(engine.outcome(flow, obs).ctx),
{
    let class = crate::b4_engine::classify::class_of(obs);
    mtu_stays_in_bounds(engine.context(flow), engine.profile(flow), class, obs, engine.settings().max_attempts);
}

/// No more adaptations are tried in a row than there may be.
pub proof fn attempts_are_bounded(
    ctx: FlowContext,
    profile: Profile,
    class: B4Class,
    obs: B4Observation,
    max_attempts: u32,
)
    requires
        ctx.attempts >= max_attempts,
        max_attempts < u32::MAX,
    ensures
        !(decided(ctx, profile, class, obs, max_attempts).decision is AdaptMtu),
        decided(ctx, profile, class, obs, max_attempts).decision != B4Decision::SwitchDnsPath,
{
}

/// A flow whose lookups fail, and that shows no size of packets that policy
/// lets be adapted, is switched to another DNS path and watched, as long as
/// policy allows it and fewer adaptations than the most were tried in a row.
pub proof fn failed_lookups_switch_the_dns_path(engine: &B4Engine, flow: Seq<char>, obs: B4Observation)
    requires
        obs.dns_ok == Some(false),
        obs.mtu_symptom != Some(true) || !engine.profile(flow).capabilities.contains(B4Capability::Mtu),
        engine.profile(flow).capabilities.contains(B4Capability::DnsPath),
        engine.context(flow).attempts < engine.settings().max_attempts,
    ensures
        engine.outcome(flow, obs).decision == B4Decision::SwitchDnsPath,
        engine.outcome(flow, obs).ctx.state == B4State::Monitoring,
        engine.outcome(flow, obs).ctx.mtu == engine.context(flow).mtu,
        engine.outcome(flow, obs).ctx.attempts == engine.context(flow).attempts + 1,
        engine.outcome(flow, obs).notes == seq![Note::Adapted(B4Capability::DnsPath)],
{
}

/// A flow whose packets are too large gets packets that are 20 bytes smaller,
/// down to 1280, counted from 1500 where nothing was adapted before, and is
/// watched, as long as policy allows it and fewer adaptations than the most
/// were tried in a row.
pub proof fn large_packets_are_made_smaller(engine: &B4Engine, flow: Seq<char>, obs: B4Observation)
    requires
        obs.mtu_symptom == Some(true),
        engine.profile(flow).capabilities.contains(B4Capability::Mtu),
        engine.context(flow).attempts < engine.settings().max_attempts,
    ensures
        ({
            let before: u16 = match engine.context(flow).mtu {
                Some(m) => m,
                None => 1500,
            };
            let after = engine.outcome(flow, obs);
            &&& before > 1280 ==> after.decision == (B4Decision::AdaptMtu { mtu: (before - 20) as u16 })
            &&& before <= 1280 ==> after.decision == (B4Decision::AdaptMtu { mtu: before })
            &&& after.decision == (B4Decision::AdaptMtu { mtu: after.ctx.mtu->0 })
            &&& after.ctx.mtu is Some
            &&& after.ctx.state == B4State::Monitoring
            &&& after.ctx.attempts == engine.context(flow).attempts + 1
            &&& after.notes == seq![Note::Adapted(B4Capability::Mtu)]
        }),
{
}

/// A flow that does not work well and that nothing can be adapted for, or that
/// was adapted as often as it may be, gets the fallback that policy allows: a
/// tunnel, or the direct path where the flow is not strict. Otherwise it fails.
pub proof fn what_cannot_be_adapted_falls_back_or_fails(engine: &B4Engine, flow: Seq<char>, obs: B4Observation)
    requires
        obs.dns_ok == Some(false) || obs.reset_or_timeout == Some(true) || obs.mtu_symptom == Some(true) || (
        obs.retransmissions is Some && obs.retransmissions->0 >= 3) || (obs.rtt_us is Some && obs.rtt_us->0
            >= 400_000) || (obs.throughput_bps is Some && obs.throughput_bps->0 < 1000),
        engine.context(flow).attempts >= engine.settings().max_attempts && engine.settings().max_attempts < u32::MAX
            || (obs.mtu_symptom != Some(true) || !engine.profile(flow).capabilities.contains(B4Capability::Mtu)) && (
        obs.dns_ok != Some(false) || !engine.profile(flow).capabilities.contains(B4Capability::DnsPath)),
    ensures
        ({
            let p = engine.profile(flow);
            let after = engine.outcome(flow, obs);
            let allowed = p.allow_tunnel || p.allow_direct && (p.fail != B4FailSemantic::Strict);
            &&& allowed ==> after.decision == B4Decision::UseFallback && after.ctx.state == B4State::Fallback
                && after.notes.len() == 0
            &&& !allowed ==> after.decision == B4Decision::FailStrict && after.ctx.state == B4State::StrictFail
                && after.notes == seq![Note::StrictFailed]
            &&& after.ctx.mtu == engine.context(flow).mtu
        }),
{
}

/// A flow whose direct path is healthy is recovered, and its adaptations are
/// counted anew; one that nothing was observed of is left alone.
pub proof fn healthy_flows_recover(engine: &B4Engine, flow: Seq<char>, obs: B4Observation)
    requires
        obs.dns_ok != Some(false),
        obs.reset_or_timeout != Some(true),
        obs.mtu_symptom != Some(true),
        obs.retransmissions is Some ==> obs.retransmissions->0 < 3,
        obs.rtt_us is Some ==> obs.rtt_us->0 < 400_000,
        obs.throughput_bps is Some ==> obs.throughput_bps->0 >= 1000,
    ensures
        obs != B4Observation::nothing() ==> {
            &&& engine.outcome(flow, obs).decision == B4Decision::Recovered
            &&& engine.outcome(flow, obs).ctx == (FlowContext {
                state: B4State::Recovered,
                mtu: engine.context(flow).mtu,
                attempts: 0,
            })
            &&& engine.outcome(flow, obs).notes.len() == 0
        },
        obs == B4Observation::nothing() ==> {
            &&& engine.outcome(flow, obs).decision == B4Decision::Noop
            &&& engine.outcome(flow, obs).ctx == (FlowContext {
                state: B4State::Observing,
                mtu: engine.context(flow).mtu,
                attempts: engine.context(flow).attempts,
            })
            &&& engine.outcome(flow, obs).notes.len() == 0
        },
{
}

/// A blocked flow is not adapted: it gets what policy allows at once, and its
/// adaptations are not counted.
pub proof fn blocked_flows_are_not_adapted(
    ctx: FlowContext,
    profile: Profile,
    obs: B4Observation,
    max_attempts: u32,
)
    ensures
        ({
            let after = decided(ctx, profile, B4Class::Blocked, obs, max_attempts);
            &&& after.decision == B4Decision::UseFallback || after.decision == B4Decision::FailStrict
            &&& after.decision == B4Decision::UseFallback <==> profile.allow_tunnel || (profile.allow_direct
                && profile.fail != B4FailSemantic::Strict)
            &&& after.ctx.attempts == ctx.attempts
            &&& after.ctx.mtu == ctx.mtu
        }),
{
}

/// Events tell of one flow, one thing each, in order.
pub proof fn events_tell_of_one_flow(v: Seq<B4Event>, flow: Seq<char>, notes: Seq<Note>, i: int)
    requires
        events_say(v, flow, notes),
        0 <= i < notes.len(),
    ensures
        v.len() == notes.len(),
        v[i] matches B4Event::Classified { flow: f, class } ==> f@ == flow && notes[i] == Note::Classified(class),
        v[i] matches B4Event::Adapted { flow: f, capability } ==> f@ == flow && notes[i] == Note::Adapted(capability),
        v[i] matches B4Event::Recovered { flow: f } ==> f@ == flow && notes[i] == Note::Recovered,
        v[i] matches B4Event::StrictFailed { flow: f } ==> f@ == flow && notes[i] == Note::StrictFailed,
{
    assert(event_flow(v[i]) == flow && event_note(v[i]) == notes[i]);
}

/// A flow that never came is idle: nothing was adapted and nothing tried.
pub proof fn flows_begin_idle(engine: &B4Engine, flow: Seq<char>)
    ensures
        !engine.contexts().contains_key(flow) ==> engine.context(flow).state == B4State::Idle && engine.context(
            flow,
        ).mtu is None && engine.context(flow).attempts == 0,
        engine.contexts().contains_key(flow) ==> engine.context(flow) == engine.contexts()[flow],
        engine.contexts().contains_key(flow) ==> engine.order_with(flow) == engine.order(),
        !engine.contexts().contains_key(flow) ==> engine.order_with(flow) == engine.order().push(flow),
{
}

} // verus!
