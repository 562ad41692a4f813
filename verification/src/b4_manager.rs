//! The B4 component: the engine, what it publishes and what it tells.
use vstd::prelude::*;
use vstd::string::*;

use crate::b4_engine::classify::{classify, HEAVY_RETRANSMISSIONS, LOW_THROUGHPUT_BPS};
use crate::b4_engine::config::B4Toml;
use crate::b4_engine::controller::{B4Controller, ControlStep, PathMtu};
use crate::b4_engine::observe::B4Observation;
use crate::b4_engine::policy::B4Capability;
use crate::b4_engine::state::{B4Event, Note};
use crate::events::{tell, SubsystemEvent, Told};
use crate::order::insert_text;
use crate::snapshot::{B4FlowView, B4Snapshot, PathHealthView};
use crate::text::{clone_option, decimal_of, join, list_has, owned};
use crate::text_map::TextMap;

verus! {

/// One sample of the health of a path.
#[derive(Debug, Clone, Copy, PartialEq, Eq, Structural)]
pub struct PathSample {
    /// The latency in microseconds, where it is known.
    pub latency_us: Option<u64>,
    pub reachable: bool,
    /// Whether the path shows that it does not work well.
    pub degraded_evidence: bool,
}

/// What an observation says of the health of a path.
pub open spec fn sample_of(o: B4Observation) -> PathSample {
    PathSample {
        latency_us: o.rtt_us,
        reachable: !(o.reset_or_timeout == Some(true) || o.dns_ok == Some(false)),
        degraded_evidence: (o.retransmissions matches Some(n) && n >= HEAVY_RETRANSMISSIONS) || (
        o.throughput_bps matches Some(b) && b < LOW_THROUGHPUT_BPS),
    }
}

/// What an observation says of the health of a path.
pub fn sample_for(obs: &B4Observation) -> (r: PathSample)
    ensures
        r == sample_of(*obs),
{
    let reset = match obs.reset_or_timeout {
        Some(b) => b,
        None => false,
    };
    let dns_failed = match obs.dns_ok {
        Some(b) => !b,
        None => false,
    };
    let heavy = match obs.retransmissions {
        Some(n) => n >= HEAVY_RETRANSMISSIONS,
        None => false,
    };
    let slow = match obs.throughput_bps {
        Some(b) => b < LOW_THROUGHPUT_BPS,
        None => false,
    };
    PathSample { latency_us: obs.rtt_us, reachable: !(reset || dns_failed), degraded_evidence: heavy || slow }
}

/// Pauses the component. There is one for each manager, which lends it out: what
/// is set through it is what the manager sees.
#[derive(Debug, PartialEq, Eq, Structural)]
pub struct B4ManagerHandle {
    pub paused: bool,
}

impl B4ManagerHandle {
    pub fn set_paused(&mut self, paused: bool)
        ensures
            final(self).paused == paused,
    {
        self.paused = paused;
    }

    pub fn is_paused(&self) -> (r: bool)
        ensures
            r == self.paused,
    {
        self.paused
    }
}

/// Whether what is reported is not what is intended.
pub fn drift_between(intended: &Vec<PathMtu>, reported: &Vec<PathMtu>) -> (r: bool)
    ensures
        r == (crate::b4_engine::controller::mtus(intended@) != crate::b4_engine::controller::mtus(reported@)),
{
    let (changes, _) = crate::b4_engine::controller::PathMtuReconciler::reconcile(intended, reported);
    proof {
        let im = crate::b4_engine::controller::mtus(intended@);
        let rm = crate::b4_engine::controller::mtus(reported@);
        if changes@.len() > 0 {
            assert(crate::b4_engine::controller::called_for(changes@[0], im, rm));
            if im == rm {
                crate::b4_engine::controller::agreement_calls_for_nothing(changes@[0], im);
            }
        }
    }
    changes.len() > 0
}

/// The names of mechanisms.
pub open spec fn capability_texts(v: Seq<B4Capability>) -> Seq<Seq<char>> {
    Seq::new(v.len(), |i: int| crate::b4_engine::policy::capability_text(v[i]))
}

/// A profile in words: its mechanisms, or that it is direct, and whether a
/// tunnel may be used.
pub open spec fn profile_text(p: crate::b4_engine::policy::Profile) -> Seq<char> {
    let names = crate::text::joined(capability_texts(p.capabilities), ","@);
    let label = if names.len() == 0 { "direct"@ } else { names };
    if p.allow_tunnel { label + "+tunnel"@ } else { label }
}

/// What is published of a flow, as texts.
pub struct FlowLine {
    pub flow: Seq<char>,
    pub state: Seq<char>,
    pub profile: Seq<char>,
    pub last_decision: Option<Seq<char>>,
    pub mtu: Option<u16>,
    pub health: Seq<char>,
    pub rtt_ms: Option<u64>,
    pub rtt_var_ms: Option<u64>,
    pub connect_latency_ms: Option<u64>,
    pub retransmissions: Option<u32>,
    pub throughput_bps: Option<u64>,
    pub dns_ok: Option<bool>,
    pub reset_or_timeout: Option<bool>,
    pub path_state: Seq<char>,
}

impl View for B4FlowView {
    type V = FlowLine;

    open spec fn view(&self) -> FlowLine {
        FlowLine {
            flow: self.flow@,
            state: self.state@,
            profile: self.profile@,
            last_decision: crate::text::text_of(self.last_decision),
            mtu: self.mtu,
            health: self.health@,
            rtt_ms: self.rtt_ms,
            rtt_var_ms: self.rtt_var_ms,
            connect_latency_ms: self.connect_latency_ms,
            retransmissions: self.retransmissions,
            throughput_bps: self.throughput_bps,
            dns_ok: self.dns_ok,
            reset_or_timeout: self.reset_or_timeout,
            path_state: self.path.state@,
        }
    }
}

/// Whole milliseconds of a time in microseconds.
pub open spec fn millis(us: Option<u64>) -> Option<u64> {
    match us {
        Some(t) => Some((t / 1000) as u64),
        None => None,
    }
}

fn whole_millis(us: Option<u64>) -> (r: Option<u64>)
    ensures
        r == millis(us),
{
    match us {
        Some(t) => Some(t / 1000),
        None => None,
    }
}

/// What was last observed of a flow, or nothing.
pub open spec fn observed(c: B4Controller, flow: Seq<char>) -> B4Observation {
    if c.brain().observations().contains_key(flow) {
        c.brain().observations()[flow]
    } else {
        B4Observation::nothing()
    }
}

/// What is published of a flow.
pub open spec fn line_of(c: B4Controller, paths: Map<Seq<char>, PathHealthView>, flow: Seq<char>) -> FlowLine {
    let o = observed(c, flow);
    FlowLine {
        flow,
        state: crate::b4_engine::state::state_text(c.brain().context(flow).state),
        profile: profile_text(c.brain().profile(flow)),
        last_decision: if c.brain().decisions().contains_key(flow) {
            Some(crate::b4_engine::state::decision_text(c.brain().decisions()[flow]))
        } else {
            None
        },
        mtu: if c.intended().contains_key(flow) { Some(c.intended()[flow]) } else { None },
        health: crate::b4_engine::classify::class_text(crate::b4_engine::classify::class_of(o)),
        rtt_ms: millis(o.rtt_us),
        rtt_var_ms: millis(o.rtt_var_us),
        connect_latency_ms: millis(o.connect_latency_us),
        retransmissions: o.retransmissions,
        throughput_bps: o.throughput_bps,
        dns_ok: o.dns_ok,
        reset_or_timeout: o.reset_or_timeout,
        path_state: if paths.contains_key(flow) { paths[flow].state@ } else { Seq::empty() },
    }
}

/// What is told of the notes of a cycle. That a flow was classified is not told.
pub open spec fn told_of(flow: Seq<char>, notes: Seq<Note>) -> Seq<Told>
    decreases notes.len(),
{
    if notes.len() == 0 {
        Seq::empty()
    } else {
        let front = told_of(flow, notes.drop_last());
        match notes.last() {
            Note::Classified(_) => front,
            Note::Adapted(c) => front.push(
                Told::B4Adapted { flow, capability: crate::b4_engine::policy::capability_text(c) },
            ),
            Note::Recovered => front.push(Told::B4Recovered { flow }),
            Note::StrictFailed => front.push(Told::B4StateChanged { flow, state: "StrictFail"@ }),
        }
    }
}

/// What events say, in order.
pub open spec fn notes_of(v: Seq<B4Event>) -> Seq<Note> {
    Seq::new(v.len(), |i: int| crate::b4_engine::state::event_note(v[i]))
}

/// What is told of the events of a cycle for a flow.
pub fn engine_events(flow: &str, events: &Vec<B4Event>) -> (r: Vec<SubsystemEvent>)
    ensures
        crate::events::told(r@) == told_of(flow@, notes_of(events@)),
{
    let ghost notes = notes_of(events@);
    let mut out: Vec<SubsystemEvent> = Vec::new();
    let mut i: usize = 0;
    assert(notes.take(0) =~= Seq::<Note>::empty());
    assert(crate::events::told(out@) =~= Seq::<Told>::empty());
    while i < events.len()
        invariant
            i <= events@.len(),
            notes == notes_of(events@),
            crate::events::told(out@) == told_of(flow@, notes.take(i as int)),
        decreases events.len() - i,
    {
        assert(notes.take(i as int + 1).drop_last() =~= notes.take(i as int));
        match &events[i] {
            B4Event::Classified { .. } => {},
            B4Event::Adapted { capability, .. } => {
                tell(
                    &mut out,
                    SubsystemEvent::B4Adapted { flow: owned(flow), capability: owned(capability.name()) },
                );
            },
            B4Event::Recovered { .. } => {
                tell(&mut out, SubsystemEvent::B4Recovered { flow: owned(flow) });
            },
            B4Event::StrictFailed { .. } => {
                tell(&mut out, SubsystemEvent::B4StateChanged { flow: owned(flow), state: owned("StrictFail") });
            },
        }
        i += 1;
    }
    assert(notes.take(i as int) =~= notes);
    out
}

/// A list, and behind it what another list holds that is not in it yet.
pub open spec fn merged(a: Seq<Seq<char>>, b: Seq<Seq<char>>) -> Seq<Seq<char>>
    decreases b.len(),
{
    if b.len() == 0 {
        a
    } else {
        let front = merged(a, b.drop_last());
        if front.contains(b.last()) { front } else { front.push(b.last()) }
    }
}

fn merge(a: Vec<String>, b: &Vec<String>) -> (r: Vec<String>)
    ensures
        crate::text::strings(r@) == merged(crate::text::strings(a@), crate::text::strings(b@)),
{
    let ghost first = crate::text::strings(a@);
    let ghost more = crate::text::strings(b@);
    let mut out = a;
    let mut i: usize = 0;
    assert(more.take(0) =~= Seq::<Seq<char>>::empty());
    while i < b.len()
        invariant
            i <= b@.len(),
            more == crate::text::strings(b@),
            crate::text::strings(out@) == merged(first, more.take(i as int)),
        decreases b.len() - i,
    {
        assert(more.take(i as int + 1).drop_last() =~= more.take(i as int));
        let ghost before = out@;
        if !list_has(&out, b[i].as_str()) {
            out.push(b[i].clone());
            assert(crate::text::strings(out@) =~= crate::text::strings(before).push(more[i as int]));
        }
        i += 1;
    }
    assert(more.take(i as int) =~= more);
    out
}

/// The detail of a report that sizes of packets had to be put right.
pub open spec fn drift_detail(n: nat) -> Seq<char> {
    "B4 MTU ownership drift: "@ + crate::text::decimal(n) + " path(s) differ from intent"@
}

/// The B4 component.
pub struct B4Manager {
    pub controller: B4Controller,
    pub config_path: Option<String>,
    pub enabled: bool,
    pub handle: B4ManagerHandle,
    pub last_error: Option<String>,
}

impl B4Manager {
    /// The handle by which the component is paused. What it is left as is what
    /// the component goes by.
    pub fn handle(&mut self) -> (r: &mut B4ManagerHandle)
        ensures
            *r == old(self).handle,
            *final(self) == (B4Manager { handle: *final(r), ..*old(self) }),
    {
        &mut self.handle
    }

    /// Whether the component is paused.
    pub fn is_paused(&self) -> (r: bool)
        ensures
            r == self.handle.paused,
    {
        self.handle.is_paused()
    }

    /// The component that a configuration describes; an error where its policy
    /// cannot be read.
    pub fn from_toml(config_path: &str, b4_cfg: &B4Toml) -> (r: Result<Self, String>)
        ensures
            r matches Err(e) ==> crate::b4_engine::config::first_fault(b4_cfg.flows@) == Some(e@),
            r matches Ok(m) ==> {
                &&& crate::b4_engine::config::first_fault(b4_cfg.flows@) is None
                &&& crate::text::text_of(m.config_path) == Some(config_path@)
                &&& m.enabled == b4_cfg.engine.enabled
                &&& !m.handle.paused
                &&& m.last_error is None
                &&& m.controller.may_change()
                &&& m.controller.intended() == Map::<Seq<char>, u16>::empty()
                &&& m.controller.brain().bounded()
                &&& m.controller.brain().order() == Seq::<Seq<char>>::empty()
                &&& m.controller.brain().contexts() == Map::<Seq<char>, crate::b4_engine::state::FlowContext>::empty()
                &&& m.controller.brain().decisions() == Map::<Seq<char>, crate::b4_engine::state::B4Decision>::empty()
                &&& m.controller.brain().observations() == Map::<Seq<char>, B4Observation>::empty()
                &&& m.controller.brain().settings().enabled == b4_cfg.engine.enabled
                &&& m.controller.brain().settings().max_attempts == b4_cfg.engine.max_attempts
                &&& m.controller.brain().rules().flows@.len() == b4_cfg.flows@.len()
                &&& forall|i: int|
                    0 <= i < b4_cfg.flows@.len() ==> crate::b4_engine::config::rule_is(
                        #[trigger] m.controller.brain().rules().flows@[i],
                        b4_cfg.flows@[i],
                    )
            },
    {
        let policy = match b4_cfg.policy() {
            Ok(p) => p,
            Err(e) => {
                return Err(e);
            },
        };
        let config = b4_cfg.engine_config();
        let enabled = config.enabled;
        Ok(
            B4Manager {
                controller: B4Controller::new(policy, config),
                config_path: Some(owned(config_path)),
                enabled,
                handle: B4ManagerHandle { paused: false },
                last_error: None,
            },
        )
    }

    /// A profile in words.
    pub fn profile_label(&self, flow: &str) -> (r: String)
        ensures
            r@ == profile_text(self.controller.brain().profile(flow@)),
    {
        let profile = self.controller.flow_profile(flow);
        let ghost caps = capability_texts(profile@.capabilities);
        let mut names: Vec<String> = Vec::new();
        let mut i: usize = 0;
        assert(crate::text::strings(names@) =~= caps.take(0));
        while i < profile.capabilities.len()
            invariant
                i <= profile.capabilities@.len(),
                caps == capability_texts(profile.capabilities@),
                crate::text::strings(names@) == caps.take(i as int),
            decreases profile.capabilities.len() - i,
        {
            let ghost before = names@;
            names.push(owned(profile.capabilities[i].name()));
            i += 1;
            assert(crate::text::strings(names@) =~= crate::text::strings(before).push(caps[i as int - 1]));
            assert(caps.take(i as int) =~= caps.take(i as int - 1).push(caps[i as int - 1]));
        }
        assert(caps.take(i as int) =~= caps);
        let mut label = join(&names, ",");
        if label.as_str().is_empty() {
            label = owned("direct");
        }
        if profile.allow_tunnel {
            label.append("+tunnel");
        }
        label
    }

    fn flow_view(&self, paths: &TextMap<PathHealthView>, intended: &Vec<PathMtu>, flow: &str) -> (r: B4FlowView)
        requires
            crate::b4_engine::controller::mtus(intended@) == self.controller.intended(),
            crate::b4_engine::controller::paths(intended@).no_duplicates(),
        ensures
            r@ == line_of(self.controller, paths@, flow@),
    {
        let decision = self.controller.flow_decision(flow);
        let obs = match self.controller.flow_observation(flow) {
            Some(o) => o,
            None => B4Observation::default(),
        };
        let path_state = match paths.get(flow) {
            Some(p) => p.state.clone(),
            None => String::new(),
        };
        B4FlowView {
            flow: owned(flow),
            state: owned(self.controller.flow_state(flow).name()),
            profile: self.profile_label(flow),
            last_decision: match decision {
                Some(d) => Some(d.to_text()),
                None => None,
            },
            mtu: find_mtu(intended, flow),
            health: owned(classify(&obs).name()),
            rtt_ms: whole_millis(obs.rtt_us),
            rtt_var_ms: whole_millis(obs.rtt_var_us),
            connect_latency_ms: whole_millis(obs.connect_latency_us),
            retransmissions: obs.retransmissions,
            throughput_bps: obs.throughput_bps,
            dns_ok: obs.dns_ok,
            reset_or_timeout: obs.reset_or_timeout,
            path: PathHealthView { state: path_state },
        }
    }

    /// What is published: every flow that the engine or policy knows, in order,
    /// given what the executor reports and how healthy paths are.
    pub fn observe_snapshot(&self, reported: Vec<PathMtu>, paths: &TextMap<PathHealthView>) -> (r: B4Snapshot)
        ensures
            r.enabled == self.enabled,
            r.paused == self.handle.paused,
            r.mtu_enabled == self.controller.may_change(),
            r.config_path == self.config_path,
            r.last_error == self.last_error,
            r.reported_mtu == reported,
            crate::b4_engine::controller::mtus(r.intended_mtu@) == self.controller.intended(),
            r.drift == (self.controller.intended() != crate::b4_engine::controller::mtus(reported@)),
            crate::order::ascending(flow_names(r.flows@)),
            forall|t: Seq<char>| #[trigger] flow_names(r.flows@).contains(t) <==> self.controller.brain().order().contains(
                t,
            ) || crate::b4_engine::policy::domains_in(self.controller.brain().rules().flows@).contains(t),
            forall|i: int| 0 <= i < r.flows@.len() ==> (#[trigger] r.flows@[i])@ == line_of(
                self.controller,
                paths@,
                r.flows@[i].flow@,
            ),
    {
        let intended = self.controller.intended_path_mtu();
        let known = self.controller.flow_keys();
        let domains = self.controller.policy_domains();
        let ghost a = crate::text::strings(known@);
        let ghost b = crate::text::strings(domains@);
        let mut keys: Vec<String> = Vec::new();
        let mut i: usize = 0;
        while i < known.len()
            invariant
                i <= known@.len(),
                a == crate::text::strings(known@),
                crate::order::ascending(crate::text::strings(keys@)),
                forall|t: Seq<char>| #[trigger] crate::text::strings(keys@).contains(t) <==> a.take(i as int).contains(t),
            decreases known.len() - i,
        {
            insert_text(&mut keys, known[i].as_str());
            proof {
                assert(a.take(i as int + 1) =~= a.take(i as int).push(a[i as int]));
                assert forall|t: Seq<char>| #[trigger] crate::text::strings(keys@).contains(t) <==> a.take(
                    i as int + 1,
                ).contains(t) by {
                    crate::seqs::contains_after_push(a.take(i as int), a[i as int], t);
                }
            }
            i += 1;
        }
        assert(a.take(i as int) =~= a);
        let mut j: usize = 0;
        assert forall|t: Seq<char>| #[trigger] crate::text::strings(keys@).contains(t) <==> a.contains(t) || b.take(
            0,
        ).contains(t) by {
            assert(a.take(i as int).contains(t) <==> a.contains(t));
        }
        while j < domains.len()
            invariant
                j <= domains@.len(),
                b == crate::text::strings(domains@),
                crate::order::ascending(crate::text::strings(keys@)),
                forall|t: Seq<char>| #[trigger] crate::text::strings(keys@).contains(t) <==> a.contains(t) || b.take(
                    j as int,
                ).contains(t),
            decreases domains.len() - j,
        {
            insert_text(&mut keys, domains[j].as_str());
            proof {
                assert(b.take(j as int + 1) =~= b.take(j as int).push(b[j as int]));
                assert forall|t: Seq<char>| #[trigger] crate::text::strings(keys@).contains(t) <==> a.contains(t)
                    || b.take(j as int + 1).contains(t) by {
                    crate::seqs::contains_after_push(b.take(j as int), b[j as int], t);
                }
            }
            j += 1;
        }
        assert(b.take(j as int) =~= b);
        let mut flows: Vec<B4FlowView> = Vec::new();
        let mut k: usize = 0;
        while k < keys.len()
            invariant
                k <= keys@.len(),
                crate::b4_engine::controller::mtus(intended@) == self.controller.intended(),
                crate::b4_engine::controller::paths(intended@).no_duplicates(),
                flows@.len() == k,
                forall|n: int| 0 <= n < k ==> (#[trigger] flows@[n])@ == line_of(
                    self.controller,
                    paths@,
                    keys@[n]@,
                ),
            decreases keys.len() - k,
        {
            flows.push(self.flow_view(paths, &intended, keys[k].as_str()));
            k += 1;
        }
        proof {
            assert forall|n: int| 0 <= n < flows@.len() implies (#[trigger] flows@[n])@ == line_of(
                self.controller,
                paths@,
                flows@[n].flow@,
            ) by {
                assert(flows@[n]@.flow == keys@[n]@);
            }
            assert(flow_names(flows@) =~= crate::text::strings(keys@)) by {
                assert forall|n: int| 0 <= n < flows@.len() implies flow_names(flows@)[n] == keys@[n]@ by {
                    assert(flows@[n]@.flow == keys@[n]@);
                }
            }
            assert forall|t: Seq<char>| #[trigger] flow_names(flows@).contains(t) <==> a.contains(t) || b.contains(t) by {
                assert(crate::text::strings(keys@).contains(t) <==> a.contains(t) || b.take(j as int).contains(t));
            }
        }
        let drift = drift_between(&intended, &reported);
        B4Snapshot {
            enabled: self.enabled,
            paused: self.handle.paused,
            mtu_enabled: self.controller.mtu_enabled(),
            config_path: clone_option(&self.config_path),
            flows,
            intended_mtu: intended,
            reported_mtu: reported,
            drift,
            last_error: clone_option(&self.last_error),
        }
    }

    /// The flows of a cycle: those of policy, and behind them those that the
    /// engine knows. None while the component is paused.
    pub fn cycle_flows(&self) -> (r: Vec<String>)
        ensures
            crate::text::strings(r@) == if self.handle.paused {
                Seq::empty()
            } else {
                merged(
                    crate::b4_engine::policy::domains_in(self.controller.brain().rules().flows@),
                    self.controller.brain().order(),
                )
            },
    {
        if self.handle.paused {
            let none: Vec<String> = Vec::new();
            assert(crate::text::strings(none@) =~= Seq::<Seq<char>>::empty());
            return none;
        }
        merge(self.controller.policy_domains(), &self.controller.flow_keys())
    }

    /// Run one cycle for a flow with what was observed of it: what is asked
    /// for, and what is told.
    pub fn run_flow(&mut self, flow: &str, obs: &B4Observation) -> (r: (ControlStep, Vec<SubsystemEvent>))
        ensures
            final(self).config_path == old(self).config_path,
            final(self).enabled == old(self).enabled,
            final(self).handle == old(self).handle,
            final(self).last_error == old(self).last_error,
            final(self).controller.intended() == old(self).controller.intended(),
            final(self).controller.may_change() == old(self).controller.may_change(),
            final(self).controller.brain().rules() == old(self).controller.brain().rules(),
            final(self).controller.brain().settings() == old(self).controller.brain().settings(),
            old(self).controller.brain().bounded() ==> final(self).controller.brain().bounded() && (
            r.0 matches ControlStep::SetMtu { mtu } ==> 1280 <= mtu <= 1480 && old(self).controller.brain().profile(
                flow@,
            ).capabilities.contains(B4Capability::Mtu)),
            old(self).controller.brain().settings().enabled ==> {
                let out = old(self).controller.brain().outcome(flow@, *obs);
                &&& r.0 == crate::b4_engine::controller::asked_for(
                    out.decision,
                    old(self).controller.may_change(),
                    old(self).controller.intended().contains_key(flow@),
                )
                &&& crate::events::told(r.1@) == told_of(flow@, out.notes)
                &&& final(self).controller.brain().contexts() == old(self).controller.brain().contexts().insert(
                    flow@,
                    out.ctx,
                )
                &&& final(self).controller.brain().decisions() == old(self).controller.brain().decisions().insert(
                    flow@,
                    out.decision,
                )
                &&& final(self).controller.brain().observations() == old(
                    self,
                ).controller.brain().observations().insert(flow@, *obs)
                &&& final(self).controller.brain().order() == old(self).controller.brain().order_with(flow@)
            },
            !old(self).controller.brain().settings().enabled ==> r.0 == ControlStep::Nothing && r.1@.len() == 0
                && final(self).controller.brain() == old(self).controller.brain(),
    {
        let ghost out = self.controller.brain().outcome(flow@, *obs);
        let ghost on = self.controller.brain().settings().enabled;
        let (step, events) = self.controller.run_for(flow, obs);
        let told = engine_events(flow, &events);
        proof {
            let class = Note::Classified(crate::b4_engine::classify::class_of(*obs));
            let rest = if on { out.notes } else { Seq::empty() };
            assert(notes_of(events@) =~= seq![class] + rest);
            classification_is_not_told(flow@, class, rest);
            if !on {
                assert(crate::events::told(told@).len() == 0);
            }
        }
        (step, told)
    }

    /// Take note that the sizes of packets were brought to those of a list.
    pub fn ownership_checked(&mut self, after: &Vec<PathMtu>) -> (r: Option<SubsystemEvent>)
        ensures
            final(self).controller == old(self).controller,
            final(self).config_path == old(self).config_path,
            final(self).enabled == old(self).enabled,
            final(self).handle == old(self).handle,
            after@.len() == 0 ==> r is None && final(self).last_error == old(self).last_error,
            after@.len() > 0 ==> crate::text::text_of(final(self).last_error) == Some(drift_detail(after@.len())) && (
            r matches Some(e) && e@ == (Told::B4Drift { detail: drift_detail(after@.len()) })),
    {
        if after.len() == 0 {
            return None;
        }
        let mut detail = owned("B4 MTU ownership drift: ");
        detail.append(decimal_of(after.len() as u64).as_str());
        detail.append(" path(s) differ from intent");
        self.last_error = Some(detail.clone());
        Some(SubsystemEvent::B4Drift { detail })
    }
}

/// The names of published flows.
pub open spec fn flow_names(v: Seq<B4FlowView>) -> Seq<Seq<char>> {
    Seq::new(v.len(), |i: int| v[i].flow@)
}

proof fn classification_is_not_told(flow: Seq<char>, class: Note, rest: Seq<Note>)
    requires
        class is Classified,
    ensures
        told_of(flow, seq![class] + rest) == told_of(flow, rest),
    decreases rest.len(),
{
    let all = seq![class] + rest;
    if rest.len() == 0 {
        assert(all.drop_last() =~= Seq::<Note>::empty());
        assert(all.last() == class);
        assert(told_of(flow, all.drop_last()) =~= Seq::<Told>::empty());
    } else {
        assert(all.drop_last() =~= seq![class] + rest.drop_last());
        classification_is_not_told(flow, class, rest.drop_last());
        assert(all.last() == rest.last());
    }
}

fn find_mtu(list: &Vec<PathMtu>, path: &str) -> (r: Option<u16>)
    requires
        crate::b4_engine::controller::paths(list@).no_duplicates(),
    ensures
        r == if crate::b4_engine::controller::mtus(list@).contains_key(path@) {
            Some(crate::b4_engine::controller::mtus(list@)[path@])
        } else {
            None
        },
{
    let mut i: usize = 0;
    while i < list.len()
        invariant
            i <= list@.len(),
            crate::b4_engine::controller::paths(list@).no_duplicates(),
            forall|k: int| 0 <= k < i ==> (#[trigger] list@[k]).path@ != path@,
        decreases list.len() - i,
    {
        if crate::text::same_text(list[i].path.as_str(), path) {
            proof {
                entry_counts(list@, i as int);
            }
            return Some(list[i].mtu);
        }
        i += 1;
    }
    proof {
        no_entry(list@, path@);
    }
    None
}

proof fn entry_counts(list: Seq<PathMtu>, i: int)
    requires
        0 <= i < list.len(),
        crate::b4_engine::controller::paths(list).no_duplicates(),
    ensures
        crate::b4_engine::controller::mtus(list).contains_key(list[i].path@),
        crate::b4_engine::controller::mtus(list)[list[i].path@] == list[i].mtu,
    decreases list.len(),
{
    if i < list.len() - 1 {
        let p = crate::b4_engine::controller::paths(list);
        let front = list.drop_last();
        assert forall|a: int, b: int|
            0 <= a < crate::b4_engine::controller::paths(front).len() && 0 <= b
                < crate::b4_engine::controller::paths(front).len() && a
                != b implies crate::b4_engine::controller::paths(front)[a] != crate::b4_engine::controller::paths(
            front,
        )[b] by {
            assert(p[a] != p[b]);
        }
        entry_counts(front, i);
        assert(p[i] != p[list.len() - 1]);
    }
}

proof fn no_entry(list: Seq<PathMtu>, path: Seq<char>)
    requires
        forall|k: int| 0 <= k < list.len() ==> (#[trigger] list[k]).path@ != path,
    ensures
        !crate::b4_engine::controller::mtus(list).contains_key(path),
    decreases list.len(),
{
    if list.len() > 0 {
        let front = list.drop_last();
        assert forall|k: int| 0 <= k < front.len() implies (#[trigger] front[k]).path@ != path by {
            assert(list[k].path@ != path);
        }
        no_entry(front, path);
        assert(list[list.len() - 1].path@ != path);
    }
}

/// A path is reachable unless it was reset, timed out or could not be resolved,
/// and shows that it does not work well where it lost three packets or more or
/// carried less than 1000 bytes in a second. Its latency is the round-trip time.
pub proof fn samples_say_what_was_observed(o: B4Observation)
    ensures
        sample_of(o).latency_us == o.rtt_us,
        sample_of(o).reachable <==> o.reset_or_timeout != Some(true) && o.dns_ok != Some(false),
        sample_of(o).degraded_evidence <==> (o.retransmissions is Some && o.retransmissions->0 >= 3) || (
        o.throughput_bps is Some && o.throughput_bps->0 < 1000),
{
}

/// Times are told in whole milliseconds.
pub proof fn times_are_told_in_milliseconds(us: Option<u64>)
    ensures
        us is None <==> millis(us) is None,
        us is Some ==> millis(us)->0 * 1000 <= us->0 < millis(us)->0 * 1000 + 1000,
{
}

/// A flow is shown with what is known of it: its state, its last decision, the
/// size that is intended for it, and what was last observed of it.
pub proof fn flows_are_shown_as_they_are(
    c: B4Controller,
    paths: Map<Seq<char>, PathHealthView>,
    flow: Seq<char>,
)
    ensures
        ({
            let line = line_of(c, paths, flow);
            let o = observed(c, flow);
            &&& line.flow == flow
            &&& line.state == crate::b4_engine::state::state_text(c.brain().context(flow).state)
            &&& line.last_decision is Some <==> c.brain().decisions().contains_key(flow)
            &&& line.last_decision is Some ==> line.last_decision->0 == crate::b4_engine::state::decision_text(
                c.brain().decisions()[flow],
            )
            &&& line.mtu is Some <==> c.intended().contains_key(flow)
            &&& line.mtu is Some ==> line.mtu->0 == c.intended()[flow]
            &&& line.health == crate::b4_engine::classify::class_text(crate::b4_engine::classify::class_of(o))
            &&& line.rtt_ms == millis(o.rtt_us)
            &&& line.rtt_var_ms == millis(o.rtt_var_us)
            &&& line.connect_latency_ms == millis(o.connect_latency_us)
            &&& line.retransmissions == o.retransmissions
            &&& line.throughput_bps == o.throughput_bps
            &&& line.dns_ok == o.dns_ok
            &&& line.reset_or_timeout == o.reset_or_timeout
            &&& paths.contains_key(flow) ==> line.path_state == paths[flow].state@
            &&& !paths.contains_key(flow) ==> line.path_state.len() == 0
            &&& c.brain().observations().contains_key(flow) ==> o == c.brain().observations()[flow]
            &&& !c.brain().observations().contains_key(flow) ==> o == B4Observation::nothing()
        }),
{
}

/// A profile is shown by its capabilities, with commas between them, or as
/// direct where it has none, and with a tunnel where it may use one.
pub proof fn profiles_are_shown_by_their_capabilities(p: crate::b4_engine::policy::Profile)
    ensures
        p.capabilities.len() == 0 && !p.allow_tunnel ==> profile_text(p) == "direct"@,
        p.capabilities.len() == 0 && p.allow_tunnel ==> profile_text(p) == "direct"@ + "+tunnel"@,
        p.capabilities.len() > 0 && !p.allow_tunnel ==> profile_text(p) == crate::text::joined(
            capability_texts(p.capabilities),
            ","@,
        ),
        p.capabilities.len() > 0 && p.allow_tunnel ==> profile_text(p) == crate::text::joined(
            capability_texts(p.capabilities),
            ","@,
        ) + "+tunnel"@,
{
    let texts = capability_texts(p.capabilities);
    if p.capabilities.len() > 0 {
        reveal_strlit("Mtu");
        reveal_strlit("DnsPath");
        assert(texts.last() == crate::b4_engine::policy::capability_text(p.capabilities.last()));
        assert(texts.last().len() > 0);
        assert(crate::text::joined(texts, ","@).len() > 0);
    }
}

/// What happened in a cycle is told in its order: an adaptation, a recovery or
/// a strict failure each as an event of the flow. That it was classified is not
/// told.
pub proof fn cycles_are_told_in_order(flow: Seq<char>, first: Seq<Note>, second: Seq<Note>)
    ensures
        told_of(flow, first + second) == told_of(flow, first) + told_of(flow, second),
        second.len() == 1 && second[0] is Classified ==> told_of(flow, second).len() == 0,
        second.len() == 1 && second[0] is Recovered ==> told_of(flow, second) == seq![Told::B4Recovered { flow }],
        second.len() == 1 && second[0] is StrictFailed ==> told_of(flow, second) == seq![
            Told::B4StateChanged { flow, state: "StrictFail"@ },
        ],
        second.len() == 1 ==> (second[0] matches Note::Adapted(c) ==> told_of(flow, second) == seq![
            Told::B4Adapted { flow, capability: crate::b4_engine::policy::capability_text(c) },
        ]),
    decreases second.len(),
{
    if second.len() == 0 {
        assert(first + second =~= first);
        assert(told_of(flow, first) + told_of(flow, second) =~= told_of(flow, first));
    } else {
        let front = second.drop_last();
        cycles_are_told_in_order(flow, first, front);
        assert((first + second).drop_last() =~= first + front);
        assert((first + second).last() == second.last());
        assert(told_of(flow, first + second) =~= told_of(flow, first) + told_of(flow, second));
        if second.len() == 1 {
            assert(told_of(flow, front).len() == 0);
            assert(second.last() == second[0]);
        }
    }
}

/// Merging two lists keeps the first as it is and adds what only the second
/// has, each once.
pub proof fn merging_adds_what_is_missing(a: Seq<Seq<char>>, b: Seq<Seq<char>>)
    ensures
        merged(a, b).len() >= a.len(),
        merged(a, b).take(a.len() as int) == a,
        forall|t: Seq<char>| #[trigger] merged(a, b).contains(t) <==> a.contains(t) || b.contains(t),
        a.no_duplicates() ==> merged(a, b).no_duplicates(),
    decreases b.len(),
{
    if b.len() == 0 {
        assert(a.take(a.len() as int) =~= a);
    } else {
        let front = b.drop_last();
        let last = b.last();
        merging_adds_what_is_missing(a, front);
        let m = merged(a, front);
        assert(front.push(last) =~= b);
        assert forall|t: Seq<char>| #[trigger] merged(a, b).contains(t) <==> a.contains(t) || b.contains(t) by {
            crate::seqs::contains_after_push(front, last, t);
            crate::seqs::contains_after_push(m, last, t);
            assert(m.contains(t) <==> a.contains(t) || front.contains(t));
        }
        assert(merged(a, b).take(a.len() as int) =~= m.take(a.len() as int));
        if a.no_duplicates() && !m.contains(last) {
            let all = m.push(last);
            assert forall|i: int, j: int| 0 <= i < all.len() && 0 <= j < all.len() && i != j implies all[i]
                != all[j] by {
                if i == m.len() {
                    assert(m.contains(m[j]));
                }
                if j == m.len() {
                    assert(m.contains(m[i]));
                }
            }
        }
    }
}

} // verus!
