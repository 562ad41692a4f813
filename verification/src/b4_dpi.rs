//! The life of the packet engine: when it runs, which queue rules it asks for
//! and what of it is shown.
//!
//! The rules send packets to the engine's queue. They are asked for once the
//! engine runs and asked to be removed whenever it is stopped.
use vstd::prelude::*;
use vstd::string::*;

use crate::b4_discovery::{CandidateState, DiscoveryManager, DiscoverySnapshot, DomainDiscoveryState, TrialStep};
use crate::text::{clone_option, clone_strings, owned};

verus! {

/// A request about the queue rules.
#[derive(Debug)]
pub enum DpiOp {
    InstallQueue { queue_num: u16, ports: Vec<u16> },
    RemoveQueue,
}

/// What to do to resume or pause the engine.
#[derive(Debug)]
pub enum DpiStep {
    /// Run the engine.
    Run,
    /// There is no engine to run.
    Stay,
    /// Stop the engine and make the request.
    Stop(Option<DpiOp>),
}

/// What the engine counted.
#[derive(Debug, Clone, Copy, PartialEq, Eq, Structural)]
pub struct DpiStats {
    pub packets_seen: u64,
    pub tls_packets: u64,
    pub mutated: u64,
    pub accepted: u64,
    pub dropped: u64,
    pub errors: u64,
    /// Whether the engine ended though nobody stopped it.
    pub dead: bool,
}

impl Default for DpiStats {
    /// Nothing was counted yet.
    fn default() -> (r: DpiStats)
        ensures
            r == (DpiStats {
                packets_seen: 0,
                tls_packets: 0,
                mutated: 0,
                accepted: 0,
                dropped: 0,
                errors: 0,
                dead: false,
            }),
    {
        DpiStats { packets_seen: 0, tls_packets: 0, mutated: 0, accepted: 0, dropped: 0, errors: 0, dead: false }
    }
}

/// A candidate, to be shown.
#[derive(Debug)]
pub struct DiscoveryCandidateView {
    pub name: String,
    pub status: String,
    pub quality_bits: u64,
    pub rejected_reason: Option<String>,
    pub trial_ends_ms: i64,
}

/// A domain, to be shown.
#[derive(Debug)]
pub struct DiscoveryDomainView {
    pub domain: String,
    pub active: Option<String>,
    pub candidates: Vec<DiscoveryCandidateView>,
    pub selected_ms: i64,
    pub validated_ms: i64,
    pub observed_blocked: bool,
    pub last_event: Option<String>,
}

/// The search for strategies, to be shown.
#[derive(Debug)]
pub struct DiscoveryView {
    pub enabled: bool,
    pub domains: Vec<DiscoveryDomainView>,
    pub last_error: Option<String>,
}

/// The name of a status.
pub open spec fn status_name(s: crate::b4_discovery::CandidateStatus) -> Seq<char> {
    match s {
        crate::b4_discovery::CandidateStatus::Untried => "untried"@,
        crate::b4_discovery::CandidateStatus::Trying => "trying"@,
        crate::b4_discovery::CandidateStatus::Measured => "measured"@,
        crate::b4_discovery::CandidateStatus::Selected => "selected"@,
    }
}

/// Whether a candidate is shown as it is.
pub open spec fn shows_candidate(v: DiscoveryCandidateView, c: crate::b4_discovery::Candidate) -> bool {
    &&& v.name@ == c.name
    &&& v.status@ == status_name(c.status)
    &&& v.quality_bits == c.quality_bits
    &&& crate::text::text_of(v.rejected_reason) == c.rejected_reason
    &&& v.trial_ends_ms == c.trial_ends_ms
}

/// Whether a domain is shown as it is.
pub open spec fn shows_domain(v: DiscoveryDomainView, k: crate::b4_discovery::Known) -> bool {
    &&& v.domain@ == k.domain
    &&& crate::text::text_of(v.active) == k.active
    &&& v.candidates@.len() == k.candidates.len()
    &&& forall|i: int|
        0 <= i < v.candidates@.len() ==> shows_candidate(#[trigger] v.candidates@[i], k.candidates[i])
    &&& v.selected_ms == k.selected_ms
    &&& v.validated_ms == k.validated_ms
    &&& v.observed_blocked == k.observed_blocked
    &&& crate::text::text_of(v.last_event) == k.last_event
}

/// The names of the domains that are shown.
pub open spec fn shown_names(v: Seq<DiscoveryDomainView>) -> Seq<Seq<char>> {
    Seq::new(v.len(), |i: int| v[i].domain@)
}

/// Whether the search is shown as it is: every domain once, in order.
pub open spec fn shows_discovery(v: DiscoveryView, m: DiscoveryManager) -> bool {
    &&& v.enabled == m.enabled
    &&& v.last_error is None
    &&& crate::order::ascending(shown_names(v.domains@))
    &&& forall|d: Seq<char>| #[trigger] shown_names(v.domains@).contains(d) <==> m.inner.known().contains_key(d)
    &&& forall|i: int|
        0 <= i < v.domains@.len() ==> shows_domain(#[trigger] v.domains@[i], m.inner.known()[v.domains@[i].domain@])
}

fn candidate_view(c: &CandidateState) -> (r: DiscoveryCandidateView)
    ensures
        shows_candidate(r, c@),
{
    DiscoveryCandidateView {
        name: c.name.clone(),
        status: owned(c.status.as_str()),
        quality_bits: c.quality_bits,
        rejected_reason: clone_option(&c.rejected_reason),
        trial_ends_ms: c.trial_ends_ms,
    }
}

fn domain_view(d: &DomainDiscoveryState) -> (r: DiscoveryDomainView)
    ensures
        shows_domain(r, d@),
{
    let mut candidates: Vec<DiscoveryCandidateView> = Vec::new();
    let mut i: usize = 0;
    while i < d.candidates.len()
        invariant
            i <= d.candidates@.len(),
            candidates@.len() == i,
            forall|k: int| 0 <= k < i ==> shows_candidate(#[trigger] candidates@[k], d.candidates@[k]@),
        decreases d.candidates.len() - i,
    {
        candidates.push(candidate_view(&d.candidates[i]));
        i += 1;
    }
    DiscoveryDomainView {
        domain: d.domain.clone(),
        active: clone_option(&d.active),
        candidates,
        selected_ms: d.selected_ms,
        validated_ms: d.validated_ms,
        observed_blocked: d.observed_blocked,
        last_event: clone_option(&d.last_event),
    }
}

fn discovery_view(snap: &DiscoverySnapshot) -> (r: DiscoveryView)
    ensures
        r.enabled == snap.enabled,
        crate::text::text_of(r.last_error) == crate::text::text_of(snap.last_error),
        shown_names(r.domains@) == crate::b4_discovery::domain_names(snap.domains@),
        forall|i: int| 0 <= i < r.domains@.len() ==> shows_domain(#[trigger] r.domains@[i], snap.domains@[i]@),
{
    let mut domains: Vec<DiscoveryDomainView> = Vec::new();
    let mut i: usize = 0;
    while i < snap.domains.len()
        invariant
            i <= snap.domains@.len(),
            domains@.len() == i,
            forall|k: int| 0 <= k < i ==> shows_domain(#[trigger] domains@[k], snap.domains@[k]@),
        decreases snap.domains.len() - i,
    {
        domains.push(domain_view(&snap.domains[i]));
        i += 1;
    }
    assert(shown_names(domains@) =~= crate::b4_discovery::domain_names(snap.domains@));
    DiscoveryView { enabled: snap.enabled, domains, last_error: clone_option(&snap.last_error) }
}

/// What is shown of the engine.
#[derive(Debug)]
pub struct DpiStatus {
    pub enabled: bool,
    pub config_path: Option<String>,
    pub queue_num: u16,
    pub ports: Vec<u16>,
    pub profiles: Vec<String>,
    pub packets_seen: u64,
    pub tls_packets: u64,
    pub mutated: u64,
    pub accepted: u64,
    pub dropped: u64,
    pub errors: u64,
    pub engine_dead: bool,
    pub queue_rules: u32,
    pub last_error: Option<String>,
    pub discovery: DiscoveryView,
}

/// How the engine is set up.
#[derive(Debug)]
pub struct DpiInner {
    pub queue_num: u16,
    pub ports: Vec<u16>,
    pub profiles: Vec<String>,
    pub config_path: Option<String>,
}

/// Runs the engine.
pub struct DpiManager {
    /// Nothing where no engine is set up.
    pub inner: Option<DpiInner>,
    pub running: bool,
    /// Whether there is someone to ask for the queue rules.
    pub executor: bool,
    pub last_error: Option<String>,
    pub discovery: DiscoveryManager,
}

/// A copy of port numbers.
fn clone_ports(v: &Vec<u16>) -> (r: Vec<u16>)
    ensures
        r@ == v@,
{
    let mut out: Vec<u16> = Vec::new();
    let mut i: usize = 0;
    while i < v.len()
        invariant
            i <= v@.len(),
            out@ == v@.take(i as int),
        decreases v.len() - i,
    {
        out.push(v[i]);
        i += 1;
        assert(v@.take(i as int) =~= v@.take(i as int - 1).push(v@[i as int - 1]));
    }
    assert(v@.take(i as int) =~= v@);
    out
}

fn told(prefix: &str, detail: &str) -> (r: String)
    ensures
        r@ == prefix@ + detail@,
{
    let mut s = owned(prefix);
    s.append(detail);
    s
}

/// Whether a request is for the queue rules of a set-up.
pub open spec fn asks_for_rules(op: DpiOp, inner: DpiInner) -> bool {
    op matches DpiOp::InstallQueue { queue_num, ports } && queue_num == inner.queue_num && ports@ == inner.ports@
}

impl Default for DpiManager {
    fn default() -> (r: Self)
        ensures
            r.inner is None,
            !r.running,
            !r.executor,
            r.last_error is None,
            r.discovery.enabled,
            r.discovery.inner.known() == Map::<Seq<char>, crate::b4_discovery::Known>::empty(),
            r.discovery.inner.active_trials == 0,
            r.discovery.inner.config == crate::b4_discovery::usual_bounds(),
    {
        DpiManager { inner: None, running: false, executor: false, last_error: None, discovery: DiscoveryManager::new() }
    }
}

impl DpiManager {
    /// An engine that is set up and not running, with nobody to ask for the
    /// queue rules.
    pub fn new(inner: DpiInner) -> (r: Self)
        ensures
            r.inner == Some(inner),
            !r.running,
            !r.executor,
            r.last_error is None,
            r.discovery.enabled,
            r.discovery.inner.known() == Map::<Seq<char>, crate::b4_discovery::Known>::empty(),
            r.discovery.inner.active_trials == 0,
            r.discovery.inner.config == crate::b4_discovery::usual_bounds(),
    {
        DpiManager::new_with_executor(inner, false)
    }

    /// An engine that is set up and not running.
    pub fn new_with_executor(inner: DpiInner, executor: bool) -> (r: Self)
        ensures
            r.inner == Some(inner),
            !r.running,
            r.executor == executor,
            r.last_error is None,
            r.discovery.enabled,
            r.discovery.inner.known() == Map::<Seq<char>, crate::b4_discovery::Known>::empty(),
            r.discovery.inner.active_trials == 0,
            r.discovery.inner.config == crate::b4_discovery::usual_bounds(),
    {
        DpiManager { inner: Some(inner), running: false, executor, last_error: None, discovery: DiscoveryManager::new() }
    }

    /// Whether the engine has to be run for it to be started. There are never
    /// two engines: starting one that runs is refused.
    pub fn start(&self) -> (r: Result<bool, String>)
        ensures
            match r {
                Ok(run) => run == (self.inner is Some) && !(self.inner is Some && self.running),
                Err(e) => self.inner is Some && self.running && e@ == "DPI engine already running"@,
            },
    {
        if self.inner.is_some() && self.running {
            return Err(owned("DPI engine already running"));
        }
        Ok(self.inner.is_some())
    }

    /// What to ask for once the engine was run: its queue rules. Where it could
    /// not be run, why.
    pub fn run(&self, outcome: Result<(), String>) -> (r: Result<Option<DpiOp>, String>)
        ensures
            match outcome {
                Ok(_) => {
                    &&& r is Ok
                    &&& r->Ok_0 is Some <==> self.inner is Some && self.executor
                    &&& r->Ok_0 matches Some(op) ==> asks_for_rules(op, self.inner->0)
                },
                Err(e) => r == Err::<Option<DpiOp>, String>(e),
            },
    {
        match outcome {
            Ok(_) => match &self.inner {
                Some(inner) => {
                    if self.executor {
                        Ok(Some(DpiOp::InstallQueue { queue_num: inner.queue_num, ports: clone_ports(&inner.ports) }))
                    } else {
                        Ok(None)
                    }
                },
                None => Ok(None),
            },
            Err(e) => Err(e),
        }
    }

    /// The engine runs. Where its rules were asked for, `reply` says how that
    /// went.
    pub fn started(&mut self, reply: &Option<Result<u32, String>>)
        ensures
            final(self).running,
            crate::text::text_of(final(self).last_error) == match *reply {
                Some(Err(e)) => Some("queue rule install: "@ + e@),
                _ => crate::text::text_of(old(self).last_error),
            },
            final(self).inner == old(self).inner,
            final(self).executor == old(self).executor,
            final(self).discovery == old(self).discovery,
    {
        if let Some(Err(e)) = reply {
            self.last_error = Some(told("queue rule install: ", e.as_str()));
        }
        self.running = true;
    }

    /// What to ask for when the engine was stopped: that its rules go.
    pub fn stop(&self) -> (r: Option<DpiOp>)
        ensures
            r == if self.executor { Some(DpiOp::RemoveQueue) } else { None },
    {
        if self.executor {
            Some(DpiOp::RemoveQueue)
        } else {
            None
        }
    }

    /// The engine does not run. Where its rules were asked to go, `reply` says
    /// how that went.
    pub fn stopped(&mut self, reply: &Option<Result<u32, String>>)
        ensures
            !final(self).running,
            crate::text::text_of(final(self).last_error) == match *reply {
                Some(Err(e)) => Some("queue rule removal: "@ + e@),
                _ => crate::text::text_of(old(self).last_error),
            },
            final(self).inner == old(self).inner,
            final(self).executor == old(self).executor,
            final(self).discovery == old(self).discovery,
    {
        if let Some(Err(e)) = reply {
            self.last_error = Some(told("queue rule removal: ", e.as_str()));
        }
        self.running = false;
    }

    /// Whether the engine ended though nobody stopped it.
    fn engine_dead(&self, stats: &DpiStats) -> (r: bool)
        ensures
            r == (self.inner is Some && stats.dead),
    {
        self.inner.is_some() && stats.dead
    }

    /// What is shown of the engine, given what it counted. Where none is set
    /// up it counted nothing.
    pub fn status(&self, stats: &DpiStats) -> (r: DpiStatus)
        requires
            self.discovery.inner.keyed(),
        ensures
            r.enabled == self.running,
            r.queue_rules == 0,
            r.engine_dead == (self.inner is Some && stats.dead),
            crate::text::text_of(r.last_error) == crate::text::text_of(self.last_error),
            shows_discovery(r.discovery, self.discovery),
            match self.inner {
                Some(inner) => {
                    &&& crate::text::text_of(r.config_path) == crate::text::text_of(inner.config_path)
                    &&& r.queue_num == inner.queue_num
                    &&& r.ports@ == inner.ports@
                    &&& crate::text::strings(r.profiles@) == crate::text::strings(inner.profiles@)
                    &&& r.packets_seen == stats.packets_seen
                    &&& r.tls_packets == stats.tls_packets
                    &&& r.mutated == stats.mutated
                    &&& r.accepted == stats.accepted
                    &&& r.dropped == stats.dropped
                    &&& r.errors == stats.errors
                },
                None => {
                    &&& r.config_path is None
                    &&& r.queue_num == 0
                    &&& r.ports@ == seq![443u16]
                    &&& r.profiles@ == Seq::<String>::empty()
                    &&& r.packets_seen == 0
                    &&& r.tls_packets == 0
                    &&& r.mutated == 0
                    &&& r.accepted == 0
                    &&& r.dropped == 0
                    &&& r.errors == 0
                },
            },
    {
        let snap = self.discovery.snapshot();
        let discovery = discovery_view(&snap);
        assert(shows_discovery(discovery, self.discovery)) by {
            assert forall|i: int| 0 <= i < discovery.domains@.len() implies shows_domain(
                #[trigger] discovery.domains@[i],
                self.discovery.inner.known()[discovery.domains@[i].domain@],
            ) by {
                assert(shown_names(discovery.domains@).len() == crate::b4_discovery::domain_names(snap.domains@).len());
                assert(snap.domains@[i]@ == self.discovery.inner.known()[snap.domains@[i].domain@]);
            }
        }
        let enabled = self.running;
        let engine_dead = self.engine_dead(stats);
        let last_error = clone_option(&self.last_error);
        match &self.inner {
            Some(inner) => DpiStatus {
                enabled,
                config_path: clone_option(&inner.config_path),
                queue_num: inner.queue_num,
                ports: clone_ports(&inner.ports),
                profiles: clone_strings(&inner.profiles),
                packets_seen: stats.packets_seen,
                tls_packets: stats.tls_packets,
                mutated: stats.mutated,
                accepted: stats.accepted,
                dropped: stats.dropped,
                errors: stats.errors,
                engine_dead,
                queue_rules: 0,
                last_error,
                discovery,
            },
            None => {
                let mut ports: Vec<u16> = Vec::new();
                ports.push(443);
                assert(ports@ =~= seq![443u16]);
                DpiStatus {
                    enabled,
                    config_path: None,
                    queue_num: 0,
                    ports,
                    profiles: Vec::new(),
                    packets_seen: 0,
                    tls_packets: 0,
                    mutated: 0,
                    accepted: 0,
                    dropped: 0,
                    errors: 0,
                    engine_dead,
                    queue_rules: 0,
                    last_error,
                    discovery,
                }
            },
        }
    }

    /// The search for strategies.
    pub fn discovery(&self) -> (r: &DiscoveryManager)
        ensures
            *r == self.discovery,
    {
        &self.discovery
    }

    /// Tell the search that a domain is interfered with.
    pub fn notify_blocked(&mut self, domain: &str, now_ms: i64) -> (r: TrialStep)
        requires
            crate::b4_discovery::times_fit(old(self).discovery.inner.config, now_ms),
            old(self).discovery.inner.active_trials < usize::MAX,
        ensures
            !old(self).discovery.enabled ==> r == TrialStep::Settled(None) && *final(self) == *old(self),
            old(self).discovery.enabled ==> {
                let before = old(self).discovery.inner;
                let after = final(self).discovery.inner;
                let k = crate::b4_discovery::seen_blocked(domain@, before.known_of(domain@));
                match crate::b4_discovery::pass_of(k, before.config, before.active_trials as nat, now_ms) {
                    crate::b4_discovery::Pass::Settled(s) => {
                        &&& r matches TrialStep::Settled(x)
                        &&& crate::text::text_of(x) == s
                        &&& after.known() == before.known().insert(domain@, k)
                        &&& after.active_trials == before.active_trials
                    },
                    crate::b4_discovery::Pass::Try(i) => {
                        &&& r matches TrialStep::Try { index, name }
                        &&& index == i
                        &&& index < k.candidates.len()
                        &&& name@ == k.candidates[i].name
                        &&& after.known() == before.known().insert(
                            domain@,
                            crate::b4_discovery::under_trial(k, i, before.config, now_ms),
                        )
                        &&& after.active_trials == before.active_trials + 1
                    },
                }
            },
            final(self).discovery.enabled == old(self).discovery.enabled,
            final(self).discovery.inner.config == old(self).discovery.inner.config,
            old(self).discovery.inner.keyed() ==> final(self).discovery.inner.keyed(),
            final(self).running == old(self).running,
            final(self).inner == old(self).inner,
            final(self).executor == old(self).executor,
            final(self).last_error == old(self).last_error,
    {
        self.discovery.on_blocked(domain, now_ms)
    }

    /// What to do to resume or pause the engine.
    pub fn set_enabled(&self, enabled: bool) -> (r: Result<DpiStep, String>)
        ensures
            match r {
                Ok(DpiStep::Run) => enabled && self.inner is Some && !self.running,
                Ok(DpiStep::Stay) => enabled && self.inner is None,
                Ok(DpiStep::Stop(op)) => !enabled && op == if self.executor {
                    Some(DpiOp::RemoveQueue)
                } else {
                    None
                },
                Err(e) => enabled && self.inner is Some && self.running && e@ == "DPI engine already running"@,
            },
    {
        if enabled {
            match self.start() {
                Ok(true) => Ok(DpiStep::Run),
                Ok(false) => Ok(DpiStep::Stay),
                Err(e) => Err(e),
            }
        } else {
            Ok(DpiStep::Stop(self.stop()))
        }
    }

    /// Whether the engine runs.
    pub fn is_enabled(&self) -> (r: bool)
        ensures
            r == self.running,
    {
        self.running
    }
}

/// What is shown of a candidate is what is known of it.
pub proof fn candidates_are_shown_as_they_are(v: DiscoveryCandidateView, c: crate::b4_discovery::Candidate)
    requires
        shows_candidate(v, c),
    ensures
        v.name@ == c.name,
        v.quality_bits == c.quality_bits,
        v.trial_ends_ms == c.trial_ends_ms,
        v.rejected_reason is Some <==> c.rejected_reason is Some,
        v.rejected_reason is Some ==> v.rejected_reason->0@ == c.rejected_reason->0,
        c.status is Untried ==> v.status@ == "untried"@,
        c.status is Trying ==> v.status@ == "trying"@,
        c.status is Measured ==> v.status@ == "measured"@,
        c.status is Selected ==> v.status@ == "selected"@,
{
}

/// What is shown of a domain is what is known of it, candidate by candidate.
pub proof fn domains_are_shown_as_they_are(v: DiscoveryDomainView, k: crate::b4_discovery::Known, i: int)
    requires
        shows_domain(v, k),
        0 <= i < k.candidates.len(),
    ensures
        v.domain@ == k.domain,
        v.active is Some <==> k.active is Some,
        v.active is Some ==> v.active->0@ == k.active->0,
        v.selected_ms == k.selected_ms,
        v.validated_ms == k.validated_ms,
        v.observed_blocked == k.observed_blocked,
        v.last_event is Some <==> k.last_event is Some,
        v.last_event is Some ==> v.last_event->0@ == k.last_event->0,
        v.candidates@.len() == k.candidates.len(),
        v.candidates@[i].name@ == k.candidates[i].name,
        v.candidates@[i].quality_bits == k.candidates[i].quality_bits,
{
    assert(shows_candidate(v.candidates@[i], k.candidates[i]));
}

/// What is shown of a search is every domain that is known, once, in order.
pub proof fn searches_are_shown_whole(v: DiscoveryView, m: DiscoveryManager, d: Seq<char>)
    requires
        shows_discovery(v, m),
    ensures
        v.enabled == m.enabled,
        v.last_error is None,
        shown_names(v.domains@).contains(d) <==> m.inner.known().contains_key(d),
        forall|i: int, j: int|
            0 <= i < j < v.domains@.len() ==> crate::order::before(
                (#[trigger] v.domains@[i]).domain@,
                (#[trigger] v.domains@[j]).domain@,
            ),
{
    assert forall|i: int, j: int| 0 <= i < j < v.domains@.len() implies crate::order::before(
        (#[trigger] v.domains@[i]).domain@,
        (#[trigger] v.domains@[j]).domain@,
    ) by {
        let names = shown_names(v.domains@);
        assert(crate::order::before(names[i], names[j]));
    }
}

/// The queue is asked for with the number and the ports that were configured.
pub proof fn queues_are_asked_for_as_configured(op: DpiOp, inner: DpiInner)
    requires
        asks_for_rules(op, inner),
    ensures
        op matches DpiOp::InstallQueue { queue_num, ports } && queue_num == inner.queue_num && ports@ == inner.ports@,
{
}

} // verus!
