//! The subsystems as a whole: what is observed of them, what is told of it, and
//! what an operator may ask of them.
use vstd::prelude::*;
use vstd::string::*;

use crate::b4_discovery::TrialStep;
use crate::b4_dpi::{DpiManager, DpiOp, DpiStatus};
use crate::b4_manager::B4ManagerHandle;
use crate::events::{tell, SubsystemEvent};
use crate::interface::InterfaceInfo;
use crate::mptcp_manager::{MptcpManager, MptcpOp};
use crate::network_config::{assign_roles, NetworkConfig};
use crate::order::text_before;
use crate::path_decision::{decide, PathDecisionView};
use crate::qos::QosManager;
use crate::snapshot::{B4Snapshot, VpnSnapshot};
use crate::text::{owned, same_text};
use crate::text_map::TextMap;

verus! {

/// How often the subsystems are observed, in seconds.
pub const SUBSYSTEM_INTERVAL_SECS: u64 = 5;

// ---------------------------------------------------------------------------
// Throughput
// ---------------------------------------------------------------------------

/// The counters of an interface at a time.
#[derive(Debug, Clone, Copy, PartialEq, Eq, Structural)]
pub struct CounterSample {
    pub rx_bytes: u64,
    pub tx_bytes: u64,
    pub at_ms: u64,
}

/// How a counter went over a time.
#[derive(Debug, Clone, Copy, PartialEq, Eq, Structural)]
pub struct Growth {
    pub from: u64,
    pub to: u64,
    pub over_ms: u64,
}

/// How the counters of an interface went since they were last seen. Nothing
/// where they were not seen before.
#[derive(Debug)]
pub struct InterfaceRate {
    pub interface: String,
    pub rx: Option<Growth>,
    pub tx: Option<Growth>,
}

/// How the counters of an interface went, as a text.
pub struct Rate {
    pub interface: Seq<char>,
    pub rx: Option<Growth>,
    pub tx: Option<Growth>,
}

impl View for InterfaceRate {
    type V = Rate;

    open spec fn view(&self) -> Rate {
        Rate { interface: self.interface@, rx: self.rx, tx: self.tx }
    }
}

pub open spec fn rates(v: Seq<InterfaceRate>) -> Seq<Rate> {
    Seq::new(v.len(), |i: int| v[i]@)
}

/// How a counter went from a sample to now.
pub open spec fn growth(from: u64, to: u64, at_ms: u64, now_ms: u64) -> Option<Growth> {
    if at_ms < now_ms {
        Some(Growth { from, to, over_ms: (now_ms - at_ms) as u64 })
    } else {
        None
    }
}

/// How the counters of an interface went.
pub open spec fn rate_of(i: InterfaceInfo, before: Map<Seq<char>, CounterSample>, now_ms: u64) -> Rate {
    if before.contains_key(i.name@) {
        let s = before[i.name@];
        Rate {
            interface: i.name@,
            rx: growth(s.rx_bytes, i.rx_bytes, s.at_ms, now_ms),
            tx: growth(s.tx_bytes, i.tx_bytes, s.at_ms, now_ms),
        }
    } else {
        Rate { interface: i.name@, rx: None, tx: None }
    }
}

pub open spec fn rates_of(v: Seq<InterfaceInfo>, before: Map<Seq<char>, CounterSample>, now_ms: u64) -> Seq<Rate> {
    Seq::new(v.len(), |i: int| rate_of(v[i], before, now_ms))
}

/// The counters that are remembered of interfaces; of two of one name the last.
pub open spec fn samples_of(v: Seq<InterfaceInfo>, now_ms: u64) -> Map<Seq<char>, CounterSample>
    decreases v.len(),
{
    if v.len() == 0 {
        Map::empty()
    } else {
        samples_of(v.drop_last(), now_ms).insert(
            v.last().name@,
            CounterSample { rx_bytes: v.last().rx_bytes, tx_bytes: v.last().tx_bytes, at_ms: now_ms },
        )
    }
}

/// Whether rates stand in the order of their interfaces.
pub open spec fn in_order(v: Seq<Rate>) -> bool {
    forall|i: int, j: int|
        0 <= i < j < v.len() ==> !crate::order::before((#[trigger] v[j]).interface, (#[trigger] v[i]).interface)
}

/// The rates of an interface.
pub open spec fn of_interface(v: Seq<Rate>, name: Seq<char>) -> Seq<Rate> {
    v.filter(|r: Rate| r.interface == name)
}

/// Whether two lists hold the same rates, those of each interface in the same
/// order.
pub open spec fn same_rates(a: Seq<Rate>, b: Seq<Rate>) -> bool {
    forall|name: Seq<char>| #[trigger] of_interface(a, name) == of_interface(b, name)
}

proof fn of_nothing(v: Seq<Rate>, name: Seq<char>)
    requires
        forall|i: int| 0 <= i < v.len() ==> (#[trigger] v[i]).interface != name,
    ensures
        of_interface(v, name) == Seq::<Rate>::empty(),
    decreases v.len(),
{
    reveal(Seq::filter);
    if v.len() > 0 {
        of_nothing(v.drop_last(), name);
    }
}

proof fn inserted(v: Seq<Rate>, i: int, x: Rate, name: Seq<char>)
    requires
        0 <= i <= v.len(),
        forall|k: int| i <= k < v.len() ==> (#[trigger] v[k]).interface != x.interface,
    ensures
        of_interface(v.insert(i, x), name) == of_interface(v.push(x), name),
{
    let p = |r: Rate| r.interface == name;
    let a = v.take(i);
    let b = v.skip(i);
    assert(v =~= a + b);
    assert(v.insert(i, x) =~= a.push(x) + b);
    Seq::filter_distributes_over_add(a.push(x), b, p);
    Seq::filter_distributes_over_add(a, b, p);
    v.lemma_filter_push(x, p);
    a.lemma_filter_push(x, p);
    if x.interface == name {
        of_nothing(b, name);
        assert(of_interface(v.insert(i, x), name) =~= of_interface(v.push(x), name));
    }
}

/// Puts a rate into a list in order, behind those of the same interface.
fn insert_rate(list: &mut Vec<InterfaceRate>, x: InterfaceRate)
    requires
        in_order(rates(old(list)@)),
    ensures
        in_order(rates(final(list)@)),
        same_rates(rates(final(list)@), rates(old(list)@).push(x@)),
{
    let ghost v = rates(list@);
    let ghost y = x@;
    let mut i: usize = list.len();
    while i > 0 && text_before(x.interface.as_str(), list[i - 1].interface.as_str())
        invariant
            i <= list@.len(),
            v == rates(list@),
            y == x@,
            forall|k: int| i <= k < v.len() ==> crate::order::before(y.interface, (#[trigger] v[k]).interface),
        decreases i,
    {
        i -= 1;
    }
    proof {
        assert forall|k: int| i <= k < v.len() implies (#[trigger] v[k]).interface != y.interface by {
            crate::order::order_is_total(y.interface, v[k].interface);
        }
        assert forall|name: Seq<char>| #[trigger]
            of_interface(v.insert(i as int, y), name) == of_interface(v.push(y), name) by {
            inserted(v, i as int, y, name);
        }
        assert forall|k: int| 0 <= k < i implies !crate::order::before(y.interface, (#[trigger] v[k]).interface) by {
            if k < i - 1 {
                if crate::order::before(y.interface, v[k].interface) {
                    crate::order::order_is_total(v[i - 1].interface, v[k].interface);
                    if v[i - 1].interface == v[k].interface {
                    } else {
                        crate::order::order_is_transitive(y.interface, v[k].interface, v[i - 1].interface);
                    }
                }
            }
        }
        assert forall|k: int| i <= k < v.len() implies !crate::order::before((#[trigger] v[k]).interface, y.interface) by {
            crate::order::order_is_total(y.interface, v[k].interface);
        }
    }
    list.insert(i, x);
    proof {
        let w = rates(list@);
        assert(w =~= v.insert(i as int, y));
        assert forall|a: int, b: int| 0 <= a < b < w.len() implies !crate::order::before(
            (#[trigger] w[b]).interface,
            (#[trigger] w[a]).interface,
        ) by {
            if a == i {
                assert(w[b] == v[b - 1]);
            } else if b == i {
                assert(w[a] == v[a]);
            } else {
                let x1 = if a < i { a } else { a - 1 };
                let y1 = if b < i { b } else { b - 1 };
                assert(w[a] == v[x1] && w[b] == v[y1]);
            }
        }
    }
}

fn growth_since(from: u64, to: u64, at_ms: u64, now_ms: u64) -> (r: Option<Growth>)
    ensures
        r == growth(from, to, at_ms, now_ms),
{
    if at_ms < now_ms {
        Some(Growth { from, to, over_ms: now_ms - at_ms })
    } else {
        None
    }
}

// ---------------------------------------------------------------------------
// The mesh VPN
// ---------------------------------------------------------------------------

/// What the mesh VPN reports.
#[derive(Debug)]
pub struct TailscaleStatus {
    pub installed: bool,
    pub backend_state: String,
    pub self_online: bool,
}

/// What is shown of the mesh VPN.
#[derive(Debug)]
pub struct TailscaleSnapshot {
    pub status: Option<TailscaleStatus>,
    pub error: Option<String>,
    pub pending_op: bool,
}

/// Whether a report is news after what was known.
pub open spec fn is_news(before: Option<TailscaleStatus>, now: TailscaleStatus) -> bool {
    match before {
        Some(b) => b.backend_state@ != now.backend_state@ || b.self_online != now.self_online,
        None => true,
    }
}

/// The state of the mesh VPN as it is told.
pub open spec fn state_text(s: TailscaleStatus) -> Seq<char> {
    if s.backend_state@.len() == 0 { "Unknown"@ } else { s.backend_state@ }
}

// ---------------------------------------------------------------------------
// The whole
// ---------------------------------------------------------------------------

/// How far the proxy is there.
#[derive(Debug, Clone, Copy, PartialEq, Eq, Structural)]
pub enum XraySupport {
    NotCompiled,
    NotConfigured,
    Attached,
}

/// A profile of the proxy.
#[derive(Debug)]
pub struct XrayProfile {
    pub name: String,
    pub enabled: bool,
}

/// The subsystems.
pub struct SubsystemManager {
    pub qos: QosManager,
    /// Which interfaces are reported; all where it is empty.
    pub interface_filter: String,
    pub dpi: Option<DpiManager>,
    pub mptcp: Option<MptcpManager>,
    pub xray: XraySupport,
    pub vpn: bool,
    pub wifi: bool,
    pub interfaces: Vec<InterfaceInfo>,
    pub interface_rates: Vec<InterfaceRate>,
    pub last_counters: TextMap<CounterSample>,
    pub tailscale: TailscaleSnapshot,
    pub executor_unreachable: bool,
    pub path_decision: Option<PathDecisionView>,
}

fn require_part(present: bool, why: &str) -> (r: Result<(), String>)
    ensures
        r is Ok <==> present,
        r matches Err(e) ==> e@ == why@,
{
    if present {
        Ok(())
    } else {
        Err(owned(why))
    }
}

impl SubsystemManager {
    /// Nothing is observed and nothing is attached.
    pub fn new(xray: XraySupport) -> (r: Self)
        ensures
            r.qos.intent@.len() == 0,
            r.qos.snapshot.desired@.len() == 0,
            r.qos.snapshot.applied@.len() == 0,
            r.qos.snapshot.capabilities is None,
            !r.qos.snapshot.drift,
            r.qos.snapshot.last_error is None,
            r.interface_filter@.len() == 0,
            r.dpi is None,
            r.mptcp is None,
            r.xray == xray,
            !r.vpn,
            !r.wifi,
            r.interfaces@.len() == 0,
            r.interface_rates@.len() == 0,
            r.last_counters@ == Map::<Seq<char>, CounterSample>::empty(),
            r.tailscale.status is None,
            r.tailscale.error is None,
            !r.tailscale.pending_op,
            !r.executor_unreachable,
            r.path_decision is None,
    {
        SubsystemManager {
            qos: QosManager::new(),
            interface_filter: String::new(),
            dpi: None,
            mptcp: None,
            xray,
            vpn: false,
            wifi: false,
            interfaces: Vec::new(),
            interface_rates: Vec::new(),
            last_counters: TextMap::new(),
            tailscale: TailscaleSnapshot { status: None, error: None, pending_op: false },
            executor_unreachable: false,
            path_decision: None,
        }
    }

    /// Set which interfaces are reported.
    pub fn set_interface_filter(&mut self, filter: String)
        ensures
            *final(self) == (SubsystemManager { interface_filter: filter, ..*old(self) }),
    {
        self.interface_filter = filter;
    }

    /// What to ask for on shutdown: that the queue rules go.
    pub fn stop_dpi(&self) -> (r: Option<DpiOp>)
        ensures
            r == match self.dpi {
                Some(d) => if d.executor { Some(DpiOp::RemoveQueue) } else { None },
                None => None,
            },
    {
        match &self.dpi {
            Some(d) => d.stop(),
            None => None,
        }
    }

    /// Work out how the counters of interfaces went and remember them.
    pub fn update_interface_rates(&mut self, interfaces: &Vec<InterfaceInfo>, now_ms: u64)
        ensures
            in_order(rates(final(self).interface_rates@)),
            same_rates(
                rates(final(self).interface_rates@),
                rates_of(interfaces@, old(self).last_counters@, now_ms),
            ),
            final(self).last_counters@ == samples_of(interfaces@, now_ms),
            *final(self) == (SubsystemManager {
                interface_rates: final(self).interface_rates,
                last_counters: final(self).last_counters,
                ..*old(self)
            }),
    {
        let ghost before = self.last_counters@;
        let ghost all = rates_of(interfaces@, before, now_ms);
        let mut out: Vec<InterfaceRate> = Vec::new();
        let mut next: TextMap<CounterSample> = TextMap::new();
        let mut i: usize = 0;
        assert(rates(out@) =~= all.take(0));
        assert(interfaces@.take(0) =~= Seq::<InterfaceInfo>::empty());
        while i < interfaces.len()
            invariant
                i <= interfaces@.len(),
                *self == *old(self),
                before == self.last_counters@,
                all == rates_of(interfaces@, before, now_ms),
                in_order(rates(out@)),
                same_rates(rates(out@), all.take(i as int)),
                next@ == samples_of(interfaces@.take(i as int), now_ms),
            decreases interfaces.len() - i,
        {
            let info = &interfaces[i];
            let rate = match self.last_counters.get(info.name.as_str()) {
                Some(s) => InterfaceRate {
                    interface: info.name.clone(),
                    rx: growth_since(s.rx_bytes, info.rx_bytes, s.at_ms, now_ms),
                    tx: growth_since(s.tx_bytes, info.tx_bytes, s.at_ms, now_ms),
                },
                None => InterfaceRate { interface: info.name.clone(), rx: None, tx: None },
            };
            assert(rate@ == all[i as int]);
            let ghost was = rates(out@);
            insert_rate(&mut out, rate);
            proof {
                assert(all.take(i as int + 1) =~= all.take(i as int).push(all[i as int]));
                assert forall|name: Seq<char>| #[trigger]
                    of_interface(rates(out@), name) == of_interface(all.take(i as int + 1), name) by {
                    let p = |r: Rate| r.interface == name;
                    was.lemma_filter_push(all[i as int], p);
                    all.take(i as int).lemma_filter_push(all[i as int], p);
                    assert(of_interface(was, name) == of_interface(all.take(i as int), name));
                    assert(of_interface(rates(out@), name) == of_interface(was.push(all[i as int]), name));
                }
                assert(interfaces@.take(i as int + 1).drop_last() =~= interfaces@.take(i as int));
            }
            next.insert(
                info.name.as_str(),
                CounterSample { rx_bytes: info.rx_bytes, tx_bytes: info.tx_bytes, at_ms: now_ms },
            );
            i += 1;
        }
        assert(all.take(i as int) =~= all);
        assert(interfaces@.take(i as int) =~= interfaces@);
        self.interface_rates = out;
        self.last_counters = next;
    }

    /// Take over what the executor reports of the interfaces, with the roles
    /// that a configuration gives them. Whether it could be reached.
    pub fn refresh_interfaces(
        &mut self,
        report: Result<Vec<InterfaceInfo>, String>,
        config: Option<&NetworkConfig>,
        route: Option<&str>,
        now_ms: u64,
        events: &mut Vec<SubsystemEvent>,
    ) -> (r: bool)
        ensures
            r == report is Ok,
            match report {
                Ok(list) => {
                    &&& final(self).interfaces@.len() == list@.len()
                    &&& forall|i: int|
                        0 <= i < list@.len() ==> #[trigger] final(self).interfaces@[i] == match config {
                            Some(c) => InterfaceInfo {
                                role: crate::network_config::role_of(
                                    list@[i],
                                    *c,
                                    crate::network_config::detected_unless_named(
                                        *c,
                                        list@,
                                        crate::network_config::text_of_str(route),
                                    ),
                                ),
                                ..list@[i]
                            },
                            None => list@[i],
                        }
                    &&& in_order(rates(final(self).interface_rates@))
                    &&& same_rates(
                        rates(final(self).interface_rates@),
                        rates_of(final(self).interfaces@, old(self).last_counters@, now_ms),
                    )
                    &&& final(self).last_counters@ == samples_of(final(self).interfaces@, now_ms)
                    &&& final(events)@ == old(events)@
                },
                Err(e) => {
                    &&& *final(self) == *old(self)
                    &&& crate::events::told(final(events)@) == crate::events::told(old(events)@).push(
                        crate::events::Told::InterfaceError { detail: "interface refresh: "@ + e@ },
                    )
                },
            },
            *final(self) == (SubsystemManager {
                interfaces: final(self).interfaces,
                interface_rates: final(self).interface_rates,
                last_counters: final(self).last_counters,
                ..*old(self)
            }),
    {
        match report {
            Ok(list) => {
                let mut list = list;
                if let Some(c) = config {
                    assign_roles(&mut list, c, route);
                }
                self.update_interface_rates(&list, now_ms);
                self.interfaces = list;
                true
            },
            Err(e) => {
                let mut s = owned("interface refresh: ");
                s.append(e.as_str());
                tell(events, SubsystemEvent::InterfaceError { detail: s });
                false
            },
        }
    }

    /// Take over what the mesh VPN reports. Whether the executor could be
    /// reached. A report that is no news is not told of.
    pub fn refresh_tailscale(&mut self, report: Result<TailscaleStatus, String>, events: &mut Vec<SubsystemEvent>) -> (r:
        bool)
        ensures
            r == report is Ok,
            !final(self).tailscale.pending_op,
            match report {
                Ok(status) => {
                    &&& final(self).tailscale.status == Some(status)
                    &&& final(self).tailscale.error is None
                    &&& crate::events::told(final(events)@) == if is_news(old(self).tailscale.status, status) {
                        crate::events::told(old(events)@).push(
                            crate::events::Told::TailscaleStatusChanged { state: state_text(status) },
                        )
                    } else {
                        crate::events::told(old(events)@)
                    }
                },
                Err(e) => {
                    &&& final(self).tailscale.status == old(self).tailscale.status
                    &&& crate::text::text_of(final(self).tailscale.error) == Some(e@)
                    &&& crate::events::told(final(events)@) == crate::events::told(old(events)@).push(
                        crate::events::Told::TailscaleError { detail: e@ },
                    )
                },
            },
            *final(self) == (SubsystemManager { tailscale: final(self).tailscale, ..*old(self) }),
    {
        match report {
            Ok(status) => {
                let changed = match &self.tailscale.status {
                    Some(p) => !same_text(p.backend_state.as_str(), status.backend_state.as_str()) || p.self_online
                        != status.self_online,
                    None => true,
                };
                if changed {
                    let state = if crate::text::chars_of(status.backend_state.as_str()).len() == 0 {
                        owned("Unknown")
                    } else {
                        status.backend_state.clone()
                    };
                    tell(events, SubsystemEvent::TailscaleStatusChanged { state });
                }
                self.tailscale.status = Some(status);
                self.tailscale.error = None;
                self.tailscale.pending_op = false;
                true
            },
            Err(e) => {
                self.tailscale.error = Some(e.clone());
                self.tailscale.pending_op = false;
                tell(events, SubsystemEvent::TailscaleError { detail: e });
                false
            },
        }
    }

    /// End a pass: whether the executor could be reached for the interfaces and
    /// for the mesh VPN, and which path is decided for.
    pub fn finish_refresh(
        &mut self,
        interfaces_ok: bool,
        tailscale_ok: bool,
        dpi: Option<&DpiStatus>,
        b4: &B4Snapshot,
        vpn: &VpnSnapshot,
    )
        requires
            !vpn.paused && vpn.active is Some ==> crate::path_decision::can_shorten(vpn.active->0@),
        ensures
            final(self).executor_unreachable == !(interfaces_ok && tailscale_ok),
            final(self).path_decision matches Some(d) && {
                &&& d.overall@ == crate::path_decision::decided(*b4, *vpn).text()
                &&& d.active_candidate@ == crate::path_decision::candidate(
                    crate::path_decision::preferred(*b4, *vpn),
                )
                &&& d.reason@ == crate::path_decision::decided_reason(*b4, *vpn)
                &&& d.direct_state@ == crate::path_decision::direct_of(b4.flows@).0.text()
                &&& d.b4_active == (b4.enabled && !b4.paused)
                &&& d.b4_ineffective == crate::path_decision::direct_of(b4.flows@).1
                &&& d.vpn_active == vpn.active
                &&& d.vpn_paused == vpn.paused
                &&& d.dpi_active == (dpi matches Some(s) && s.enabled && !s.engine_dead)
            },
            *final(self) == (SubsystemManager {
                executor_unreachable: final(self).executor_unreachable,
                path_decision: final(self).path_decision,
                ..*old(self)
            }),
    {
        let dpi_active = match dpi {
            Some(s) => s.enabled && !s.engine_dead,
            None => false,
        };
        self.executor_unreachable = !(interfaces_ok && tailscale_ok);
        self.path_decision = Some(decide(b4, vpn, dpi_active));
    }
}

/// What the executor answers to a request about an interface.
#[derive(Debug)]
pub struct InterfaceResult {
    pub ok: bool,
    pub detail: String,
    pub hardware_mac: Option<String>,
    pub current_mac: Option<String>,
    pub previous_mac: Option<String>,
}

/// What the executor answers to a request about the mesh VPN.
#[derive(Debug)]
pub struct TailscaleResult {
    pub ok: bool,
    pub detail: String,
}

/// What an operator may ask of the subsystems.
pub struct ControlImpl {
    pub manager: SubsystemManager,
}

impl ControlImpl {
    pub fn new(manager: SubsystemManager) -> (r: Self)
        ensures
            r.manager == manager,
    {
        ControlImpl { manager }
    }

    /// Tell of a hardware address that was set, where the executor answered.
    pub fn set_mac(
        &self,
        interface: &str,
        mac: &str,
        answer: Result<InterfaceResult, String>,
        events: &mut Vec<SubsystemEvent>,
    ) -> (r: Result<InterfaceResult, String>)
        ensures
            r == answer,
            crate::events::told(final(events)@) == if answer is Ok {
                crate::events::told(old(events)@).push(
                    crate::events::Told::InterfaceMacChanged { interface: interface@, mac: mac@ },
                )
            } else {
                crate::events::told(old(events)@)
            },
    {
        if answer.is_ok() {
            tell(events, SubsystemEvent::InterfaceMacChanged { interface: owned(interface), mac: owned(mac) });
        }
        answer
    }

    /// Tell of a hardware address that was restored, where the executor
    /// answered.
    pub fn restore_mac(
        &self,
        interface: &str,
        answer: Result<InterfaceResult, String>,
        events: &mut Vec<SubsystemEvent>,
    ) -> (r: Result<InterfaceResult, String>)
        ensures
            r == answer,
            crate::events::told(final(events)@) == if answer is Ok {
                crate::events::told(old(events)@).push(
                    crate::events::Told::InterfaceMacRestored { interface: interface@ },
                )
            } else {
                crate::events::told(old(events)@)
            },
    {
        if answer.is_ok() {
            tell(events, SubsystemEvent::InterfaceMacRestored { interface: owned(interface) });
        }
        answer
    }

    /// Tell that the mesh VPN was reconnected, where the executor answered.
    pub fn tailscale_reconnect(&self, answer: Result<TailscaleResult, String>, events: &mut Vec<SubsystemEvent>) -> (r:
        Result<TailscaleResult, String>)
        ensures
            r == answer,
            crate::events::told(final(events)@) == if answer is Ok {
                crate::events::told(old(events)@).push(crate::events::Told::TailscaleReconnected)
            } else {
                crate::events::told(old(events)@)
            },
    {
        if answer.is_ok() {
            tell(events, SubsystemEvent::TailscaleReconnected);
        }
        answer
    }

    /// Pause the B4 engine, by the handle that its manager lends, or let it go on.
    pub fn b4_set_paused(
        &self,
        b4: Option<&mut B4ManagerHandle>,
        paused: bool,
        events: &mut Vec<SubsystemEvent>,
    ) -> (r: Result<(), String>)
        ensures
            match b4 {
                Some(handle) => {
                    &&& r is Ok
                    &&& final(handle).paused == paused
                    &&& crate::events::told(final(events)@) == crate::events::told(old(events)@).push(
                        crate::events::Told::B4StateChanged {
                            flow: "*"@,
                            state: if paused { "Paused"@ } else { "Running"@ },
                        },
                    )
                },
                None => {
                    &&& r matches Err(e)
                    &&& e@ == "B4 engine not configured (set BALANSIR_B4_CONFIG)"@
                    &&& final(events)@ == old(events)@
                },
            },
    {
        match b4 {
            Some(handle) => {
                handle.set_paused(paused);
                tell(
                    events,
                    SubsystemEvent::B4StateChanged {
                        flow: owned("*"),
                        state: owned(if paused { "Paused" } else { "Running" }),
                    },
                );
                Ok(())
            },
            None => Err(owned("B4 engine not configured (set BALANSIR_B4_CONFIG)")),
        }
    }

    /// Whether the B4 engine is paused.
    pub fn b4_is_paused(&self, b4: Option<&B4ManagerHandle>) -> (r: bool)
        ensures
            r == (b4 matches Some(handle) && handle.paused),
    {
        match b4 {
            Some(handle) => handle.is_paused(),
            None => false,
        }
    }

    /// Whether the proxy can be asked for anything.
    pub fn require_xray(&self) -> (r: Result<(), String>)
        ensures
            match self.manager.xray {
                XraySupport::Attached => r is Ok,
                XraySupport::NotConfigured => r matches Err(e) && e@
                    == "Xray not configured (set BALANSIR_XRAY_CONFIG)"@,
                XraySupport::NotCompiled => r matches Err(e) && e@ == "Xray support not compiled into this daemon"@,
            },
    {
        match self.manager.xray {
            XraySupport::Attached => Ok(()),
            XraySupport::NotConfigured => Err(owned("Xray not configured (set BALANSIR_XRAY_CONFIG)")),
            XraySupport::NotCompiled => Err(owned("Xray support not compiled into this daemon")),
        }
    }

    /// The profiles of the proxy that take turns: those that are enabled.
    pub fn xray_rotation(&self, profiles: &Vec<XrayProfile>) -> (r: Result<Vec<String>, String>)
        ensures
            r is Ok <==> self.manager.xray == XraySupport::Attached,
            r matches Ok(names) ==> crate::text::strings(names@) == enabled_names(profiles@),
            r matches Err(e) ==> e@ == if self.manager.xray == XraySupport::NotConfigured {
                "Xray not configured (set BALANSIR_XRAY_CONFIG)"@
            } else {
                "Xray support not compiled into this daemon"@
            },
    {
        if let Err(e) = self.require_xray() {
            return Err(e);
        }
        let mut out: Vec<String> = Vec::new();
        let mut i: usize = 0;
        assert(profiles@.take(0) =~= Seq::<XrayProfile>::empty());
        assert(crate::text::strings(out@) =~= enabled_names(profiles@.take(0)));
        while i < profiles.len()
            invariant
                i <= profiles@.len(),
                crate::text::strings(out@) == enabled_names(profiles@.take(i as int)),
            decreases profiles.len() - i,
        {
            assert(profiles@.take(i as int + 1).drop_last() =~= profiles@.take(i as int));
            let ghost before = out@;
            if profiles[i].enabled {
                out.push(profiles[i].name.clone());
                assert(crate::text::strings(out@) =~= crate::text::strings(before).push(profiles@[i as int].name@));
            }
            i += 1;
        }
        assert(profiles@.take(i as int) =~= profiles@);
        Ok(out)
    }

    /// Whether the VPN pool can be asked for anything.
    pub fn require_vpn(&self) -> (r: Result<(), String>)
        ensures
            r is Ok <==> self.manager.vpn,
            r matches Err(e) ==> e@ == "VPN pool not configured (set BALANSIR_VPN_CONFIG)"@,
    {
        require_part(self.manager.vpn, "VPN pool not configured (set BALANSIR_VPN_CONFIG)")
    }

    /// Whether the wireless interfaces can be asked for anything.
    pub fn require_wifi(&self) -> (r: Result<(), String>)
        ensures
            r is Ok <==> self.manager.wifi,
            r matches Err(e) ==> e@ == "Wi-Fi manager not attached"@,
    {
        require_part(self.manager.wifi, "Wi-Fi manager not attached")
    }

    /// Want multipath TCP or not. The request for that.
    pub fn mptcp_set_enabled(&mut self, enabled: bool) -> (r: Result<MptcpOp, String>)
        ensures
            match old(self).manager.mptcp {
                Some(m) => {
                    &&& r == Ok::<MptcpOp, String>(MptcpOp::SetEnabled { enabled })
                    &&& final(self).manager == (SubsystemManager {
                        mptcp: Some(MptcpManager { want_enabled: enabled, ..m }),
                        ..old(self).manager
                    })
                },
                None => {
                    &&& r matches Err(e)
                    &&& e@ == "MPTCP manager not attached"@
                    &&& *final(self) == *old(self)
                },
            },
    {
        match self.manager.mptcp.take() {
            Some(m) => {
                let mut m = m;
                let op = m.set_enabled(enabled);
                self.manager.mptcp = Some(m);
                Ok(op)
            },
            None => Err(owned("MPTCP manager not attached")),
        }
    }

    /// Want addresses to be offered as paths. The requests for that.
    pub fn mptcp_set_endpoints(&mut self, endpoints: Vec<(String, String)>) -> (r: Result<Vec<MptcpOp>, String>)
        ensures
            match old(self).manager.mptcp {
                Some(m) => {
                    &&& r matches Ok(ops)
                    &&& crate::mptcp_manager::asks_for(ops@, endpoints@)
                    &&& final(self).manager == (SubsystemManager {
                        mptcp: Some(MptcpManager { want_endpoints: endpoints, ..m }),
                        ..old(self).manager
                    })
                },
                None => {
                    &&& r matches Err(e)
                    &&& e@ == "MPTCP manager not attached"@
                    &&& *final(self) == *old(self)
                },
            },
    {
        match self.manager.mptcp.take() {
            Some(m) => {
                let mut m = m;
                let ops = m.set_endpoints(endpoints);
                self.manager.mptcp = Some(m);
                Ok(ops)
            },
            None => Err(owned("MPTCP manager not attached")),
        }
    }

    /// Tell the search for strategies that a domain is interfered with.
    pub fn b4_notify_discovery(&mut self, domain: &str, now_ms: i64) -> (r: Result<TrialStep, String>)
        requires
            old(self).manager.dpi matches Some(d) ==> crate::b4_discovery::times_fit(d.discovery.inner.config, now_ms)
                && d.discovery.inner.active_trials < usize::MAX,
        ensures
            match old(self).manager.dpi {
                Some(d) => {
                    &&& r is Ok
                    &&& final(self).manager.dpi is Some
                    &&& notified(d, final(self).manager.dpi->0, r->Ok_0, domain@, now_ms)
                },
                None => {
                    &&& r matches Err(e)
                    &&& e@ == "DPI engine not configured (set BALANSIR_DPI_CONFIG)"@
                    &&& *final(self) == *old(self)
                },
            },
            final(self).manager == (SubsystemManager { dpi: final(self).manager.dpi, ..old(self).manager }),
    {
        match self.manager.dpi.take() {
            Some(d) => {
                let mut d = d;
                let step = d.notify_blocked(domain, now_ms);
                self.manager.dpi = Some(d);
                Ok(step)
            },
            None => Err(owned("DPI engine not configured (set BALANSIR_DPI_CONFIG)")),
        }
    }
}

/// What telling the search of a domain comes to.
pub open spec fn notified(before: DpiManager, after: DpiManager, step: TrialStep, domain: Seq<char>, now_ms: i64) -> bool {
    let b = before.discovery.inner;
    let a = after.discovery.inner;
    let k = crate::b4_discovery::seen_blocked(domain, b.known_of(domain));
    &&& if !before.discovery.enabled {
        step == TrialStep::Settled(None) && after == before
    } else {
        match crate::b4_discovery::pass_of(k, b.config, b.active_trials as nat, now_ms) {
            crate::b4_discovery::Pass::Settled(s) => {
                &&& step matches TrialStep::Settled(x)
                &&& crate::text::text_of(x) == s
                &&& a.known() == b.known().insert(domain, k)
                &&& a.active_trials == b.active_trials
            },
            crate::b4_discovery::Pass::Try(i) => {
                &&& step matches TrialStep::Try { index, name }
                &&& index == i
                &&& index < k.candidates.len()
                &&& name@ == k.candidates[i].name
                &&& a.known() == b.known().insert(domain, crate::b4_discovery::under_trial(k, i, b.config, now_ms))
                &&& a.active_trials == b.active_trials + 1
            },
        }
    }
    &&& a.config == b.config
    &&& b.keyed() ==> a.keyed()
    &&& after.discovery.enabled == before.discovery.enabled
    &&& after.running == before.running
    &&& after.inner == before.inner
    &&& after.executor == before.executor
    &&& after.last_error == before.last_error
}

/// The names of the profiles that are enabled.
pub open spec fn enabled_names(v: Seq<XrayProfile>) -> Seq<Seq<char>>
    decreases v.len(),
{
    if v.len() == 0 {
        Seq::empty()
    } else if v.last().enabled {
        enabled_names(v.drop_last()).push(v.last().name@)
    } else {
        enabled_names(v.drop_last())
    }
}

/// A counter has grown from what it was to what it is, over the time between,
/// where any time has passed.
pub proof fn counters_grow_over_time(from: u64, to: u64, at_ms: u64, now_ms: u64)
    ensures
        growth(from, to, at_ms, now_ms) is Some <==> at_ms < now_ms,
        growth(from, to, at_ms, now_ms) matches Some(g) ==> g.from == from && g.to == to && at_ms + g.over_ms
            == now_ms,
{
}

/// The rate of an interface is the growth of its own counters since they were
/// last seen; one that is seen for the first time has none.
pub proof fn rates_follow_the_counters(i: InterfaceInfo, before: Map<Seq<char>, CounterSample>, now_ms: u64)
    ensures
        ({
            let r = rate_of(i, before, now_ms);
            let known = before.contains_key(i.name@);
            let s = before[i.name@];
            &&& r.interface == i.name@
            &&& !known ==> r.rx is None && r.tx is None
            &&& known && s.at_ms < now_ms ==> r.rx == Some(
                Growth { from: s.rx_bytes, to: i.rx_bytes, over_ms: (now_ms - s.at_ms) as u64 },
            ) && r.tx == Some(Growth { from: s.tx_bytes, to: i.tx_bytes, over_ms: (now_ms - s.at_ms) as u64 })
            &&& known && s.at_ms >= now_ms ==> r.rx is None && r.tx is None
        }),
{
}

/// The counters of each interface are remembered as they were last reported,
/// with the time.
pub proof fn counters_are_remembered(v: Seq<InterfaceInfo>, now_ms: u64, i: int)
    requires
        0 <= i < v.len(),
        forall|k: int| i < k < v.len() ==> (#[trigger] v[k]).name@ != v[i].name@,
    ensures
        samples_of(v, now_ms).contains_key(v[i].name@),
        samples_of(v, now_ms)[v[i].name@].rx_bytes == v[i].rx_bytes,
        samples_of(v, now_ms)[v[i].name@].tx_bytes == v[i].tx_bytes,
        samples_of(v, now_ms)[v[i].name@].at_ms == now_ms,
    decreases v.len(),
{
    let front = v.drop_last();
    if i < front.len() {
        assert(front[i] == v[i]);
        assert forall|k: int| i < k < front.len() implies (#[trigger] front[k]).name@ != front[i].name@ by {
            assert(front[k] == v[k]);
        }
        counters_are_remembered(front, now_ms, i);
        assert(v[v.len() - 1].name@ != v[i].name@);
    }
}

/// Nothing is remembered of an interface that was not reported.
pub proof fn unreported_interfaces_are_forgotten(v: Seq<InterfaceInfo>, now_ms: u64, name: Seq<char>)
    requires
        forall|k: int| 0 <= k < v.len() ==> (#[trigger] v[k]).name@ != name,
    ensures
        !samples_of(v, now_ms).contains_key(name),
    decreases v.len(),
{
    if v.len() > 0 {
        let front = v.drop_last();
        assert forall|k: int| 0 <= k < front.len() implies (#[trigger] front[k]).name@ != name by {
            assert(front[k] == v[k]);
        }
        unreported_interfaces_are_forgotten(front, now_ms, name);
        assert(v[v.len() - 1].name@ != name);
    }
}

/// A status is news where none was known, or where the state or whether the
/// node is online is another.
pub proof fn which_statuses_are_news(before: TailscaleStatus, now: TailscaleStatus)
    ensures
        is_news(None, now),
        is_news(Some(before), now) <==> before.backend_state@ != now.backend_state@ || before.self_online
            != now.self_online,
        now.backend_state@.len() > 0 ==> state_text(now) == now.backend_state@,
        now.backend_state@.len() == 0 ==> state_text(now) == "Unknown"@,
{
}

/// The profiles that are enabled are named in their order.
pub proof fn enabled_profiles_are_named_in_order(first: Seq<XrayProfile>, second: Seq<XrayProfile>)
    ensures
        enabled_names(first + second) == enabled_names(first) + enabled_names(second),
        second.len() == 1 && second[0].enabled ==> enabled_names(second) == seq![second[0].name@],
        second.len() == 1 && !second[0].enabled ==> enabled_names(second).len() == 0,
    decreases second.len(),
{
    if second.len() == 0 {
        assert(first + second =~= first);
        assert(enabled_names(first) + enabled_names(second) =~= enabled_names(first));
    } else {
        let front = second.drop_last();
        enabled_profiles_are_named_in_order(first, front);
        assert((first + second).drop_last() =~= first + front);
        assert((first + second).last() == second.last());
        assert(enabled_names(first + second) =~= enabled_names(first) + enabled_names(second));
        if second.len() == 1 {
            assert(enabled_names(front).len() == 0);
        }
    }
}

/// Two lists of rates are the same where each rate of one is in the other.
pub proof fn no_rate_is_lost(a: Seq<Rate>, b: Seq<Rate>, r: Rate)
    requires
        same_rates(a, b),
    ensures
        a.contains(r) <==> b.contains(r),
{
    broadcast use vstd::seq_lib::group_filter_ensures;

    let p = |x: Rate| x.interface == r.interface;
    assert(of_interface(a, r.interface) == of_interface(b, r.interface));
    let fa = of_interface(a, r.interface);
    let fb = of_interface(b, r.interface);
    assert(p(r));
    if a.contains(r) {
        let i = a.index_of(r);
        assert(p(a[i]));
        assert(fa.contains(a[i]));
        rate_from(b, p, fb.index_of(r));
    }
    if b.contains(r) {
        let i = b.index_of(r);
        assert(p(b[i]));
        assert(fb.contains(b[i]));
        rate_from(a, p, fa.index_of(r));
    }
}

proof fn rate_from(v: Seq<Rate>, p: spec_fn(Rate) -> bool, i: int)
    requires
        0 <= i < v.filter(p).len(),
    ensures
        v.contains(v.filter(p)[i]),
    decreases v.len(),
{
    reveal(Seq::filter);
    if v.len() > 0 {
        let d = v.drop_last();
        if i < d.filter(p).len() {
            rate_from(d, p, i);
            let k = d.index_of(d.filter(p)[i]);
            assert(v[k] == d[k]);
        } else {
            assert(v[v.len() - 1] == v.last());
        }
    }
}

/// Each interface has its rate, in the place of the interface.
pub proof fn each_interface_has_its_rate(
    v: Seq<InterfaceInfo>,
    before: Map<Seq<char>, CounterSample>,
    now_ms: u64,
    i: int,
)
    requires
        0 <= i < v.len(),
    ensures
        rates_of(v, before, now_ms).len() == v.len(),
        rates_of(v, before, now_ms)[i].interface == v[i].name@,
        rates_of(v, before, now_ms)[i] == rate_of(v[i], before, now_ms),
{
}

/// A search that is switched off is not told of anything. One that is on is: a
/// candidate that is to be tried is under trial, and counts as one trial more;
/// nothing else about the engine changes.
pub proof fn searches_are_told_of_blocked_domains(
    before: DpiManager,
    after: DpiManager,
    step: TrialStep,
    domain: Seq<char>,
    now_ms: i64,
)
    requires
        notified(before, after, step, domain, now_ms),
    ensures
        !before.discovery.enabled ==> step == TrialStep::Settled(None) && after == before,
        before.discovery.enabled ==> after.discovery.inner.known().contains_key(domain),
        before.discovery.enabled && step is Try ==> after.discovery.inner.active_trials
            == before.discovery.inner.active_trials + 1,
        before.discovery.enabled && step is Settled ==> after.discovery.inner.active_trials
            == before.discovery.inner.active_trials,
        after.discovery.inner.config == before.discovery.inner.config,
        after.discovery.enabled == before.discovery.enabled,
        after.running == before.running,
        after.inner == before.inner,
        after.executor == before.executor,
        after.last_error == before.last_error,
        forall|other: Seq<char>|
            other != domain ==> (#[trigger] after.discovery.inner.known().contains_key(other)
                <==> before.discovery.inner.known().contains_key(other)) && after.discovery.inner.known()[other]
                == before.discovery.inner.known()[other],
{
}

} // verus!
