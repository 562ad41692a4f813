//! One decision over every path that traffic can take.
//!
//! The decision is a projection of what the subsystems publish: the same
//! snapshots always give the same decision.
use vstd::prelude::*;
use vstd::string::*;
use vstd::utf8::*;

use crate::snapshot::{B4FlowView, B4Snapshot, ProfileHealth, ProfileState, VpnSnapshot};
use crate::text::{decimal_of, owned, same_text};

verus! {

/// The path that traffic takes.
#[derive(Debug, Clone, Copy, PartialEq, Eq, Structural)]
pub enum OverallPath {
    /// Direct connectivity, without adaptation.
    Direct,
    /// B4 adapts the direct path.
    B4Adapting,
    /// The VPN pool has an active profile.
    VpnActive,
    /// The VPN pool has no eligible profile, so traffic is direct.
    VpnDegradedDirect,
    /// The direct path is failing and there is no alternative.
    NoPath,
}

impl OverallPath {
    pub open spec fn text(self) -> Seq<char> {
        match self {
            OverallPath::Direct => "Direct"@,
            OverallPath::B4Adapting => "B4 adapting"@,
            OverallPath::VpnActive => "VPN active"@,
            OverallPath::VpnDegradedDirect => "VPN degraded (direct)"@,
            OverallPath::NoPath => "No path"@,
        }
    }

    pub fn label(&self) -> (r: &'static str)
        ensures
            r@ == self.text(),
    {
        match *self {
            OverallPath::Direct => "Direct",
            OverallPath::B4Adapting => "B4 adapting",
            OverallPath::VpnActive => "VPN active",
            OverallPath::VpnDegradedDirect => "VPN degraded (direct)",
            OverallPath::NoPath => "No path",
        }
    }
}

/// The decision as it is shown.
#[derive(Debug)]
pub struct PathDecisionView {
    pub overall: String,
    /// The path in use: direct, b4 or vpn.
    pub active_candidate: String,
    /// Why the decision is what it is.
    pub reason: String,
    pub direct_state: String,
    pub b4_active: bool,
    pub b4_ineffective: bool,
    pub vpn_active: Option<String>,
    pub vpn_paused: bool,
    pub dpi_active: bool,
}

/// How the direct path is.
#[derive(Debug, Clone, Copy, PartialEq, Eq, Structural)]
pub enum DirectState {
    Healthy,
    Degraded,
    Failing,
}

impl DirectState {
    pub open spec fn text(self) -> Seq<char> {
        match self {
            DirectState::Healthy => "healthy"@,
            DirectState::Degraded => "degraded"@,
            DirectState::Failing => "failing"@,
        }
    }

    fn label(&self) -> (r: &'static str)
        ensures
            r@ == self.text(),
    {
        match *self {
            DirectState::Healthy => "healthy",
            DirectState::Degraded => "degraded",
            DirectState::Failing => "failing",
        }
    }
}

/// How many flows are in a state.
pub open spec fn flows_in(flows: Seq<B4FlowView>, state: Seq<char>) -> nat
    decreases flows.len(),
{
    if flows.len() == 0 {
        0
    } else {
        flows_in(flows.drop_last(), state) + if flows.last().path.state@ == state { 1nat } else { 0nat }
    }
}

/// The direct path as its flows show it, and whether adapting it does not help.
pub open spec fn direct_of(flows: Seq<B4FlowView>) -> (DirectState, bool) {
    if flows_in(flows, "failing"@) > 0 {
        (DirectState::Failing, true)
    } else if flows_in(flows, "degraded"@) > flows_in(flows, "healthy"@) {
        (DirectState::Degraded, true)
    } else if flows_in(flows, "degraded"@) > 0 {
        (DirectState::Degraded, false)
    } else {
        (DirectState::Healthy, false)
    }
}

fn count_flows(flows: &Vec<B4FlowView>, state: &str) -> (r: usize)
    ensures
        r == flows_in(flows@, state@),
{
    let mut n: usize = 0;
    let mut i: usize = 0;
    while i < flows.len()
        invariant
            i <= flows.len(),
            n <= i,
            n == flows_in(flows@.take(i as int), state@),
        decreases flows.len() - i,
    {
        if same_text(flows[i].path.state.as_str(), state) {
            n += 1;
        }
        i += 1;
        assert(flows@.take(i as int).drop_last() =~= flows@.take(i as int - 1));
    }
    assert(flows@.take(i as int) =~= flows@);
    n
}

/// The direct path as the B4 flows show it, and whether adapting it does not
/// help.
pub fn b4_direct_state(b4: &B4Snapshot) -> (r: (DirectState, bool))
    ensures
        r == direct_of(b4.flows@),
{
    let failing = count_flows(&b4.flows, "failing");
    let degraded = count_flows(&b4.flows, "degraded");
    let healthy = count_flows(&b4.flows, "healthy");
    if failing > 0 {
        (DirectState::Failing, true)
    } else if degraded > healthy {
        (DirectState::Degraded, true)
    } else if degraded > 0 {
        (DirectState::Degraded, false)
    } else {
        (DirectState::Healthy, false)
    }
}

/// How many profiles are healthy.
pub open spec fn healthy_profiles(p: Seq<ProfileHealth>) -> nat
    decreases p.len(),
{
    if p.len() == 0 {
        0
    } else {
        healthy_profiles(p.drop_last()) + if p.last().state == ProfileState::Healthy { 1nat } else { 0nat }
    }
}

fn count_healthy(p: &Vec<ProfileHealth>) -> (r: usize)
    ensures
        r == healthy_profiles(p@),
{
    let mut n: usize = 0;
    let mut i: usize = 0;
    while i < p.len()
        invariant
            i <= p.len(),
            n <= i,
            n == healthy_profiles(p@.take(i as int)),
        decreases p.len() - i,
    {
        if p[i].state == ProfileState::Healthy {
            n += 1;
        }
        i += 1;
        assert(p@.take(i as int).drop_last() =~= p@.take(i as int - 1));
    }
    assert(p@.take(i as int) =~= p@);
    n
}

/// An id cut to its first ten bytes, with an ellipsis where something was cut.
pub open spec fn shortened(id: Seq<char>) -> Seq<char> {
    if encode_utf8(id).len() > 10 {
        decode_utf8(encode_utf8(id).subrange(0, 10)) + "…"@
    } else {
        id
    }
}

/// Whether an id can be cut behind its tenth byte, where it has to be.
pub open spec fn can_shorten(id: Seq<char>) -> bool {
    encode_utf8(id).len() > 10 ==> is_char_boundary(encode_utf8(id), 10)
}

/// An id cut to its first ten bytes.
pub fn short(id: &str) -> (r: String)
    requires
        can_shorten(id@),
    ensures
        r@ == shortened(id@),
{
    if id.as_bytes().len() > 10 {
        let (head, _) = id.split_at(10);
        proof {
            encode_utf8_decode_utf8(head@);
        }
        let mut s = owned(head);
        s.append("…");
        s
    } else {
        owned(id)
    }
}

/// The path that is chosen before it is asked whether there is any: pausing
/// the pool comes first, then an active profile, then what B4 does.
pub open spec fn preferred(b4: B4Snapshot, vpn: VpnSnapshot) -> OverallPath {
    if vpn.paused {
        OverallPath::Direct
    } else if vpn.active is Some {
        OverallPath::VpnActive
    } else if vpn.profiles@.len() > 0 {
        OverallPath::VpnDegradedDirect
    } else if b4.enabled && direct_of(b4.flows@).1 {
        OverallPath::B4Adapting
    } else if b4.enabled && !b4.paused && b4.mtu_enabled {
        OverallPath::B4Adapting
    } else {
        OverallPath::Direct
    }
}

/// Why the preferred path is chosen.
pub open spec fn preferred_reason(b4: B4Snapshot, vpn: VpnSnapshot) -> Seq<char> {
    let direct = direct_of(b4.flows@).0.text();
    if vpn.paused {
        "VPN pool paused; traffic direct"@
    } else if vpn.active is Some {
        "VPN pool selected profile "@ + shortened(vpn.active->0@) + " ("@ + crate::text::decimal(
            healthy_profiles(vpn.profiles@),
        ) + " healthy); direct path "@ + direct
    } else if vpn.profiles@.len() > 0 {
        "VPN pool has no eligible profile (cooldown/failed); traffic direct"@
    } else if b4.enabled && direct_of(b4.flows@).1 {
        "B4 adaptation active but ineffective ("@ + direct + "); direct"@
    } else if b4.enabled && !b4.paused && b4.mtu_enabled {
        "B4 adapting direct path ("@ + direct + ")"@
    } else {
        "Direct path ("@ + direct + ")"@
    }
}

/// Whether there is no path: the direct one fails and nothing else is there.
pub open spec fn stranded(b4: B4Snapshot, vpn: VpnSnapshot) -> bool {
    &&& direct_of(b4.flows@).0 == DirectState::Failing
    &&& preferred(b4, vpn) != OverallPath::VpnActive
    &&& !b4.enabled
    &&& vpn.profiles@.len() == 0
}

/// The path that traffic takes.
pub open spec fn decided(b4: B4Snapshot, vpn: VpnSnapshot) -> OverallPath {
    if stranded(b4, vpn) { OverallPath::NoPath } else { preferred(b4, vpn) }
}

/// Why traffic takes this path.
pub open spec fn decided_reason(b4: B4Snapshot, vpn: VpnSnapshot) -> Seq<char> {
    if stranded(b4, vpn) {
        "Direct path failing and no alternative available; "@ + preferred_reason(b4, vpn)
    } else {
        preferred_reason(b4, vpn)
    }
}

/// The name of the path in use.
pub open spec fn candidate(p: OverallPath) -> Seq<char> {
    match p {
        OverallPath::VpnActive => "vpn"@,
        OverallPath::B4Adapting => "b4"@,
        _ => "direct"@,
    }
}

fn reason_for(b4: &B4Snapshot, vpn: &VpnSnapshot, direct: DirectState, ineffective: bool) -> (r: String)
    requires
        (direct, ineffective) == direct_of(b4.flows@),
        !vpn.paused && vpn.active is Some ==> can_shorten(vpn.active->0@),
    ensures
        r@ == preferred_reason(*b4, *vpn),
{
    if vpn.paused {
        return owned("VPN pool paused; traffic direct");
    }
    if let Some(active) = &vpn.active {
        let mut s = owned("VPN pool selected profile ");
        s.append(short(active.as_str()).as_str());
        s.append(" (");
        s.append(decimal_of(count_healthy(&vpn.profiles) as u64).as_str());
        s.append(" healthy); direct path ");
        s.append(direct.label());
        return s;
    }
    if vpn.profiles.len() > 0 {
        return owned("VPN pool has no eligible profile (cooldown/failed); traffic direct");
    }
    if b4.enabled && ineffective {
        let mut s = owned("B4 adaptation active but ineffective (");
        s.append(direct.label());
        s.append("); direct");
        s
    } else if b4.enabled && !b4.paused && b4.mtu_enabled {
        let mut s = owned("B4 adapting direct path (");
        s.append(direct.label());
        s.append(")");
        s
    } else {
        let mut s = owned("Direct path (");
        s.append(direct.label());
        s.append(")");
        s
    }
}

/// Derive the decision from what the subsystems publish.
pub fn decide(b4: &B4Snapshot, vpn: &VpnSnapshot, dpi_active: bool) -> (r: PathDecisionView)
    requires
        !vpn.paused && vpn.active is Some ==> can_shorten(vpn.active->0@),
    ensures
        r.overall@ == decided(*b4, *vpn).text(),
        r.active_candidate@ == candidate(preferred(*b4, *vpn)),
        r.reason@ == decided_reason(*b4, *vpn),
        r.direct_state@ == direct_of(b4.flows@).0.text(),
        r.b4_active == (b4.enabled && !b4.paused),
        r.b4_ineffective == direct_of(b4.flows@).1,
        r.vpn_active == vpn.active,
        r.vpn_paused == vpn.paused,
        r.dpi_active == dpi_active,
{
    let (direct, ineffective) = b4_direct_state(b4);
    let mut overall = if vpn.paused {
        OverallPath::Direct
    } else if vpn.active.is_some() {
        OverallPath::VpnActive
    } else if vpn.profiles.len() > 0 {
        OverallPath::VpnDegradedDirect
    } else if b4.enabled && (ineffective || (!b4.paused && b4.mtu_enabled)) {
        OverallPath::B4Adapting
    } else {
        OverallPath::Direct
    };
    let active_candidate = match overall {
        OverallPath::VpnActive => owned("vpn"),
        OverallPath::B4Adapting => owned("b4"),
        _ => owned("direct"),
    };
    let mut reason = reason_for(b4, vpn, direct, ineffective);
    if direct == DirectState::Failing && overall != OverallPath::VpnActive && !b4.enabled && vpn.profiles.len() == 0 {
        overall = OverallPath::NoPath;
        let mut s = owned("Direct path failing and no alternative available; ");
        s.append(reason.as_str());
        reason = s;
    }
    let vpn_active = match &vpn.active {
        Some(id) => Some(id.clone()),
        None => None,
    };
    PathDecisionView {
        overall: owned(overall.label()),
        active_candidate,
        reason,
        direct_state: owned(direct.label()),
        b4_active: b4.enabled && !b4.paused,
        b4_ineffective: ineffective,
        vpn_active,
        vpn_paused: vpn.paused,
        dpi_active,
    }
}

/// That there is no path is said only where the direct path fails and there is
/// neither B4 nor a VPN.
pub proof fn no_path_only_when_everything_is_dead(b4: B4Snapshot, vpn: VpnSnapshot)
    ensures
        decided(b4, vpn) == OverallPath::NoPath ==> direct_of(b4.flows@).0 == DirectState::Failing && !b4.enabled
            && vpn.profiles@.len() == 0,
{
}

/// An active profile of a pool that is not paused takes the traffic, however
/// the other paths are.
pub proof fn active_vpn_takes_priority(b4: B4Snapshot, vpn: VpnSnapshot)
    requires
        !vpn.paused,
        vpn.active is Some,
    ensures
        decided(b4, vpn) == OverallPath::VpnActive,
{
}

/// A paused pool never takes traffic.
pub proof fn paused_vpn_is_direct(b4: B4Snapshot, vpn: VpnSnapshot)
    requires
        vpn.paused,
    ensures
        preferred(b4, vpn) == OverallPath::Direct,
        decided(b4, vpn) == OverallPath::Direct || decided(b4, vpn) == OverallPath::NoPath,
{
}

/// Each flow whose path is in a state counts once for it.
pub proof fn flows_are_counted_by_state(first: Seq<B4FlowView>, second: Seq<B4FlowView>, state: Seq<char>)
    ensures
        flows_in(first + second, state) == flows_in(first, state) + flows_in(second, state),
        second.len() == 1 && second[0].path.state@ == state ==> flows_in(second, state) == 1,
        second.len() == 1 && second[0].path.state@ != state ==> flows_in(second, state) == 0,
        flows_in(second, state) == 0 <==> forall|i: int|
            0 <= i < second.len() ==> (#[trigger] second[i]).path.state@ != state,
    decreases second.len(),
{
    if second.len() == 0 {
        assert(first + second =~= first);
    } else {
        let front = second.drop_last();
        flows_are_counted_by_state(first, front, state);
        assert((first + second).drop_last() =~= first + front);
        assert((first + second).last() == second.last());
        assert(second[second.len() - 1] == second.last());
        if second.len() == 1 {
            assert(flows_in(front, state) == 0);
        }
        if flows_in(front, state) == 0 {
            assert forall|i: int| 0 <= i < second.len() - 1 implies (#[trigger] second[i]).path.state@ != state by {
                assert(front[i] == second[i]);
            }
        } else {
            let i = choose|i: int| 0 <= i < front.len() && (#[trigger] front[i]).path.state@ == state;
            assert(second[i] == front[i]);
        }
    }
}

/// One failing flow makes the direct path failing; without one, more degraded
/// flows than healthy ones make an adaptation ineffective, and any degraded flow
/// makes the path degraded.
pub proof fn flows_decide_the_direct_path(flows: Seq<B4FlowView>)
    ensures
        ({
            let (state, ineffective) = direct_of(flows);
            let failing = exists|i: int| 0 <= i < flows.len() && (#[trigger] flows[i]).path.state@ == "failing"@;
            let degraded = flows_in(flows, "degraded"@);
            &&& failing ==> state == DirectState::Failing && ineffective
            &&& !failing && degraded > 0 ==> state == DirectState::Degraded && (ineffective <==> degraded > flows_in(
                flows,
                "healthy"@,
            ))
            &&& !failing && degraded == 0 ==> state == DirectState::Healthy && !ineffective
        }),
{
    flows_are_counted_by_state(Seq::empty(), flows, "failing"@);
}

/// Which path is taken, in order: direct where the pool is paused, the pool
/// where it has a profile in use, direct where it has profiles and none in use,
/// and otherwise the adapted direct path where adaptation is on and either does
/// not help or may change sizes, or the plain direct path.
pub proof fn which_path_is_taken(b4: B4Snapshot, vpn: VpnSnapshot)
    ensures
        vpn.paused ==> preferred(b4, vpn) == OverallPath::Direct,
        !vpn.paused && vpn.active is Some ==> decided(b4, vpn) == OverallPath::VpnActive,
        !vpn.paused && vpn.active is None && vpn.profiles@.len() > 0 ==> decided(b4, vpn)
            == OverallPath::VpnDegradedDirect,
        !vpn.paused && vpn.active is None && vpn.profiles@.len() == 0 && b4.enabled && (direct_of(b4.flows@).1 || (
        !b4.paused && b4.mtu_enabled)) ==> decided(b4, vpn) == OverallPath::B4Adapting,
        !vpn.paused && vpn.active is None && vpn.profiles@.len() == 0 && b4.enabled && !direct_of(b4.flows@).1 && (
        b4.paused || !b4.mtu_enabled) ==> decided(b4, vpn) == OverallPath::Direct,
        (vpn.paused || vpn.active is None) && vpn.profiles@.len() == 0 && !b4.enabled ==> decided(b4, vpn) == if (exists|
            i: int,
        | 0 <= i < b4.flows@.len() && (#[trigger] b4.flows@[i]).path.state@ == "failing"@) {
            OverallPath::NoPath
        } else {
            OverallPath::Direct
        },
        decided(b4, vpn) == OverallPath::NoPath ==> !b4.enabled && vpn.profiles@.len() == 0,
{
    flows_decide_the_direct_path(b4.flows@);
}

/// The candidate that is named is the mechanism of the path that is preferred.
pub proof fn candidates_name_their_mechanism(p: OverallPath)
    ensures
        p == OverallPath::VpnActive <==> candidate(p) == "vpn"@,
        p == OverallPath::B4Adapting <==> candidate(p) == "b4"@,
        p != OverallPath::VpnActive && p != OverallPath::B4Adapting <==> candidate(p) == "direct"@,
{
    reveal_strlit("vpn");
    reveal_strlit("b4");
    reveal_strlit("direct");
    assert("vpn"@.len() == 3 && "b4"@.len() == 2 && "direct"@.len() == 6);
}

/// Each healthy profile counts once.
pub proof fn healthy_profiles_are_counted(first: Seq<ProfileHealth>, second: Seq<ProfileHealth>)
    ensures
        healthy_profiles(first + second) == healthy_profiles(first) + healthy_profiles(second),
        second.len() == 1 && second[0].state == ProfileState::Healthy ==> healthy_profiles(second) == 1,
        second.len() == 1 && second[0].state != ProfileState::Healthy ==> healthy_profiles(second) == 0,
    decreases second.len(),
{
    if second.len() == 0 {
        assert(first + second =~= first);
    } else {
        let front = second.drop_last();
        healthy_profiles_are_counted(first, front);
        assert((first + second).drop_last() =~= first + front);
        assert((first + second).last() == second.last());
        if second.len() == 1 {
            assert(healthy_profiles(front) == 0);
        }
    }
}

/// The reason says which path is taken and how the direct path is.
pub proof fn reasons_name_the_path(b4: B4Snapshot, vpn: VpnSnapshot)
    ensures
        ({
            let direct = direct_of(b4.flows@).0.text();
            &&& !vpn.paused && vpn.active is Some ==> decided_reason(b4, vpn) == "VPN pool selected profile "@
                + shortened(vpn.active->0@) + " ("@ + crate::text::decimal(healthy_profiles(vpn.profiles@))
                + " healthy); direct path "@ + direct
            &&& !vpn.paused && vpn.active is None && vpn.profiles@.len() > 0 ==> decided_reason(b4, vpn)
                == "VPN pool has no eligible profile (cooldown/failed); traffic direct"@
            &&& vpn.paused ==> preferred_reason(b4, vpn) == "VPN pool paused; traffic direct"@
            &&& decided(b4, vpn) == OverallPath::NoPath ==> decided_reason(b4, vpn)
                == "Direct path failing and no alternative available; "@ + preferred_reason(b4, vpn)
            &&& decided(b4, vpn) != OverallPath::NoPath ==> decided_reason(b4, vpn) == preferred_reason(b4, vpn)
        }),
{
}

/// An id of at most ten bytes is shown whole; of a longer one the first ten
/// bytes are shown, and that there is more.
pub proof fn long_ids_are_cut(id: Seq<char>)
    ensures
        encode_utf8(id).len() <= 10 ==> shortened(id) == id,
        encode_utf8(id).len() > 10 ==> shortened(id) == decode_utf8(encode_utf8(id).take(10)) + "…"@,
{
    if encode_utf8(id).len() > 10 {
        assert(encode_utf8(id).take(10) =~= encode_utf8(id).subrange(0, 10));
    }
}

} // verus!
