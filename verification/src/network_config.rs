//! Which port faces the provider and which the router.
//!
//! Roles are pinned by the hardware identity of a port or by its name. Where
//! nothing is pinned they are detected, and where the picture is ambiguous
//! nothing is guessed.
use vstd::prelude::*;
use vstd::slice::slice_subrange;
use vstd::string::*;

use crate::interface::{InterfaceInfo, InterfaceRole};
use crate::net::IpAddr;
use crate::text::{
    chars_of, clone_option, debug_option_string, debug_string, decimal_of, find_char, join, lower_chars, option_is,
    owned, same_chars, same_text, string_of,
};

verus! {

/// The network section of a configuration file.
#[derive(Debug)]
pub struct NetworkConfigFile {
    pub network: NetworkConfig,
}

/// Port roles and the cloning of the WAN address.
#[derive(Debug)]
pub struct NetworkConfig {
    /// The interface that faces the provider.
    pub wan_interface: Option<String>,
    /// The interface that faces the router.
    pub lan_interface: Option<String>,
    /// The hardware identity of the WAN port.
    pub wan_match: Option<IfaceMatcher>,
    /// The hardware identity of the LAN port.
    pub lan_match: Option<IfaceMatcher>,
    /// The address to clone onto the WAN port.
    pub wan_mac: Option<String>,
    /// Whether an address is cloned at all.
    pub clone_mac: Option<bool>,
    /// The LAN subnet that the firewall and NAT use.
    pub lan_subnet: String,
}

/// The hardware identity of a port. All that is set has to fit.
#[derive(Debug)]
pub struct IfaceMatcher {
    pub name: Option<String>,
    /// Compared with the address in use and the factory address.
    pub mac: Option<String>,
    pub driver: Option<String>,
    /// `vid` or `vid:pid`, in hexadecimal.
    pub usb: Option<String>,
}

/// Why a role does not come down to one interface.
#[derive(Debug)]
pub enum RoleResolveError {
    /// No interface fits.
    NoMatch { reason: String },
    /// Several interfaces fit.
    Ambiguous { candidates: Vec<String> },
}

pub open spec fn default_subnet() -> Seq<char> {
    "192.168.3.0/24"@
}

/// The LAN subnet, where nothing else is configured.
pub fn default_lan_subnet() -> (r: String)
    ensures
        r@ == default_subnet(),
{
    owned("192.168.3.0/24")
}

impl Default for NetworkConfig {
    fn default() -> (r: NetworkConfig)
        ensures
            r.wan_interface is None,
            r.lan_interface is None,
            r.wan_match is None,
            r.lan_match is None,
            r.wan_mac is None,
            r.clone_mac is None,
            r.lan_subnet@ == default_subnet(),
    {
        NetworkConfig {
            wan_interface: None,
            lan_interface: None,
            wan_match: None,
            lan_match: None,
            wan_mac: None,
            clone_mac: None,
            lan_subnet: default_lan_subnet(),
        }
    }
}

impl Default for IfaceMatcher {
    fn default() -> (r: IfaceMatcher)
        ensures
            r == (IfaceMatcher { name: None, mac: None, driver: None, usb: None }),
    {
        IfaceMatcher { name: None, mac: None, driver: None, usb: None }
    }
}

// ---------------------------------------------------------------------------
// Hardware identity
// ---------------------------------------------------------------------------

/// `s` without any `0x` at its front.
pub open spec fn without_0x(s: Seq<char>) -> Seq<char>
    decreases s.len(),
{
    if s.len() >= 2 && s[0] == '0' && s[1] == 'x' { without_0x(s.skip(2)) } else { s }
}

/// The form in which USB ids are compared.
pub open spec fn usb_norm(s: Seq<char>) -> Seq<char> {
    crate::text::ascii_lower(without_0x(s))
}

/// The form in which an optional USB id is compared.
pub open spec fn usb_norm_option(s: Option<String>) -> Seq<char> {
    match s {
        Some(t) => usb_norm(t@),
        None => Seq::empty(),
    }
}

/// Whether a USB identity `vid` or `vid:pid` is that of an interface.
pub open spec fn usb_fits(usb: Seq<char>, i: InterfaceInfo) -> bool {
    let want = crate::text::ascii_lower(usb);
    let colon = crate::text::index_of(want, ':') as int;
    if colon < want.len() {
        usb_norm(want.take(colon)) == usb_norm_option(i.vendor_id) && (want.skip(colon + 1).len() == 0 || usb_norm(
            want.skip(colon + 1),
        ) == usb_norm_option(i.product_id))
    } else {
        usb_norm(want) == usb_norm_option(i.vendor_id)
    }
}

/// Whether an address is one of those of an interface.
pub open spec fn mac_fits(mac: Seq<char>, i: InterfaceInfo) -> bool {
    let want = Some(crate::text::ascii_lower(mac));
    crate::text::text_of(i.mac) == want || crate::text::text_of(i.hardware_mac) == want
}

/// Whether all that a matcher asks for fits an interface.
pub open spec fn fits(m: IfaceMatcher, i: InterfaceInfo) -> bool {
    &&& m.name matches Some(n) ==> i.name@ == n@
    &&& m.mac matches Some(a) ==> mac_fits(a@, i)
    &&& m.driver matches Some(d) ==> crate::text::text_of(i.driver) == Some(d@)
    &&& m.usb matches Some(u) ==> usb_fits(u@, i)
}

/// The names of the interfaces that fit a matcher.
pub open spec fn fitting(m: IfaceMatcher, list: Seq<InterfaceInfo>) -> Seq<Seq<char>>
    decreases list.len(),
{
    if list.len() == 0 {
        Seq::empty()
    } else if fits(m, list.last()) {
        fitting(m, list.drop_last()).push(list.last().name@)
    } else {
        fitting(m, list.drop_last())
    }
}

fn usb_norm_chars(s: &[char]) -> (r: Vec<char>)
    ensures
        r@ == usb_norm(s@),
{
    let mut i: usize = 0;
    assert(s@.skip(0) =~= s@);
    while s.len() - i >= 2 && s[i] == '0' && s[i + 1] == 'x'
        invariant
            i <= s.len(),
            without_0x(s@.skip(i as int)) == without_0x(s@),
        decreases s.len() - i,
    {
        assert(s@.skip(i as int).skip(2) =~= s@.skip(i as int + 2));
        i += 2;
    }
    assert(s@.subrange(i as int, s@.len() as int) =~= s@.skip(i as int));
    lower_chars(slice_subrange(s, i, s.len()))
}

fn usb_norm_of(s: &Option<String>) -> (r: Vec<char>)
    ensures
        r@ == usb_norm_option(*s),
{
    match s {
        Some(t) => usb_norm_chars(&chars_of(t.as_str())),
        None => Vec::new(),
    }
}

fn usb_matches(usb: &str, i: &InterfaceInfo) -> (r: bool)
    ensures
        r == usb_fits(usb@, *i),
{
    let want = lower_chars(&chars_of(usb));
    let colon = find_char(&want, ':');
    let vendor = usb_norm_of(&i.vendor_id);
    if colon < want.len() {
        assert(want@.subrange(0, colon as int) =~= want@.take(colon as int));
        assert(want@.subrange(colon as int + 1, want@.len() as int) =~= want@.skip(colon as int + 1));
        let vid = usb_norm_chars(slice_subrange(&want, 0, colon));
        let rest = slice_subrange(&want, colon + 1, want.len());
        let pid = usb_norm_chars(rest);
        let product = usb_norm_of(&i.product_id);
        same_chars(&vid, &vendor) && (rest.len() == 0 || same_chars(&pid, &product))
    } else {
        let vid = usb_norm_chars(&want);
        same_chars(&vid, &vendor)
    }
}

fn mac_matches(mac: &str, i: &InterfaceInfo) -> (r: bool)
    ensures
        r == mac_fits(mac@, *i),
{
    let want = string_of(&lower_chars(&chars_of(mac)));
    option_is(&i.mac, want.as_str()) || option_is(&i.hardware_mac, want.as_str())
}

/// The parts of a summary of a matcher.
pub open spec fn description_parts(m: IfaceMatcher) -> Seq<Seq<char>> {
    let name = match m.name {
        Some(n) => seq!["name="@ + n@],
        None => Seq::<Seq<char>>::empty(),
    };
    let mac = match m.mac {
        Some(n) => seq!["mac="@ + n@],
        None => Seq::<Seq<char>>::empty(),
    };
    let driver = match m.driver {
        Some(n) => seq!["driver="@ + n@],
        None => Seq::<Seq<char>>::empty(),
    };
    let usb = match m.usb {
        Some(n) => seq!["usb="@ + n@],
        None => Seq::<Seq<char>>::empty(),
    };
    name + mac + driver + usb
}

/// A summary of what a matcher asks for.
pub open spec fn description(m: IfaceMatcher) -> Seq<char> {
    crate::text::joined(description_parts(m), ","@)
}

fn push_part(parts: &mut Vec<String>, tag: &str, value: &Option<String>)
    ensures
        crate::text::strings(final(parts)@) == crate::text::strings(old(parts)@) + (match *value {
            Some(n) => seq![tag@ + n@],
            None => Seq::<Seq<char>>::empty(),
        }),
{
    if let Some(n) = value {
        let mut s = owned(tag);
        s.append(n.as_str());
        let ghost text = s@;
        parts.push(s);
        assert(crate::text::strings(parts@) =~= crate::text::strings(old(parts)@) + seq![text]);
    } else {
        assert(crate::text::strings(parts@) =~= crate::text::strings(old(parts)@) + Seq::<Seq<char>>::empty());
    }
}

/// What a resolution that failed says.
pub open spec fn resolve_error_text(e: RoleResolveError) -> Seq<char> {
    match e {
        RoleResolveError::NoMatch { reason } => "no match: "@ + reason@,
        RoleResolveError::Ambiguous { candidates } => "ambiguous: "@ + crate::text::decimal(candidates@.len())
            + " interfaces match ("@ + crate::text::joined(crate::text::strings(candidates@), ", "@) + ")"@,
    }
}

impl RoleResolveError {
    /// The failure in words.
    pub fn message(&self) -> (r: String)
        ensures
            r@ == resolve_error_text(*self),
    {
        match self {
            RoleResolveError::NoMatch { reason } => {
                let mut s = owned("no match: ");
                s.append(reason.as_str());
                s
            },
            RoleResolveError::Ambiguous { candidates } => {
                let mut s = owned("ambiguous: ");
                s.append(decimal_of(candidates.len() as u64).as_str());
                s.append(" interfaces match (");
                s.append(join(candidates, ", ").as_str());
                s.append(")");
                s
            },
        }
    }
}

impl IfaceMatcher {
    pub open spec fn asks_nothing(self) -> bool {
        self.name is None && self.mac is None && self.driver is None && self.usb is None
    }

    /// Whether nothing is set.
    pub fn is_empty(&self) -> (r: bool)
        ensures
            r == self.asks_nothing(),
    {
        self.name.is_none() && self.mac.is_none() && self.driver.is_none() && self.usb.is_none()
    }

    fn matches(&self, i: &InterfaceInfo) -> (r: bool)
        ensures
            r == fits(*self, *i),
    {
        if let Some(n) = &self.name {
            if !same_text(i.name.as_str(), n.as_str()) {
                return false;
            }
        }
        if let Some(a) = &self.mac {
            if !mac_matches(a.as_str(), i) {
                return false;
            }
        }
        if let Some(d) = &self.driver {
            if !option_is(&i.driver, d.as_str()) {
                return false;
            }
        }
        if let Some(u) = &self.usb {
            if !usb_matches(u.as_str(), i) {
                return false;
            }
        }
        true
    }

    /// The name of the one interface that fits.
    pub fn resolve(&self, interfaces: &Vec<InterfaceInfo>) -> (r: Result<String, RoleResolveError>)
        ensures
            match r {
                Ok(name) => !self.asks_nothing() && fitting(*self, interfaces@) == seq![name@],
                Err(RoleResolveError::NoMatch { reason }) => if self.asks_nothing() {
                    reason@ == "matcher has no criteria"@
                } else {
                    fitting(*self, interfaces@).len() == 0 && reason@ == "no live interface matches "@
                        + crate::text::debug_text(description(*self))
                },
                Err(RoleResolveError::Ambiguous { candidates }) => !self.asks_nothing() && fitting(
                    *self,
                    interfaces@,
                ).len() >= 2 && crate::text::strings(candidates@) == fitting(*self, interfaces@),
            },
    {
        if self.is_empty() {
            return Err(RoleResolveError::NoMatch { reason: owned("matcher has no criteria") });
        }
        let mut matched: Vec<String> = Vec::new();
        let mut i: usize = 0;
        assert(crate::text::strings(matched@) =~= fitting(*self, interfaces@.take(0)));
        while i < interfaces.len()
            invariant
                i <= interfaces.len(),
                crate::text::strings(matched@) == fitting(*self, interfaces@.take(i as int)),
            decreases interfaces.len() - i,
        {
            assert(interfaces@.take(i as int + 1).drop_last() =~= interfaces@.take(i as int));
            if self.matches(&interfaces[i]) {
                let ghost before = matched@;
                matched.push(interfaces[i].name.clone());
                assert(crate::text::strings(matched@) =~= crate::text::strings(before).push(
                    interfaces@[i as int].name@,
                ));
            }
            i += 1;
        }
        assert(interfaces@.take(i as int) =~= interfaces@);
        if matched.len() == 0 {
            let mut reason = owned("no live interface matches ");
            reason.append(debug_string(self.describe().as_str()).as_str());
            return Err(RoleResolveError::NoMatch { reason });
        }
        if matched.len() == 1 {
            let name = matched[0].clone();
            assert(crate::text::strings(matched@) =~= seq![name@]);
            return Ok(name);
        }
        Err(RoleResolveError::Ambiguous { candidates: matched })
    }

    /// A summary of what is asked for.
    pub fn describe(&self) -> (r: String)
        ensures
            r@ == description(*self),
    {
        let mut parts: Vec<String> = Vec::new();
        assert(crate::text::strings(parts@) =~= Seq::<Seq<char>>::empty());
        push_part(&mut parts, "name=", &self.name);
        push_part(&mut parts, "mac=", &self.mac);
        push_part(&mut parts, "driver=", &self.driver);
        push_part(&mut parts, "usb=", &self.usb);
        assert(crate::text::strings(parts@) =~= description_parts(*self));
        join(&parts, ",")
    }
}

// ---------------------------------------------------------------------------
// Detection
// ---------------------------------------------------------------------------

/// Whether an interface is a physical port.
pub open spec fn ethernet_like(i: InterfaceInfo) -> bool {
    match i.kind {
        None => true,
        Some(k) => k@ == "ether"@ || k@ == "eth"@ || k@.len() == 0,
    }
}

pub fn is_ethernet_like(info: &InterfaceInfo) -> (r: bool)
    ensures
        r == ethernet_like(*info),
{
    match &info.kind {
        None => true,
        Some(k) => same_text(k.as_str(), "ether") || same_text(k.as_str(), "eth") || k.as_str().is_empty(),
    }
}

/// A physical port: its name, and whether its link is up.
pub struct Port {
    pub name: String,
    pub link_up: bool,
}

/// A physical port: its name, and whether its link is up.
pub struct PortView {
    pub name: Seq<char>,
    pub link_up: bool,
}

impl View for Port {
    type V = PortView;

    open spec fn view(&self) -> PortView {
        PortView { name: self.name@, link_up: self.link_up }
    }
}

pub open spec fn port_views(v: Seq<Port>) -> Seq<PortView> {
    Seq::new(v.len(), |i: int| v[i]@)
}

/// Whether an interface may take a role without being named.
pub open spec fn eligible(i: InterfaceInfo) -> bool {
    ethernet_like(i) && i.name@ != "lo"@
}

/// The physical ports among some interfaces.
pub open spec fn ports_of(list: Seq<InterfaceInfo>) -> Seq<PortView>
    decreases list.len(),
{
    if list.len() == 0 {
        Seq::empty()
    } else if eligible(list.last()) {
        ports_of(list.drop_last()).push(PortView { name: list.last().name@, link_up: list.last().link_up })
    } else {
        ports_of(list.drop_last())
    }
}

/// The ports with another name.
pub open spec fn ports_but(p: Seq<PortView>, name: Seq<char>) -> Seq<PortView>
    decreases p.len(),
{
    if p.len() == 0 {
        Seq::empty()
    } else if p.last().name != name {
        ports_but(p.drop_last(), name).push(p.last())
    } else {
        ports_but(p.drop_last(), name)
    }
}

/// The ports whose link is up.
pub open spec fn ports_up(p: Seq<PortView>) -> Seq<PortView>
    decreases p.len(),
{
    if p.len() == 0 {
        Seq::empty()
    } else if p.last().link_up {
        ports_up(p.drop_last()).push(p.last())
    } else {
        ports_up(p.drop_last())
    }
}

/// Whether the link of the first port of a name is up, if there is such a port.
pub open spec fn link_of(p: Seq<PortView>, name: Seq<char>) -> Option<bool>
    decreases p.len(),
{
    if p.len() == 0 {
        None
    } else if p[0].name == name {
        Some(p[0].link_up)
    } else {
        link_of(p.skip(1), name)
    }
}

/// The WAN and LAN port that the state of the ports and the owner of the
/// default route leave no doubt about.
pub open spec fn detected(p: Seq<PortView>, route: Option<Seq<char>>) -> Option<(Seq<char>, Seq<char>)> {
    if p.len() < 2 {
        None
    } else if route is Some && link_of(p, route->0) == Some(true) {
        let wan = route->0;
        let others = ports_but(p, wan);
        if ports_up(others).len() == 1 {
            Some((wan, ports_up(others)[0].name))
        } else if others.len() == 1 {
            Some((wan, others[0].name))
        } else {
            None
        }
    } else if ports_up(p).len() == 1 {
        let wan = ports_up(p)[0].name;
        let others = ports_but(p, wan);
        if others.len() == 1 { Some((wan, others[0].name)) } else { None }
    } else {
        None
    }
}

/// The text of an optional string slice.
pub open spec fn text_of_str(s: Option<&str>) -> Option<Seq<char>> {
    match s {
        Some(t) => Some(t@),
        None => None,
    }
}

fn eth_ports(list: &Vec<InterfaceInfo>) -> (r: Vec<Port>)
    ensures
        port_views(r@) == ports_of(list@),
{
    let mut out: Vec<Port> = Vec::new();
    let mut i: usize = 0;
    assert(port_views(out@) =~= ports_of(list@.take(0)));
    while i < list.len()
        invariant
            i <= list.len(),
            port_views(out@) == ports_of(list@.take(i as int)),
        decreases list.len() - i,
    {
        assert(list@.take(i as int + 1).drop_last() =~= list@.take(i as int));
        if is_ethernet_like(&list[i]) && !same_text(list[i].name.as_str(), "lo") {
            let ghost before = out@;
            let port = Port { name: list[i].name.clone(), link_up: list[i].link_up };
            let ghost view = port@;
            out.push(port);
            assert(port_views(out@) =~= port_views(before).push(view));
        }
        i += 1;
    }
    assert(list@.take(i as int) =~= list@);
    out
}

fn others_than(p: &Vec<Port>, name: &str) -> (r: Vec<Port>)
    ensures
        port_views(r@) == ports_but(port_views(p@), name@),
{
    let ghost all = port_views(p@);
    let mut out: Vec<Port> = Vec::new();
    let mut i: usize = 0;
    assert(port_views(out@) =~= ports_but(all.take(0), name@));
    while i < p.len()
        invariant
            i <= p.len(),
            all == port_views(p@),
            port_views(out@) == ports_but(all.take(i as int), name@),
        decreases p.len() - i,
    {
        assert(all.take(i as int + 1).drop_last() =~= all.take(i as int));
        if !same_text(p[i].name.as_str(), name) {
            let ghost before = out@;
            out.push(Port { name: p[i].name.clone(), link_up: p[i].link_up });
            assert(port_views(out@) =~= port_views(before).push(all[i as int]));
        }
        i += 1;
    }
    assert(all.take(i as int) =~= all);
    out
}

fn links_up(p: &Vec<Port>) -> (r: Vec<Port>)
    ensures
        port_views(r@) == ports_up(port_views(p@)),
{
    let ghost all = port_views(p@);
    let mut out: Vec<Port> = Vec::new();
    let mut i: usize = 0;
    assert(port_views(out@) =~= ports_up(all.take(0)));
    while i < p.len()
        invariant
            i <= p.len(),
            all == port_views(p@),
            port_views(out@) == ports_up(all.take(i as int)),
        decreases p.len() - i,
    {
        assert(all.take(i as int + 1).drop_last() =~= all.take(i as int));
        if p[i].link_up {
            let ghost before = out@;
            out.push(Port { name: p[i].name.clone(), link_up: p[i].link_up });
            assert(port_views(out@) =~= port_views(before).push(all[i as int]));
        }
        i += 1;
    }
    assert(all.take(i as int) =~= all);
    out
}

fn link_state(p: &Vec<Port>, name: &str) -> (r: Option<bool>)
    ensures
        r == link_of(port_views(p@), name@),
{
    let ghost all = port_views(p@);
    let mut i: usize = 0;
    assert(all.skip(0) =~= all);
    while i < p.len()
        invariant
            i <= p.len(),
            all == port_views(p@),
            link_of(all, name@) == link_of(all.skip(i as int), name@),
        decreases p.len() - i,
    {
        assert(all.skip(i as int)[0] == p@[i as int]@);
        if same_text(p[i].name.as_str(), name) {
            return Some(p[i].link_up);
        }
        assert(all.skip(i as int).skip(1) =~= all.skip(i as int + 1));
        i += 1;
    }
    None
}

/// Detect the WAN and LAN port, given the owner of the default route. Where the
/// picture is ambiguous there is no answer.
pub fn auto_assign_roles(interfaces: &Vec<InterfaceInfo>, route: Option<&str>) -> (r: Option<(String, String)>)
    ensures
        r matches Some((w, l)) ==> detected(ports_of(interfaces@), text_of_str(route)) == Some((w@, l@)),
        r is None ==> detected(ports_of(interfaces@), text_of_str(route)) is None,
{
    let eth = eth_ports(interfaces);
    if eth.len() < 2 {
        return None;
    }
    if let Some(wan) = route {
        if let Some(true) = link_state(&eth, wan) {
            let others = others_than(&eth, wan);
            let up_others = links_up(&others);
            if up_others.len() == 1 {
                assert(port_views(up_others@)[0] == up_others@[0]@);
                return Some((owned(wan), up_others[0].name.clone()));
            }
            if others.len() == 1 {
                assert(port_views(others@)[0] == others@[0]@);
                return Some((owned(wan), others[0].name.clone()));
            }
            return None;
        }
    }
    let up = links_up(&eth);
    if up.len() == 1 {
        assert(port_views(up@)[0] == up@[0]@);
        let others = others_than(&eth, up[0].name.as_str());
        if others.len() == 1 {
            assert(port_views(others@)[0] == others@[0]@);
            return Some((up[0].name.clone(), others[0].name.clone()));
        }
        return None;
    }
    None
}

proof fn ports_but_members(p: Seq<PortView>, name: Seq<char>)
    ensures
        forall|i: int|
            0 <= i < ports_but(p, name).len() ==> p.contains(#[trigger] ports_but(p, name)[i]) && ports_but(
                p,
                name,
            )[i].name != name,
    decreases p.len(),
{
    if p.len() > 0 {
        ports_but_members(p.drop_last(), name);
        let b = ports_but(p, name);
        let d = ports_but(p.drop_last(), name);
        assert forall|i: int| 0 <= i < b.len() implies p.contains(#[trigger] b[i]) && b[i].name != name by {
            if i < d.len() {
                assert(p.drop_last().contains(d[i]));
                let k = p.drop_last().index_of(d[i]);
                assert(p[k] == b[i]);
            } else {
                assert(p[p.len() - 1] == b[i]);
            }
        }
    }
}

proof fn ports_up_members(p: Seq<PortView>)
    ensures
        forall|i: int| 0 <= i < ports_up(p).len() ==> p.contains(#[trigger] ports_up(p)[i]),
    decreases p.len(),
{
    if p.len() > 0 {
        ports_up_members(p.drop_last());
        let b = ports_up(p);
        let d = ports_up(p.drop_last());
        assert forall|i: int| 0 <= i < b.len() implies p.contains(#[trigger] b[i]) by {
            if i < d.len() {
                assert(p.drop_last().contains(d[i]));
                let k = p.drop_last().index_of(d[i]);
                assert(p[k] == b[i]);
            } else {
                assert(p[p.len() - 1] == b[i]);
            }
        }
    }
}

proof fn link_of_member(p: Seq<PortView>, name: Seq<char>)
    requires
        link_of(p, name) is Some,
    ensures
        exists|i: int| 0 <= i < p.len() && (#[trigger] p[i]).name == name,
    decreases p.len(),
{
    if p[0].name != name {
        link_of_member(p.skip(1), name);
        let i = choose|i: int| 0 <= i < p.skip(1).len() && (#[trigger] p.skip(1)[i]).name == name;
        assert(p[i + 1].name == name);
    }
}

/// Whether some of the interfaces has a name and may take a role.
pub open spec fn has_port(list: Seq<InterfaceInfo>, name: Seq<char>) -> bool {
    exists|k: int| 0 <= k < list.len() && (#[trigger] list[k]).name@ == name && eligible(list[k])
}

proof fn ports_of_members(list: Seq<InterfaceInfo>, i: int)
    requires
        0 <= i < ports_of(list).len(),
    ensures
        has_port(list, ports_of(list)[i].name),
    decreases list.len(),
{
    let d = ports_of(list.drop_last());
    if i < d.len() {
        ports_of_members(list.drop_last(), i);
        let k = choose|k: int|
            0 <= k < list.drop_last().len() && (#[trigger] list.drop_last()[k]).name@ == d[i].name && eligible(
                list.drop_last()[k],
            );
        assert(list[k].name@ == ports_of(list)[i].name);
    } else {
        assert(list[list.len() - 1].name@ == ports_of(list)[i].name);
    }
}

/// Detection never gives one port both roles, and never gives a role to an
/// interface that is not a physical port.
pub proof fn detected_roles_are_two_physical_ports(list: Seq<InterfaceInfo>, route: Option<Seq<char>>)
    ensures
        detected(ports_of(list), route) matches Some((w, l)) ==> w != l && has_port(list, w) && has_port(list, l),
{
    let p = ports_of(list);
    if let Some((w, l)) = detected(p, route) {
        ports_but_members(p, w);
        ports_up_members(ports_but(p, w));
        ports_up_members(p);
        let others = ports_but(p, w);
        // The LAN port is one of the others.
        let at = if route is Some && link_of(p, route->0) == Some(true) && ports_up(others).len() == 1 {
            others.index_of(ports_up(others)[0])
        } else {
            0
        };
        assert(others[at].name == l);
        assert(p.contains(others[at]));
        ports_of_members(list, p.index_of(others[at]));
        // The WAN port is the owner of the route or the only one that is up.
        if route is Some && link_of(p, route->0) == Some(true) {
            link_of_member(p, w);
            let wi = choose|i: int| 0 <= i < p.len() && (#[trigger] p[i]).name == w;
            ports_of_members(list, wi);
        } else {
            assert(p.contains(ports_up(p)[0]));
            ports_of_members(list, p.index_of(ports_up(p)[0]));
        }
    }
}

/// Where a port with a link owns the default route, no other port is ever taken
/// for the WAN.
pub proof fn the_default_route_names_the_wan(list: Seq<InterfaceInfo>, route: Seq<char>)
    requires
        link_of(ports_of(list), route) == Some(true),
    ensures
        detected(ports_of(list), Some(route)) matches Some((w, _)) ==> w == route,
{
}

/// Fewer than two physical ports are never a gateway.
pub proof fn a_gateway_needs_two_ports(list: Seq<InterfaceInfo>, route: Option<Seq<char>>)
    requires
        ports_of(list).len() < 2,
    ensures
        detected(ports_of(list), route) is None,
{
}

// ---------------------------------------------------------------------------
// Kernel tables
// ---------------------------------------------------------------------------

/// What a line of the routing table says of the default route.
pub enum RouteLine {
    /// Nothing.
    Other,
    /// The line cannot be read.
    Unreadable,
    /// It goes through this interface.
    Default(Seq<char>),
}

/// What a line of the routing table says of the default route: its second
/// field is zero, and its flags say that the route is up and has a gateway.
pub open spec fn route_line(line: Seq<char>) -> RouteLine {
    let f = crate::text::words_of(line);
    if f.len() < 4 {
        RouteLine::Other
    } else {
        match crate::text::parsed_hex(f[3], u32::MAX as nat) {
            None => RouteLine::Unreadable,
            Some(flags) => if f[1] == "00000000"@ && flags % 4 == 3 {
                RouteLine::Default(f[0])
            } else {
                RouteLine::Other
            },
        }
    }
}

/// The interface of the first default route in some lines. A line that cannot
/// be read before it leaves it unknown.
pub open spec fn default_route_in(l: Seq<Seq<char>>) -> Option<Seq<char>>
    decreases l.len(),
{
    if l.len() == 0 {
        None
    } else {
        match route_line(l[0]) {
            RouteLine::Other => default_route_in(l.skip(1)),
            RouteLine::Unreadable => None,
            RouteLine::Default(name) => Some(name),
        }
    }
}

/// The lines of a table without its heading.
pub open spec fn table_lines(text: Seq<char>) -> Seq<Seq<char>> {
    let l = crate::text::lines_of(text);
    if l.len() == 0 { l } else { l.skip(1) }
}

/// The interface that the IPv4 routing table sends the default route through.
pub fn default_route_interface(table: &str) -> (r: Option<String>)
    ensures
        r matches Some(s) ==> default_route_in(table_lines(table@)) == Some(s@),
        r is None ==> default_route_in(table_lines(table@)) is None,
{
    let l = crate::text::lines(&chars_of(table));
    let zero = chars_of("00000000");
    let ghost all = crate::text::lines_of(table@);
    let ghost rest = table_lines(table@);
    if l.len() == 0 {
        return None;
    }
    let mut i: usize = 1;
    assert(all.skip(1) =~= rest);
    while i < l.len()
        invariant
            1 <= i <= l.len(),
            all == crate::text::texts(l@),
            rest == table_lines(table@),
            zero@ == "00000000"@,
            default_route_in(rest) == default_route_in(all.skip(i as int)),
        decreases l.len() - i,
    {
        assert(all.skip(i as int)[0] == l@[i as int]@);
        assert(all.skip(i as int).skip(1) =~= all.skip(i as int + 1));
        let f = crate::text::words(&l[i]);
        let ghost fields = crate::text::words_of(l@[i as int]@);
        if f.len() >= 4 {
            assert(fields[0] == f@[0]@ && fields[1] == f@[1]@ && fields[3] == f@[3]@);
            match crate::text::parse_hex(&f[3], u32::MAX as u64) {
                None => {
                    return None;
                },
                Some(flags) => {
                    if same_chars(&f[1], &zero) && flags % 4 == 3 {
                        return Some(string_of(&f[0]));
                    }
                },
            }
        }
        i += 1;
    }
    None
}

/// Flags of the neighbour table: hexadecimal, with or without `0x`.
pub open spec fn neighbour_flags(s: Seq<char>) -> Option<nat> {
    if s.len() >= 2 && s[0] == '0' && s[1] == 'x' {
        crate::text::parsed_hex(s.skip(2), u16::MAX as nat)
    } else {
        crate::text::parsed_hex(s, u16::MAX as nat)
    }
}

/// What a line of the neighbour table says of the peers on an interface.
pub enum NeighbourLine {
    /// Nothing.
    Other,
    /// The line cannot be read.
    Unreadable,
    /// A peer with this address.
    Peer(Seq<char>),
}

/// What a line of the neighbour table says of the peers on an interface: the
/// address of an entry that is complete.
pub open spec fn neighbour_line(line: Seq<char>, lan: Seq<char>) -> NeighbourLine {
    let f = crate::text::words_of(line);
    if f.len() < 6 || f[5] != lan || f[3] == "00:00:00:00:00:00"@ {
        NeighbourLine::Other
    } else {
        match neighbour_flags(f[2]) {
            None => NeighbourLine::Unreadable,
            Some(flags) => if (flags / 2) % 2 == 1 {
                NeighbourLine::Peer(f[3])
            } else {
                NeighbourLine::Other
            },
        }
    }
}

/// The address of the first peer in some lines. A line of the interface that
/// cannot be read before it leaves it unknown.
pub open spec fn peer_in(l: Seq<Seq<char>>, lan: Seq<char>) -> Option<Seq<char>>
    decreases l.len(),
{
    if l.len() == 0 {
        None
    } else {
        match neighbour_line(l[0], lan) {
            NeighbourLine::Other => peer_in(l.skip(1), lan),
            NeighbourLine::Unreadable => None,
            NeighbourLine::Peer(mac) => Some(mac),
        }
    }
}

fn read_neighbour_flags(s: &Vec<char>) -> (r: Option<u64>)
    ensures
        r matches Some(n) ==> neighbour_flags(s@) == Some(n as nat),
        r is None ==> neighbour_flags(s@) is None,
{
    if s.len() >= 2 && s[0] == '0' && s[1] == 'x' {
        assert(s@.subrange(2, s@.len() as int) =~= s@.skip(2));
        crate::text::parse_hex(slice_subrange(s, 2, s.len()), u16::MAX as u64)
    } else {
        crate::text::parse_hex(s, u16::MAX as u64)
    }
}

/// The address of the router behind the LAN port, from the neighbour table.
pub fn learn_lan_peer_mac(table: &str, lan_interface: &str) -> (r: Option<String>)
    ensures
        r matches Some(s) ==> peer_in(table_lines(table@), lan_interface@) == Some(s@),
        r is None ==> peer_in(table_lines(table@), lan_interface@) is None,
{
    let l = crate::text::lines(&chars_of(table));
    let lan = chars_of(lan_interface);
    let zero = chars_of("00:00:00:00:00:00");
    let ghost all = crate::text::lines_of(table@);
    let ghost rest = table_lines(table@);
    if l.len() == 0 {
        return None;
    }
    let mut i: usize = 1;
    assert(all.skip(1) =~= rest);
    while i < l.len()
        invariant
            1 <= i <= l.len(),
            all == crate::text::texts(l@),
            rest == table_lines(table@),
            lan@ == lan_interface@,
            zero@ == "00:00:00:00:00:00"@,
            peer_in(rest, lan@) == peer_in(all.skip(i as int), lan@),
        decreases l.len() - i,
    {
        assert(all.skip(i as int)[0] == l@[i as int]@);
        assert(all.skip(i as int).skip(1) =~= all.skip(i as int + 1));
        let f = crate::text::words(&l[i]);
        let ghost fields = crate::text::words_of(l@[i as int]@);
        if f.len() >= 6 {
            assert(fields[2] == f@[2]@ && fields[3] == f@[3]@ && fields[5] == f@[5]@);
            if same_chars(&f[5], &lan) && !same_chars(&f[3], &zero) {
                match read_neighbour_flags(&f[2]) {
                    None => {
                        return None;
                    },
                    Some(flags) => {
                        if (flags / 2) % 2 == 1 {
                            return Some(string_of(&f[3]));
                        }
                    },
                }
            }
        }
        i += 1;
    }
    None
}

// ---------------------------------------------------------------------------
// Roles
// ---------------------------------------------------------------------------

/// The one interface that a matcher selects, or why there is none.
pub open spec fn selected(m: IfaceMatcher, list: Seq<InterfaceInfo>) -> Result<Seq<char>, Seq<char>> {
    let names = fitting(m, list);
    if m.asks_nothing() {
        Err("no match: "@ + "matcher has no criteria"@)
    } else if names.len() == 0 {
        Err("no match: "@ + ("no live interface matches "@ + crate::text::debug_text(description(m))))
    } else if names.len() == 1 {
        Ok(names[0])
    } else {
        Err(
            "ambiguous: "@ + crate::text::decimal(names.len()) + " interfaces match ("@ + crate::text::joined(
                names,
                ", "@,
            ) + ")"@,
        )
    }
}

/// The interface that the configuration gives a role, by its identity or else
/// by its name, or why its identity gives none.
pub open spec fn configured(
    tag: Seq<char>,
    m: Option<IfaceMatcher>,
    name: Option<String>,
    list: Seq<InterfaceInfo>,
) -> Result<Option<Seq<char>>, Seq<char>> {
    match m {
        Some(m) => match selected(m, list) {
            Ok(n) => Ok(Some(n)),
            Err(e) => Err(tag + " ("@ + description(m) + "): "@ + e),
        },
        None => Ok(crate::text::text_of(name)),
    }
}

/// The WAN and LAN port, or why there are none.
pub open spec fn roles(c: NetworkConfig, list: Seq<InterfaceInfo>, route: Option<Seq<char>>) -> Result<
    (Seq<char>, Seq<char>),
    Seq<char>,
> {
    match (
        configured("wan_match"@, c.wan_match, c.wan_interface, list),
        configured("lan_match"@, c.lan_match, c.lan_interface, list),
    ) {
        (Err(e), _) => Err(e),
        (_, Err(e)) => Err(e),
        (Ok(Some(w)), Ok(Some(l))) => if w == l {
            Err("gateway roles collide: WAN and LAN both resolve to "@ + w)
        } else {
            Ok((w, l))
        },
        (Ok(None), Ok(None)) => match detected(ports_of(list), route) {
            Some(both) => Ok(both),
            None => Err("auto-detection ambiguous; configure [network.wan]/[network.lan] matchers"@),
        },
        (Ok(w), Ok(l)) => Err(
            "incomplete gateway roles: wan="@ + crate::text::debug_option(w) + " lan="@ + crate::text::debug_option(l)
                + " — both roles must resolve"@,
        ),
    }
}

fn select(m: &IfaceMatcher, list: &Vec<InterfaceInfo>) -> (r: Result<String, String>)
    ensures
        r matches Ok(n) ==> selected(*m, list@) == Ok::<Seq<char>, Seq<char>>(n@),
        r matches Err(e) ==> selected(*m, list@) == Err::<Seq<char>, Seq<char>>(e@),
{
    match m.resolve(list) {
        Ok(n) => Ok(n),
        Err(e) => Err(e.message()),
    }
}

fn configured_role(tag: &str, m: &Option<IfaceMatcher>, name: &Option<String>, list: &Vec<InterfaceInfo>) -> (r: Result<
    Option<String>,
    String,
>)
    ensures
        r matches Ok(n) ==> configured(tag@, *m, *name, list@) == Ok::<Option<Seq<char>>, Seq<char>>(
            crate::text::text_of(n),
        ),
        r matches Err(e) ==> configured(tag@, *m, *name, list@) == Err::<Option<Seq<char>>, Seq<char>>(e@),
{
    match m {
        Some(m) => match select(m, list) {
            Ok(n) => Ok(Some(n)),
            Err(e) => {
                let mut s = owned(tag);
                s.append(" (");
                s.append(m.describe().as_str());
                s.append("): ");
                s.append(e.as_str());
                Err(s)
            },
        },
        None => Ok(clone_option(name)),
    }
}

/// Resolve the WAN and LAN port: by hardware identity, or else by name, or,
/// where neither is configured, by detection. Ambiguity is an error.
pub fn resolve_roles(config: &NetworkConfig, interfaces: &Vec<InterfaceInfo>, route: Option<&str>) -> (r: Result<
    (String, String),
    String,
>)
    ensures
        r matches Ok((w, l)) ==> roles(*config, interfaces@, text_of_str(route)) == Ok::<
            (Seq<char>, Seq<char>),
            Seq<char>,
        >((w@, l@)),
        r matches Err(e) ==> roles(*config, interfaces@, text_of_str(route)) == Err::<
            (Seq<char>, Seq<char>),
            Seq<char>,
        >(e@),
{
    let wan = match configured_role("wan_match", &config.wan_match, &config.wan_interface, interfaces) {
        Ok(w) => w,
        Err(e) => {
            return Err(e);
        },
    };
    let lan = match configured_role("lan_match", &config.lan_match, &config.lan_interface, interfaces) {
        Ok(l) => l,
        Err(e) => {
            return Err(e);
        },
    };
    if let (Some(w), Some(l)) = (&wan, &lan) {
        if same_text(w.as_str(), l.as_str()) {
            let mut s = owned("gateway roles collide: WAN and LAN both resolve to ");
            s.append(w.as_str());
            return Err(s);
        }
        return Ok((w.clone(), l.clone()));
    }
    if wan.is_none() && lan.is_none() {
        return match auto_assign_roles(interfaces, route) {
            Some(both) => Ok(both),
            None => Err(owned("auto-detection ambiguous; configure [network.wan]/[network.lan] matchers")),
        };
    }
    let mut s = owned("incomplete gateway roles: wan=");
    s.append(debug_option_string(&wan).as_str());
    s.append(" lan=");
    s.append(debug_option_string(&lan).as_str());
    s.append(" — both roles must resolve");
    Err(s)
}

/// Roles that resolve are two different ports.
pub proof fn resolved_roles_differ(c: NetworkConfig, list: Seq<InterfaceInfo>, route: Option<Seq<char>>)
    ensures
        roles(c, list, route) matches Ok((w, l)) ==> w != l,
{
    detected_roles_are_two_physical_ports(list, route);
}

/// A matcher that more than one interface fits is an error, not a guess.
pub proof fn ambiguity_fails_closed(c: NetworkConfig, list: Seq<InterfaceInfo>, route: Option<Seq<char>>)
    requires
        (c.wan_match matches Some(m) && fitting(m, list).len() >= 2) || (c.lan_match matches Some(m) && fitting(
            m,
            list,
        ).len() >= 2),
    ensures
        roles(c, list, route) is Err,
{
}

/// The role of an interface under a configuration and what was detected; what
/// it had before, where neither gives it one.
pub open spec fn role_of(i: InterfaceInfo, c: NetworkConfig, found: Option<(Seq<char>, Seq<char>)>) -> InterfaceRole {
    let is_wan = found matches Some((w, _)) && w == i.name@;
    let is_lan = found matches Some((_, l)) && l == i.name@;
    if crate::text::text_of(c.wan_interface) == Some(i.name@) || is_wan {
        InterfaceRole::Wan
    } else if crate::text::text_of(c.lan_interface) == Some(i.name@) || is_lan {
        InterfaceRole::Lan
    } else {
        i.role
    }
}

/// What is detected where no role is configured by name.
pub open spec fn detected_unless_named(c: NetworkConfig, list: Seq<InterfaceInfo>, route: Option<Seq<char>>) -> Option<
    (Seq<char>, Seq<char>),
> {
    if c.wan_interface is None && c.lan_interface is None {
        detected(ports_of(list), route)
    } else {
        None
    }
}

/// Mark the interfaces that have a role.
pub fn assign_roles(interfaces: &mut Vec<InterfaceInfo>, config: &NetworkConfig, route: Option<&str>)
    ensures
        final(interfaces)@.len() == old(interfaces)@.len(),
        forall|i: int|
            0 <= i < old(interfaces)@.len() ==> #[trigger] final(interfaces)@[i] == (InterfaceInfo {
                role: role_of(
                    old(interfaces)@[i],
                    *config,
                    detected_unless_named(*config, old(interfaces)@, text_of_str(route)),
                ),
                ..old(interfaces)@[i]
            }),
{
    let found = if config.wan_interface.is_none() && config.lan_interface.is_none() {
        auto_assign_roles(interfaces, route)
    } else {
        None
    };
    let ghost seen = detected_unless_named(*config, old(interfaces)@, text_of_str(route));
    let mut i: usize = 0;
    while i < interfaces.len()
        invariant
            i <= interfaces.len(),
            interfaces@.len() == old(interfaces)@.len(),
            found matches Some((w, l)) ==> seen == Some((w@, l@)),
            found is None ==> seen is None,
            seen == detected_unless_named(*config, old(interfaces)@, text_of_str(route)),
            forall|k: int|
                0 <= k < i ==> #[trigger] interfaces@[k] == (InterfaceInfo {
                    role: role_of(old(interfaces)@[k], *config, seen),
                    ..old(interfaces)@[k]
                }),
            forall|k: int| i <= k < interfaces.len() ==> #[trigger] interfaces@[k] == old(interfaces)@[k],
        decreases interfaces.len() - i,
    {
        let role = {
            let name = interfaces[i].name.as_str();
            let (is_wan, is_lan) = match &found {
                Some((w, l)) => (same_text(w.as_str(), name), same_text(l.as_str(), name)),
                None => (false, false),
            };
            if option_is(&config.wan_interface, name) || is_wan {
                InterfaceRole::Wan
            } else if option_is(&config.lan_interface, name) || is_lan {
                InterfaceRole::Lan
            } else {
                interfaces[i].role
            }
        };
        let entry = &mut interfaces[i];
        entry.role = role;
        i += 1;
    }
}

// ---------------------------------------------------------------------------
// Addresses
// ---------------------------------------------------------------------------

/// The characters of `s` that an address can hold.
pub open spec fn mac_chars(s: Seq<char>) -> Seq<char>
    decreases s.len(),
{
    if s.len() == 0 {
        Seq::empty()
    } else if crate::text::is_hex(s.last()) || s.last() == ':' || s.last() == '-' {
        mac_chars(s.drop_last()).push(s.last())
    } else {
        mac_chars(s.drop_last())
    }
}

/// The number of hexadecimal digits at the front of `s`.
pub open spec fn hex_len(s: Seq<char>) -> nat
    decreases s.len(),
{
    if s.len() > 0 && crate::text::is_hex(s[0]) { 1 + hex_len(s.skip(1)) } else { 0 }
}

/// The runs of hexadecimal digits in `s`.
pub open spec fn hex_groups(s: Seq<char>) -> Seq<Seq<char>>
    decreases s.len(),
    via hex_groups_decreases
{
    if s.len() == 0 {
        Seq::empty()
    } else if !crate::text::is_hex(s[0]) {
        hex_groups(s.skip(1))
    } else {
        seq![s.take(hex_len(s) as int)] + hex_groups(s.skip(hex_len(s) as int))
    }
}

#[via_fn]
proof fn hex_groups_decreases(s: Seq<char>) {
    hex_len_facts(s);
}

proof fn hex_len_facts(s: Seq<char>)
    ensures
        hex_len(s) <= s.len(),
        crate::text::all_hex(s.take(hex_len(s) as int)),
        hex_len(s) < s.len() ==> !crate::text::is_hex(s[hex_len(s) as int]),
        s.len() > 0 && crate::text::is_hex(s[0]) ==> hex_len(s) > 0,
    decreases s.len(),
{
    if s.len() > 0 && crate::text::is_hex(s[0]) {
        hex_len_facts(s.skip(1));
        let n = hex_len(s) as int;
        assert forall|i: int| 0 <= i < n implies crate::text::is_hex(#[trigger] s.take(n)[i]) by {
            if i > 0 {
                assert(s.skip(1).take(n - 1)[i - 1] == s.take(n)[i]);
            }
        }
        if n < s.len() {
            assert(s.skip(1)[n - 1] == s[n]);
        }
    }
}

/// A byte as two hexadecimal digits.
pub open spec fn two_hex(b: nat) -> Seq<char> {
    seq![crate::text::hex_char((b / 16) as nat), crate::text::hex_char((b % 16) as nat)]
}

/// The canonical form of each group.
pub open spec fn canonical_groups(g: Seq<Seq<char>>) -> Seq<Seq<char>> {
    Seq::new(g.len(), |i: int| two_hex(crate::text::hex_number(g[i])))
}

/// An address in canonical form: six bytes in lower case with colons between
/// them, none for what is not an address or is a multicast one.
pub open spec fn canonical_mac(s: Seq<char>) -> Option<Seq<char>> {
    let g = hex_groups(mac_chars(s));
    if g.len() == 6 && (forall|i: int| 0 <= i < 6 ==> (#[trigger] g[i]).len() <= 2) && crate::text::hex_number(g[0]) % 2
        == 0 {
        Some(crate::text::joined(canonical_groups(g), ":"@))
    } else {
        None
    }
}

fn keep_mac_chars(s: &[char]) -> (r: Vec<char>)
    ensures
        r@ == mac_chars(s@),
{
    let mut out: Vec<char> = Vec::new();
    let mut i: usize = 0;
    assert(out@ =~= mac_chars(s@.take(0)));
    while i < s.len()
        invariant
            i <= s.len(),
            out@ == mac_chars(s@.take(i as int)),
        decreases s.len() - i,
    {
        assert(s@.take(i as int + 1).drop_last() =~= s@.take(i as int));
        let c = s[i];
        if crate::text::hex_digit_value(c).is_some() || c == ':' || c == '-' {
            out.push(c);
        }
        i += 1;
    }
    assert(s@.take(i as int) =~= s@);
    out
}

fn split_hex(s: &[char]) -> (r: Vec<Vec<char>>)
    ensures
        crate::text::texts(r@) == hex_groups(s@),
{
    let mut out: Vec<Vec<char>> = Vec::new();
    let mut rest: &[char] = s;
    assert(crate::text::texts(out@) + hex_groups(rest@) =~= hex_groups(s@));
    while rest.len() > 0
        invariant
            crate::text::texts(out@) + hex_groups(rest@) == hex_groups(s@),
        decreases rest.len(),
    {
        if crate::text::hex_digit_value(rest[0]).is_none() {
            assert(rest@.subrange(1, rest@.len() as int) =~= rest@.skip(1));
            rest = slice_subrange(rest, 1, rest.len());
        } else {
            let mut n: usize = 0;
            assert(rest@.skip(0) =~= rest@);
            while n < rest.len() && crate::text::hex_digit_value(rest[n]).is_some()
                invariant
                    n <= rest.len(),
                    hex_len(rest@) == n + hex_len(rest@.skip(n as int)),
                decreases rest.len() - n,
            {
                assert(rest@.skip(n as int).skip(1) =~= rest@.skip(n as int + 1));
                n += 1;
            }
            proof {
                hex_len_facts(rest@);
            }
            let ghost before = out@;
            let piece = slice_subrange(rest, 0, n);
            assert(piece@ =~= rest@.take(n as int));
            out.push(vstd::slice::slice_to_vec(piece));
            assert(crate::text::texts(out@) =~= crate::text::texts(before).push(piece@));
            assert(rest@.subrange(n as int, rest@.len() as int) =~= rest@.skip(n as int));
            assert(crate::text::texts(before) + (seq![piece@] + hex_groups(rest@.skip(n as int)))
                =~= crate::text::texts(out@) + hex_groups(rest@.skip(n as int)));
            rest = slice_subrange(rest, n, rest.len());
        }
    }
    assert(crate::text::texts(out@) + hex_groups(rest@) =~= crate::text::texts(out@));
    out
}

proof fn hex_groups_are_hex(s: Seq<char>, i: int)
    requires
        0 <= i < hex_groups(s).len(),
    ensures
        crate::text::all_hex(hex_groups(s)[i]),
        hex_groups(s)[i].len() > 0,
    decreases s.len(),
{
    hex_len_facts(s);
    if s.len() > 0 {
        if !crate::text::is_hex(s[0]) {
            hex_groups_are_hex(s.skip(1), i);
        } else if i > 0 {
            hex_groups_are_hex(s.skip(hex_len(s) as int), i - 1);
        }
    }
}

fn two_digits(g: &Vec<char>) -> (r: u8)
    requires
        crate::text::all_hex(g@),
        0 < g.len() <= 2,
    ensures
        r == crate::text::hex_number(g@),
{
    reveal_with_fuel(crate::text::hex_number, 3);
    assert(crate::text::is_hex(g@[0]));
    let hi: u8 = match crate::text::hex_digit_value(g[0]) {
        Some(v) => v,
        None => 0,
    };
    if g.len() == 1 {
        return hi;
    }
    assert(crate::text::is_hex(g@[1]));
    let lo: u8 = match crate::text::hex_digit_value(g[1]) {
        Some(v) => v,
        None => 0,
    };
    hi * 16 + lo
}

fn two_hex_string(b: u8) -> (r: String)
    ensures
        r@ == two_hex(b as nat),
{
    let mut s = String::new();
    s.push(crate::text::hex_digit(b / 16));
    s.push(crate::text::hex_digit(b % 16));
    assert(s@ =~= two_hex(b as nat));
    s
}

/// Validate an address; returns its canonical form.
pub fn validate_mac(input: &str) -> (r: Option<String>)
    ensures
        r matches Some(s) ==> canonical_mac(input@) == Some(s@),
        r is None ==> canonical_mac(input@) is None,
{
    let cleaned = keep_mac_chars(&chars_of(input));
    let groups = split_hex(&cleaned);
    let ghost g = hex_groups(mac_chars(input@));
    if groups.len() != 6 {
        return None;
    }
    let mut parts: Vec<String> = Vec::new();
    let mut i: usize = 0;
    while i < 6
        invariant
            i <= 6,
            groups.len() == 6,
            g == crate::text::texts(groups@),
            g == hex_groups(mac_chars(input@)),
            forall|k: int| 0 <= k < i ==> (#[trigger] g[k]).len() <= 2,
            i > 0 ==> crate::text::hex_number(g[0]) % 2 == 0,
            crate::text::strings(parts@) == canonical_groups(g).take(i as int),
        decreases 6 - i,
    {
        assert(g[i as int] == groups@[i as int]@);
        proof {
            hex_groups_are_hex(mac_chars(input@), i as int);
        }
        if groups[i].len() > 2 {
            return None;
        }
        let b: u8 = two_digits(&groups[i]);
        if i == 0 && b % 2 != 0 {
            return None;
        }
        let ghost before = parts@;
        parts.push(two_hex_string(b));
        assert(crate::text::strings(parts@) =~= crate::text::strings(before).push(canonical_groups(g)[i as int]));
        i += 1;
        assert(canonical_groups(g).take(i as int) =~= canonical_groups(g).take(i as int - 1).push(
            canonical_groups(g)[i as int - 1],
        ));
    }
    assert(canonical_groups(g).take(6) =~= canonical_groups(g));
    Some(join(&parts, ":"))
}

proof fn group_at_end(s: Seq<char>, x: Seq<char>)
    requires
        crate::text::all_hex(x),
        x.len() > 0,
    ensures
        hex_groups(s + ":"@ + x) == hex_groups(s).push(x),
    decreases s.len(),
{
    reveal_strlit(":");
    let t = s + ":"@ + x;
    if s.len() == 0 {
        assert(t.skip(1) =~= x);
        hex_run(x);
        assert(hex_groups(s).push(x) =~= seq![x]);
    } else if !crate::text::is_hex(s[0]) {
        assert(t.skip(1) =~= s.skip(1) + ":"@ + x);
        group_at_end(s.skip(1), x);
    } else {
        hex_len_facts(s);
        let n = hex_len(s) as int;
        hex_len_prefix(s, ":"@ + x);
        assert(t =~= s + (":"@ + x));
        assert(t.take(n) =~= s.take(n));
        assert(t.skip(n) =~= s.skip(n) + ":"@ + x);
        group_at_end(s.skip(n), x);
        assert(seq![s.take(n)] + hex_groups(s.skip(n)).push(x) =~= (seq![s.take(n)] + hex_groups(s.skip(n))).push(x));
    }
}

proof fn hex_run(x: Seq<char>)
    requires
        crate::text::all_hex(x),
        x.len() > 0,
    ensures
        hex_groups(x) == seq![x],
{
    hex_len_all(x);
    assert(x.take(x.len() as int) =~= x);
    assert(crate::text::is_hex(x[0]));
    assert(hex_groups(x.skip(x.len() as int)) =~= Seq::<Seq<char>>::empty());
    assert(seq![x] + Seq::<Seq<char>>::empty() =~= seq![x]);
}

proof fn hex_len_all(x: Seq<char>)
    requires
        crate::text::all_hex(x),
    ensures
        hex_len(x) == x.len(),
    decreases x.len(),
{
    if x.len() > 0 {
        assert(crate::text::is_hex(x[0]));
        assert forall|i: int| 0 <= i < x.skip(1).len() implies crate::text::is_hex(#[trigger] x.skip(1)[i]) by {
            assert(x.skip(1)[i] == x[i + 1]);
        }
        hex_len_all(x.skip(1));
    }
}

proof fn hex_len_prefix(s: Seq<char>, t: Seq<char>)
    requires
        t.len() > 0,
        !crate::text::is_hex(t[0]),
    ensures
        hex_len(s + t) == hex_len(s),
    decreases s.len(),
{
    if s.len() > 0 {
        assert((s + t).skip(1) =~= s.skip(1) + t);
        if crate::text::is_hex(s[0]) {
            hex_len_prefix(s.skip(1), t);
        }
    } else {
        assert(s + t =~= t);
    }
}

/// Whether every text is made of two lower-case hexadecimal digits.
spec fn pairs(p: Seq<Seq<char>>) -> bool {
    forall|i: int| 0 <= i < p.len() ==> crate::text::all_hex(#[trigger] p[i]) && p[i].len() == 2
}

proof fn groups_of_joined(p: Seq<Seq<char>>)
    requires
        pairs(p),
    ensures
        hex_groups(crate::text::joined(p, ":"@)) == p,
        mac_chars(crate::text::joined(p, ":"@)) == crate::text::joined(p, ":"@),
    decreases p.len(),
{
    reveal_strlit(":");
    if p.len() == 0 {
    } else if p.len() == 1 {
        hex_run(p[0]);
        assert(seq![p[0]] =~= p);
        mac_chars_of_clean(p[0]);
    } else {
        let d = p.drop_last();
        assert(pairs(d)) by {
            assert forall|i: int| 0 <= i < d.len() implies crate::text::all_hex(#[trigger] d[i]) && d[i].len() == 2 by {
                assert(d[i] == p[i]);
            }
        }
        groups_of_joined(d);
        let s = crate::text::joined(d, ":"@);
        group_at_end(s, p.last());
        assert(d.push(p.last()) =~= p);
        mac_chars_concat(s, ":"@ + p.last());
        assert(":"@ + p.last() =~= seq![':', p.last()[0], p.last()[1]]);
        mac_chars_of_clean(":"@ + p.last());
        assert(s + (":"@ + p.last()) =~= s + ":"@ + p.last());
    }
}

proof fn mac_chars_of_clean(s: Seq<char>)
    requires
        forall|i: int| 0 <= i < s.len() ==> crate::text::is_hex(#[trigger] s[i]) || s[i] == ':',
    ensures
        mac_chars(s) == s,
    decreases s.len(),
{
    if s.len() > 0 {
        assert forall|i: int| 0 <= i < s.drop_last().len() implies crate::text::is_hex(#[trigger] s.drop_last()[i])
            || s.drop_last()[i] == ':' by {
            assert(s.drop_last()[i] == s[i]);
        }
        mac_chars_of_clean(s.drop_last());
        assert(s.drop_last().push(s.last()) =~= s);
    }
}

proof fn mac_chars_concat(a: Seq<char>, b: Seq<char>)
    ensures
        mac_chars(a + b) == mac_chars(a) + mac_chars(b),
    decreases b.len(),
{
    if b.len() == 0 {
        assert(a + b =~= a);
        assert(mac_chars(a) + mac_chars(b) =~= mac_chars(a));
    } else {
        assert((a + b).drop_last() =~= a + b.drop_last());
        mac_chars_concat(a, b.drop_last());
        assert(mac_chars(a) + mac_chars(b.drop_last()).push(b.last()) =~= (mac_chars(a) + mac_chars(b.drop_last())).push(
            b.last(),
        ));
    }
}

/// The canonical form of an address is an address, and its own canonical form.
pub proof fn canonical_mac_is_stable(s: Seq<char>)
    ensures
        canonical_mac(s) matches Some(c) ==> canonical_mac(c) == Some(c),
{
    if let Some(c) = canonical_mac(s) {
        let g = hex_groups(mac_chars(s));
        let p = canonical_groups(g);
        assert forall|i: int| 0 <= i < 6 implies crate::text::all_hex(#[trigger] p[i]) && p[i].len() == 2
            && crate::text::hex_number(p[i]) == crate::text::hex_number(g[i]) by {
            hex_groups_are_hex(mac_chars(s), i);
            two_digit_number(g[i]);
            let b = crate::text::hex_number(g[i]);
            reveal_with_fuel(crate::text::hex_number, 3);
            assert(p[i].drop_last() =~= seq![p[i][0]]);
            assert(p[i].drop_last().drop_last() =~= Seq::<char>::empty());
            assert(crate::text::hex_value(crate::text::hex_char((b / 16) as nat)) == b / 16);
            assert(crate::text::hex_value(crate::text::hex_char((b % 16) as nat)) == b % 16);
        }
        groups_of_joined(p);
        assert(canonical_groups(p) =~= p) by {
            assert forall|i: int| 0 <= i < 6 implies #[trigger] canonical_groups(p)[i] == p[i] by {
                assert(crate::text::hex_number(p[i]) == crate::text::hex_number(g[i]));
            }
        }
        assert(crate::text::hex_number(p[0]) == crate::text::hex_number(g[0]));
    }
}

proof fn two_digit_number(x: Seq<char>)
    requires
        crate::text::all_hex(x),
        0 < x.len() <= 2,
    ensures
        crate::text::hex_number(x) < 256,
{
    reveal_with_fuel(crate::text::hex_number, 3);
    assert(crate::text::is_hex(x[0]));
    if x.len() == 2 {
        assert(crate::text::is_hex(x[1]));
        assert(x.drop_last() =~= seq![x[0]]);
        assert(x.drop_last().drop_last() =~= Seq::<char>::empty());
    } else {
        assert(x.drop_last() =~= Seq::<char>::empty());
    }
}

/// An address from its six bytes: two lower-case digits for each, with colons
/// between them.
pub open spec fn mac_text(b: Seq<u8>) -> Seq<char> {
    crate::text::joined(Seq::new(b.len(), |i: int| two_hex(b[i] as nat)), ":"@)
}

/// A canonical form is made of six bytes, of which the first is even: it is no
/// multicast address.
pub proof fn canonical_macs_are_unicast(s: Seq<char>)
    ensures
        canonical_mac(s) matches Some(c) ==> exists|b: Seq<u8>|
            b.len() == 6 && b[0] % 2 == 0 && c == #[trigger] mac_text(b),
{
    if let Some(c) = canonical_mac(s) {
        let g = hex_groups(mac_chars(s));
        let b = Seq::new(6, |i: int| crate::text::hex_number(g[i]) as u8);
        assert forall|i: int| 0 <= i < 6 implies crate::text::hex_number(#[trigger] g[i]) < 256 by {
            hex_groups_are_hex(mac_chars(s), i);
            two_digit_number(g[i]);
        }
        assert(crate::text::hex_number(g[0]) < 256);
        assert(Seq::new(b.len(), |i: int| two_hex(b[i] as nat)) =~= canonical_groups(g));
        assert(c == mac_text(b));
    }
}

/// Whether a character separates the bytes of an address.
pub open spec fn separates(c: char) -> bool {
    c == ':' || c == '-'
}

/// Whether two characters stand for the same in an address: the same digit in
/// either case, or both a colon or a dash.
pub open spec fn alike(a: char, b: char) -> bool {
    ||| a == b
    ||| crate::text::is_hex(a) && crate::text::is_hex(b) && crate::text::hex_value(a) == crate::text::hex_value(b)
    ||| separates(a) && separates(b)
}

/// Whether two texts stand for the same address, character by character.
pub open spec fn written_alike(s: Seq<char>, t: Seq<char>) -> bool {
    &&& s.len() == t.len()
    &&& forall|i: int| 0 <= i < s.len() ==> alike(#[trigger] s[i], t[i])
}

proof fn alike_when_cleaned(s: Seq<char>, t: Seq<char>)
    requires
        written_alike(s, t),
    ensures
        written_alike(mac_chars(s), mac_chars(t)),
    decreases s.len(),
{
    if s.len() > 0 {
        assert(alike(s[s.len() - 1], t[s.len() - 1]));
        assert(written_alike(s.drop_last(), t.drop_last())) by {
            assert forall|i: int| 0 <= i < s.drop_last().len() implies alike(
                #[trigger] s.drop_last()[i],
                t.drop_last()[i],
            ) by {
                assert(alike(s[i], t[i]));
            }
        }
        alike_when_cleaned(s.drop_last(), t.drop_last());
    }
}

proof fn alike_from(s: Seq<char>, t: Seq<char>, n: int)
    requires
        written_alike(s, t),
        0 <= n <= s.len(),
    ensures
        written_alike(s.take(n), t.take(n)),
        written_alike(s.skip(n), t.skip(n)),
{
    assert forall|i: int| 0 <= i < n implies alike(#[trigger] s.take(n)[i], t.take(n)[i]) by {
        assert(alike(s[i], t[i]));
    }
    assert forall|i: int| 0 <= i < s.len() - n implies alike(#[trigger] s.skip(n)[i], t.skip(n)[i]) by {
        assert(alike(s[i + n], t[i + n]));
    }
}

proof fn alike_runs(s: Seq<char>, t: Seq<char>)
    requires
        written_alike(s, t),
    ensures
        hex_len(s) == hex_len(t),
    decreases s.len(),
{
    if s.len() > 0 {
        assert(alike(s[0], t[0]));
        alike_from(s, t, 1);
        alike_runs(s.skip(1), t.skip(1));
    }
}

proof fn alike_numbers(s: Seq<char>, t: Seq<char>)
    requires
        written_alike(s, t),
        crate::text::all_hex(s),
    ensures
        crate::text::hex_number(s) == crate::text::hex_number(t),
    decreases s.len(),
{
    if s.len() > 0 {
        let n = s.len() - 1;
        assert(alike(s[n], t[n]));
        assert(crate::text::is_hex(s[n]));
        alike_from(s, t, n);
        assert(s.drop_last() =~= s.take(n));
        assert(t.drop_last() =~= t.take(n));
        assert forall|i: int| 0 <= i < n implies crate::text::is_hex(#[trigger] s.take(n)[i]) by {
            assert(crate::text::is_hex(s[i]));
        }
        alike_numbers(s.take(n), t.take(n));
    }
}

proof fn alike_groups(s: Seq<char>, t: Seq<char>)
    requires
        written_alike(s, t),
    ensures
        hex_groups(s).len() == hex_groups(t).len(),
        forall|i: int|
            0 <= i < hex_groups(s).len() ==> (#[trigger] hex_groups(s)[i]).len() == hex_groups(t)[i].len()
                && crate::text::hex_number(hex_groups(s)[i]) == crate::text::hex_number(hex_groups(t)[i]),
    decreases s.len(),
{
    if s.len() > 0 {
        assert(alike(s[0], t[0]));
        if !crate::text::is_hex(s[0]) {
            alike_from(s, t, 1);
            alike_groups(s.skip(1), t.skip(1));
        } else {
            let n = hex_len(s) as int;
            hex_len_facts(s);
            alike_runs(s, t);
            alike_from(s, t, n);
            alike_groups(s.skip(n), t.skip(n));
            alike_numbers(s.take(n), t.take(n));
            assert forall|i: int| 0 <= i < hex_groups(s).len() implies (#[trigger] hex_groups(s)[i]).len()
                == hex_groups(t)[i].len() && crate::text::hex_number(hex_groups(s)[i]) == crate::text::hex_number(
                hex_groups(t)[i],
            ) by {
                if i > 0 {
                    assert(hex_groups(s)[i] == hex_groups(s.skip(n))[i - 1]);
                    assert(hex_groups(t)[i] == hex_groups(t.skip(n))[i - 1]);
                }
            }
        }
    }
}

/// Whether an address is valid, and its canonical form, do not depend on the
/// case of its digits nor on whether colons or dashes separate them.
pub proof fn case_and_dashes_do_not_matter(s: Seq<char>, t: Seq<char>)
    requires
        written_alike(s, t),
    ensures
        canonical_mac(s) == canonical_mac(t),
{
    alike_when_cleaned(s, t);
    alike_groups(mac_chars(s), mac_chars(t));
    let g = hex_groups(mac_chars(s));
    let h = hex_groups(mac_chars(t));
    if g.len() == 6 {
        assert(g[0].len() == h[0].len() && crate::text::hex_number(g[0]) == crate::text::hex_number(h[0]));
        if forall|i: int| 0 <= i < 6 ==> (#[trigger] g[i]).len() <= 2 {
            assert forall|i: int| 0 <= i < 6 implies (#[trigger] h[i]).len() <= 2 by {
                assert(g[i].len() == h[i].len());
            }
        }
        if forall|i: int| 0 <= i < 6 ==> (#[trigger] h[i]).len() <= 2 {
            assert forall|i: int| 0 <= i < 6 implies (#[trigger] g[i]).len() <= 2 by {
                assert(g[i].len() == h[i].len());
            }
        }
        assert forall|i: int| 0 <= i < 6 implies #[trigger] canonical_groups(g)[i] == canonical_groups(h)[i] by {
            assert(crate::text::hex_number(g[i]) == crate::text::hex_number(h[i]));
        }
        assert(canonical_groups(g) =~= canonical_groups(h));
    }
}

/// The place of the last slash in `s`, if there is one.
pub open spec fn last_slash(s: Seq<char>) -> Option<int>
    decreases s.len(),
{
    if s.len() == 0 {
        None
    } else if s.last() == '/' {
        Some(s.len() - 1)
    } else {
        last_slash(s.drop_last())
    }
}

/// The address part of a subnet: what stands before its last slash, or all of
/// it where it has none.
pub open spec fn subnet_address(cidr: Seq<char>) -> Seq<char> {
    let t = crate::text::trimmed(cidr);
    match last_slash(t) {
        Some(i) => t.take(i),
        None => cidr,
    }
}

fn find_last_slash(s: &[char]) -> (r: Option<usize>)
    ensures
        match r {
            Some(i) => last_slash(s@) == Some(i as int) && i < s@.len(),
            None => last_slash(s@) is None,
        },
{
    let mut n: usize = s.len();
    assert(s@.take(n as int) =~= s@);
    while n > 0
        invariant
            n <= s.len(),
            last_slash(s@) == last_slash(s@.take(n as int)),
        decreases n,
    {
        assert(s@.take(n as int).drop_last() =~= s@.take(n as int - 1));
        if s[n - 1] == '/' {
            return Some(n - 1);
        }
        n -= 1;
    }
    None
}

/// The address part of a subnet.
pub fn cidr_address(cidr: &str) -> (r: String)
    ensures
        r@ == subnet_address(cidr@),
{
    let all = chars_of(cidr);
    let t = crate::text::trim(&all);
    match find_last_slash(t) {
        Some(i) => {
            assert(t@.subrange(0, i as int) =~= t@.take(i as int));
            string_of(slice_subrange(t, 0, i))
        },
        None => owned(cidr),
    }
}

/// The length of the prefix of a subnet as it is written: what stands behind its
/// last slash, if it has one.
pub open spec fn subnet_prefix(cidr: Seq<char>) -> Option<Seq<char>> {
    let t = crate::text::trimmed(cidr);
    match last_slash(t) {
        Some(i) => Some(t.skip(i + 1)),
        None => None,
    }
}

/// Whether a subnet is valid, given its address as far as it could be read: a
/// prefix is no longer than an address of its kind. An address alone is a subnet
/// of its own.
pub open spec fn subnet_holds(cidr: Seq<char>, address: Option<IpAddr>) -> bool {
    match (address, subnet_prefix(cidr)) {
        (None, _) => false,
        (Some(_), None) => true,
        (Some(IpAddr::V4(_)), Some(p)) => crate::text::parsed(p, 32) is Some,
        (Some(IpAddr::V6(_)), Some(p)) => crate::text::parsed(p, 128) is Some,
    }
}

/// Validate a subnet, given its address as far as it could be read; returns the
/// address if the subnet is valid.
pub fn parse_cidr(cidr: &str, address: Option<IpAddr>) -> (r: Option<IpAddr>)
    ensures
        r == if subnet_holds(cidr@, address) { address } else { None },
{
    let longest: u64 = match address {
        Some(IpAddr::V4(_)) => 32,
        Some(IpAddr::V6(_)) => 128,
        None => {
            return None;
        },
    };
    let all = chars_of(cidr);
    let t = crate::text::trim(&all);
    match find_last_slash(t) {
        Some(i) => {
            assert(t@.subrange(i as int + 1, t@.len() as int) =~= t@.skip(i as int + 1));
            let n: usize = t.len();
            if crate::text::parse_unsigned(slice_subrange(t, i + 1, n), longest).is_none() {
                return None;
            }
            address
        },
        None => address,
    }
}

// ---------------------------------------------------------------------------
// The configuration
// ---------------------------------------------------------------------------

/// A field with what the environment puts in its place, if it holds anything.
pub open spec fn overridden(field: Option<String>, value: Option<&str>) -> Option<Seq<char>> {
    match value {
        Some(v) => if v@.len() > 0 { Some(v@) } else { crate::text::text_of(field) },
        None => crate::text::text_of(field),
    }
}

fn override_with(field: &mut Option<String>, value: Option<&str>)
    ensures
        crate::text::text_of(*final(field)) == overridden(*old(field), value),
{
    if let Some(v) = value {
        if !v.is_empty() {
            *field = Some(owned(v));
        }
    }
}

/// What is wrong with the port of a role.
pub open spec fn port_fault(role: Seq<char>, name: Seq<char>, list: Seq<InterfaceInfo>) -> Option<Seq<char>>
    decreases list.len(),
{
    if list.len() == 0 {
        Some("network config: "@ + role + "_interface "@ + name + " does not exist"@)
    } else if list[0].name@ == name {
        if ethernet_like(list[0]) {
            None
        } else {
            Some(
                "network config: "@ + role + "_interface "@ + name + " is not an Ethernet device (kind "@
                    + crate::text::debug_option(crate::text::text_of(list[0].kind)) + ")"@,
            )
        }
    } else {
        port_fault(role, name, list.skip(1))
    }
}

/// What is wrong with a configuration, given the owner of the default route and
/// whether its subnet is valid.
pub open spec fn config_fault(
    c: NetworkConfig,
    list: Seq<InterfaceInfo>,
    route: Option<Seq<char>>,
    subnet_ok: bool,
) -> Option<Seq<char>> {
    if c.wan_interface is None && c.lan_interface is None && c.wan_match is None && c.lan_match is None {
        None
    } else {
        match roles(c, list, route) {
            Err(e) => Some(e),
            Ok((wan, lan)) => if port_fault("wan"@, wan, list) is Some {
                port_fault("wan"@, wan, list)
            } else if port_fault("lan"@, lan, list) is Some {
                port_fault("lan"@, lan, list)
            } else if c.wan_mac matches Some(mac) && canonical_mac(mac@) is None {
                Some("network config: invalid wan_mac "@ + c.wan_mac->0@)
            } else if !subnet_ok {
                Some("network config: invalid lan_subnet "@ + c.lan_subnet@)
            } else {
                None
            },
        }
    }
}

fn check_port(role: &str, name: &str, list: &Vec<InterfaceInfo>) -> (r: Result<(), String>)
    ensures
        r is Ok <==> port_fault(role@, name@, list@) is None,
        r matches Err(e) ==> port_fault(role@, name@, list@) == Some(e@),
{
    let mut i: usize = 0;
    assert(list@.skip(0) =~= list@);
    while i < list.len()
        invariant
            i <= list.len(),
            port_fault(role@, name@, list@) == port_fault(role@, name@, list@.skip(i as int)),
        decreases list.len() - i,
    {
        assert(list@.skip(i as int)[0] == list@[i as int]);
        if same_text(list[i].name.as_str(), name) {
            if is_ethernet_like(&list[i]) {
                return Ok(());
            }
            let mut s = owned("network config: ");
            s.append(role);
            s.append("_interface ");
            s.append(name);
            s.append(" is not an Ethernet device (kind ");
            s.append(debug_option_string(&list[i].kind).as_str());
            s.append(")");
            return Err(s);
        }
        assert(list@.skip(i as int).skip(1) =~= list@.skip(i as int + 1));
        i += 1;
    }
    let mut s = owned("network config: ");
    s.append(role);
    s.append("_interface ");
    s.append(name);
    s.append(" does not exist");
    Err(s)
}

impl NetworkConfig {
    /// Put what the environment holds in place of the configured fields.
    pub fn merge_env(&mut self, wan: Option<&str>, lan: Option<&str>, wan_mac: Option<&str>)
        ensures
            crate::text::text_of(final(self).wan_interface) == overridden(old(self).wan_interface, wan),
            crate::text::text_of(final(self).lan_interface) == overridden(old(self).lan_interface, lan),
            crate::text::text_of(final(self).wan_mac) == overridden(old(self).wan_mac, wan_mac),
            *final(self) == (NetworkConfig {
                wan_interface: final(self).wan_interface,
                lan_interface: final(self).lan_interface,
                wan_mac: final(self).wan_mac,
                ..*old(self)
            }),
    {
        override_with(&mut self.wan_interface, wan);
        override_with(&mut self.lan_interface, lan);
        override_with(&mut self.wan_mac, wan_mac);
    }

    pub open spec fn cloning(self) -> bool {
        self.clone_mac matches Some(b) ==> b
    }

    /// Whether an address is cloned onto the WAN port. It is, unless that was
    /// switched off.
    pub fn cloning_enabled(&self) -> (r: bool)
        ensures
            r == self.cloning(),
    {
        match self.clone_mac {
            Some(b) => b,
            None => true,
        }
    }

    /// Validate the configuration against the live interfaces, given the owner
    /// of the default route and the address of the subnet as far as it could be
    /// read.
    pub fn validate(
        &self,
        interfaces: &Vec<InterfaceInfo>,
        route: Option<&str>,
        subnet: Option<IpAddr>,
    ) -> (r: Result<(), String>)
        ensures
            r is Ok <==> config_fault(
                *self,
                interfaces@,
                text_of_str(route),
                subnet_holds(self.lan_subnet@, subnet),
            ) is None,
            r matches Err(e) ==> config_fault(
                *self,
                interfaces@,
                text_of_str(route),
                subnet_holds(self.lan_subnet@, subnet),
            ) == Some(e@),
    {
        if self.wan_interface.is_none() && self.lan_interface.is_none() && self.wan_match.is_none()
            && self.lan_match.is_none() {
            return Ok(());
        }
        let (wan, lan) = match resolve_roles(self, interfaces, route) {
            Ok(both) => both,
            Err(e) => {
                return Err(e);
            },
        };
        if let Err(e) = check_port("wan", wan.as_str(), interfaces) {
            return Err(e);
        }
        if let Err(e) = check_port("lan", lan.as_str(), interfaces) {
            return Err(e);
        }
        if let Some(mac) = &self.wan_mac {
            if validate_mac(mac.as_str()).is_none() {
                let mut s = owned("network config: invalid wan_mac ");
                s.append(mac.as_str());
                return Err(s);
            }
        }
        if parse_cidr(self.lan_subnet.as_str(), subnet).is_none() {
            let mut s = owned("network config: invalid lan_subnet ");
            s.append(self.lan_subnet.as_str());
            return Err(s);
        }
        Ok(())
    }
}

/// A configuration that names no role, by identity or by name, is valid: there
/// is no gateway then.
pub proof fn no_roles_is_valid(c: NetworkConfig, list: Seq<InterfaceInfo>, route: Option<Seq<char>>, subnet_ok: bool)
    requires
        c.wan_interface is None,
        c.lan_interface is None,
        c.wan_match is None,
        c.lan_match is None,
    ensures
        config_fault(c, list, route, subnet_ok) is None,
{
}

/// A valid configuration with roles has two different physical ports for them.
pub proof fn valid_roles_are_physical(
    c: NetworkConfig,
    list: Seq<InterfaceInfo>,
    route: Option<Seq<char>>,
    subnet_ok: bool,
)
    requires
        !(c.wan_interface is None && c.lan_interface is None && c.wan_match is None && c.lan_match is None),
        config_fault(c, list, route, subnet_ok) is None,
    ensures
        roles(c, list, route) matches Ok((w, l)) && w != l && (exists|k: int|
            0 <= k < list.len() && (#[trigger] list[k]).name@ == w && ethernet_like(list[k])) && (exists|k: int|
            0 <= k < list.len() && (#[trigger] list[k]).name@ == l && ethernet_like(list[k])),
{
    resolved_roles_differ(c, list, route);
    if let Ok((w, l)) = roles(c, list, route) {
        sound_port("wan"@, w, list);
        sound_port("lan"@, l, list);
    }
}

proof fn sound_port(role: Seq<char>, name: Seq<char>, list: Seq<InterfaceInfo>)
    requires
        port_fault(role, name, list) is None,
    ensures
        exists|k: int| 0 <= k < list.len() && (#[trigger] list[k]).name@ == name && ethernet_like(list[k]),
    decreases list.len(),
{
    if list[0].name@ == name {
    } else {
        sound_port(role, name, list.skip(1));
        let k = choose|k: int|
            0 <= k < list.skip(1).len() && (#[trigger] list.skip(1)[k]).name@ == name && ethernet_like(list.skip(1)[k]);
        assert(list[k + 1].name@ == name);
    }
}

/// An interface fits a matcher exactly where it meets each criterion that is
/// given: its name, either of its addresses without regard to case, its driver,
/// and its USB identity.
pub proof fn every_criterion_has_to_fit(m: IfaceMatcher, i: InterfaceInfo)
    ensures
        fits(m, i) <==> (m.name is Some ==> i.name@ == m.name->0@) && (m.driver is Some ==> i.driver is Some
            && i.driver->0@ == m.driver->0@) && (m.mac is Some ==> (i.mac is Some && i.mac->0@
            == crate::text::ascii_lower(m.mac->0@)) || (i.hardware_mac is Some && i.hardware_mac->0@
            == crate::text::ascii_lower(m.mac->0@))) && (m.usb is Some ==> usb_fits(m.usb->0@, i)),
{
}

/// A USB identity is a vendor, or a vendor and a product with a colon between
/// them; each has to be the interface's own, and a product that is left empty
/// may be any.
pub proof fn usb_identities_are_vendor_and_product(vendor: Seq<char>, product: Seq<char>, i: InterfaceInfo)
    requires
        !vendor.contains(':'),
    ensures
        usb_fits(vendor, i) <==> usb_norm(crate::text::ascii_lower(vendor)) == usb_norm_option(i.vendor_id),
        usb_fits(vendor.push(':') + product, i) <==> usb_norm(crate::text::ascii_lower(vendor)) == usb_norm_option(
            i.vendor_id,
        ) && (product.len() == 0 || usb_norm(crate::text::ascii_lower(product)) == usb_norm_option(i.product_id)),
{
    let lv = crate::text::ascii_lower(vendor);
    let lp = crate::text::ascii_lower(product);
    assert forall|k: int| 0 <= k < lv.len() implies lv[k] != ':' by {
        assert(vendor.contains(vendor[k]));
    }
    crate::text::index_of_first(lv, ':');
    let whole = crate::text::ascii_lower(vendor.push(':') + product);
    assert(whole =~= lv.push(':') + lp);
    crate::text::index_of_first(whole, ':');
    let n = crate::text::index_of(whole, ':') as int;
    assert(whole[lv.len() as int] == ':');
    if n < lv.len() {
        assert(whole[n] == lv[n]);
    }
    assert(n == lv.len());
    assert(whole.take(n) =~= lv);
    assert(whole.skip(n + 1) =~= lp);
}

/// A leading `0x` and the case of the digits make no difference to an identity.
pub proof fn identities_are_compared_as_numbers_are_written(s: Seq<char>)
    ensures
        usb_norm(seq!['0', 'x'] + s) == usb_norm(s),
        s.len() < 2 || s[0] != '0' || s[1] != 'x' ==> usb_norm(s) == crate::text::ascii_lower(s),
{
    assert((seq!['0', 'x'] + s).skip(2) =~= s);
}

/// The interfaces that fit are found in their order, each by its name.
pub proof fn fitting_interfaces_are_found_in_order(
    m: IfaceMatcher,
    first: Seq<InterfaceInfo>,
    second: Seq<InterfaceInfo>,
)
    ensures
        fitting(m, first + second) == fitting(m, first) + fitting(m, second),
        second.len() == 1 && fits(m, second[0]) ==> fitting(m, second) == seq![second[0].name@],
        second.len() == 1 && !fits(m, second[0]) ==> fitting(m, second).len() == 0,
    decreases second.len(),
{
    if second.len() == 0 {
        assert(first + second =~= first);
        assert(fitting(m, first) + fitting(m, second) =~= fitting(m, first));
    } else {
        let front = second.drop_last();
        fitting_interfaces_are_found_in_order(m, first, front);
        assert((first + second).drop_last() =~= first + front);
        assert((first + second).last() == second.last());
        assert(fitting(m, first + second) =~= fitting(m, first) + fitting(m, second));
        if second.len() == 1 {
            assert(fitting(m, front).len() == 0);
        }
    }
}

/// A matcher selects an interface exactly where it asks for something and one
/// interface fits it.
pub proof fn only_one_may_fit(m: IfaceMatcher, list: Seq<InterfaceInfo>)
    ensures
        selected(m, list) is Ok <==> (m.name is Some || m.mac is Some || m.driver is Some || m.usb is Some) && fitting(
            m,
            list,
        ).len() == 1,
        selected(m, list) matches Ok(n) ==> n == fitting(m, list)[0],
        m.name is None && m.mac is None && m.driver is None && m.usb is None ==> selected(m, list) == Err::<
            Seq<char>,
            Seq<char>,
        >("no match: "@ + "matcher has no criteria"@),
        (m.name is Some || m.mac is Some || m.driver is Some || m.usb is Some) && fitting(m, list).len() >= 2
            ==> selected(m, list) == Err::<Seq<char>, Seq<char>>(
            "ambiguous: "@ + crate::text::decimal(fitting(m, list).len()) + " interfaces match ("@
                + crate::text::joined(fitting(m, list), ", "@) + ")"@,
        ),
{
}

/// The ports are the Ethernet interfaces but for the loopback, in their order,
/// each with whether its link is up.
pub proof fn ports_are_ethernet_interfaces(first: Seq<InterfaceInfo>, second: Seq<InterfaceInfo>)
    ensures
        ports_of(first + second) == ports_of(first) + ports_of(second),
        second.len() == 1 ==> {
            let i = second[0];
            let ethernet = i.kind is None || i.kind->0@ == "ether"@ || i.kind->0@ == "eth"@ || i.kind->0@.len() == 0;
            &&& ethernet && i.name@ != "lo"@ ==> ports_of(second) == seq![
                PortView { name: i.name@, link_up: i.link_up },
            ]
            &&& !ethernet || i.name@ == "lo"@ ==> ports_of(second).len() == 0
        },
    decreases second.len(),
{
    if second.len() == 0 {
        assert(first + second =~= first);
        assert(ports_of(first) + ports_of(second) =~= ports_of(first));
    } else {
        let front = second.drop_last();
        ports_are_ethernet_interfaces(first, front);
        assert((first + second).drop_last() =~= first + front);
        assert((first + second).last() == second.last());
        assert(ports_of(first + second) =~= ports_of(first) + ports_of(second));
        if second.len() == 1 {
            assert(ports_of(front).len() == 0);
        }
    }
}

/// Leaving out a name, or what is not up, leaves the other ports in their order.
pub proof fn leaving_ports_out(first: Seq<PortView>, second: Seq<PortView>, name: Seq<char>)
    ensures
        ports_but(first + second, name) == ports_but(first, name) + ports_but(second, name),
        ports_up(first + second) == ports_up(first) + ports_up(second),
        second.len() == 1 ==> ports_but(second, name) == if second[0].name == name { Seq::empty() } else { second },
        second.len() == 1 ==> ports_up(second) == if second[0].link_up { second } else { Seq::empty() },
    decreases second.len(),
{
    if second.len() == 0 {
        assert(first + second =~= first);
        assert(ports_but(first, name) + ports_but(second, name) =~= ports_but(first, name));
        assert(ports_up(first) + ports_up(second) =~= ports_up(first));
    } else {
        let front = second.drop_last();
        leaving_ports_out(first, front, name);
        assert((first + second).drop_last() =~= first + front);
        assert((first + second).last() == second.last());
        assert(ports_but(first + second, name) =~= ports_but(first, name) + ports_but(second, name));
        assert(ports_up(first + second) =~= ports_up(first) + ports_up(second));
        if second.len() == 1 {
            assert(ports_but(front, name).len() == 0 && ports_up(front).len() == 0);
            assert(front.push(second.last()) =~= second);
            assert(ports_but(front, name) =~= front && ports_up(front) =~= front);
        }
    }
}

/// The port that has the default route and is up is the WAN. The LAN is the only
/// other port that is up, or else the only other port; otherwise nothing is
/// guessed.
pub proof fn the_route_decides_the_roles(p: Seq<PortView>, route: Seq<char>)
    requires
        p.len() >= 2,
        link_of(p, route) == Some(true),
    ensures
        ({
            let others = ports_but(p, route);
            let up = ports_up(others);
            &&& up.len() == 1 ==> detected(p, Some(route)) == Some((route, up[0].name))
            &&& up.len() != 1 && others.len() == 1 ==> detected(p, Some(route)) == Some((route, others[0].name))
            &&& up.len() != 1 && others.len() != 1 ==> detected(p, Some(route)) is None
        }),
{
}

/// Without such a route the only port that is up is the WAN, where there is one
/// other port, which is the LAN; otherwise nothing is guessed.
pub proof fn without_a_route_the_link_decides(p: Seq<PortView>, route: Option<Seq<char>>)
    requires
        p.len() >= 2,
        route is None || link_of(p, route->0) != Some(true),
    ensures
        ({
            let up = ports_up(p);
            let others = ports_but(p, up[0].name);
            &&& up.len() == 1 && others.len() == 1 ==> detected(p, route) == Some((up[0].name, others[0].name))
            &&& up.len() != 1 || others.len() != 1 ==> detected(p, route) is None
        }),
{
}

/// The link of a port is that of the first port with its name.
pub proof fn the_first_port_of_a_name_counts(p: Seq<PortView>, i: int)
    requires
        0 <= i < p.len(),
        forall|k: int| 0 <= k < i ==> (#[trigger] p[k]).name != p[i].name,
    ensures
        link_of(p, p[i].name) == Some(p[i].link_up),
    decreases p.len(),
{
    if i > 0 {
        assert(p[0].name != p[i].name);
        let rest = p.skip(1);
        assert(rest[i - 1] == p[i]);
        assert forall|k: int| 0 <= k < i - 1 implies (#[trigger] rest[k]).name != rest[i - 1].name by {
            assert(rest[k] == p[k + 1]);
        }
        the_first_port_of_a_name_counts(rest, i - 1);
    }
}

/// A line of the routing table is the default route where its destination is
/// all zeros and it is up and goes through a gateway: the two lowest of its
/// flags.
pub proof fn which_line_is_the_default_route(line: Seq<char>)
    ensures
        ({
            let f = crate::text::words_of(line);
            let flags = crate::text::parsed_hex(f[3], 0xffff_ffff);
            &&& f.len() < 4 ==> route_line(line) is Other
            &&& f.len() >= 4 && flags is None ==> route_line(line) is Unreadable
            &&& f.len() >= 4 && flags is Some ==> (route_line(line) is Default <==> f[1] == "00000000"@ && flags->0
                % 2 == 1 && (flags->0 / 2) % 2 == 1)
            &&& f.len() >= 4 && flags is Some && !(route_line(line) is Default) ==> route_line(line) is Other
            &&& route_line(line) matches RouteLine::Default(name) ==> name == f[0]
        }),
{
}

/// The first line that says something of the default route decides; one that
/// cannot be read ends the search.
pub proof fn the_first_default_route_counts(l: Seq<Seq<char>>, i: int)
    requires
        0 <= i <= l.len(),
        forall|k: int| 0 <= k < i ==> route_line(#[trigger] l[k]) is Other,
    ensures
        i == l.len() ==> default_route_in(l) is None,
        i < l.len() ==> (route_line(l[i]) matches RouteLine::Default(name) ==> default_route_in(l) == Some(name)),
        i < l.len() && route_line(l[i]) is Unreadable ==> default_route_in(l) is None,
    decreases l.len(),
{
    if i > 0 {
        assert(route_line(l[0]) is Other);
        let rest = l.skip(1);
        assert forall|k: int| 0 <= k < i - 1 implies route_line(#[trigger] rest[k]) is Other by {
            assert(rest[k] == l[k + 1]);
        }
        if i < l.len() {
            assert(rest[i - 1] == l[i]);
        }
        the_first_default_route_counts(rest, i - 1);
    }
}

/// A line of the neighbour table names a peer where it is of the LAN, has an
/// address, and is complete: the second lowest of its flags.
pub proof fn which_line_names_a_peer(line: Seq<char>, lan: Seq<char>)
    ensures
        ({
            let f = crate::text::words_of(line);
            let ours = f.len() >= 6 && f[5] == lan && f[3] != "00:00:00:00:00:00"@;
            let flags = neighbour_flags(f[2]);
            &&& !ours ==> neighbour_line(line, lan) is Other
            &&& ours && flags is None ==> neighbour_line(line, lan) is Unreadable
            &&& ours && flags is Some && (flags->0 / 2) % 2 == 1 ==> neighbour_line(line, lan) == NeighbourLine::Peer(
                f[3],
            )
            &&& ours && flags is Some && (flags->0 / 2) % 2 == 0 ==> neighbour_line(line, lan) is Other
        }),
{
}

/// The first line that names a peer of the LAN decides; one that cannot be read
/// ends the search.
pub proof fn the_first_peer_counts(l: Seq<Seq<char>>, lan: Seq<char>, i: int)
    requires
        0 <= i <= l.len(),
        forall|k: int| 0 <= k < i ==> neighbour_line(#[trigger] l[k], lan) is Other,
    ensures
        i == l.len() ==> peer_in(l, lan) is None,
        i < l.len() ==> (neighbour_line(l[i], lan) matches NeighbourLine::Peer(mac) ==> peer_in(l, lan) == Some(mac)),
        i < l.len() && neighbour_line(l[i], lan) is Unreadable ==> peer_in(l, lan) is None,
    decreases l.len(),
{
    if i > 0 {
        assert(neighbour_line(l[0], lan) is Other);
        let rest = l.skip(1);
        assert forall|k: int| 0 <= k < i - 1 implies neighbour_line(#[trigger] rest[k], lan) is Other by {
            assert(rest[k] == l[k + 1]);
        }
        if i < l.len() {
            assert(rest[i - 1] == l[i]);
        }
        the_first_peer_counts(rest, lan, i - 1);
    }
}

/// Tables are read without their first line.
pub proof fn tables_have_a_heading(text: Seq<char>, i: int)
    ensures
        crate::text::lines_of(text).len() == 0 ==> table_lines(text).len() == 0,
        crate::text::lines_of(text).len() > 0 ==> table_lines(text).len() == crate::text::lines_of(text).len() - 1,
        0 <= i < table_lines(text).len() ==> table_lines(text)[i] == crate::text::lines_of(text)[i + 1],
{
}

/// Flags are hexadecimal, with or without `0x` before them.
pub proof fn flags_are_hexadecimal(s: Seq<char>)
    ensures
        neighbour_flags(seq!['0', 'x'] + s) == crate::text::parsed_hex(s, 0xffff),
        s.len() < 2 || s[0] != '0' || s[1] != 'x' ==> neighbour_flags(s) == crate::text::parsed_hex(s, 0xffff),
{
    assert((seq!['0', 'x'] + s).skip(2) =~= s);
}

/// A role that has a matcher is what the matcher selects, and one that has none
/// is the interface that is named, if any. Two roles that are both given and
/// differ are taken; two that are the same, or one alone, are an error; where
/// none is given they are detected.
pub proof fn roles_are_given_or_detected(
    c: NetworkConfig,
    list: Seq<InterfaceInfo>,
    route: Option<Seq<char>>,
    wan: Seq<char>,
    lan: Seq<char>,
)
    ensures
        c.wan_match is None && c.lan_match is None && c.wan_interface is Some && c.lan_interface is Some
            && c.wan_interface->0@ != c.lan_interface->0@ ==> roles(c, list, route) == Ok::<
            (Seq<char>, Seq<char>),
            Seq<char>,
        >((c.wan_interface->0@, c.lan_interface->0@)),
        c.wan_match is None && c.lan_match is None && c.wan_interface is Some && c.lan_interface is Some
            && c.wan_interface->0@ == c.lan_interface->0@ ==> roles(c, list, route) == Err::<
            (Seq<char>, Seq<char>),
            Seq<char>,
        >("gateway roles collide: WAN and LAN both resolve to "@ + c.wan_interface->0@),
        c.wan_match is None && c.lan_match is None && (c.wan_interface is Some) != (c.lan_interface is Some) ==> roles(
            c,
            list,
            route,
        ) is Err,
        c.wan_match is None && c.lan_match is None && c.wan_interface is None && c.lan_interface is None ==> (
        detected(ports_of(list), route) == Some((wan, lan)) <==> roles(c, list, route) == Ok::<
            (Seq<char>, Seq<char>),
            Seq<char>,
        >((wan, lan))),
        c.wan_match is Some && c.lan_match is Some && selected(c.wan_match->0, list) == Ok::<Seq<char>, Seq<char>>(wan)
            && selected(c.lan_match->0, list) == Ok::<Seq<char>, Seq<char>>(lan) && wan != lan ==> roles(c, list, route)
            == Ok::<(Seq<char>, Seq<char>), Seq<char>>((wan, lan)),
        c.wan_match is Some && selected(c.wan_match->0, list) is Err ==> roles(c, list, route) is Err,
        c.lan_match is Some && selected(c.lan_match->0, list) is Err ==> roles(c, list, route) is Err,
{
}

/// An interface gets the role of the configuration or of the detection, the WAN
/// before the LAN, and keeps the one it has where neither names it.
pub proof fn interfaces_get_the_role_that_names_them(
    i: InterfaceInfo,
    c: NetworkConfig,
    wan: Seq<char>,
    lan: Seq<char>,
)
    ensures
        c.wan_interface is Some && c.wan_interface->0@ == i.name@ ==> role_of(i, c, None) == InterfaceRole::Wan,
        wan == i.name@ ==> role_of(i, c, Some((wan, lan))) == InterfaceRole::Wan,
        (c.wan_interface is None || c.wan_interface->0@ != i.name@) && c.lan_interface is Some
            && c.lan_interface->0@ == i.name@ ==> role_of(i, c, None) == InterfaceRole::Lan,
        (c.wan_interface is None || c.wan_interface->0@ != i.name@) && wan != i.name@ && lan == i.name@ ==> role_of(
            i,
            c,
            Some((wan, lan)),
        ) == InterfaceRole::Lan,
        (c.wan_interface is None || c.wan_interface->0@ != i.name@) && (c.lan_interface is None
            || c.lan_interface->0@ != i.name@) ==> role_of(i, c, None) == i.role && (wan != i.name@ && lan != i.name@
            ==> role_of(i, c, Some((wan, lan))) == i.role),
{
}

/// Roles are detected only where the configuration names none.
pub proof fn named_roles_are_not_detected(c: NetworkConfig, list: Seq<InterfaceInfo>, route: Option<Seq<char>>)
    ensures
        c.wan_interface is Some || c.lan_interface is Some ==> detected_unless_named(c, list, route) is None,
        c.wan_interface is None && c.lan_interface is None ==> detected_unless_named(c, list, route) == detected(
            ports_of(list),
            route,
        ),
{
}

proof fn two_hex_digits(b: u8)
    ensures
        crate::text::all_hex(two_hex(b as nat)),
        two_hex(b as nat).len() == 2,
        crate::text::hex_number(two_hex(b as nat)) == b,
{
    let s = two_hex(b as nat);
    reveal_with_fuel(crate::text::hex_number, 3);
    assert(s.drop_last() =~= seq![s[0]]);
    assert(s.drop_last().drop_last() =~= Seq::<char>::empty());
    assert(crate::text::hex_value(crate::text::hex_char((b / 16) as nat)) == b / 16);
    assert(crate::text::hex_value(crate::text::hex_char((b % 16) as nat)) == b % 16);
}

/// Six bytes that are written as an address are read back as that address where
/// the first is even, and refused where it is odd.
pub proof fn written_addresses_are_read_back(b: Seq<u8>)
    requires
        b.len() == 6,
    ensures
        b[0] % 2 == 0 ==> canonical_mac(mac_text(b)) == Some(mac_text(b)),
        b[0] % 2 == 1 ==> canonical_mac(mac_text(b)) is None,
{
    let p = Seq::new(b.len(), |i: int| two_hex(b[i] as nat));
    assert forall|i: int| 0 <= i < 6 implies crate::text::all_hex(#[trigger] p[i]) && p[i].len() == 2
        && crate::text::hex_number(p[i]) == b[i] by {
        two_hex_digits(b[i]);
    }
    groups_of_joined(p);
    assert(canonical_groups(p) =~= p);
    assert(p[0].len() == 2);
}

/// Two digits are written for each byte, in lower case.
pub proof fn bytes_are_two_digits(hi: nat, lo: nat)
    requires
        hi < 16,
        lo < 16,
    ensures
        two_hex(16 * hi + lo) == seq![crate::text::hex_char(hi), crate::text::hex_char(lo)],
        crate::text::hex_char(hi) == if hi < 10 { (48 + hi) as char } else { (87 + hi) as char },
{
    assert((16 * hi + lo) / 16 == hi && (16 * hi + lo) % 16 == lo);
}

proof fn the_last_slash(s: Seq<char>, tail: Seq<char>)
    requires
        !tail.contains('/'),
    ensures
        last_slash(s.push('/') + tail) == Some(s.len() as int),
        last_slash(tail) is None,
    decreases tail.len(),
{
    if tail.len() == 0 {
        assert(s.push('/') + tail =~= s.push('/'));
    } else {
        let front = tail.drop_last();
        assert(tail.contains(tail.last()));
        if front.contains('/') {
            let k = front.index_of('/');
            assert(tail[k] == '/');
            assert(tail.contains(tail[k]));
        }
        the_last_slash(s, front);
        assert((s.push('/') + tail).drop_last() =~= s.push('/') + front);
        assert((s.push('/') + tail).last() == tail.last());
    }
}

/// The address of a subnet stands before its last slash and its prefix behind
/// it; a subnet without a slash is all address.
pub proof fn subnets_are_address_and_prefix(address: Seq<char>, prefix: Seq<char>)
    requires
        !prefix.contains('/'),
        crate::text::trimmed(address.push('/') + prefix) == address.push('/') + prefix,
    ensures
        subnet_address(address.push('/') + prefix) == address,
        subnet_prefix(address.push('/') + prefix) == Some(prefix),
        crate::text::trimmed(prefix) == prefix ==> subnet_address(prefix) == prefix && subnet_prefix(prefix) is None,
{
    the_last_slash(address, prefix);
    let t = address.push('/') + prefix;
    assert(t.take(address.len() as int) =~= address);
    assert(t.skip(address.len() as int + 1) =~= prefix);
}

/// A subnet is valid where its address is one and its prefix, where there is
/// one, fits the family: at most 32 for IPv4 and 128 for IPv6.
pub proof fn prefixes_fit_the_family(cidr: Seq<char>, bits: u32, bits6: u128)
    ensures
        !subnet_holds(cidr, None),
        subnet_prefix(cidr) is None ==> subnet_holds(cidr, Some(IpAddr::V4(bits))) && subnet_holds(
            cidr,
            Some(IpAddr::V6(bits6)),
        ),
        subnet_prefix(cidr) matches Some(p) ==> (subnet_holds(cidr, Some(IpAddr::V4(bits))) <==> crate::text::parsed(
            p,
            32,
        ) is Some) && (subnet_holds(cidr, Some(IpAddr::V6(bits6))) <==> crate::text::parsed(p, 128) is Some),
{
}

/// A value that is given and not empty takes the place of what is configured.
pub proof fn given_values_override(field: Option<String>, value: Option<&str>)
    ensures
        value matches Some(v) ==> (v@.len() > 0 ==> overridden(field, value) == Some(v@)),
        value is None || value->0@.len() == 0 ==> (overridden(field, value) is Some <==> field is Some) && (field
            is Some ==> overridden(field, value)->0 == field->0@),
{
}

/// A port is faulty where no interface has its name, or where the first that has
/// it is no Ethernet device.
pub proof fn which_ports_are_faulty(role: Seq<char>, name: Seq<char>, list: Seq<InterfaceInfo>, i: int)
    requires
        0 <= i <= list.len(),
        forall|k: int| 0 <= k < i ==> (#[trigger] list[k]).name@ != name,
        i < list.len() ==> list[i].name@ == name,
    ensures
        i == list.len() ==> port_fault(role, name, list) == Some(
            "network config: "@ + role + "_interface "@ + name + " does not exist"@,
        ),
        i < list.len() ==> (port_fault(role, name, list) is None <==> ethernet_like(list[i])),
    decreases list.len(),
{
    if i > 0 {
        assert(list[0].name@ != name);
        let rest = list.skip(1);
        assert forall|k: int| 0 <= k < i - 1 implies (#[trigger] rest[k]).name@ != name by {
            assert(rest[k] == list[k + 1]);
        }
        if i < list.len() {
            assert(rest[i - 1] == list[i]);
        }
        which_ports_are_faulty(role, name, rest, i - 1);
    }
}

/// A configuration that gives a role is valid exactly where its roles resolve to
/// ports that are there, its address, if any, is one, and its subnet is one.
pub proof fn which_configurations_are_valid(
    c: NetworkConfig,
    list: Seq<InterfaceInfo>,
    route: Option<Seq<char>>,
    subnet_ok: bool,
)
    requires
        c.wan_interface is Some || c.lan_interface is Some || c.wan_match is Some || c.lan_match is Some,
    ensures
        config_fault(c, list, route, subnet_ok) is None <==> match roles(c, list, route) {
            Ok((w, l)) => port_fault("wan"@, w, list) is None && port_fault("lan"@, l, list) is None && (c.wan_mac
                is Some ==> canonical_mac(c.wan_mac->0@) is Some) && subnet_ok,
            Err(_) => false,
        },
        roles(c, list, route) matches Err(e) ==> config_fault(c, list, route, subnet_ok) == Some(e),
{
}

/// A matcher is described by each criterion it gives, in order.
pub proof fn matchers_are_described_by_their_criteria(m: IfaceMatcher)
    ensures
        ({
            let parts = description_parts(m);
            let n: int = if m.name is Some { 1 } else { 0 };
            let a: int = if m.mac is Some { 1 } else { 0 };
            let d: int = if m.driver is Some { 1 } else { 0 };
            let u: int = if m.usb is Some { 1 } else { 0 };
            &&& parts.len() == n + a + d + u
            &&& m.name is Some ==> parts[0] == "name="@ + m.name->0@
            &&& m.mac is Some ==> parts[n] == "mac="@ + m.mac->0@
            &&& m.driver is Some ==> parts[n + a] == "driver="@ + m.driver->0@
            &&& m.usb is Some ==> parts[n + a + d] == "usb="@ + m.usb->0@
            &&& description(m) == crate::text::joined(parts, ","@)
        }),
{
}

} // verus!
