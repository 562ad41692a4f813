//! Gateway mode: what is asked of the executor for the machine to stand between
//! the provider and the router.
use vstd::prelude::*;

use crate::interface::InterfaceInfo;
use crate::net::IpAddr;
use crate::network_config::{learn_lan_peer_mac, NetworkConfig};
use crate::text::{clone_option, owned};

verus! {

/// The state of the gateway, to be shown.
#[derive(Debug)]
pub struct GatewayState {
    /// Whether gateway mode is active.
    pub enabled: bool,
    pub wan_interface: Option<String>,
    pub lan_interface: Option<String>,
    /// The LAN address, with its prefix.
    pub lan_ip: Option<String>,
    /// The address of the WAN port, explicit or learned.
    pub wan_mac: Option<String>,
    /// Whether that address is cloned.
    pub cloning_active: bool,
    /// Whether addresses are translated.
    pub nat_active: bool,
    /// Whether the management firewall is active.
    pub firewall_active: bool,
    /// Whether names are resolved for the LAN.
    pub dns_active: bool,
}

impl Default for GatewayState {
    fn default() -> (r: Self)
        ensures
            r.enabled == false,
            r.wan_interface is None,
            r.lan_interface is None,
            r.lan_ip is None,
            r.wan_mac is None,
            r.cloning_active == false,
            r.nat_active == false,
            r.firewall_active == false,
            r.dns_active == false,
    {
        GatewayState {
            enabled: false,
            wan_interface: None,
            lan_interface: None,
            lan_ip: None,
            wan_mac: None,
            cloning_active: false,
            nat_active: false,
            firewall_active: false,
            dns_active: false,
        }
    }
}

/// A state, as texts.
pub struct Shown {
    pub enabled: bool,
    pub wan_interface: Option<Seq<char>>,
    pub lan_interface: Option<Seq<char>>,
    pub lan_ip: Option<Seq<char>>,
    pub wan_mac: Option<Seq<char>>,
    pub cloning_active: bool,
    pub nat_active: bool,
    pub firewall_active: bool,
    pub dns_active: bool,
}

impl View for GatewayState {
    type V = Shown;

    open spec fn view(&self) -> Shown {
        Shown {
            enabled: self.enabled,
            wan_interface: crate::text::text_of(self.wan_interface),
            lan_interface: crate::text::text_of(self.lan_interface),
            lan_ip: crate::text::text_of(self.lan_ip),
            wan_mac: crate::text::text_of(self.wan_mac),
            cloning_active: self.cloning_active,
            nat_active: self.nat_active,
            firewall_active: self.firewall_active,
            dns_active: self.dns_active,
        }
    }
}

/// What is asked of the executor.
#[derive(Debug)]
pub enum GatewayStep {
    /// Give an interface its address.
    SetIp { interface: String, address: String },
    /// Give an interface a hardware address.
    SetMac { interface: String, mac: String },
    /// Translate the addresses of a subnet behind an interface.
    EnableNat { interface: String, subnet: String },
    /// Pass packets on.
    EnableForwarding,
    /// Let the LAN reach the services of the machine and keep the WAN out.
    MgmtFirewall { lan: String, wan: String },
}

/// What is asked of the executor, as texts.
pub enum Asked {
    SetIp { interface: Seq<char>, address: Seq<char> },
    SetMac { interface: Seq<char>, mac: Seq<char> },
    EnableNat { interface: Seq<char>, subnet: Seq<char> },
    EnableForwarding,
    MgmtFirewall { lan: Seq<char>, wan: Seq<char> },
}

impl View for GatewayStep {
    type V = Asked;

    open spec fn view(&self) -> Asked {
        match self {
            GatewayStep::SetIp { interface, address } => Asked::SetIp { interface: interface@, address: address@ },
            GatewayStep::SetMac { interface, mac } => Asked::SetMac { interface: interface@, mac: mac@ },
            GatewayStep::EnableNat { interface, subnet } => Asked::EnableNat {
                interface: interface@,
                subnet: subnet@,
            },
            GatewayStep::EnableForwarding => Asked::EnableForwarding,
            GatewayStep::MgmtFirewall { lan, wan } => Asked::MgmtFirewall { lan: lan@, wan: wan@ },
        }
    }
}

pub open spec fn asked(v: Seq<GatewayStep>) -> Seq<Asked> {
    Seq::new(v.len(), |i: int| v[i]@)
}

/// The address to clone onto the WAN port: the configured one, else that of the
/// router behind the LAN port as the neighbour table has it.
pub open spec fn cloned_mac(c: NetworkConfig, table: Seq<char>) -> Option<Seq<char>> {
    match crate::text::text_of(c.wan_mac) {
        Some(mac) => Some(mac),
        None => match c.lan_interface {
            Some(lan) => if c.cloning() {
                crate::network_config::peer_in(crate::network_config::table_lines(table), lan@)
            } else {
                None
            },
            None => None,
        },
    }
}

/// What is asked of the executor for two ports, in order.
pub open spec fn steps_for(
    wan: Seq<char>,
    lan: Seq<char>,
    lan_ip: Option<Seq<char>>,
    mac: Option<Seq<char>>,
    cloning: bool,
    subnet: Seq<char>,
) -> Seq<Asked> {
    let ip = match lan_ip {
        Some(address) => seq![Asked::SetIp { interface: lan, address }],
        None => Seq::empty(),
    };
    let clone = match mac {
        Some(m) => if cloning { seq![Asked::SetMac { interface: wan, mac: m }] } else { Seq::empty() },
        None => Seq::empty(),
    };
    ip + clone + seq![
        Asked::EnableNat { interface: wan, subnet },
        Asked::EnableForwarding,
        Asked::MgmtFirewall { lan, wan },
    ]
}

/// Why two ports are not there.
pub open spec fn missing_role(c: NetworkConfig) -> Option<Seq<char>> {
    if c.wan_interface is None {
        Some("wan_interface required"@)
    } else if c.lan_interface is None {
        Some("lan_interface required"@)
    } else {
        None
    }
}

/// Keeps the machine a gateway.
pub struct GatewayManager {
    pub state: GatewayState,
    pub config: NetworkConfig,
    /// The configured LAN address, with its prefix.
    pub lan_ip: Option<String>,
}

impl GatewayManager {
    /// A gateway that is not active.
    pub fn new(config: NetworkConfig, lan_ip: Option<String>) -> (r: Self)
        ensures
            r.config == config,
            r.lan_ip == lan_ip,
            !r.state.enabled,
            r.state.wan_interface is None,
            r.state.lan_interface is None,
            r.state.lan_ip is None,
            r.state.wan_mac is None,
            !r.state.cloning_active,
            !r.state.nat_active,
            !r.state.firewall_active,
            !r.state.dns_active,
    {
        GatewayManager { state: GatewayState::default(), config, lan_ip }
    }

    /// Take over a configuration that holds for the live interfaces. One that
    /// does not is refused, and what was configured stays.
    pub fn load_config(
        &mut self,
        config: NetworkConfig,
        interfaces: &Vec<InterfaceInfo>,
        route: Option<&str>,
        subnet: Option<IpAddr>,
    ) -> (r: Result<(), String>)
        ensures
            ({
                let fault = crate::network_config::config_fault(
                    config,
                    interfaces@,
                    crate::network_config::text_of_str(route),
                    crate::network_config::subnet_holds(config.lan_subnet@, subnet),
                );
                &&& r is Ok <==> fault is None
                &&& r matches Err(e) ==> fault == Some(e@)
            }),
            final(self).config == if r is Ok { config } else { old(self).config },
            final(self).state == old(self).state,
            final(self).lan_ip == old(self).lan_ip,
    {
        match config.validate(interfaces, route, subnet) {
            Ok(_) => {
                self.config = config;
                Ok(())
            },
            Err(e) => Err(e),
        }
    }

    /// What to ask of the executor, given the neighbour table. With no role
    /// configured there is no gateway and nothing to ask for.
    pub fn reconcile(&mut self, table: &str) -> (r: Result<Vec<GatewayStep>, String>)
        ensures
            ({
                let c = old(self).config;
                let mac = cloned_mac(c, table@);
                if c.wan_interface is None && c.lan_interface is None {
                    &&& r matches Ok(v) && v@.len() == 0
                    &&& final(self).state@ == (Shown { enabled: false, ..old(self).state@ })
                } else {
                    &&& final(self).state@ == (Shown {
                        enabled: true,
                        wan_interface: crate::text::text_of(c.wan_interface),
                        lan_interface: crate::text::text_of(c.lan_interface),
                        lan_ip: crate::text::text_of(old(self).lan_ip),
                        wan_mac: mac,
                        cloning_active: c.cloning() && mac is Some,
                        ..old(self).state@
                    })
                    &&& r is Ok <==> missing_role(c) is None
                    &&& r matches Err(e) ==> missing_role(c) == Some(e@)
                    &&& r matches Ok(v) ==> asked(v@) == steps_for(
                        c.wan_interface->0@,
                        c.lan_interface->0@,
                        crate::text::text_of(old(self).lan_ip),
                        mac,
                        c.cloning(),
                        c.lan_subnet@,
                    )
                }
            }),
            final(self).config == old(self).config,
            final(self).lan_ip == old(self).lan_ip,
    {
        if self.config.wan_interface.is_none() && self.config.lan_interface.is_none() {
            self.state.enabled = false;
            return Ok(Vec::new());
        }
        let cloning = self.config.cloning_enabled();
        let mac = match &self.config.wan_mac {
            Some(m) => Some(m.clone()),
            None => match &self.config.lan_interface {
                Some(lan) => {
                    if cloning {
                        learn_lan_peer_mac(table, lan.as_str())
                    } else {
                        None
                    }
                },
                None => None,
            },
        };
        self.state.enabled = true;
        self.state.wan_interface = clone_option(&self.config.wan_interface);
        self.state.lan_interface = clone_option(&self.config.lan_interface);
        self.state.lan_ip = clone_option(&self.lan_ip);
        self.state.cloning_active = cloning && mac.is_some();
        self.state.wan_mac = clone_option(&mac);
        let wan = match &self.config.wan_interface {
            Some(w) => w,
            None => {
                return Err(owned("wan_interface required"));
            },
        };
        let lan = match &self.config.lan_interface {
            Some(l) => l,
            None => {
                return Err(owned("lan_interface required"));
            },
        };
        let mut steps: Vec<GatewayStep> = Vec::new();
        if let Some(address) = &self.lan_ip {
            steps.push(GatewayStep::SetIp { interface: lan.clone(), address: address.clone() });
        }
        if cloning {
            if let Some(m) = &mac {
                steps.push(GatewayStep::SetMac { interface: wan.clone(), mac: m.clone() });
            }
        }
        steps.push(GatewayStep::EnableNat { interface: wan.clone(), subnet: self.config.lan_subnet.clone() });
        steps.push(GatewayStep::EnableForwarding);
        steps.push(GatewayStep::MgmtFirewall { lan: lan.clone(), wan: wan.clone() });
        assert(asked(steps@) =~= steps_for(
            wan@,
            lan@,
            crate::text::text_of(self.lan_ip),
            crate::text::text_of(mac),
            cloning,
            self.config.lan_subnet@,
        ));
        Ok(steps)
    }

    /// Take note of which steps went well. What is active stays so.
    pub fn applied(&mut self, translated: bool, firewall: bool)
        ensures
            final(self).state@ == (Shown {
                nat_active: old(self).state.nat_active || translated,
                firewall_active: old(self).state.firewall_active || firewall,
                ..old(self).state@
            }),
            final(self).config == old(self).config,
            final(self).lan_ip == old(self).lan_ip,
    {
        if translated {
            self.state.nat_active = true;
        }
        if firewall {
            self.state.firewall_active = true;
        }
    }

    /// The state, to be shown.
    pub fn state(&self) -> (r: GatewayState)
        ensures
            r@ == self.state@,
    {
        GatewayState {
            enabled: self.state.enabled,
            wan_interface: clone_option(&self.state.wan_interface),
            lan_interface: clone_option(&self.state.lan_interface),
            lan_ip: clone_option(&self.state.lan_ip),
            wan_mac: clone_option(&self.state.wan_mac),
            cloning_active: self.state.cloning_active,
            nat_active: self.state.nat_active,
            firewall_active: self.state.firewall_active,
            dns_active: self.state.dns_active,
        }
    }
}

/// For two ports addresses are always translated, and the last thing that is
/// asked for is the management firewall.
pub proof fn the_firewall_is_always_asked_for(
    wan: Seq<char>,
    lan: Seq<char>,
    lan_ip: Option<Seq<char>>,
    mac: Option<Seq<char>>,
    cloning: bool,
    subnet: Seq<char>,
)
    ensures
        steps_for(wan, lan, lan_ip, mac, cloning, subnet).contains(Asked::EnableNat { interface: wan, subnet }),
        steps_for(wan, lan, lan_ip, mac, cloning, subnet).last() == (Asked::MgmtFirewall { lan, wan }),
{
    let s = steps_for(wan, lan, lan_ip, mac, cloning, subnet);
    assert(s[s.len() - 3] == (Asked::EnableNat { interface: wan, subnet }));
}

/// What the executor is asked for, in order: the address of the LAN where there
/// is one, the address of the WAN port where it is cloned and known, translation
/// of the LAN's subnet on the WAN, forwarding, and the firewall.
pub proof fn the_gateway_is_built_in_order(
    wan: Seq<char>,
    lan: Seq<char>,
    lan_ip: Option<Seq<char>>,
    mac: Option<Seq<char>>,
    cloning: bool,
    subnet: Seq<char>,
)
    ensures
        ({
            let steps = steps_for(wan, lan, lan_ip, mac, cloning, subnet);
            let n = steps.len();
            let ip: int = if lan_ip is Some { 1 } else { 0 };
            let clone: int = if mac is Some && cloning { 1 } else { 0 };
            &&& n == ip + clone + 3
            &&& lan_ip is Some ==> steps[0] == (Asked::SetIp { interface: lan, address: lan_ip->0 })
            &&& mac is Some && cloning ==> steps[ip] == (Asked::SetMac { interface: wan, mac: mac->0 })
            &&& steps[n - 3] == (Asked::EnableNat { interface: wan, subnet })
            &&& steps[n - 2] == Asked::EnableForwarding
            &&& steps[n - 1] == (Asked::MgmtFirewall { lan, wan })
        }),
{
}

/// The address for the WAN port is the one that is configured; without one it is
/// that of a peer on the LAN, where cloning is not switched off.
pub proof fn which_address_is_cloned(c: NetworkConfig, table: Seq<char>)
    ensures
        c.wan_mac is Some ==> cloned_mac(c, table) == Some(c.wan_mac->0@),
        c.wan_mac is None && c.lan_interface is None ==> cloned_mac(c, table) is None,
        c.wan_mac is None && c.clone_mac == Some(false) ==> cloned_mac(c, table) is None,
        c.wan_mac is None && c.lan_interface is Some && c.clone_mac != Some(false) ==> cloned_mac(c, table)
            == crate::network_config::peer_in(
            crate::network_config::table_lines(table),
            c.lan_interface->0@,
        ),
{
}

/// Both roles are needed, and the WAN is asked for first.
pub proof fn both_roles_are_needed(c: NetworkConfig)
    ensures
        missing_role(c) is None <==> c.wan_interface is Some && c.lan_interface is Some,
        c.wan_interface is None ==> missing_role(c) == Some("wan_interface required"@),
        c.wan_interface is Some && c.lan_interface is None ==> missing_role(c) == Some("lan_interface required"@),
{
}

/// What is shown of the gateway is what is known of it, part by part.
pub proof fn the_gateway_is_shown_as_it_is(s: GatewayState)
    ensures
        s@.enabled == s.enabled,
        s@.cloning_active == s.cloning_active,
        s@.nat_active == s.nat_active,
        s@.firewall_active == s.firewall_active,
        s@.dns_active == s.dns_active,
        s.wan_interface is Some ==> s@.wan_interface == Some(s.wan_interface->0@),
        s.lan_interface is Some ==> s@.lan_interface == Some(s.lan_interface->0@),
        s.lan_ip is Some ==> s@.lan_ip == Some(s.lan_ip->0@),
        s.wan_mac is Some ==> s@.wan_mac == Some(s.wan_mac->0@),
        s.wan_interface is None ==> s@.wan_interface is None,
        s.lan_interface is None ==> s@.lan_interface is None,
        s.lan_ip is None ==> s@.lan_ip is None,
        s.wan_mac is None ==> s@.wan_mac is None,
{
}

/// A step asks for what it says.
pub proof fn steps_ask_for_what_they_say(s: GatewayStep)
    ensures
        s matches GatewayStep::SetIp { interface, address } ==> s@ == (Asked::SetIp {
            interface: interface@,
            address: address@,
        }),
        s matches GatewayStep::SetMac { interface, mac } ==> s@ == (Asked::SetMac {
            interface: interface@,
            mac: mac@,
        }),
        s matches GatewayStep::EnableNat { interface, subnet } ==> s@ == (Asked::EnableNat {
            interface: interface@,
            subnet: subnet@,
        }),
        s matches GatewayStep::MgmtFirewall { lan, wan } ==> s@ == (Asked::MgmtFirewall { lan: lan@, wan: wan@ }),
        s is EnableForwarding <==> s@ is EnableForwarding,
{
}

} // verus!
