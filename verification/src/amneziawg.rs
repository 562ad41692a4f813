//! The AmneziaWG driver: the interface it makes, and how it says it is.
use vstd::prelude::*;

use crate::model::{Capabilities, DriverError, DriverId, HealthStatus};
use crate::text::{chars_of, clone_option, clone_strings, contains, owned};

verus! {

/// Configuration of an AmneziaWG interface.
#[derive(Debug)]
pub struct AmneziaWGConfig {
    pub interface: String,
    pub private_key: Option<String>,
    pub listen_port: Option<u16>,
    pub address: Option<String>,
    pub peers: Vec<AmneziaWGPeer>,
    pub obfuscation: ObfuscationConfig,
}

/// A peer of the interface.
#[derive(Debug)]
pub struct AmneziaWGPeer {
    pub public_key: String,
    pub endpoint: Option<String>,
    pub allowed_ips: Vec<String>,
    pub persistent_keepalive: Option<u16>,
}

/// How packets are obfuscated.
#[derive(Debug, Clone, Copy, PartialEq, Eq, Structural)]
pub struct ObfuscationConfig {
    /// How many junk packets there are.
    pub jc: u32,
    /// The least size of a junk packet.
    pub jmin: u32,
    /// The largest size of a junk packet.
    pub jmax: u32,
    /// The size of the junk in an init packet.
    pub s1: u32,
    /// The size of the junk in a response packet.
    pub s2: u32,
    /// The header of an init packet.
    pub h1: u32,
    /// The header of a response packet.
    pub h2: u32,
    /// The header of a transport packet.
    pub h3: u32,
}

impl Default for ObfuscationConfig {
    fn default() -> (r: ObfuscationConfig)
        ensures
            r == (ObfuscationConfig { jc: 3, jmin: 10, jmax: 50, s1: 15, s2: 15, h1: 3847294, h2: 8374592, h3: 2847592 }),
    {
        ObfuscationConfig { jc: 3, jmin: 10, jmax: 50, s1: 15, s2: 15, h1: 3847294, h2: 8374592, h3: 2847592 }
    }
}

/// Whether two peers are configured alike.
pub open spec fn same_peer(a: AmneziaWGPeer, b: AmneziaWGPeer) -> bool {
    &&& a.public_key@ == b.public_key@
    &&& a.endpoint == b.endpoint
    &&& crate::text::strings(a.allowed_ips@) == crate::text::strings(b.allowed_ips@)
    &&& a.persistent_keepalive == b.persistent_keepalive
}

/// Whether two interfaces are configured alike.
pub open spec fn same_config(a: AmneziaWGConfig, b: AmneziaWGConfig) -> bool {
    &&& a.interface@ == b.interface@
    &&& a.private_key == b.private_key
    &&& a.listen_port == b.listen_port
    &&& a.address == b.address
    &&& a.peers@.len() == b.peers@.len()
    &&& forall|i: int| 0 <= i < a.peers@.len() ==> same_peer(#[trigger] a.peers@[i], b.peers@[i])
    &&& a.obfuscation == b.obfuscation
}

impl AmneziaWGConfig {
    /// The same configuration, owned separately.
    pub fn duplicate(&self) -> (r: AmneziaWGConfig)
        ensures
            same_config(r, *self),
    {
        let mut peers: Vec<AmneziaWGPeer> = Vec::new();
        let mut i: usize = 0;
        while i < self.peers.len()
            invariant
                i <= self.peers@.len(),
                peers@.len() == i,
                forall|k: int| 0 <= k < i ==> same_peer(#[trigger] peers@[k], self.peers@[k]),
            decreases self.peers.len() - i,
        {
            let p = &self.peers[i];
            peers.push(
                AmneziaWGPeer {
                    public_key: p.public_key.clone(),
                    endpoint: clone_option(&p.endpoint),
                    allowed_ips: clone_strings(&p.allowed_ips),
                    persistent_keepalive: p.persistent_keepalive,
                },
            );
            i += 1;
        }
        AmneziaWGConfig {
            interface: self.interface.clone(),
            private_key: clone_option(&self.private_key),
            listen_port: self.listen_port,
            address: clone_option(&self.address),
            peers,
            obfuscation: self.obfuscation,
        }
    }
}

/// The AmneziaWG driver.
#[derive(Debug)]
pub struct AmneziaWGDriver {
    pub id: DriverId,
    pub config: AmneziaWGConfig,
    pub running: bool,
    pub health: HealthStatus,
}

/// The commands that bring the interface up.
pub open spec fn up_commands(interface: Seq<char>, address: Option<Seq<char>>) -> Seq<Seq<Seq<char>>> {
    let create = seq!["link"@, "add"@, interface, "type"@, "wireguard"@];
    let up = seq!["link"@, "set"@, interface, "up"@];
    match address {
        Some(a) => seq![create, seq!["addr"@, "add"@, a, "dev"@, interface], up],
        None => seq![create, up],
    }
}

/// The arguments of commands, as texts.
pub open spec fn command_texts(v: Seq<Vec<String>>) -> Seq<Seq<Seq<char>>> {
    Seq::new(v.len(), |i: int| crate::text::strings(v[i]@))
}

fn four(a: &str, b: &str, c: &str, d: &str) -> (r: Vec<String>)
    ensures
        crate::text::strings(r@) == seq![a@, b@, c@, d@],
{
    let mut v: Vec<String> = Vec::new();
    v.push(owned(a));
    v.push(owned(b));
    v.push(owned(c));
    v.push(owned(d));
    assert(crate::text::strings(v@) =~= seq![a@, b@, c@, d@]);
    v
}

fn five(a: &str, b: &str, c: &str, d: &str, e: &str) -> (r: Vec<String>)
    ensures
        crate::text::strings(r@) == seq![a@, b@, c@, d@, e@],
{
    let mut v = four(a, b, c, d);
    let ghost before = v@;
    v.push(owned(e));
    assert(crate::text::strings(v@) =~= crate::text::strings(before).push(e@));
    assert(crate::text::strings(v@) =~= seq![a@, b@, c@, d@, e@]);
    v
}

/// Whether the kernel module is loaded, by the list of modules.
pub fn module_loaded(modules: &str) -> (r: Result<(), DriverError>)
    ensures
        r is Ok <==> crate::text::occurs_in("amneziawg"@, modules@),
        r matches Err(e) ==> (e matches DriverError::StartFailed(m) && m@ == "AmneziaWG kernel module not loaded"@),
{
    if contains(&chars_of(modules), &chars_of("amneziawg")) {
        Ok(())
    } else {
        Err(DriverError::StartFailed(owned("AmneziaWG kernel module not loaded")))
    }
}

/// What a command that ran says: nothing where it succeeded, else what it wrote
/// to its error stream.
pub fn command_result(success: bool, stderr: &str) -> (r: Result<(), DriverError>)
    ensures
        r is Ok <==> success,
        r matches Err(e) ==> (e matches DriverError::InterfaceError(m) && m@ == stderr@),
{
    if success {
        Ok(())
    } else {
        Err(DriverError::InterfaceError(owned(stderr)))
    }
}

impl AmneziaWGDriver {
    pub fn new(id: DriverId, config: AmneziaWGConfig) -> (r: Self)
        ensures
            r == (AmneziaWGDriver { id, config, running: false, health: HealthStatus::Unknown }),
    {
        AmneziaWGDriver { id, config, running: false, health: HealthStatus::Unknown }
    }

    pub fn id(&self) -> (r: DriverId)
        ensures
            r == self.id,
    {
        self.id
    }

    pub fn name(&self) -> (r: &'static str)
        ensures
            r@ == "AmneziaWG"@,
    {
        "AmneziaWG"
    }

    pub fn capabilities(&self) -> (r: Capabilities)
        ensures
            r == (Capabilities { tunnel: true, proxy: false, packet_processor: false, dns: false }),
    {
        Capabilities { tunnel: true, proxy: false, packet_processor: false, dns: false }
    }

    /// The commands that bring the interface up, in order. The first that fails
    /// ends the start.
    pub fn start_commands(&self) -> (r: Vec<Vec<String>>)
        ensures
            command_texts(r@) == up_commands(self.config.interface@, crate::text::text_of(self.config.address)),
    {
        let name = self.config.interface.as_str();
        let mut out: Vec<Vec<String>> = Vec::new();
        out.push(five("link", "add", name, "type", "wireguard"));
        if let Some(a) = &self.config.address {
            out.push(five("addr", "add", a.as_str(), "dev", name));
        }
        out.push(four("link", "set", name, "up"));
        assert(command_texts(out@) =~= up_commands(
            self.config.interface@,
            crate::text::text_of(self.config.address),
        ));
        out
    }

    /// The command that takes the interface away. Whether it succeeds is not
    /// looked at.
    pub fn stop_command(&self) -> (r: Vec<String>)
        ensures
            crate::text::strings(r@) == seq!["link"@, "del"@, self.config.interface@],
    {
        let mut v: Vec<String> = Vec::new();
        v.push(owned("link"));
        v.push(owned("del"));
        v.push(self.config.interface.clone());
        assert(crate::text::strings(v@) =~= seq!["link"@, "del"@, self.config.interface@]);
        v
    }

    /// Takes notice that the interface is up.
    pub fn started(&mut self)
        ensures
            *final(self) == (AmneziaWGDriver { running: true, health: HealthStatus::Healthy, ..*old(self) }),
    {
        self.running = true;
        self.health = HealthStatus::Healthy;
    }

    /// Takes notice that the interface is gone.
    pub fn stopped(&mut self)
        ensures
            *final(self) == (AmneziaWGDriver { running: false, health: HealthStatus::Unknown, ..*old(self) }),
    {
        self.running = false;
        self.health = HealthStatus::Unknown;
    }

    /// How the driver is, given whether the interface exists.
    pub fn health_check(&self, interface_exists: bool) -> (r: HealthStatus)
        ensures
            r == crate::model::process_health(self.running, interface_exists),
    {
        crate::model::health_of_process(self.running, interface_exists)
    }
}

/// Two configurations are the same where nothing about them differs.
pub proof fn same_means_the_same_throughout(a: AmneziaWGConfig, b: AmneziaWGConfig, i: int)
    requires
        same_config(a, b),
    ensures
        a.interface@ == b.interface@,
        a.private_key == b.private_key,
        a.listen_port == b.listen_port,
        a.address == b.address,
        a.obfuscation == b.obfuscation,
        a.peers@.len() == b.peers@.len(),
        0 <= i < a.peers@.len() ==> a.peers@[i].public_key@ == b.peers@[i].public_key@ && a.peers@[i].endpoint
            == b.peers@[i].endpoint && a.peers@[i].persistent_keepalive == b.peers@[i].persistent_keepalive
            && crate::text::strings(a.peers@[i].allowed_ips@) == crate::text::strings(b.peers@[i].allowed_ips@),
{
    if 0 <= i < a.peers@.len() {
        assert(same_peer(a.peers@[i], b.peers@[i]));
    }
}

/// An interface is made, gets its address where it has one, and is brought up
/// last; every command is about that interface.
pub proof fn interfaces_are_brought_up_last(interface: Seq<char>, address: Option<Seq<char>>)
    ensures
        ({
            let c = up_commands(interface, address);
            let n = c.len();
            &&& n == if address is Some { 3nat } else { 2nat }
            &&& c[0] == seq!["link"@, "add"@, interface, "type"@, "wireguard"@]
            &&& c[n - 1] == seq!["link"@, "set"@, interface, "up"@]
            &&& address is Some ==> c[1] == seq!["addr"@, "add"@, address->0, "dev"@, interface]
        }),
{
}

} // verus!
