//! The Hysteria 2 driver: the configuration it writes, and how it says it is.
use vstd::prelude::*;
use vstd::string::*;

use crate::model::{Capabilities, DriverId, HealthStatus};
use crate::secrets::secret_path;
use crate::text::{chars_of, clone_option, decimal_of, owned, parse_unsigned, split, string_of};

verus! {

/// Configuration of a Hysteria 2 client.
#[derive(Debug)]
pub struct Hysteria2Config {
    /// The server, as host and port with a colon between them.
    pub server: String,
    pub password: String,
    pub obfs: Option<ObfsConfig>,
    pub bandwidth: BandwidthConfig,
    pub up_proxy: Option<String>,
    pub down_proxy: Option<String>,
    pub tls: Option<TlsConfig>,
}

/// How packets are obfuscated.
#[derive(Debug)]
pub struct ObfsConfig {
    pub mode: String,
    pub password: String,
}

/// Bandwidth in Mbps.
#[derive(Debug, Clone, Copy, PartialEq, Eq, Structural)]
pub struct BandwidthConfig {
    pub up_mbps: Option<u32>,
    pub down_mbps: Option<u32>,
}

/// TLS settings.
#[derive(Debug)]
pub struct TlsConfig {
    /// The name that is asked for.
    pub sni: Option<String>,
    /// Whether certificates go unverified.
    pub insecure: bool,
    pub ca_path: Option<String>,
}

/// The same configuration in both, owned separately.
pub open spec fn same_config(a: Hysteria2Config, b: Hysteria2Config) -> bool {
    &&& a.server@ == b.server@
    &&& a.password@ == b.password@
    &&& match (a.obfs, b.obfs) {
        (Some(x), Some(y)) => x.mode@ == y.mode@ && x.password@ == y.password@,
        (None, None) => true,
        _ => false,
    }
    &&& a.bandwidth == b.bandwidth
    &&& a.up_proxy == b.up_proxy
    &&& a.down_proxy == b.down_proxy
    &&& match (a.tls, b.tls) {
        (Some(x), Some(y)) => x.sni == y.sni && x.insecure == y.insecure && x.ca_path == y.ca_path,
        (None, None) => true,
        _ => false,
    }
}

impl Hysteria2Config {
    /// The same configuration, owned separately.
    pub fn duplicate(&self) -> (r: Hysteria2Config)
        ensures
            same_config(r, *self),
    {
        Hysteria2Config {
            server: self.server.clone(),
            password: self.password.clone(),
            obfs: match &self.obfs {
                Some(o) => Some(ObfsConfig { mode: o.mode.clone(), password: o.password.clone() }),
                None => None,
            },
            bandwidth: self.bandwidth,
            up_proxy: clone_option(&self.up_proxy),
            down_proxy: clone_option(&self.down_proxy),
            tls: match &self.tls {
                Some(t) => Some(
                    TlsConfig { sni: clone_option(&t.sni), insecure: t.insecure, ca_path: clone_option(&t.ca_path) },
                ),
                None => None,
            },
        }
    }
}

/// The Hysteria 2 driver.
#[derive(Debug)]
pub struct Hysteria2Driver {
    pub id: DriverId,
    pub config: Hysteria2Config,
    pub running: bool,
    pub health: HealthStatus,
    pub config_path: Option<String>,
}

/// The password that packets are obfuscated with, or nothing.
pub open spec fn obfs_password(c: Hysteria2Config) -> Seq<char> {
    match c.obfs {
        Some(o) => o.password@,
        None => ""@,
    }
}

/// A bandwidth as it is written.
pub open spec fn rate(mbps: Option<u32>) -> Seq<char> {
    match mbps {
        Some(v) => crate::text::decimal(v as nat) + " Mbps"@,
        None => "obfs"@,
    }
}

/// The part of a server's address before its first colon.
pub open spec fn server_host(server: Seq<char>) -> Seq<char> {
    crate::text::split_on(server, ':')[0]
}

/// The port behind the last colon of a server's address; 443 where there is no
/// port to read.
pub open spec fn server_port(server: Seq<char>) -> u16 {
    match crate::text::parsed(crate::text::split_on(server, ':').last(), u16::MAX as nat) {
        Some(p) => p as u16,
        None => 443,
    }
}

pub open spec fn sni_of(c: Hysteria2Config) -> Seq<char> {
    match c.tls {
        Some(t) => match t.sni {
            Some(s) => s@,
            None => ""@,
        },
        None => ""@,
    }
}

pub open spec fn insecure_of(c: Hysteria2Config) -> bool {
    c.tls matches Some(t) && t.insecure
}

pub open spec fn switch(b: bool) -> Seq<char> {
    if b { "true"@ } else { "false"@ }
}

/// The configuration file of a client.
pub open spec fn config_text(c: Hysteria2Config) -> Seq<char> {
    "{\n  \"server\": \""@
        + c.server@ + "\",\n  \"auth\": \""@
        + c.password@ + "\",\n  \"obfs\": {\n    \"type\": \"salamander\",\n    \"password\": \""@
        + obfs_password(c) + "\"\n  },\n  \"bandwidth\": {\n    \"up\": \""@
        + rate(c.bandwidth.up_mbps) + "\",\n    \"down\": \""@
        + rate(c.bandwidth.down_mbps) + "\"\n  },\n  \"outbounds\": [\n    {\n      \"name\": \"proxy\",\n      \"type\": \"hysteria2\",\n      \"server\": \""@
        + server_host(c.server@) + "\",\n      \"server_port\": "@
        + crate::text::decimal(server_port(c.server@) as nat) + ",\n      \"auth\": \""@
        + c.password@ + "\",\n      \"obfs\": {\n        \"type\": \"salamander\",\n        \"password\": \""@
        + obfs_password(c) + "\"\n      },\n      \"tls\": {\n        \"sni\": \""@
        + sni_of(c) + "\",\n        \"insecure\": "@
        + switch(insecure_of(c)) + "\n      }\n    }\n  ],\n  \"inbounds\": [\n    {\n      \"name\": \"socks-in\",\n      \"type\": \"socks\",\n      \"listen\": \"127.0.0.1\",\n      \"listen_port\": 10808\n    },\n    {\n      \"name\": \"http-in\",\n      \"type\": \"http\",\n      \"listen\": \"127.0.0.1\",\n      \"listen_port\": 10809\n    }\n  ],\n  \"route\": {\n    \"rules\": [\n      {\n        \"outbound\": \"proxy\"\n      }\n    ]\n  }\n}"@
}

fn rate_text(mbps: Option<u32>) -> (r: String)
    ensures
        r@ == rate(mbps),
{
    match mbps {
        Some(v) => {
            let mut s = decimal_of(v as u64);
            s.append(" Mbps");
            s
        },
        None => owned("obfs"),
    }
}

/// The name by which the process of a driver is found.
pub open spec fn process_name(number: u32) -> Seq<char> {
    "balansir-hysteria-"@ + crate::text::decimal(number as nat)
}

impl Hysteria2Driver {
    pub fn new(id: DriverId, config: Hysteria2Config) -> (r: Self)
        ensures
            r == (Hysteria2Driver { id, config, running: false, health: HealthStatus::Unknown, config_path: None }),
    {
        Hysteria2Driver { id, config, running: false, health: HealthStatus::Unknown, config_path: None }
    }

    pub fn id(&self) -> (r: DriverId)
        ensures
            r == self.id,
    {
        self.id
    }

    pub fn name(&self) -> (r: &'static str)
        ensures
            r@ == "Hysteria2"@,
    {
        "Hysteria2"
    }

    pub fn capabilities(&self) -> (r: Capabilities)
        ensures
            r == (Capabilities { tunnel: false, proxy: true, packet_processor: false, dns: false }),
    {
        Capabilities { tunnel: false, proxy: true, packet_processor: false, dns: false }
    }

    /// The configuration file of the client.
    pub fn generate_config(&self) -> (r: String)
        ensures
            r@ == config_text(self.config),
    {
        let c = &self.config;
        let parts = split(&chars_of(c.server.as_str()), ':');
        let ghost texts = crate::text::split_on(c.server@, ':');
        assert(crate::text::texts(parts@) == texts);
        assert(texts.len() > 0);
        let host = string_of(&parts[0]);
        assert(parts@[0]@ == texts[0]);
        assert(parts@[parts@.len() - 1]@ == texts.last());
        let number: u64 = match parse_unsigned(&parts[parts.len() - 1], u16::MAX as u64) {
            Some(p) => p,
            None => 443,
        };
        let port = decimal_of(number);
        let secret = match &c.obfs {
            Some(o) => o.password.as_str(),
            None => "",
        };
        let sni = match &c.tls {
            Some(t) => match &t.sni {
                Some(x) => x.as_str(),
                None => "",
            },
            None => "",
        };
        let insecure = match &c.tls {
            Some(t) => t.insecure,
            None => false,
        };
        let up = rate_text(c.bandwidth.up_mbps);
        let down = rate_text(c.bandwidth.down_mbps);
        let mut s = owned("{\n  \"server\": \"");
        s.append(c.server.as_str());
        s.append("\",\n  \"auth\": \"");
        s.append(c.password.as_str());
        s.append("\",\n  \"obfs\": {\n    \"type\": \"salamander\",\n    \"password\": \"");
        s.append(secret);
        s.append("\"\n  },\n  \"bandwidth\": {\n    \"up\": \"");
        s.append(up.as_str());
        s.append("\",\n    \"down\": \"");
        s.append(down.as_str());
        s.append("\"\n  },\n  \"outbounds\": [\n    {\n      \"name\": \"proxy\",\n      \"type\": \"hysteria2\",\n      \"server\": \"");
        s.append(host.as_str());
        s.append("\",\n      \"server_port\": ");
        s.append(port.as_str());
        s.append(",\n      \"auth\": \"");
        s.append(c.password.as_str());
        s.append("\",\n      \"obfs\": {\n        \"type\": \"salamander\",\n        \"password\": \"");
        s.append(secret);
        s.append("\"\n      },\n      \"tls\": {\n        \"sni\": \"");
        s.append(sni);
        s.append("\",\n        \"insecure\": ");
        s.append(if insecure { "true" } else { "false" });
        s.append("\n      }\n    }\n  ],\n  \"inbounds\": [\n    {\n      \"name\": \"socks-in\",\n      \"type\": \"socks\",\n      \"listen\": \"127.0.0.1\",\n      \"listen_port\": 10808\n    },\n    {\n      \"name\": \"http-in\",\n      \"type\": \"http\",\n      \"listen\": \"127.0.0.1\",\n      \"listen_port\": 10809\n    }\n  ],\n  \"route\": {\n    \"rules\": [\n      {\n        \"outbound\": \"proxy\"\n      }\n    ]\n  }\n}");
        s
    }

    /// Where the configuration file goes: among the secrets, for it holds
    /// passwords. `number` is the number of the driver.
    pub fn config_file(&self, number: u32) -> (r: String)
        ensures
            r@ == crate::secrets::path_of(crate::text::decimal(number as nat), "balansir-hysteria"@),
    {
        secret_path(decimal_of(number as u64).as_str(), "balansir-hysteria")
    }

    /// The name by which the process is found.
    pub fn process_pattern(&self, number: u32) -> (r: String)
        ensures
            r@ == process_name(number),
    {
        let mut s = owned("balansir-hysteria-");
        s.append(decimal_of(number as u64).as_str());
        s
    }

    /// Takes notice that the process runs.
    pub fn started(&mut self, config_path: String)
        ensures
            *final(self) == (Hysteria2Driver {
                running: true,
                health: HealthStatus::Healthy,
                config_path: Some(config_path),
                ..*old(self)
            }),
    {
        self.config_path = Some(config_path);
        self.running = true;
        self.health = HealthStatus::Healthy;
    }

    /// Takes notice that the process is gone.
    pub fn stopped(&mut self)
        ensures
            *final(self) == (Hysteria2Driver { running: false, health: HealthStatus::Unknown, ..*old(self) }),
    {
        self.running = false;
        self.health = HealthStatus::Unknown;
    }

    /// How the driver is, given whether its process was found.
    pub fn health_check(&self, process_found: bool) -> (r: HealthStatus)
        ensures
            r == crate::model::process_health(self.running, process_found),
    {
        crate::model::health_of_process(self.running, process_found)
    }
}

/// Two configurations are the same where nothing about them differs.
pub proof fn same_means_the_same_throughout(a: Hysteria2Config, b: Hysteria2Config)
    requires
        same_config(a, b),
    ensures
        a.server@ == b.server@,
        a.password@ == b.password@,
        a.bandwidth.up_mbps == b.bandwidth.up_mbps,
        a.bandwidth.down_mbps == b.bandwidth.down_mbps,
        a.up_proxy == b.up_proxy,
        a.down_proxy == b.down_proxy,
        a.obfs is Some <==> b.obfs is Some,
        a.obfs is Some ==> a.obfs->0.mode@ == b.obfs->0.mode@ && a.obfs->0.password@ == b.obfs->0.password@,
        a.tls is Some <==> b.tls is Some,
        a.tls is Some ==> a.tls->0.sni == b.tls->0.sni && a.tls->0.insecure == b.tls->0.insecure && a.tls->0.ca_path
            == b.tls->0.ca_path,
        config_text(a) == config_text(b),
{
}

/// The host of a server stands before its colon and the port behind it; a server
/// without a port has port 443.
pub proof fn servers_are_host_and_port(host: Seq<char>, port: u16)
    requires
        !host.contains(':'),
    ensures
        server_host(host.push(':') + crate::text::decimal(port as nat)) == host,
        server_port(host.push(':') + crate::text::decimal(port as nat)) == port,
        server_host(host) == host,
        crate::text::parsed(host, 65535) is None ==> server_port(host) == 443,
{
    let p = crate::text::decimal(port as nat);
    crate::text::decimals_are_read_back(port as nat, u16::MAX as nat);
    crate::text::splitting_once(host, p, ':');
    crate::text::no_split(p, ':');
    crate::text::no_split(host, ':');
    let parts = crate::text::split_on(host.push(':') + p, ':');
    assert(parts =~= seq![host, p]);
}

/// What a configuration leaves open: a rate is written in megabits where one is
/// given, a name and a password are empty where there is none, and certificates
/// are checked unless that is switched off.
pub proof fn what_is_left_open(c: Hysteria2Config, mbps: u32)
    ensures
        rate(Some(mbps)) == crate::text::decimal(mbps as nat) + " Mbps"@,
        rate(None) == "obfs"@,
        c.obfs is Some ==> obfs_password(c) == c.obfs->0.password@,
        c.obfs is None ==> obfs_password(c) == ""@,
        c.tls is Some && c.tls->0.sni is Some ==> sni_of(c) == c.tls->0.sni->0@,
        c.tls is None || c.tls->0.sni is None ==> sni_of(c) == ""@,
        insecure_of(c) <==> c.tls is Some && c.tls->0.insecure,
        switch(true) == "true"@,
        switch(false) == "false"@,
{
}

} // verus!
