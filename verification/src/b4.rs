//! The B4 driver: the configuration it writes, and how it says it is.
use vstd::prelude::*;
use vstd::string::*;

use crate::model::{Capabilities, DriverId, HealthStatus};
use crate::text::{clone_option, decimal_of, join, owned};

verus! {

/// Configuration of the B4 process.
#[derive(Debug)]
pub struct B4Config {
    pub mode: B4Mode,
    /// The ports that are intercepted.
    pub ports: Vec<u16>,
    pub strategies: Vec<B4Strategy>,
    /// The proxy behind B4, if any.
    pub upstream: Option<String>,
}

/// How B4 takes part in a flow.
#[derive(Debug, Clone, Copy, PartialEq, Eq, Structural)]
pub enum B4Mode {
    /// Flows are redirected to it.
    Transparent,
    /// Clients name it as their proxy.
    Proxy,
}

/// What B4 does with the packets of a flow.
#[derive(Debug)]
pub enum B4Strategy {
    Fragmentation { strategy: String },
    TtlDisorientation,
    FakePacket { seq_offset: u32 },
    HostReplace { from: String, to: String },
}

/// Whether two strategies are alike.
pub open spec fn same_strategy(a: B4Strategy, b: B4Strategy) -> bool {
    match (a, b) {
        (B4Strategy::Fragmentation { strategy: x }, B4Strategy::Fragmentation { strategy: y }) => x@ == y@,
        (B4Strategy::TtlDisorientation, B4Strategy::TtlDisorientation) => true,
        (B4Strategy::FakePacket { seq_offset: x }, B4Strategy::FakePacket { seq_offset: y }) => x == y,
        (B4Strategy::HostReplace { from: f, to: t }, B4Strategy::HostReplace { from: g, to: u }) => f@ == g@ && t@
            == u@,
        _ => false,
    }
}

/// Whether two configurations are alike.
pub open spec fn same_config(a: B4Config, b: B4Config) -> bool {
    &&& a.mode == b.mode
    &&& a.ports@ == b.ports@
    &&& a.strategies@.len() == b.strategies@.len()
    &&& forall|i: int| 0 <= i < a.strategies@.len() ==> same_strategy(#[trigger] a.strategies@[i], b.strategies@[i])
    &&& a.upstream == b.upstream
}

impl B4Strategy {
    /// The same strategy, owned separately.
    pub fn duplicate(&self) -> (r: B4Strategy)
        ensures
            same_strategy(r, *self),
    {
        match self {
            B4Strategy::Fragmentation { strategy } => B4Strategy::Fragmentation { strategy: strategy.clone() },
            B4Strategy::TtlDisorientation => B4Strategy::TtlDisorientation,
            B4Strategy::FakePacket { seq_offset } => B4Strategy::FakePacket { seq_offset: *seq_offset },
            B4Strategy::HostReplace { from, to } => B4Strategy::HostReplace { from: from.clone(), to: to.clone() },
        }
    }
}

impl B4Config {
    /// The same configuration, owned separately.
    pub fn duplicate(&self) -> (r: B4Config)
        ensures
            same_config(r, *self),
    {
        let mut ports: Vec<u16> = Vec::new();
        let mut i: usize = 0;
        while i < self.ports.len()
            invariant
                i <= self.ports@.len(),
                ports@ == self.ports@.take(i as int),
            decreases self.ports.len() - i,
        {
            ports.push(self.ports[i]);
            i += 1;
            assert(ports@ =~= self.ports@.take(i as int));
        }
        assert(ports@ =~= self.ports@);
        let mut strategies: Vec<B4Strategy> = Vec::new();
        let mut j: usize = 0;
        while j < self.strategies.len()
            invariant
                j <= self.strategies@.len(),
                strategies@.len() == j,
                forall|k: int| 0 <= k < j ==> same_strategy(#[trigger] strategies@[k], self.strategies@[k]),
            decreases self.strategies.len() - j,
        {
            strategies.push(self.strategies[j].duplicate());
            j += 1;
        }
        B4Config { mode: self.mode, ports, strategies, upstream: clone_option(&self.upstream) }
    }
}

/// A strategy as it is written.
pub open spec fn strategy_text(s: B4Strategy) -> Seq<char> {
    match s {
        B4Strategy::Fragmentation { strategy } => "{\"type\": \"fragmentation\", \"strategy\": \""@ + strategy@
            + "\"}"@,
        B4Strategy::TtlDisorientation => "{{\"type\": \"ttl_disorientation\"}}"@,
        B4Strategy::FakePacket { seq_offset } => "{\"type\": \"fake_packet\", \"seq_offset\": "@
            + crate::text::decimal(seq_offset as nat) + "}"@,
        B4Strategy::HostReplace { from, to } => "{\"type\": \"host_replace\", \"from\": \""@ + from@
            + "\", \"to\": \""@ + to@ + "\"}"@,
    }
}

pub open spec fn strategy_texts(v: Seq<B4Strategy>) -> Seq<Seq<char>> {
    Seq::new(v.len(), |i: int| strategy_text(v[i]))
}

pub open spec fn port_texts(v: Seq<u16>) -> Seq<Seq<char>> {
    Seq::new(v.len(), |i: int| crate::text::decimal(v[i] as nat))
}

pub open spec fn mode_text(m: B4Mode) -> Seq<char> {
    match m {
        B4Mode::Transparent => "transparent"@,
        B4Mode::Proxy => "proxy"@,
    }
}

/// The configuration file of the process.
pub open spec fn config_text(c: B4Config) -> Seq<char> {
    "{\n  \"mode\": \""@ + mode_text(c.mode) + "\",\n  \"ports\": ["@ + crate::text::joined(port_texts(c.ports@), ", "@)
        + "],\n  \"strategies\": ["@ + crate::text::joined(strategy_texts(c.strategies@), ", "@)
        + "],\n  \"upstream\": \""@ + (match c.upstream {
        Some(u) => u@,
        None => ""@,
    }) + "\"\n}"@
}

impl B4Strategy {
    fn to_text(&self) -> (r: String)
        ensures
            r@ == strategy_text(*self),
    {
        match self {
            B4Strategy::Fragmentation { strategy } => {
                let mut s = owned("{\"type\": \"fragmentation\", \"strategy\": \"");
                s.append(strategy.as_str());
                s.append("\"}");
                s
            },
            B4Strategy::TtlDisorientation => owned("{{\"type\": \"ttl_disorientation\"}}"),
            B4Strategy::FakePacket { seq_offset } => {
                let mut s = owned("{\"type\": \"fake_packet\", \"seq_offset\": ");
                s.append(decimal_of(*seq_offset as u64).as_str());
                s.append("}");
                s
            },
            B4Strategy::HostReplace { from, to } => {
                let mut s = owned("{\"type\": \"host_replace\", \"from\": \"");
                s.append(from.as_str());
                s.append("\", \"to\": \"");
                s.append(to.as_str());
                s.append("\"}");
                s
            },
        }
    }
}

/// The B4 driver.
#[derive(Debug)]
pub struct B4Driver {
    pub id: DriverId,
    pub config: B4Config,
    pub running: bool,
    pub health: HealthStatus,
}

/// The name by which the process of a driver is found.
pub open spec fn process_name(number: u32) -> Seq<char> {
    "balansir-b4-"@ + crate::text::decimal(number as nat)
}

impl B4Driver {
    pub fn new(id: DriverId, config: B4Config) -> (r: Self)
        ensures
            r == (B4Driver { id, config, running: false, health: HealthStatus::Unknown }),
    {
        B4Driver { id, config, running: false, health: HealthStatus::Unknown }
    }

    pub fn id(&self) -> (r: DriverId)
        ensures
            r == self.id,
    {
        self.id
    }

    pub fn name(&self) -> (r: &'static str)
        ensures
            r@ == "B4"@,
    {
        "B4"
    }

    pub fn capabilities(&self) -> (r: Capabilities)
        ensures
            r == (Capabilities { tunnel: false, proxy: false, packet_processor: true, dns: false }),
    {
        Capabilities { tunnel: false, proxy: false, packet_processor: true, dns: false }
    }

    /// The configuration file of the process.
    pub fn generate_config(&self) -> (r: String)
        ensures
            r@ == config_text(self.config),
    {
        let c = &self.config;
        let mut ports: Vec<String> = Vec::new();
        let mut i: usize = 0;
        while i < c.ports.len()
            invariant
                i <= c.ports@.len(),
                crate::text::strings(ports@) == port_texts(c.ports@).take(i as int),
            decreases c.ports.len() - i,
        {
            let ghost before = ports@;
            ports.push(decimal_of(c.ports[i] as u64));
            i += 1;
            assert(crate::text::strings(ports@) =~= crate::text::strings(before).push(
                port_texts(c.ports@)[i as int - 1],
            ));
            assert(port_texts(c.ports@).take(i as int) =~= port_texts(c.ports@).take(i as int - 1).push(
                port_texts(c.ports@)[i as int - 1],
            ));
        }
        assert(port_texts(c.ports@).take(i as int) =~= port_texts(c.ports@));
        let mut strategies: Vec<String> = Vec::new();
        let mut j: usize = 0;
        while j < c.strategies.len()
            invariant
                j <= c.strategies@.len(),
                crate::text::strings(strategies@) == strategy_texts(c.strategies@).take(j as int),
            decreases c.strategies.len() - j,
        {
            let ghost before = strategies@;
            strategies.push(c.strategies[j].to_text());
            j += 1;
            assert(crate::text::strings(strategies@) =~= crate::text::strings(before).push(
                strategy_texts(c.strategies@)[j as int - 1],
            ));
            assert(strategy_texts(c.strategies@).take(j as int) =~= strategy_texts(c.strategies@).take(
                j as int - 1,
            ).push(strategy_texts(c.strategies@)[j as int - 1]));
        }
        assert(strategy_texts(c.strategies@).take(j as int) =~= strategy_texts(c.strategies@));
        let mut s = owned("{\n  \"mode\": \"");
        s.append(
            match c.mode {
                B4Mode::Transparent => "transparent",
                B4Mode::Proxy => "proxy",
            },
        );
        s.append("\",\n  \"ports\": [");
        s.append(join(&ports, ", ").as_str());
        s.append("],\n  \"strategies\": [");
        s.append(join(&strategies, ", ").as_str());
        s.append("],\n  \"upstream\": \"");
        s.append(
            match &c.upstream {
                Some(u) => u.as_str(),
                None => "",
            },
        );
        s.append("\"\n}");
        s
    }

    /// Where the configuration file goes. `number` is the number of the driver.
    pub fn config_file(&self, number: u32) -> (r: String)
        ensures
            r@ == "/tmp/"@ + process_name(number) + ".json"@,
    {
        let mut s = owned("/tmp/");
        s.append(self.process_pattern(number).as_str());
        s.append(".json");
        s
    }

    /// The name by which the process is found.
    pub fn process_pattern(&self, number: u32) -> (r: String)
        ensures
            r@ == process_name(number),
    {
        let mut s = owned("balansir-b4-");
        s.append(decimal_of(number as u64).as_str());
        s
    }

    /// Takes notice that the process runs.
    pub fn started(&mut self)
        ensures
            *final(self) == (B4Driver { running: true, health: HealthStatus::Healthy, ..*old(self) }),
    {
        self.running = true;
        self.health = HealthStatus::Healthy;
    }

    /// Takes notice that the process is gone.
    pub fn stopped(&mut self)
        ensures
            *final(self) == (B4Driver { running: false, health: HealthStatus::Unknown, ..*old(self) }),
    {
        self.running = false;
        self.health = HealthStatus::Unknown;
    }

    /// How the driver is, given whether its process was found.
    pub fn health_check(&self, process_found: bool) -> (r: HealthStatus)
        ensures
            r == crate::model::process_health(self.running, process_found),
    {
        crate::model::health_of_process(self.running, process_found)
    }
}

/// Two configurations are the same where nothing about them differs.
pub proof fn same_means_the_same_throughout(a: B4Config, b: B4Config, i: int)
    requires
        same_config(a, b),
    ensures
        a.mode == b.mode,
        a.ports@ == b.ports@,
        a.upstream == b.upstream,
        a.strategies@.len() == b.strategies@.len(),
        0 <= i < a.strategies@.len() ==> strategy_text(a.strategies@[i]) == strategy_text(b.strategies@[i]),
        config_text(a) == config_text(b),
{
    assert forall|k: int| 0 <= k < a.strategies@.len() implies strategy_text(#[trigger] a.strategies@[k])
        == strategy_text(b.strategies@[k]) by {
        assert(same_strategy(a.strategies@[k], b.strategies@[k]));
    }
    assert(strategy_texts(a.strategies@) =~= strategy_texts(b.strategies@));
}

/// A strategy is written with its kind and what it needs.
pub proof fn strategies_are_written_with_what_they_need(s: B4Strategy)
    ensures
        s matches B4Strategy::Fragmentation { strategy } ==> strategy_text(s)
            == "{\"type\": \"fragmentation\", \"strategy\": \""@ + strategy@ + "\"}"@,
        s matches B4Strategy::FakePacket { seq_offset } ==> strategy_text(s)
            == "{\"type\": \"fake_packet\", \"seq_offset\": "@ + crate::text::decimal(seq_offset as nat) + "}"@,
        s matches B4Strategy::HostReplace { from, to } ==> strategy_text(s)
            == "{\"type\": \"host_replace\", \"from\": \""@ + from@ + "\", \"to\": \""@ + to@ + "\"}"@,
        s is TtlDisorientation ==> strategy_text(s) == "{{\"type\": \"ttl_disorientation\"}}"@,
{
}

/// A configuration is written with its mode, its ports and strategies in order,
/// and its upstream, which is empty where there is none.
pub proof fn configurations_are_written_in_order(c: B4Config, i: int)
    ensures
        port_texts(c.ports@).len() == c.ports@.len(),
        0 <= i < c.ports@.len() ==> port_texts(c.ports@)[i] == crate::text::decimal(c.ports@[i] as nat),
        strategy_texts(c.strategies@).len() == c.strategies@.len(),
        0 <= i < c.strategies@.len() ==> strategy_texts(c.strategies@)[i] == strategy_text(c.strategies@[i]),
        mode_text(B4Mode::Transparent) == "transparent"@,
        mode_text(B4Mode::Proxy) == "proxy"@,
        c.upstream is Some ==> config_text(c) == "{\n  \"mode\": \""@ + mode_text(c.mode) + "\",\n  \"ports\": ["@
            + crate::text::joined(port_texts(c.ports@), ", "@) + "],\n  \"strategies\": ["@ + crate::text::joined(
            strategy_texts(c.strategies@),
            ", "@,
        ) + "],\n  \"upstream\": \""@ + c.upstream->0@ + "\"\n}"@,
{
}

} // verus!
