//! From configurations to drivers.
use vstd::prelude::*;
use vstd::string::*;

use crate::amneziawg::AmneziaWGDriver;
use crate::b4::B4Driver;
use crate::dns::DnsForwarderDriver;
use crate::driver::config::{DriverConfig, DriverConfigRegistry};
use crate::hysteria::Hysteria2Driver;
use crate::model::{Capabilities, DriverError, DriverId, HealthStatus};
use crate::text::owned;

verus! {

/// A driver that was made from its configuration and is not started yet.
pub enum ConfiguredDriver {
    AmneziaWG(AmneziaWGDriver),
    Hysteria(Hysteria2Driver),
    B4(B4Driver),
    Dns(DnsForwarderDriver),
}

/// Whether a driver is the one that a configuration asks for, not started yet
/// and with nothing known of its health.
pub open spec fn made_from(d: ConfiguredDriver, id: DriverId, config: DriverConfig) -> bool {
    match (d, config) {
        (ConfiguredDriver::AmneziaWG(d), DriverConfig::AmneziaWG(c)) => {
            &&& d.id == id
            &&& !d.running
            &&& d.health == HealthStatus::Unknown
            &&& crate::amneziawg::same_config(d.config, c)
        },
        (ConfiguredDriver::Hysteria(d), DriverConfig::Hysteria(c)) => {
            &&& d.id == id
            &&& !d.running
            &&& d.health == HealthStatus::Unknown
            &&& d.config_path is None
            &&& crate::hysteria::same_config(d.config, c)
        },
        (ConfiguredDriver::B4(d), DriverConfig::B4(c)) => {
            &&& d.id == id
            &&& !d.running
            &&& d.health == HealthStatus::Unknown
            &&& crate::b4::same_config(d.config, c)
        },
        (ConfiguredDriver::Dns(d), DriverConfig::Dns(c)) => {
            &&& d.id == id
            &&& !d.running
            &&& d.health == HealthStatus::Unknown
            &&& crate::dns::same_config(d.config, c)
        },
        _ => false,
    }
}

impl ConfiguredDriver {
    pub open spec fn driver_id(self) -> DriverId {
        match self {
            ConfiguredDriver::AmneziaWG(d) => d.id,
            ConfiguredDriver::Hysteria(d) => d.id,
            ConfiguredDriver::B4(d) => d.id,
            ConfiguredDriver::Dns(d) => d.id,
        }
    }

    pub fn id(&self) -> (r: DriverId)
        ensures
            r == self.driver_id(),
    {
        match self {
            ConfiguredDriver::AmneziaWG(d) => d.id(),
            ConfiguredDriver::Hysteria(d) => d.id(),
            ConfiguredDriver::B4(d) => d.id(),
            ConfiguredDriver::Dns(d) => d.id(),
        }
    }

    pub fn name(&self) -> (r: &'static str)
        ensures
            r@ == match *self {
                ConfiguredDriver::AmneziaWG(_) => "AmneziaWG"@,
                ConfiguredDriver::Hysteria(_) => "Hysteria2"@,
                ConfiguredDriver::B4(_) => "B4"@,
                ConfiguredDriver::Dns(_) => "DNS Forwarder"@,
            },
    {
        match self {
            ConfiguredDriver::AmneziaWG(d) => d.name(),
            ConfiguredDriver::Hysteria(d) => d.name(),
            ConfiguredDriver::B4(d) => d.name(),
            ConfiguredDriver::Dns(d) => d.name(),
        }
    }

    pub fn capabilities(&self) -> (r: Capabilities)
        ensures
            r == (Capabilities {
                tunnel: self is AmneziaWG,
                proxy: self is Hysteria,
                packet_processor: self is B4,
                dns: self is Dns,
            }),
    {
        match self {
            ConfiguredDriver::AmneziaWG(d) => d.capabilities(),
            ConfiguredDriver::Hysteria(d) => d.capabilities(),
            ConfiguredDriver::B4(d) => d.capabilities(),
            ConfiguredDriver::Dns(d) => d.capabilities(),
        }
    }
}

/// Makes drivers from their configurations.
pub struct ConfiguredFactory {
    registry: DriverConfigRegistry,
}

impl ConfiguredFactory {
    /// The configurations.
    pub closed spec fn configs(&self) -> Map<DriverId, DriverConfig> {
        self.registry@
    }

    pub fn new(registry: DriverConfigRegistry) -> (r: Self)
        ensures
            r.configs() == registry@,
    {
        ConfiguredFactory { registry }
    }

    /// A factory without any configuration.
    pub fn empty() -> (r: Self)
        ensures
            r.configs() == Map::<DriverId, DriverConfig>::empty(),
    {
        ConfiguredFactory { registry: DriverConfigRegistry::new() }
    }

    fn build_driver(&self, id: DriverId, config: &DriverConfig) -> (r: ConfiguredDriver)
        ensures
            made_from(r, id, *config),
    {
        match config {
            DriverConfig::AmneziaWG(c) => ConfiguredDriver::AmneziaWG(AmneziaWGDriver::new(id, c.duplicate())),
            DriverConfig::Hysteria(c) => ConfiguredDriver::Hysteria(Hysteria2Driver::new(id, c.duplicate())),
            DriverConfig::B4(c) => ConfiguredDriver::B4(B4Driver::new(id, c.duplicate())),
            DriverConfig::Dns(c) => ConfiguredDriver::Dns(DnsForwarderDriver::new(id, c.duplicate())),
        }
    }

    /// The driver that its configuration asks for. A driver without a
    /// configuration is an error.
    pub fn build(&self, id: DriverId) -> (r: Result<ConfiguredDriver, DriverError>)
        ensures
            r is Ok <==> self.configs().contains_key(id),
            r matches Ok(d) ==> made_from(d, id, self.configs()[id]),
            r matches Err(e) ==> (e matches DriverError::ConfigInvalid(m) && m@ == "no config for driver "@
                + crate::model::driver_label(id)),
    {
        match self.registry.get(id) {
            Some(config) => Ok(self.build_driver(id, config)),
            None => {
                let mut s = owned("no config for driver ");
                s.append(id.label().as_str());
                Err(DriverError::ConfigInvalid(s))
            },
        }
    }
}

/// A driver is made from the configuration of its kind, with its own id, at
/// rest, and nothing known of its health.
pub proof fn drivers_are_made_at_rest(d: ConfiguredDriver, id: DriverId, config: DriverConfig)
    requires
        made_from(d, id, config),
    ensures
        d.driver_id() == id,
        d is AmneziaWG <==> config is AmneziaWG,
        d is Hysteria <==> config is Hysteria,
        d is B4 <==> config is B4,
        d is Dns <==> config is Dns,
        d matches ConfiguredDriver::AmneziaWG(x) ==> !x.running && x.health == HealthStatus::Unknown,
        d matches ConfiguredDriver::Hysteria(x) ==> !x.running && x.health == HealthStatus::Unknown && x.config_path
            is None,
        d matches ConfiguredDriver::B4(x) ==> !x.running && x.health == HealthStatus::Unknown,
        d matches ConfiguredDriver::Dns(x) ==> !x.running && x.health == HealthStatus::Unknown,
{
}

} // verus!
