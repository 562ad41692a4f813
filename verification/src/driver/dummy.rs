//! A driver without any mechanism behind it.
use vstd::prelude::*;

use crate::model::{Capabilities, HealthStatus};
use crate::text::owned;

verus! {

/// A driver without any mechanism behind it.
#[derive(Debug)]
pub struct DummyDriver {
    pub id: String,
    pub name: String,
    pub healthy: bool,
}

impl DummyDriver {
    pub fn new(id: &str, name: &str) -> (r: Self)
        ensures
            r.id@ == id@,
            r.name@ == name@,
            r.healthy,
    {
        DummyDriver { id: owned(id), name: owned(name), healthy: true }
    }

    pub fn id(&self) -> (r: &str)
        ensures
            r@ == self.id@,
    {
        self.id.as_str()
    }

    pub fn name(&self) -> (r: &str)
        ensures
            r@ == self.name@,
    {
        self.name.as_str()
    }

    pub fn capabilities(&self) -> (r: Capabilities)
        ensures
            r == (Capabilities { tunnel: true, proxy: true, packet_processor: false, dns: false }),
    {
        Capabilities { tunnel: true, proxy: true, packet_processor: false, dns: false }
    }

    pub fn start(&mut self)
        ensures
            *final(self) == (DummyDriver { healthy: true, ..*old(self) }),
    {
        self.healthy = true;
    }

    pub fn stop(&mut self)
        ensures
            *final(self) == (DummyDriver { healthy: false, ..*old(self) }),
    {
        self.healthy = false;
    }

    pub fn restart(&mut self)
        ensures
            *final(self) == (DummyDriver { healthy: true, ..*old(self) }),
    {
        self.stop();
        self.start();
    }

    pub fn health_check(&self) -> (r: HealthStatus)
        ensures
            r == if self.healthy { HealthStatus::Healthy } else { (HealthStatus::Unhealthy { reason: 1 }) },
    {
        if self.healthy {
            HealthStatus::Healthy
        } else {
            HealthStatus::Unhealthy { reason: 1 }
        }
    }
}

} // verus!
