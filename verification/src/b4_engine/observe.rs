//! What the host stack shows of a flow.
use vstd::prelude::*;

verus! {

/// Signals of the host stack for a flow. What is absent is not known.
#[derive(Debug, Clone, Copy, PartialEq, Eq, Structural)]
pub struct B4Observation {
    /// How long connecting took, in microseconds.
    pub connect_latency_us: Option<u64>,
    /// The round-trip time in microseconds.
    pub rtt_us: Option<u64>,
    /// The variance of the round-trip time in microseconds.
    pub rtt_var_us: Option<u64>,
    pub retransmissions: Option<u32>,
    /// Throughput in bytes per second.
    pub throughput_bps: Option<u64>,
    /// Whether the domain of the flow resolved.
    pub dns_ok: Option<bool>,
    /// Whether a reset or a timeout was seen.
    pub reset_or_timeout: Option<bool>,
    /// Whether packets were too large for the path.
    pub mtu_symptom: Option<bool>,
}

impl B4Observation {
    /// An observation that shows nothing.
    pub open spec fn nothing() -> B4Observation {
        B4Observation {
            connect_latency_us: None,
            rtt_us: None,
            rtt_var_us: None,
            retransmissions: None,
            throughput_bps: None,
            dns_ok: None,
            reset_or_timeout: None,
            mtu_symptom: None,
        }
    }

    /// Whether anything is known.
    pub fn any_signal(&self) -> (r: bool)
        ensures
            r == (*self != B4Observation::nothing()),
    {
        self.connect_latency_us.is_some() || self.rtt_us.is_some() || self.rtt_var_us.is_some()
            || self.retransmissions.is_some() || self.throughput_bps.is_some() || self.dns_ok.is_some()
            || self.reset_or_timeout.is_some() || self.mtu_symptom.is_some()
    }
}

impl Default for B4Observation {
    fn default() -> (r: B4Observation)
        ensures
            r == B4Observation::nothing(),
    {
        B4Observation {
            connect_latency_us: None,
            rtt_us: None,
            rtt_var_us: None,
            retransmissions: None,
            throughput_bps: None,
            dns_ok: None,
            reset_or_timeout: None,
            mtu_symptom: None,
        }
    }
}

/// Where observations come from.
pub trait B4Observer {
    /// Observe a flow, by its domain.
    fn observe(&mut self, flow_key: &str) -> B4Observation;
}

/// An observer that knows nothing.
#[derive(Debug, Clone, Copy, PartialEq, Eq, Structural)]
pub struct NoopObserver;

impl B4Observer for NoopObserver {
    fn observe(&mut self, _flow_key: &str) -> (r: B4Observation)
        ensures
            r == B4Observation::nothing(),
            *final(self) == *old(self),
    {
        B4Observation::default()
    }
}

} // verus!
