//! What the subsystems publish of themselves.
use vstd::prelude::*;

use crate::b4_engine::controller::PathMtu;

verus! {

/// The health of a path as a subsystem publishes it.
#[derive(Debug)]
pub struct PathHealthView {
    pub state: String,
}

/// One flow of the B4 engine.
#[derive(Debug)]
pub struct B4FlowView {
    pub flow: String,
    pub state: String,
    pub profile: String,
    pub last_decision: Option<String>,
    pub mtu: Option<u16>,
    pub health: String,
    pub rtt_ms: Option<u64>,
    pub rtt_var_ms: Option<u64>,
    pub connect_latency_ms: Option<u64>,
    pub retransmissions: Option<u32>,
    pub throughput_bps: Option<u64>,
    pub dns_ok: Option<bool>,
    pub reset_or_timeout: Option<bool>,
    pub path: PathHealthView,
}

impl Default for B4FlowView {
    fn default() -> (r: B4FlowView)
        ensures
            r.flow@.len() == 0,
            r.state@.len() == 0,
            r.profile@.len() == 0,
            r.last_decision is None,
            r.mtu is None,
            r.health@.len() == 0,
            r.rtt_ms is None,
            r.rtt_var_ms is None,
            r.connect_latency_ms is None,
            r.retransmissions is None,
            r.throughput_bps is None,
            r.dns_ok is None,
            r.reset_or_timeout is None,
            r.path.state@.len() == 0,
    {
        B4FlowView {
            flow: String::new(),
            state: String::new(),
            profile: String::new(),
            last_decision: None,
            mtu: None,
            health: String::new(),
            rtt_ms: None,
            rtt_var_ms: None,
            connect_latency_ms: None,
            retransmissions: None,
            throughput_bps: None,
            dns_ok: None,
            reset_or_timeout: None,
            path: PathHealthView { state: String::new() },
        }
    }
}

/// The B4 engine.
#[derive(Debug)]
pub struct B4Snapshot {
    pub enabled: bool,
    pub paused: bool,
    pub mtu_enabled: bool,
    pub config_path: Option<String>,
    pub flows: Vec<B4FlowView>,
    /// The sizes of packets that are intended.
    pub intended_mtu: Vec<PathMtu>,
    /// The sizes of packets that the executor reports.
    pub reported_mtu: Vec<PathMtu>,
    /// Whether what is reported is not what is intended.
    pub drift: bool,
    pub last_error: Option<String>,
}

impl Default for B4Snapshot {
    fn default() -> (r: B4Snapshot)
        ensures
            !r.enabled,
            !r.paused,
            !r.mtu_enabled,
            r.config_path is None,
            r.flows@.len() == 0,
            r.intended_mtu@.len() == 0,
            r.reported_mtu@.len() == 0,
            !r.drift,
            r.last_error is None,
    {
        B4Snapshot {
            enabled: false,
            paused: false,
            mtu_enabled: false,
            config_path: None,
            flows: Vec::new(),
            intended_mtu: Vec::new(),
            reported_mtu: Vec::new(),
            drift: false,
            last_error: None,
        }
    }
}

/// The state of a VPN profile.
#[derive(Debug, Clone, Copy, PartialEq, Eq, Structural)]
pub enum ProfileState {
    Unknown,
    Healthy,
    Degraded,
    Cooldown,
    Failed,
}

/// One profile of the VPN pool.
#[derive(Debug)]
pub struct ProfileHealth {
    pub profile_id: String,
    pub state: ProfileState,
    pub weight: u32,
}

/// The VPN pool.
#[derive(Debug)]
pub struct VpnSnapshot {
    pub enabled: bool,
    pub paused: bool,
    pub profiles: Vec<ProfileHealth>,
    pub active: Option<String>,
}

impl Default for VpnSnapshot {
    fn default() -> (r: VpnSnapshot)
        ensures
            !r.enabled,
            !r.paused,
            r.profiles@.len() == 0,
            r.active is None,
    {
        VpnSnapshot { enabled: false, paused: false, profiles: Vec::new(), active: None }
    }
}

} // verus!
