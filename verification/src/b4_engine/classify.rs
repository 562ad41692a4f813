//! From observations to a connectivity class.
use vstd::prelude::*;

use crate::b4_engine::observe::B4Observation;

verus! {

/// How the connectivity of a flow is judged.
#[derive(Debug, Clone, Copy, PartialEq, Eq, Structural)]
pub enum B4Class {
    /// The direct path works.
    Direct,
    /// The direct path works, but not well.
    Degraded,
    /// Something interferes with the flow.
    Interfered,
    /// The flow makes no progress.
    Blocked,
    /// Nothing is known.
    Unknown,
}

/// The name of a class.
pub open spec fn class_text(c: B4Class) -> Seq<char> {
    match c {
        B4Class::Direct => "Direct"@,
        B4Class::Degraded => "Degraded"@,
        B4Class::Interfered => "Interfered"@,
        B4Class::Blocked => "Blocked"@,
        B4Class::Unknown => "Unknown"@,
    }
}

impl B4Class {
    /// The name of the class.
    pub fn name(self) -> (r: &'static str)
        ensures
            r@ == class_text(self),
    {
        match self {
            B4Class::Direct => "Direct",
            B4Class::Degraded => "Degraded",
            B4Class::Interfered => "Interfered",
            B4Class::Blocked => "Blocked",
            B4Class::Unknown => "Unknown",
        }
    }
}

/// From this many retransmissions on a path is degraded.
pub const HEAVY_RETRANSMISSIONS: u32 = 3;

/// From this round-trip time on, in microseconds, a path is degraded.
pub const HIGH_RTT_US: u64 = 400_000;

/// Below this throughput, in bytes per second, a path is degraded.
pub const LOW_THROUGHPUT_BPS: u64 = 1000;

/// Whether an observation shows that something interferes.
pub open spec fn interfered(o: B4Observation) -> bool {
    o.mtu_symptom == Some(true) || o.reset_or_timeout == Some(true) || o.dns_ok == Some(false)
}

/// Whether an observation shows a path that does not work well.
pub open spec fn degraded(o: B4Observation) -> bool {
    ||| o.retransmissions matches Some(n) && n >= HEAVY_RETRANSMISSIONS
    ||| o.rtt_us matches Some(t) && t >= HIGH_RTT_US
    ||| o.throughput_bps matches Some(b) && b < LOW_THROUGHPUT_BPS
}

/// The class of an observation.
pub open spec fn class_of(o: B4Observation) -> B4Class {
    if o == B4Observation::nothing() {
        B4Class::Unknown
    } else if interfered(o) {
        B4Class::Interfered
    } else if degraded(o) {
        B4Class::Degraded
    } else {
        B4Class::Direct
    }
}

/// Classify an observation.
pub fn classify(obs: &B4Observation) -> (r: B4Class)
    ensures
        r == class_of(*obs),
{
    if !obs.any_signal() {
        return B4Class::Unknown;
    }
    let symptom = match obs.mtu_symptom {
        Some(b) => b,
        None => false,
    };
    let reset = match obs.reset_or_timeout {
        Some(b) => b,
        None => false,
    };
    let dns_failed = match obs.dns_ok {
        Some(b) => !b,
        None => false,
    };
    if symptom || reset || dns_failed {
        return B4Class::Interfered;
    }
    let retrans_heavy = match obs.retransmissions {
        Some(n) => n >= HEAVY_RETRANSMISSIONS,
        None => false,
    };
    let high_rtt = match obs.rtt_us {
        Some(t) => t >= HIGH_RTT_US,
        None => false,
    };
    let low_throughput = match obs.throughput_bps {
        Some(b) => b < LOW_THROUGHPUT_BPS,
        None => false,
    };
    if retrans_heavy || high_rtt || low_throughput {
        return B4Class::Degraded;
    }
    B4Class::Direct
}

/// Nothing is judged of a flow that nothing is known of.
pub proof fn unknown_exactly_without_signals(o: B4Observation)
    ensures
        class_of(o) == B4Class::Unknown <==> o == B4Observation::nothing(),
{
}

/// A failed lookup, a reset or time-out, or packets that are too large show
/// that something interferes, whatever else was observed.
pub proof fn symptoms_show_interference(o: B4Observation)
    ensures
        o.dns_ok == Some(false) ==> class_of(o) == B4Class::Interfered,
        o.reset_or_timeout == Some(true) ==> class_of(o) == B4Class::Interfered,
        o.mtu_symptom == Some(true) ==> class_of(o) == B4Class::Interfered,
        class_of(o) == B4Class::Interfered ==> o.dns_ok == Some(false) || o.reset_or_timeout == Some(true)
            || o.mtu_symptom == Some(true),
{
}

/// Without such a symptom, a path is degraded exactly where it lost three
/// packets or more, took 400 milliseconds or longer, or carried less than 1000
/// bytes in a second; one that shows none of this is direct.
pub proof fn measurements_show_degradation(o: B4Observation)
    requires
        o.dns_ok != Some(false),
        o.reset_or_timeout != Some(true),
        o.mtu_symptom != Some(true),
        o != B4Observation::nothing(),
    ensures
        class_of(o) == B4Class::Degraded <==> ((o.retransmissions is Some && o.retransmissions->0 >= 3) || (
        o.rtt_us is Some && o.rtt_us->0 >= 400_000) || (o.throughput_bps is Some && o.throughput_bps->0 < 1000)),
        class_of(o) == B4Class::Degraded || class_of(o) == B4Class::Direct,
{
}

/// No observation says that a flow is blocked.
pub proof fn no_class_is_blocked_by_observation(o: B4Observation)
    ensures
        class_of(o) != B4Class::Blocked,
{
}

} // verus!
