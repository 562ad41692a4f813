//! What the subsystems tell of themselves.
use vstd::prelude::*;

verus! {

/// An event of a subsystem.
#[derive(Debug)]
pub enum SubsystemEvent {
    QosApplied { interface: String, kind: String },
    QosRemoved { interface: String },
    QosError { detail: String },
    InterfaceError { detail: String },
    InterfaceMacChanged { interface: String, mac: String },
    InterfaceMacRestored { interface: String },
    TailscaleStatusChanged { state: String },
    TailscaleError { detail: String },
    TailscaleReconnected,
    B4StateChanged { flow: String, state: String },
    B4Adapted { flow: String, capability: String },
    B4Recovered { flow: String },
    B4Drift { detail: String },
}

/// An event of a subsystem, as texts.
pub enum Told {
    QosApplied { interface: Seq<char>, kind: Seq<char> },
    QosRemoved { interface: Seq<char> },
    QosError { detail: Seq<char> },
    InterfaceError { detail: Seq<char> },
    InterfaceMacChanged { interface: Seq<char>, mac: Seq<char> },
    InterfaceMacRestored { interface: Seq<char> },
    TailscaleStatusChanged { state: Seq<char> },
    TailscaleError { detail: Seq<char> },
    TailscaleReconnected,
    B4StateChanged { flow: Seq<char>, state: Seq<char> },
    B4Adapted { flow: Seq<char>, capability: Seq<char> },
    B4Recovered { flow: Seq<char> },
    B4Drift { detail: Seq<char> },
}

impl View for SubsystemEvent {
    type V = Told;

    open spec fn view(&self) -> Told {
        match *self {
            SubsystemEvent::QosApplied { interface, kind } => Told::QosApplied { interface: interface@, kind: kind@ },
            SubsystemEvent::QosRemoved { interface } => Told::QosRemoved { interface: interface@ },
            SubsystemEvent::QosError { detail } => Told::QosError { detail: detail@ },
            SubsystemEvent::InterfaceError { detail } => Told::InterfaceError { detail: detail@ },
            SubsystemEvent::InterfaceMacChanged { interface, mac } => Told::InterfaceMacChanged {
                interface: interface@,
                mac: mac@,
            },
            SubsystemEvent::InterfaceMacRestored { interface } => Told::InterfaceMacRestored { interface: interface@ },
            SubsystemEvent::TailscaleStatusChanged { state } => Told::TailscaleStatusChanged { state: state@ },
            SubsystemEvent::TailscaleError { detail } => Told::TailscaleError { detail: detail@ },
            SubsystemEvent::TailscaleReconnected => Told::TailscaleReconnected,
            SubsystemEvent::B4StateChanged { flow, state } => Told::B4StateChanged { flow: flow@, state: state@ },
            SubsystemEvent::B4Adapted { flow, capability } => Told::B4Adapted { flow: flow@, capability: capability@ },
            SubsystemEvent::B4Recovered { flow } => Told::B4Recovered { flow: flow@ },
            SubsystemEvent::B4Drift { detail } => Told::B4Drift { detail: detail@ },
        }
    }
}

/// Events as texts.
pub open spec fn told(v: Seq<SubsystemEvent>) -> Seq<Told> {
    Seq::new(v.len(), |i: int| v[i]@)
}

/// Adds an event to a list.
pub fn tell(events: &mut Vec<SubsystemEvent>, e: SubsystemEvent)
    ensures
        told(final(events)@) == told(old(events)@).push(e@),
{
    events.push(e);
    assert(told(events@) =~= told(old(events)@).push(e@));
}

/// An event is told with what it carries, each part in its own place.
pub proof fn events_are_told_as_they_are(e: SubsystemEvent)
    ensures
        e matches SubsystemEvent::QosApplied { interface, kind } ==> e@ == (Told::QosApplied {
            interface: interface@,
            kind: kind@,
        }),
        e matches SubsystemEvent::QosRemoved { interface } ==> e@ == (Told::QosRemoved { interface: interface@ }),
        e matches SubsystemEvent::QosError { detail } ==> e@ == (Told::QosError { detail: detail@ }),
        e matches SubsystemEvent::InterfaceError { detail } ==> e@ == (Told::InterfaceError { detail: detail@ }),
        e matches SubsystemEvent::InterfaceMacChanged { interface, mac } ==> e@ == (Told::InterfaceMacChanged {
            interface: interface@,
            mac: mac@,
        }),
        e matches SubsystemEvent::InterfaceMacRestored { interface } ==> e@ == (Told::InterfaceMacRestored {
            interface: interface@,
        }),
        e matches SubsystemEvent::TailscaleStatusChanged { state } ==> e@ == (Told::TailscaleStatusChanged {
            state: state@,
        }),
        e matches SubsystemEvent::TailscaleError { detail } ==> e@ == (Told::TailscaleError { detail: detail@ }),
        e matches SubsystemEvent::B4StateChanged { flow, state } ==> e@ == (Told::B4StateChanged {
            flow: flow@,
            state: state@,
        }),
        e matches SubsystemEvent::B4Adapted { flow, capability } ==> e@ == (Told::B4Adapted {
            flow: flow@,
            capability: capability@,
        }),
        e matches SubsystemEvent::B4Recovered { flow } ==> e@ == (Told::B4Recovered { flow: flow@ }),
        e matches SubsystemEvent::B4Drift { detail } ==> e@ == (Told::B4Drift { detail: detail@ }),
        e is TailscaleReconnected <==> e@ is TailscaleReconnected,
{
}

} // verus!
