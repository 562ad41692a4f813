//! What is told of the control plane.
use vstd::prelude::*;
use vstd::string::*;

use crate::text::owned;

verus! {

/// What an event of the control plane is about.
#[derive(Debug)]
pub enum ControlEventKind {
    /// A cycle failed.
    Failed { error: String },
    /// A step of a cycle failed.
    StepFailed { error: String },
    /// A cycle was asked for, by whom the label says.
    ReconciliationRequested { label: String },
    /// Anything else, in words.
    Other { text: String },
}

/// An event of the control plane.
#[derive(Debug)]
pub struct ControlEvent {
    /// What events of this kind are called.
    pub name: String,
    pub kind: ControlEventKind,
}

impl ControlEvent {
    /// What events of this kind are called.
    pub fn name(&self) -> (r: &str)
        ensures
            r@ == self.name@,
    {
        self.name.as_str()
    }
}

/// The details of an event, for those who look at it.
pub open spec fn details_of(e: ControlEvent) -> Seq<char> {
    match e.kind {
        ControlEventKind::Failed { error } => error@,
        ControlEventKind::StepFailed { error } => error@,
        ControlEventKind::ReconciliationRequested { label } => "requested via "@ + label@,
        ControlEventKind::Other { text } => text@,
    }
}

/// The details of an event, for those who look at it.
pub fn event_details(event: &ControlEvent) -> (r: String)
    ensures
        r@ == details_of(*event),
{
    match &event.kind {
        ControlEventKind::Failed { error } => error.clone(),
        ControlEventKind::StepFailed { error } => error.clone(),
        ControlEventKind::ReconciliationRequested { label } => {
            let mut s = owned("requested via ");
            s.append(label.as_str());
            s
        },
        ControlEventKind::Other { text } => text.clone(),
    }
}

/// An event as it is shown to those who look at it.
#[derive(Debug)]
pub struct ApiEvent {
    /// When it was told, in seconds.
    pub timestamp: i64,
    pub event_type: String,
    pub details: String,
}

/// An event as it is shown, told at a time.
pub fn api_event(event: &ControlEvent, timestamp: i64) -> (r: ApiEvent)
    ensures
        r.timestamp == timestamp,
        r.event_type@ == event.name@,
        r.details@ == details_of(*event),
{
    ApiEvent { timestamp, event_type: owned(event.name()), details: event_details(event) }
}

/// A place to which events are told.
pub trait EventSink {
    /// Tell an event.
    fn emit(&mut self, event: &ControlEvent) -> Result<(), String>;
}

/// Writes the names of events down, one after another.
pub struct TracingEventSink {
    pub lines: Vec<String>,
}

impl EventSink for TracingEventSink {
    fn emit(&mut self, event: &ControlEvent) -> (r: Result<(), String>)
        ensures
            r is Ok,
            crate::text::strings(final(self).lines@) == crate::text::strings(old(self).lines@).push(event.name@),
    {
        self.lines.push(owned(event.name()));
        assert(crate::text::strings(self.lines@) =~= crate::text::strings(old(self).lines@).push(event.name@));
        Ok(())
    }
}

/// The result of telling an event to several places, given the result at each:
/// the first that fails is the last that is told.
pub fn fan_out(results: &Vec<Result<(), String>>) -> (r: Result<(), String>)
    ensures
        r is Ok <==> forall|i: int| 0 <= i < results@.len() ==> (#[trigger] results@[i]) is Ok,
        r matches Err(m) ==> exists|i: int|
            0 <= i < results@.len() && (#[trigger] results@[i]) == Err::<(), String>(m) && forall|k: int|
                0 <= k < i ==> (#[trigger] results@[k]) is Ok,
{
    let mut i: usize = 0;
    while i < results.len()
        invariant
            i <= results@.len(),
            forall|k: int| 0 <= k < i ==> (#[trigger] results@[k]) is Ok,
        decreases results.len() - i,
    {
        if let Err(m) = &results[i] {
            return Err(m.clone());
        }
        i += 1;
    }
    Ok(())
}

/// An event is told with what it carries: the error of a failure, the label of
/// a request, the text of anything else.
pub proof fn events_are_told_with_what_they_carry(e: ControlEvent)
    ensures
        e.kind matches ControlEventKind::Failed { error } ==> details_of(e) == error@,
        e.kind matches ControlEventKind::StepFailed { error } ==> details_of(e) == error@,
        e.kind matches ControlEventKind::ReconciliationRequested { label } ==> details_of(e) == "requested via "@
            + label@,
        e.kind matches ControlEventKind::Other { text } ==> details_of(e) == text@,
{
}

} // verus!
