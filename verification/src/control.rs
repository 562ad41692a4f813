//! The control socket: what comes of each message, and how it is answered.
//!
//! A message is answered at once, or leads to work on drivers or on the desired
//! state whose outcome is the answer. Every answer bears the number of the
//! message that it answers.
use vstd::prelude::*;
use vstd::string::*;

use crate::driver::health::{HealthTier, TierTracker};
use crate::driver::lifecycle::{
    DriverAction, DriverIntent, DriverLifecycleEvent, DriverLifecycleManager, DriverLifecycleState, DriverOutcome,
};
use crate::model::DriverId;
use crate::reconciliation::executor_client::MsgType;
use crate::reconciliation::reconciler::Reconciler;
use crate::text::owned;

verus! {

/// Where the daemon listens.
pub const SOCKET_PATH: &'static str = "/run/balansir/daemon.sock";

/// Who may use the socket: its owner.
pub const SOCKET_PERMS: u32 = 0o600;

/// A message, or an answer to one.
#[derive(Debug)]
pub struct IpcMessage {
    pub msg_type: MsgType,
    pub correlation_id: u64,
    pub payload: Vec<u8>,
}

/// Whether an answer says that all is well.
pub open spec fn is_ok(m: IpcMessage, id: u64) -> bool {
    m.msg_type == MsgType::ResponseOk && m.correlation_id == id && m.payload@.len() == 0
}

/// Whether an answer holds data.
pub open spec fn is_data(m: IpcMessage, id: u64, body: Seq<u8>) -> bool {
    m.msg_type == MsgType::ResponseData && m.correlation_id == id && m.payload@ == body
}

/// Whether an answer says what went wrong.
pub open spec fn is_error(m: IpcMessage, id: u64, why: Seq<char>) -> bool {
    m.msg_type == MsgType::ResponseError && m.correlation_id == id && m.payload@ == vstd::utf8::encode_utf8(why)
}

impl IpcMessage {
    /// The answer that all is well.
    pub fn response_ok(correlation_id: u64) -> (r: IpcMessage)
        ensures
            is_ok(r, correlation_id),
    {
        IpcMessage { msg_type: MsgType::ResponseOk, correlation_id, payload: Vec::new() }
    }

    /// An answer that holds data.
    pub fn response_data(correlation_id: u64, body: Vec<u8>) -> (r: IpcMessage)
        ensures
            is_data(r, correlation_id, body@),
    {
        IpcMessage { msg_type: MsgType::ResponseData, correlation_id, payload: body }
    }

    /// An answer that says what went wrong.
    pub fn response_error(correlation_id: u64, why: &str) -> (r: IpcMessage)
        ensures
            is_error(r, correlation_id, why@),
    {
        IpcMessage { msg_type: MsgType::ResponseError, correlation_id, payload: why.as_bytes_vec() }
    }
}

/// An optional number as bytes: whether it is there, and the number.
pub open spec fn option_bytes(n: Option<u64>) -> Seq<u8> {
    match n {
        None => seq![0u8],
        Some(v) => seq![1u8] + crate::reconciliation::executor_client::varint(v as nat),
    }
}

/// `postcard::to_allocvec` of an `Option<u64>`: a byte that says whether the
/// number is there, and the number as a varint. It does not fail, for a vector
/// takes any number of bytes.
#[verifier::external_body]
fn encode_fingerprint(n: Option<u64>) -> (r: Vec<u8>)
    ensures
        r@ == option_bytes(n),
{
    postcard::to_allocvec(&n).unwrap_or_default()
}

/// The optional number that bytes stand for, if they stand for any.
pub uninterp spec fn fingerprint_in(bytes: Seq<u8>) -> Option<Option<u64>>;

/// Whether what was read from bytes is what was written to them, where they are
/// what an optional number was written to.
pub open spec fn fingerprint_reads_back(bytes: Seq<u8>, read: Option<Option<u64>>) -> bool {
    forall|n: Option<u64>| bytes == #[trigger] option_bytes(n) ==> read == Some(n)
}

/// `postcard::from_bytes` of an `Option<u64>`: the optional number that the
/// bytes stand for. It reads back what `postcard` writes; what it makes of other
/// bytes depends on them alone.
#[verifier::external_body]
fn decode_fingerprint(bytes: &[u8]) -> (r: Option<Option<u64>>)
    ensures
        r == fingerprint_in(bytes@),
        fingerprint_reads_back(bytes@, r),
{
    postcard::from_bytes(bytes).ok()
}

/// The fingerprint in the payload of an answer.
pub fn fingerprint_of_payload(payload: &Vec<u8>) -> (r: Option<Option<u64>>)
    ensures
        r == fingerprint_in(payload@),
        forall|n: Option<u64>| payload@ == #[trigger] option_bytes(n) ==> r == Some(n),
{
    decode_fingerprint(payload)
}

/// A state that is asked for as a whole.
#[derive(Debug, Clone, Copy, PartialEq, Eq, Structural)]
pub enum Query {
    Metrics,
    Plan,
    Desired,
    Actual,
}

/// What comes of a message.
#[derive(Debug)]
pub enum Handling {
    /// It is answered.
    Answer(IpcMessage),
    /// A driver is to be worked on.
    Drive(DriverIntent),
    /// It is answered with a state as bytes.
    Encode(Query),
    /// The desired state is to be replaced by the one in the message.
    Reload,
}

/// What is wanted of the driver that a message names.
pub open spec fn intent_of(kind: MsgType, id: DriverId, number: u32) -> DriverIntent {
    if kind == MsgType::StopDriver {
        DriverIntent { id, action: DriverAction::Stop, fingerprint: 0 }
    } else {
        DriverIntent {
            id,
            action: if kind == MsgType::RestartDriver { DriverAction::Restart } else { DriverAction::Start },
            fingerprint: number as u64,
        }
    }
}

/// What comes of a message, given the driver that its payload names with its
/// number, if it names one.
pub fn handle_message(msg: &IpcMessage, driver: Option<(DriverId, u32)>, reconciler: &Reconciler) -> (r: Handling)
    ensures
        match msg.msg_type {
            MsgType::HealthCheck => r matches Handling::Answer(a) && is_ok(a, msg.correlation_id),
            MsgType::GetMetrics => r == Handling::Encode(Query::Metrics),
            MsgType::StartDriver | MsgType::RestartDriver | MsgType::StopDriver => match driver {
                Some((id, number)) => r == Handling::Drive(intent_of(msg.msg_type, id, number)),
                None => r matches Handling::Answer(a) && is_error(a, msg.correlation_id, "Invalid driver id"@),
            },
            MsgType::GetPlan => r == Handling::Encode(Query::Plan),
            MsgType::GetExplain => r matches Handling::Answer(a) && is_data(
                a,
                msg.correlation_id,
                vstd::utf8::encode_utf8(
                    "generation: "@ + crate::text::decimal(reconciler.generation as nat)
                        + crate::reconciliation::plan::operations_text(
                        crate::reconciliation::diff::difference(
                            reconciler.desired.rules@,
                            reconciler.actual.active_rules@,
                        ),
                    ),
                ),
            ),
            MsgType::GetDesired => r == Handling::Encode(Query::Desired),
            MsgType::GetActual => r == Handling::Encode(Query::Actual),
            MsgType::GetConfigFingerprint => r matches Handling::Answer(a) && is_data(
                a,
                msg.correlation_id,
                option_bytes(reconciler.fingerprint),
            ),
            MsgType::Reload => r == Handling::Reload,
            _ => r matches Handling::Answer(a) && is_error(a, msg.correlation_id, "Unknown message type"@),
        },
{
    let id = msg.correlation_id;
    match msg.msg_type {
        MsgType::HealthCheck => Handling::Answer(IpcMessage::response_ok(id)),
        MsgType::GetMetrics => Handling::Encode(Query::Metrics),
        MsgType::StartDriver | MsgType::RestartDriver => match driver {
            Some((driver, number)) => Handling::Drive(
                DriverIntent {
                    id: driver,
                    action: if msg.msg_type == MsgType::RestartDriver {
                        DriverAction::Restart
                    } else {
                        DriverAction::Start
                    },
                    fingerprint: number as u64,
                },
            ),
            None => Handling::Answer(IpcMessage::response_error(id, "Invalid driver id")),
        },
        MsgType::StopDriver => match driver {
            Some((driver, _)) => Handling::Drive(DriverIntent::stop(driver)),
            None => Handling::Answer(IpcMessage::response_error(id, "Invalid driver id")),
        },
        MsgType::GetPlan => Handling::Encode(Query::Plan),
        MsgType::GetExplain => {
            let text = reconciler.explain();
            Handling::Answer(IpcMessage::response_data(id, text.as_str().as_bytes_vec()))
        },
        MsgType::GetDesired => Handling::Encode(Query::Desired),
        MsgType::GetActual => Handling::Encode(Query::Actual),
        MsgType::GetConfigFingerprint => {
            let fp = reconciler.config_fingerprint();
            Handling::Answer(IpcMessage::response_data(id, encode_fingerprint(fp)))
        },
        MsgType::Reload => Handling::Reload,
        _ => Handling::Answer(IpcMessage::response_error(id, "Unknown message type")),
    }
}

/// Whether a driver failed in a round.
pub open spec fn any_failed(events: Seq<crate::driver::lifecycle::Notice>) -> bool {
    exists|i: int| 0 <= i < events.len() && (#[trigger] events[i]).outcome is Failed
}

fn has_failed(events: &Vec<DriverLifecycleEvent>) -> (r: bool)
    ensures
        r == any_failed(crate::driver::lifecycle::notices(events@)),
{
    let ghost all = crate::driver::lifecycle::notices(events@);
    let mut i: usize = 0;
    while i < events.len()
        invariant
            i <= events@.len(),
            all == crate::driver::lifecycle::notices(events@),
            forall|k: int| 0 <= k < i ==> !((#[trigger] all[k]).outcome is Failed),
        decreases events.len() - i,
    {
        if matches!(events[i].outcome, DriverOutcome::Failed { .. }) {
            assert(all[i as int].outcome is Failed);
            return true;
        }
        i += 1;
    }
    false
}

/// Whether a driver that was to be started does not run: a driver failed in the
/// round, its own candidate did not start, or it is known as failed after it.
pub open spec fn start_failed(
    book: crate::driver::lifecycle::Book,
    intent: DriverIntent,
    started: bool,
    round: crate::driver::lifecycle::Settled,
) -> bool {
    ||| any_failed(round.events)
    ||| crate::driver::lifecycle::asks_for_start(book, intent) && !started
    ||| round.book.state(intent.id) == DriverLifecycleState::Failed
}

/// What a message about a driver led to.
pub struct Driven {
    pub answer: IpcMessage,
    /// The drivers whose mechanisms have to be stopped.
    pub stop: Vec<DriverId>,
    /// The drivers whose tier changed.
    pub tiers: Vec<(DriverId, HealthTier)>,
}

/// Work on a driver, given whether its mechanism started, and answer the message
/// that asked for it. Whether a stop is answered well does not depend on
/// anything.
pub fn drive(
    msg: &IpcMessage,
    intent: DriverIntent,
    started: bool,
    lifecycle: &mut DriverLifecycleManager,
    tracker: &mut TierTracker,
) -> (r: Driven)
    ensures
        ({
            let round = crate::driver::lifecycle::reconciled(old(lifecycle).book(), seq![intent], seq![started]);
            &&& final(lifecycle).book() == round.book
            &&& r.stop@ == round.stop
            &&& old(lifecycle).book().sound() ==> final(lifecycle).book().sound()
            &&& if msg.msg_type != MsgType::StopDriver && start_failed(old(lifecycle).book(), intent, started, round) {
                is_error(r.answer, msg.correlation_id, "Driver failed to start"@)
            } else {
                is_ok(r.answer, msg.correlation_id)
            }
        }),
        r.tiers@ == crate::driver::health::moved(
            final(lifecycle).book().order,
            old(tracker).seen(),
            crate::driver::health::tiers_of(final(lifecycle).book()),
        ) + crate::driver::health::gone(
            old(tracker).order(),
            old(tracker).seen(),
            crate::driver::health::tiers_of(final(lifecycle).book()),
        ),
        final(tracker).seen() == crate::driver::health::tiers_of(final(lifecycle).book()),
{
    let mut intents: Vec<DriverIntent> = Vec::new();
    intents.push(intent);
    let mut outcomes: Vec<bool> = Vec::new();
    outcomes.push(started);
    assert(intents@ =~= seq![intent]);
    assert(outcomes@ =~= seq![started]);
    let asked = lifecycle.needs_start(&intent);
    let (events, stop) = lifecycle.reconcile(&intents, &outcomes);
    let tiers = tracker.reconcile(lifecycle);
    let failed = msg.msg_type != MsgType::StopDriver && (has_failed(&events) || (asked && !started)
        || lifecycle.state(intent.id) == DriverLifecycleState::Failed);
    let answer = if failed {
        IpcMessage::response_error(msg.correlation_id, "Driver failed to start")
    } else {
        IpcMessage::response_ok(msg.correlation_id)
    };
    Driven { answer, stop, tiers }
}

/// Answer a message that asked for a state, given the state as bytes.
pub fn encoded(msg: &IpcMessage, body: Vec<u8>) -> (r: IpcMessage)
    ensures
        is_data(r, msg.correlation_id, body@),
{
    IpcMessage::response_data(msg.correlation_id, body)
}

/// Answer a message that asked for another desired state: nothing where its
/// payload is no state, else how taking it over went.
pub fn reloaded(msg: &IpcMessage, outcome: &Option<Result<(), String>>) -> (r: IpcMessage)
    ensures
        match *outcome {
            None => is_error(r, msg.correlation_id, "invalid reload payload"@),
            Some(Ok(_)) => is_ok(r, msg.correlation_id),
            Some(Err(e)) => is_error(r, msg.correlation_id, e@),
        },
{
    match outcome {
        None => IpcMessage::response_error(msg.correlation_id, "invalid reload payload"),
        Some(Ok(_)) => IpcMessage::response_ok(msg.correlation_id),
        Some(Err(e)) => IpcMessage::response_error(msg.correlation_id, e.as_str()),
    }
}

/// What stands where the socket is to be made.
#[derive(Debug)]
pub enum Stale {
    Nothing,
    /// It cannot be looked at, for a reason.
    Unreadable(String),
    Socket { uid: u32 },
    Other,
}

/// Why what stands in the way of the socket is not removed.
#[derive(Debug)]
pub enum SocketError {
    Io(String),
    Misconfiguration(String),
    IpcViolation(String),
}

/// Whether to remove what stands where the socket is to be made: only a socket
/// of one's own is removed.
pub fn remove_stale_socket(path: &str, found: Stale, uid: u32) -> (r: Result<bool, SocketError>)
    ensures
        match found {
            Stale::Nothing => r matches Ok(remove) && !remove,
            Stale::Unreadable(e) => r == Err::<bool, SocketError>(SocketError::Io(e)),
            Stale::Other => r matches Err(SocketError::Misconfiguration(m)) && m@ == "refusing to remove non-socket at "@
                + path@,
            Stale::Socket { uid: owner } => if owner == uid {
                r matches Ok(remove) && remove
            } else {
                r matches Err(SocketError::IpcViolation(m)) && m@ == "stale socket at "@ + path@
                    + " owned by different UID"@
            },
        },
{
    match found {
        Stale::Nothing => Ok(false),
        Stale::Unreadable(e) => Err(SocketError::Io(e)),
        Stale::Other => {
            let mut s = owned("refusing to remove non-socket at ");
            s.append(path);
            Err(SocketError::Misconfiguration(s))
        },
        Stale::Socket { uid: owner } => {
            if owner == uid {
                Ok(true)
            } else {
                let mut s = owned("stale socket at ");
                s.append(path);
                s.append(" owned by different UID");
                Err(SocketError::IpcViolation(s))
            }
        },
    }
}

/// A response answers the request whose number it carries: with nothing, with
/// its data, or with why it was refused.
pub proof fn responses_carry_the_number_of_their_request(m: IpcMessage, id: u64, body: Seq<u8>, why: Seq<char>)
    ensures
        is_ok(m, id) ==> m.correlation_id == id && m.msg_type == MsgType::ResponseOk && m.payload@.len() == 0,
        is_data(m, id, body) ==> m.correlation_id == id && m.msg_type == MsgType::ResponseData && m.payload@ == body,
        is_error(m, id, why) ==> m.correlation_id == id && m.msg_type == MsgType::ResponseError && m.payload@
            == vstd::utf8::encode_utf8(why),
{
}

/// A message about a driver is an intent for that driver: to start it or to
/// start it anew with the configuration that has its number, or to stop it.
pub proof fn messages_are_intents(id: DriverId, number: u32)
    ensures
        intent_of(MsgType::StartDriver, id, number) == (DriverIntent {
            id,
            action: DriverAction::Start,
            fingerprint: number as u64,
        }),
        intent_of(MsgType::RestartDriver, id, number) == (DriverIntent {
            id,
            action: DriverAction::Restart,
            fingerprint: number as u64,
        }),
        intent_of(MsgType::StopDriver, id, number).id == id,
        intent_of(MsgType::StopDriver, id, number).action == DriverAction::Stop,
{
}

/// A start is refused where the candidate that it asked for did not start.
pub proof fn a_candidate_that_did_not_start_is_reported(book: crate::driver::lifecycle::Book, intent: DriverIntent)
    requires
        intent.action == DriverAction::Restart || intent.action == DriverAction::Start && !(book.drivers.contains_key(
            intent.id,
        ) && book.drivers[intent.id].state == DriverLifecycleState::Active && book.drivers[intent.id].fingerprint
            == intent.fingerprint),
    ensures
        start_failed(book, intent, false, crate::driver::lifecycle::reconciled(book, seq![intent], seq![false])),
{
    crate::driver::lifecycle::who_asks_for_a_candidate(book, intent);
}

/// A start is granted where the candidate that it asked for started.
pub proof fn a_candidate_that_started_is_granted(book: crate::driver::lifecycle::Book, intent: DriverIntent)
    requires
        intent.action == DriverAction::Restart || intent.action == DriverAction::Start && !(book.drivers.contains_key(
            intent.id,
        ) && book.drivers[intent.id].state == DriverLifecycleState::Active && book.drivers[intent.id].fingerprint
            == intent.fingerprint),
    ensures
        !start_failed(book, intent, true, crate::driver::lifecycle::reconciled(book, seq![intent], seq![true])),
{
    let intents = seq![intent];
    let started = seq![true];
    let round = crate::driver::lifecycle::reconciled(book, intents, started);
    crate::driver::lifecycle::started_candidates_take_their_places(book, intents, started, 0);
    crate::driver::lifecycle::starting_everything_fails_no_event(book, intents, started);
}

/// What is remembered of a configuration is sent as a mark whether there is
/// anything, and the number.
pub proof fn fingerprints_are_marked(n: u64)
    ensures
        option_bytes(None) == seq![0u8],
        option_bytes(Some(n)).len() > 1,
        option_bytes(Some(n))[0] == 1,
        crate::reconciliation::executor_client::varint_value(option_bytes(Some(n)).skip(1)) == n,
{
    crate::reconciliation::executor_client::numbers_are_sent_in_sevens(n as nat);
    let v = crate::reconciliation::executor_client::varint(n as nat);
    assert((seq![1u8] + v).skip(1) =~= v);
}

} // verus!
