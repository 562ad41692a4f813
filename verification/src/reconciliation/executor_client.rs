//! What the daemon says to the executor, and what it makes of the replies.
//!
//! The executor is the privileged side: the daemon sends it one request at a
//! time and reads one reply. A connection that fails is given up, and the next
//! request makes a new one; nothing is replayed.
use vstd::prelude::*;
use vstd::string::*;

use crate::model::ActionResult;
use crate::text::{owned, utf8_text};

verus! {

/// Where the executor listens.
pub const DEFAULT_EXECUTOR_SOCKET: &'static str = "/run/balansir/executor.sock";

/// The code of a failure that has none of its own.
pub const UNKNOWN_ERROR: u32 = 0;

/// The kind of a message.
#[derive(Debug, Clone, Copy, PartialEq, Eq, Structural)]
pub enum MsgType {
    HealthCheck,
    GetMetrics,
    StartDriver,
    RestartDriver,
    StopDriver,
    GetPlan,
    GetExplain,
    GetDesired,
    GetActual,
    GetConfigFingerprint,
    Reload,
    AddRule,
    RemoveRule,
    GetActualRules,
    SetPathMtu,
    RestorePathMtu,
    GetPathMtuState,
    DpiOp,
    QosOp,
    GetQosState,
    GetQosCapabilities,
    InterfaceOp,
    GatewayOp,
    UpnpOp,
    TailscaleOp,
    MptcpOp,
    ResponseOk,
    ResponseData,
    ResponseError,
}

/// A reply of the executor.
#[derive(Debug)]
pub struct Reply {
    pub msg_type: MsgType,
    pub payload: Vec<u8>,
}

/// Why a request came to nothing.
#[derive(Debug)]
pub enum ExecutorError {
    Misconfiguration(String),
    Fatal(String),
    Unsupported(String),
}

/// The text that bytes stand for, with a sign in the place of what is not UTF-8.
pub uninterp spec fn lossy(bytes: Seq<u8>) -> Seq<char>;

/// `String::from_utf8_lossy`: the text of the bytes, which is exact where they
/// are UTF-8. Which signs stand for the rest depends on the bytes alone.
#[verifier::external_body]
pub(crate) fn lossy_text(bytes: &[u8]) -> (r: String)
    ensures
        r@ == lossy(bytes@),
        vstd::utf8::valid_utf8(bytes@) ==> r@ == vstd::utf8::decode_utf8(bytes@),
{
    String::from_utf8_lossy(bytes).into_owned()
}

/// A number as a variable number of bytes, seven bits in each, the lowest first.
/// All but the last byte have their highest bit set.
pub open spec fn varint(n: nat) -> Seq<u8>
    decreases n,
{
    if n < 128 { seq![n as u8] } else { seq![(n % 128 + 128) as u8] + varint(n / 128) }
}

/// Numbers as bytes, behind their number.
pub open spec fn list_bytes(v: Seq<u32>) -> Seq<u8> {
    varint(v.len()) + items_bytes(v)
}

pub open spec fn items_bytes(v: Seq<u32>) -> Seq<u8>
    decreases v.len(),
{
    if v.len() == 0 { Seq::empty() } else { items_bytes(v.drop_last()) + varint(v.last() as nat) }
}

/// `postcard::to_allocvec` of a `u32`: the number as a varint. It does not fail,
/// for a vector takes any number of bytes.
#[verifier::external_body]
fn encode_number(n: u32) -> (r: Vec<u8>)
    ensures
        r@ == varint(n as nat),
{
    postcard::to_allocvec(&n).unwrap_or_default()
}

/// The numbers that bytes stand for, if they stand for any.
pub uninterp spec fn numbers_in(bytes: Seq<u8>) -> Option<Seq<u32>>;

pub open spec fn numbers_of(v: Option<Vec<u32>>) -> Option<Seq<u32>> {
    match v {
        Some(l) => Some(l@),
        None => None,
    }
}

/// Whether what was read from bytes is what was written to them, where they are
/// what a list was written to.
pub open spec fn reads_back(bytes: Seq<u8>, read: Option<Seq<u32>>) -> bool {
    forall|v: Seq<u32>| v.len() <= u32::MAX && bytes == #[trigger] list_bytes(v) ==> read == Some(v)
}

/// `postcard::from_bytes` of a `Vec<u32>`: the numbers that the bytes stand for.
/// It reads back what `postcard` writes; what it makes of other bytes depends on
/// them alone.
#[verifier::external_body]
fn decode_numbers(bytes: &[u8]) -> (r: Option<Vec<u32>>)
    ensures
        numbers_of(r) == numbers_in(bytes@),
        reads_back(bytes@, numbers_of(r)),
{
    postcard::from_bytes(bytes).ok()
}

/// The connection to the executor.
#[derive(Debug)]
pub struct ExecutorClient {
    pub socket: String,
    /// Whether there is a connection.
    pub connected: bool,
}

/// The error that says that a request was refused.
pub open spec fn refused(op: Seq<char>, payload: Seq<u8>) -> Seq<char> {
    "executor rejected "@ + op + ": "@ + lossy(payload)
}

/// The error that says that a reply was not one to the request.
pub open spec fn unexpected(op: Seq<char>) -> Seq<char> {
    "unexpected "@ + op + " response"@
}

fn refusal(op: &str, payload: &[u8]) -> (r: ExecutorError)
    ensures
        r matches ExecutorError::Fatal(m) && m@ == refused(op@, payload@),
{
    let mut s = owned("executor rejected ");
    s.append(op);
    s.append(": ");
    s.append(lossy_text(payload).as_str());
    ExecutorError::Fatal(s)
}

fn surprise(op: &str) -> (r: ExecutorError)
    ensures
        r matches ExecutorError::Fatal(m) && m@ == unexpected(op@),
{
    let mut s = owned("unexpected ");
    s.append(op);
    s.append(" response");
    ExecutorError::Fatal(s)
}

/// Whether a reply of a kind is a success.
pub open spec fn answers(kind: MsgType, ok: bool, data: bool) -> bool {
    (ok && kind == MsgType::ResponseOk) || (data && kind == MsgType::ResponseData)
}

/// What a reply is, given which kinds of reply are a success.
pub open spec fn judged(reply: Reply, op: Seq<char>, ok: bool, data: bool, r: Result<(), ExecutorError>) -> bool {
    if answers(reply.msg_type, ok, data) {
        r is Ok
    } else if reply.msg_type == MsgType::ResponseError {
        r matches Err(ExecutorError::Fatal(m)) && m@ == refused(op, reply.payload@)
    } else {
        r matches Err(ExecutorError::Fatal(m)) && m@ == unexpected(op)
    }
}

fn judge(reply: &Reply, op: &str, ok: bool, data: bool) -> (r: Result<(), ExecutorError>)
    ensures
        judged(*reply, op@, ok, data, r),
{
    match reply.msg_type {
        MsgType::ResponseOk => if ok {
            Ok(())
        } else {
            Err(surprise(op))
        },
        MsgType::ResponseData => if data {
            Ok(())
        } else {
            Err(surprise(op))
        },
        MsgType::ResponseError => Err(refusal(op, &reply.payload)),
        _ => Err(surprise(op)),
    }
}

/// Judge the reply to a request that is answered with or without data.
pub fn typed_response(reply: &Reply, op: &str) -> (r: Result<(), ExecutorError>)
    ensures
        judged(*reply, op@, true, true, r),
{
    judge(reply, op, true, true)
}

/// Judge the reply to a request that is answered without data.
pub fn acknowledged(reply: &Reply, op: &str) -> (r: Result<(), ExecutorError>)
    ensures
        judged(*reply, op@, true, false, r),
{
    judge(reply, op, true, false)
}

/// Judge the reply to a request that is answered with data.
pub fn answered(reply: &Reply, op: &str) -> (r: Result<(), ExecutorError>)
    ensures
        judged(*reply, op@, false, true, r),
{
    judge(reply, op, false, true)
}

/// The payload of a request to remove a rule.
pub fn removal_payload(rule_id: u32) -> (r: Vec<u8>)
    ensures
        r@ == varint(rule_id as nat),
{
    encode_number(rule_id)
}

/// What a failure is that has only a text.
pub open spec fn failure(message: Option<Seq<char>>, r: ActionResult) -> bool {
    r matches ActionResult::Failed { code, message: m } && code == UNKNOWN_ERROR && crate::text::text_of(m) == message
}

fn fail(message: Option<String>) -> (r: ActionResult)
    ensures
        failure(crate::text::text_of(message), r),
{
    ActionResult::Failed { code: UNKNOWN_ERROR, message }
}

fn unreachable_result(reason: &str) -> (r: ActionResult)
    ensures
        failure(Some("executor unreachable: "@ + reason@), r),
{
    let mut s = owned("executor unreachable: ");
    s.append(reason);
    fail(Some(s))
}

/// What became of a request to remove a rule, given the reply or why there is
/// none.
pub fn removal_result(rule_id: u32, reply: &Result<Reply, String>) -> (r: ActionResult)
    ensures
        *reply matches Err(reason) ==> failure(Some("executor unreachable: "@ + reason@), r),
        *reply matches Ok(m) ==> {
            if m.msg_type == MsgType::ResponseOk {
                r == (ActionResult::Applied { execution_time_us: 0, rule_id: Some(rule_id) })
            } else if m.msg_type == MsgType::ResponseError {
                failure(
                    if vstd::utf8::valid_utf8(m.payload@) {
                        Some(vstd::utf8::decode_utf8(m.payload@))
                    } else {
                        None
                    },
                    r,
                )
            } else {
                failure(Some("unexpected RemoveRule response"@), r)
            }
        },
{
    match reply {
        Err(reason) => unreachable_result(reason.as_str()),
        Ok(m) => match m.msg_type {
            MsgType::ResponseOk => ActionResult::Applied { execution_time_us: 0, rule_id: Some(rule_id) },
            MsgType::ResponseError => fail(utf8_text(&m.payload)),
            _ => fail(Some(owned("unexpected RemoveRule response"))),
        },
    }
}

/// How a request to apply a rule ended on its way.
#[derive(Debug)]
pub enum ApplyReply {
    /// The request could not be written.
    NotEncoded,
    /// There was no reply, for a reason.
    Unreachable(String),
    /// The reply could not be read.
    Malformed,
    Result(ActionResult),
}

/// What became of a request to apply a rule.
pub fn apply_result(reply: ApplyReply) -> (r: ActionResult)
    ensures
        match reply {
            ApplyReply::NotEncoded => failure(Some("failed to encode action request"@), r),
            ApplyReply::Unreachable(reason) => failure(Some("executor unreachable: "@ + reason@), r),
            ApplyReply::Malformed => failure(Some("executor returned malformed result"@), r),
            ApplyReply::Result(result) => r == result,
        },
{
    match reply {
        ApplyReply::NotEncoded => fail(Some(owned("failed to encode action request"))),
        ApplyReply::Unreachable(reason) => unreachable_result(reason.as_str()),
        ApplyReply::Malformed => fail(Some(owned("executor returned malformed result"))),
        ApplyReply::Result(result) => result,
    }
}

/// The rules that a reply lists; none where there is no reply or it cannot be
/// read.
pub fn actual_rule_ids(reply: &Option<Reply>) -> (r: Vec<u32>)
    ensures
        r@ == match *reply {
            Some(m) => match numbers_in(m.payload@) {
                Some(v) => v,
                None => Seq::empty(),
            },
            None => Seq::empty(),
        },
        *reply matches Some(m) ==> forall|v: Seq<u32>| v.len() <= u32::MAX && m.payload@ == #[trigger] list_bytes(v)
            ==> r@ == v,
{
    match reply {
        Some(m) => match decode_numbers(&m.payload) {
            Some(v) => v,
            None => Vec::new(),
        },
        None => Vec::new(),
    }
}

impl ExecutorClient {
    /// A client without a connection.
    pub fn new(socket: &str) -> (r: Self)
        ensures
            r.socket@ == socket@,
            !r.connected,
    {
        ExecutorClient { socket: owned(socket), connected: false }
    }

    /// Whether a connection has to be made before the next request.
    pub fn needs_connection(&self) -> (r: bool)
        ensures
            r == !self.connected,
    {
        !self.connected
    }

    /// Take note of whether a connection could be made.
    pub fn connection_made(&mut self, ok: bool) -> (r: Result<(), ExecutorError>)
        ensures
            final(self).connected == (old(self).connected || ok),
            final(self).socket == old(self).socket,
            r is Ok <==> final(self).connected,
            r matches Err(e) ==> (e matches ExecutorError::Misconfiguration(m) && m@ == "executor unreachable"@),
    {
        self.connected = self.connected || ok;
        if self.connected {
            Ok(())
        } else {
            Err(ExecutorError::Misconfiguration(owned("executor unreachable")))
        }
    }

    /// Take note of how a request ended. A connection on which one failed is
    /// given up.
    pub fn request_done(&mut self, ok: bool)
        ensures
            final(self).connected == (old(self).connected && ok),
            final(self).socket == old(self).socket,
    {
        self.connected = self.connected && ok;
    }
}

/// A client of the executor where it usually listens.
pub fn default_executor_client() -> (r: ExecutorClient)
    ensures
        r.socket@ == DEFAULT_EXECUTOR_SOCKET@,
        !r.connected,
{
    ExecutorClient::new(DEFAULT_EXECUTOR_SOCKET)
}

/// What an executor says to a request that it does not know, by the name of the
/// request.
pub fn unsupported(op: &str) -> (r: ExecutorError)
    ensures
        r matches ExecutorError::Unsupported(m) && m@ == op@ + " not implemented by this adapter"@,
{
    let mut s = owned(op);
    s.append(" not implemented by this adapter");
    ExecutorError::Unsupported(s)
}

/// What bytes say that hold seven bits each, the lowest first, and the eighth
/// wherever more follow.
pub open spec fn varint_value(s: Seq<u8>) -> nat
    decreases s.len(),
{
    if s.len() == 0 {
        0
    } else if s[0] < 128 {
        s[0] as nat
    } else {
        (s[0] - 128) as nat + 128 * varint_value(s.skip(1))
    }
}

/// A number is sent in bytes that say that number, of which all but the last
/// have the eighth bit set.
pub proof fn numbers_are_sent_in_sevens(n: nat)
    ensures
        varint(n).len() > 0,
        varint_value(varint(n)) == n,
        varint(n).last() < 128,
        forall|i: int| 0 <= i < varint(n).len() - 1 ==> #[trigger] varint(n)[i] >= 128,
        n < 128 ==> varint(n).len() == 1,
    decreases n,
{
    if n >= 128 {
        numbers_are_sent_in_sevens(n / 128);
        let rest = varint(n / 128);
        let s = varint(n);
        assert(s[0] == (n % 128 + 128) as u8);
        assert(s.skip(1) =~= rest);
        assert(s.last() == rest.last());
        assert forall|i: int| 0 <= i < s.len() - 1 implies #[trigger] s[i] >= 128 by {
            if i > 0 {
                assert(s[i] == rest[i - 1]);
            }
        }
    }
}

/// A list is sent as its length and then each of its numbers, in order.
pub proof fn lists_are_sent_in_order(first: Seq<u32>, n: u32)
    ensures
        list_bytes(first) == varint(first.len()) + items_bytes(first),
        items_bytes(first.push(n)) == items_bytes(first) + varint(n as nat),
        items_bytes(Seq::empty()).len() == 0,
{
    assert(first.push(n).drop_last() =~= first);
}

/// A reply is taken where it is of a kind that was asked for. An error is
/// reported with what the executor said, and any other reply as unexpected.
pub proof fn replies_are_judged_by_their_kind(
    reply: Reply,
    op: Seq<char>,
    ok: bool,
    data: bool,
    r: Result<(), ExecutorError>,
)
    requires
        judged(reply, op, ok, data, r),
    ensures
        r is Ok <==> (reply.msg_type == MsgType::ResponseOk && ok) || (reply.msg_type == MsgType::ResponseData && data),
        reply.msg_type == MsgType::ResponseError ==> (r matches Err(ExecutorError::Fatal(m)) && m@
            == "executor rejected "@ + op + ": "@ + lossy(reply.payload@)),
        r is Err && reply.msg_type != MsgType::ResponseError ==> (r matches Err(ExecutorError::Fatal(m)) && m@
            == "unexpected "@ + op + " response"@),
{
}

/// A failure that the daemon itself finds has the unknown code and says what
/// was found.
pub proof fn failures_say_what_was_found(message: Option<Seq<char>>, r: ActionResult)
    requires
        failure(message, r),
    ensures
        r is Failed,
        r matches ActionResult::Failed { code, message: m } ==> code == 0 && (m is Some <==> message is Some) && (m
            is Some ==> m->0@ == message->0),
{
}

} // verus!
