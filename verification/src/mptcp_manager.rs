//! Multipath TCP: what is wanted of the kernel and what it reports.
use vstd::prelude::*;
use vstd::string::*;

use crate::text::{decimal_of, owned, same_text};

verus! {

/// A local address that is offered as a path.
#[derive(Debug)]
pub struct MptcpEndpoint {
    pub address: String,
    pub iface: String,
    pub local_id: u32,
    pub flags: Vec<String>,
}

/// A path of a connection.
#[derive(Debug)]
pub struct MptcpSubflow {
    pub local: String,
    pub remote: String,
    pub state: String,
    pub backup: bool,
    pub rx_bytes: u64,
    pub tx_bytes: u64,
}

/// A request to the executor.
#[derive(Debug)]
pub enum MptcpOp {
    Status,
    SetEnabled { enabled: bool },
    AddEndpoint { address: String, interface: Option<String> },
}

/// What the executor answers.
#[derive(Debug)]
pub struct MptcpResult {
    pub ok: bool,
    pub detail: String,
    pub enabled: Option<bool>,
    pub endpoints: Vec<MptcpEndpoint>,
    pub subflows: Vec<MptcpSubflow>,
}

/// What is shown.
#[derive(Debug)]
pub struct MptcpSnapshot {
    /// Whether the kernel speaks it.
    pub enabled: bool,
    pub endpoints: Vec<MptcpEndpoint>,
    pub subflows: Vec<MptcpSubflow>,
    /// The health of each path, by its place.
    pub flow_health: Vec<(String, String)>,
    /// The throughput of each path, by its remote end.
    pub throughput_mbps: Vec<(String, u64)>,
    pub last_error: Option<String>,
    pub busy: bool,
}

/// The health of a path in a state.
pub open spec fn health_of(state: Seq<char>) -> Seq<char> {
    if state == "ESTABLISHED"@ {
        "established"@
    } else if state == "SYN-SENT"@ {
        "syn-sent"@
    } else {
        "failing"@
    }
}

fn health_name(state: &str) -> (r: String)
    ensures
        r@ == health_of(state@),
{
    owned(
        if same_text(state, "ESTABLISHED") {
            "established"
        } else if same_text(state, "SYN-SENT") {
            "syn-sent"
        } else {
            "failing"
        },
    )
}

/// Whether the health of paths is told, each by its place.
pub open spec fn tells_health(v: Seq<(String, String)>, flows: Seq<MptcpSubflow>) -> bool {
    &&& v.len() == flows.len()
    &&& forall|i: int|
        0 <= i < v.len() ==> (#[trigger] v[i]).0@ == crate::text::decimal(i as nat) && v[i].1@ == health_of(
            flows[i].state@,
        )
}

/// Whether a throughput is told for paths, each by its remote end.
pub open spec fn tells_throughput(v: Seq<(String, u64)>, flows: Seq<MptcpSubflow>) -> bool {
    &&& v.len() == flows.len()
    &&& forall|i: int| 0 <= i < v.len() ==> (#[trigger] v[i]).0@ == flows[i].remote@ && v[i].1 == 0
}

/// Keeps the kernel to what is wanted.
pub struct MptcpManager {
    pub snapshot: MptcpSnapshot,
    pub want_enabled: bool,
    /// The addresses to offer, each with its interface.
    pub want_endpoints: Vec<(String, String)>,
}

/// Whether requests offer addresses, one each. An empty interface is left out.
pub open spec fn asks_for(ops: Seq<MptcpOp>, v: Seq<(String, String)>) -> bool {
    &&& ops.len() == v.len()
    &&& forall|i: int|
        0 <= i < ops.len() ==> {
            &&& (#[trigger] ops[i]) matches MptcpOp::AddEndpoint { address, interface }
            &&& address@ == v[i].0@
            &&& crate::text::text_of(interface) == if v[i].1@.len() == 0 { None } else { Some(v[i].1@) }
        }
}

/// A report, its lists as sequences.
#[verifier::ext_equal]
pub struct Report {
    pub ok: bool,
    pub detail: Seq<char>,
    pub enabled: Option<bool>,
    pub endpoints: Seq<MptcpEndpoint>,
    pub subflows: Seq<MptcpSubflow>,
}

pub open spec fn report_of(r: MptcpResult) -> Report {
    Report { ok: r.ok, detail: r.detail@, enabled: r.enabled, endpoints: r.endpoints@, subflows: r.subflows@ }
}

/// What is reported of the answers to the requests for addresses: the last
/// answer, marked as failed where the request after it failed.
pub open spec fn reported(answers: Seq<Result<MptcpResult, String>>, v: Seq<(String, String)>) -> Report
    decreases answers.len(),
{
    if answers.len() == 0 {
        Report {
            ok: true,
            detail: "endpoints converged"@,
            enabled: None,
            endpoints: Seq::empty(),
            subflows: Seq::empty(),
        }
    } else {
        match answers.last() {
            Ok(a) => report_of(a),
            Err(e) => Report {
                ok: false,
                detail: "add endpoint "@ + v[answers.len() - 1].0@ + ": "@ + e@,
                ..reported(answers.drop_last(), v)
            },
        }
    }
}

/// Whether a text is empty.
fn is_empty(s: &str) -> (r: bool)
    ensures
        r == (s@.len() == 0),
{
    crate::text::chars_of(s).len() == 0
}

impl MptcpManager {
    pub fn new() -> (r: Self)
        ensures
            !r.snapshot.enabled,
            r.snapshot.endpoints@.len() == 0,
            r.snapshot.subflows@.len() == 0,
            r.snapshot.flow_health@.len() == 0,
            r.snapshot.throughput_mbps@.len() == 0,
            r.snapshot.last_error is None,
            !r.snapshot.busy,
            !r.want_enabled,
            r.want_endpoints@.len() == 0,
    {
        MptcpManager {
            snapshot: MptcpSnapshot {
                enabled: false,
                endpoints: Vec::new(),
                subflows: Vec::new(),
                flow_health: Vec::new(),
                throughput_mbps: Vec::new(),
                last_error: None,
                busy: false,
            },
            want_enabled: false,
            want_endpoints: Vec::new(),
        }
    }

    /// Want the kernel to speak it or not. The request for that.
    pub fn set_enabled(&mut self, enabled: bool) -> (r: MptcpOp)
        ensures
            final(self).want_enabled == enabled,
            r == (MptcpOp::SetEnabled { enabled }),
            final(self).snapshot == old(self).snapshot,
            final(self).want_endpoints == old(self).want_endpoints,
    {
        self.want_enabled = enabled;
        MptcpOp::SetEnabled { enabled }
    }

    /// Want addresses to be offered. The requests for that, one for each.
    pub fn set_endpoints(&mut self, endpoints: Vec<(String, String)>) -> (r: Vec<MptcpOp>)
        ensures
            final(self).want_endpoints == endpoints,
            asks_for(r@, endpoints@),
            final(self).snapshot == old(self).snapshot,
            final(self).want_enabled == old(self).want_enabled,
    {
        let mut ops: Vec<MptcpOp> = Vec::new();
        let mut i: usize = 0;
        while i < endpoints.len()
            invariant
                i <= endpoints@.len(),
                ops@.len() == i,
                forall|k: int|
                    0 <= k < i ==> {
                        &&& (#[trigger] ops@[k]) matches MptcpOp::AddEndpoint { address, interface }
                        &&& address@ == endpoints@[k].0@
                        &&& crate::text::text_of(interface) == if endpoints@[k].1@.len() == 0 {
                            None
                        } else {
                            Some(endpoints@[k].1@)
                        }
                    },
            decreases endpoints.len() - i,
        {
            let interface = if is_empty(endpoints[i].1.as_str()) { None } else { Some(endpoints[i].1.clone()) };
            ops.push(MptcpOp::AddEndpoint { address: endpoints[i].0.clone(), interface });
            i += 1;
        }
        self.want_endpoints = endpoints;
        ops
    }

    /// What to report when the requests for the wanted addresses were answered:
    /// the last answer. Where the last request failed, the report says so.
    pub fn endpoints_answered(&self, answers: Vec<Result<MptcpResult, String>>) -> (r: MptcpResult)
        requires
            answers@.len() == self.want_endpoints@.len(),
        ensures
            report_of(r) == reported(answers@, self.want_endpoints@),
    {
        let mut last = MptcpResult {
            ok: true,
            detail: owned("endpoints converged"),
            enabled: None,
            endpoints: Vec::new(),
            subflows: Vec::new(),
        };
        let n = answers.len();
        let mut rest = answers;
        let mut i: usize = 0;
        assert(answers@.take(0) =~= Seq::<Result<MptcpResult, String>>::empty());
        while rest.len() > 0
            invariant
                i <= answers@.len(),
                rest@ == answers@.skip(i as int),
                n == answers@.len(),
                answers@.len() == self.want_endpoints@.len(),
                report_of(last) == reported(answers@.take(i as int), self.want_endpoints@),
            decreases rest.len(),
        {
            let ghost before = rest@;
            assert(before[0] == answers@[i as int]);
            assert(answers@.take(i as int + 1).drop_last() =~= answers@.take(i as int));
            match rest.remove(0) {
                Ok(a) => {
                    last = a;
                },
                Err(e) => {
                    let mut s = owned("add endpoint ");
                    s.append(self.want_endpoints[i].0.as_str());
                    s.append(": ");
                    s.append(e.as_str());
                    last.ok = false;
                    last.detail = s;
                },
            }
            assert(before.remove(0) =~= answers@.skip(i as int + 1));
            i += 1;
        }
        assert(answers@.take(i as int) =~= answers@);
        last
    }

    /// Take over what the executor reported.
    pub fn refresh(&mut self, status: Result<MptcpResult, String>)
        ensures
            match status {
                Ok(s) => {
                    &&& final(self).snapshot.enabled == (s.enabled == Some(true))
                    &&& final(self).snapshot.endpoints == s.endpoints
                    &&& final(self).snapshot.subflows == s.subflows
                    &&& tells_health(final(self).snapshot.flow_health@, s.subflows@)
                    &&& tells_throughput(final(self).snapshot.throughput_mbps@, s.subflows@)
                    &&& final(self).snapshot.last_error is None
                    &&& final(self).snapshot.busy == old(self).snapshot.busy
                },
                Err(e) => final(self).snapshot == (MptcpSnapshot { last_error: Some(e), ..old(self).snapshot }),
            },
            final(self).want_enabled == old(self).want_enabled,
            final(self).want_endpoints == old(self).want_endpoints,
    {
        match status {
            Ok(s) => {
                let mut health: Vec<(String, String)> = Vec::new();
                let mut rates: Vec<(String, u64)> = Vec::new();
                let mut i: usize = 0;
                while i < s.subflows.len()
                    invariant
                        i <= s.subflows@.len(),
                        health@.len() == i,
                        rates@.len() == i,
                        forall|k: int|
                            0 <= k < i ==> (#[trigger] health@[k]).0@ == crate::text::decimal(k as nat)
                                && health@[k].1@ == health_of(s.subflows@[k].state@),
                        forall|k: int|
                            0 <= k < i ==> (#[trigger] rates@[k]).0@ == s.subflows@[k].remote@ && rates@[k].1 == 0,
                    decreases s.subflows.len() - i,
                {
                    health.push((decimal_of(i as u64), health_name(s.subflows[i].state.as_str())));
                    rates.push((s.subflows[i].remote.clone(), 0));
                    i += 1;
                }
                self.snapshot.enabled = match s.enabled {
                    Some(b) => b,
                    None => false,
                };
                self.snapshot.endpoints = s.endpoints;
                self.snapshot.subflows = s.subflows;
                self.snapshot.flow_health = health;
                self.snapshot.throughput_mbps = rates;
                self.snapshot.last_error = None;
            },
            Err(e) => {
                self.snapshot.last_error = Some(e);
            },
        }
    }

    /// Whether the kernel speaks it, as it last reported.
    pub fn is_enabled(&self) -> (r: bool)
        ensures
            r == self.snapshot.enabled,
    {
        self.snapshot.enabled
    }
}

/// A subflow is established or being set up where it says so, and failing
/// otherwise.
pub proof fn states_decide_subflow_health(state: Seq<char>)
    ensures
        state == "ESTABLISHED"@ ==> health_of(state) == "established"@,
        state == "SYN-SENT"@ ==> health_of(state) == "syn-sent"@,
        state != "ESTABLISHED"@ && state != "SYN-SENT"@ ==> health_of(state) == "failing"@,
{
    reveal_strlit("ESTABLISHED");
    reveal_strlit("SYN-SENT");
    assert("ESTABLISHED"@.len() == 11 && "SYN-SENT"@.len() == 8);
}

/// Health is told of each subflow under its number, and throughput under its
/// remote side.
pub proof fn subflows_are_told_one_by_one(
    h: Seq<(String, String)>,
    t: Seq<(String, u64)>,
    flows: Seq<MptcpSubflow>,
    i: int,
)
    requires
        tells_health(h, flows),
        tells_throughput(t, flows),
        0 <= i < flows.len(),
    ensures
        h.len() == flows.len(),
        t.len() == flows.len(),
        h[i].0@ == crate::text::decimal(i as nat),
        h[i].1@ == health_of(flows[i].state@),
        t[i].0@ == flows[i].remote@,
        t[i].1 == 0,
{
}

/// An endpoint is asked for with its address, and with its interface where it
/// has one.
pub proof fn endpoints_are_asked_for_one_by_one(ops: Seq<MptcpOp>, v: Seq<(String, String)>, i: int)
    requires
        asks_for(ops, v),
        0 <= i < v.len(),
    ensures
        ops.len() == v.len(),
        ops[i] is AddEndpoint,
        ops[i] matches MptcpOp::AddEndpoint { address, interface } ==> address@ == v[i].0@ && (interface is None
            <==> v[i].1@.len() == 0) && (interface is Some ==> interface->0@ == v[i].1@),
{
}

/// The last answer is reported. One that failed is reported with its endpoint
/// and what was said, beside what was known before it.
pub proof fn the_last_answer_is_reported(
    answers: Seq<Result<MptcpResult, String>>,
    v: Seq<(String, String)>,
    last: Result<MptcpResult, String>,
)
    requires
        answers.len() < v.len(),
    ensures
        answers.len() == 0 ==> reported(answers, v).ok && reported(answers, v).detail == "endpoints converged"@
            && reported(answers, v).enabled is None && reported(answers, v).endpoints.len() == 0 && reported(
            answers,
            v,
        ).subflows.len() == 0,
        last matches Ok(a) ==> {
            let r = reported(answers.push(last), v);
            &&& r.ok == a.ok
            &&& r.detail == a.detail@
            &&& r.enabled == a.enabled
            &&& r.endpoints == a.endpoints@
            &&& r.subflows == a.subflows@
        },
        last matches Err(e) ==> {
            let r = reported(answers.push(last), v);
            let before = reported(answers, v);
            &&& !r.ok
            &&& r.detail == "add endpoint "@ + v[answers.len() as int].0@ + ": "@ + e@
            &&& r.enabled == before.enabled
            &&& r.endpoints == before.endpoints
            &&& r.subflows == before.subflows
        },
{
    assert(answers.push(last).drop_last() =~= answers);
}

} // verus!
