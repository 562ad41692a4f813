//! Traffic shaping: what is wanted, what the kernel reports, and what is asked
//! of the executor to bring the two together.
use vstd::prelude::*;
use vstd::string::*;

use crate::events::{tell, SubsystemEvent};
use crate::text::{clone_strings, option_is, owned, same_text};

verus! {

/// A way of shaping.
#[derive(Debug, Clone, Copy, PartialEq, Eq, Structural)]
pub enum QdiscKind {
    Cake,
    FqCodel,
    Ingress,
}

/// The name of a way of shaping.
pub open spec fn kind_name(k: QdiscKind) -> Seq<char> {
    match k {
        QdiscKind::Cake => "cake"@,
        QdiscKind::FqCodel => "fq_codel"@,
        QdiscKind::Ingress => "ingress"@,
    }
}

impl QdiscKind {
    pub fn as_str(self) -> (r: &'static str)
        ensures
            r@ == kind_name(self),
    {
        match self {
            QdiscKind::Cake => "cake",
            QdiscKind::FqCodel => "fq_codel",
            QdiscKind::Ingress => "ingress",
        }
    }
}

/// Which packets of an interface are shaped.
#[derive(Debug, Clone, Copy, PartialEq, Eq, Structural)]
pub enum QosDirection {
    Egress,
    Ingress,
}

/// What is wanted of an interface.
#[derive(Debug)]
pub struct QosConfig {
    pub interface: String,
    pub direction: QosDirection,
    pub kind: QdiscKind,
    pub bandwidth_bps: Option<u64>,
    pub latency_target_ms: Option<u32>,
    pub overhead_bytes: Option<i32>,
    pub ecn: bool,
    pub wash: bool,
    pub memory_limit_bytes: Option<u64>,
    /// The classes of traffic, each as the executor reads it.
    pub classes: Vec<String>,
    pub comment: String,
}

/// What is wanted of an interface, as texts.
#[verifier::ext_equal]
pub struct Wanted {
    pub interface: Seq<char>,
    pub direction: QosDirection,
    pub kind: QdiscKind,
    pub bandwidth_bps: Option<u64>,
    pub latency_target_ms: Option<u32>,
    pub overhead_bytes: Option<i32>,
    pub ecn: bool,
    pub wash: bool,
    pub memory_limit_bytes: Option<u64>,
    pub classes: Seq<Seq<char>>,
    pub comment: Seq<char>,
}

impl View for QosConfig {
    type V = Wanted;

    open spec fn view(&self) -> Wanted {
        Wanted {
            interface: self.interface@,
            direction: self.direction,
            kind: self.kind,
            bandwidth_bps: self.bandwidth_bps,
            latency_target_ms: self.latency_target_ms,
            overhead_bytes: self.overhead_bytes,
            ecn: self.ecn,
            wash: self.wash,
            memory_limit_bytes: self.memory_limit_bytes,
            classes: crate::text::strings(self.classes@),
            comment: self.comment@,
        }
    }
}

pub open spec fn wanted(v: Seq<QosConfig>) -> Seq<Wanted> {
    Seq::new(v.len(), |i: int| v[i]@)
}

impl QosConfig {
    /// The same, owned separately.
    pub fn duplicate(&self) -> (r: QosConfig)
        ensures
            r@ == self@,
    {
        QosConfig {
            interface: self.interface.clone(),
            direction: self.direction,
            kind: self.kind,
            bandwidth_bps: self.bandwidth_bps,
            latency_target_ms: self.latency_target_ms,
            overhead_bytes: self.overhead_bytes,
            ecn: self.ecn,
            wash: self.wash,
            memory_limit_bytes: self.memory_limit_bytes,
            classes: clone_strings(&self.classes),
            comment: self.comment.clone(),
        }
    }
}

/// The same, owned separately.
pub fn clone_configs(v: &Vec<QosConfig>) -> (r: Vec<QosConfig>)
    ensures
        wanted(r@) == wanted(v@),
{
    let mut out: Vec<QosConfig> = Vec::new();
    let mut i: usize = 0;
    while i < v.len()
        invariant
            i <= v@.len(),
            out@.len() == i,
            forall|k: int| 0 <= k < i ==> (#[trigger] out@[k])@ == v@[k]@,
        decreases v.len() - i,
    {
        out.push(v[i].duplicate());
        i += 1;
    }
    assert(wanted(out@) =~= wanted(v@));
    out
}

fn same_classes(a: &Vec<String>, b: &Vec<String>) -> (r: bool)
    ensures
        r == (crate::text::strings(a@) == crate::text::strings(b@)),
{
    let ghost x = crate::text::strings(a@);
    let ghost y = crate::text::strings(b@);
    if a.len() != b.len() {
        assert(x.len() != y.len());
        return false;
    }
    let mut i: usize = 0;
    while i < a.len()
        invariant
            i <= a@.len(),
            a@.len() == b@.len(),
            x == crate::text::strings(a@),
            y == crate::text::strings(b@),
            forall|k: int| 0 <= k < i ==> x[k] == y[k],
        decreases a.len() - i,
    {
        if !same_text(a[i].as_str(), b[i].as_str()) {
            assert(x[i as int] != y[i as int]);
            return false;
        }
        assert(x[i as int] == y[i as int]);
        i += 1;
    }
    assert(x =~= y);
    true
}

fn same_config(a: &QosConfig, b: &QosConfig) -> (r: bool)
    ensures
        r == (a@ == b@),
{
    same_text(a.interface.as_str(), b.interface.as_str()) && a.direction == b.direction && a.kind == b.kind
        && a.bandwidth_bps == b.bandwidth_bps && a.latency_target_ms == b.latency_target_ms && a.overhead_bytes
        == b.overhead_bytes && a.ecn == b.ecn && a.wash == b.wash && a.memory_limit_bytes == b.memory_limit_bytes
        && same_classes(&a.classes, &b.classes) && same_text(a.comment.as_str(), b.comment.as_str())
}

/// Whether the same is wanted.
pub fn same_configs(a: &Vec<QosConfig>, b: &Vec<QosConfig>) -> (r: bool)
    ensures
        r == (wanted(a@) == wanted(b@)),
{
    let ghost x = wanted(a@);
    let ghost y = wanted(b@);
    if a.len() != b.len() {
        assert(x.len() != y.len());
        return false;
    }
    let mut i: usize = 0;
    while i < a.len()
        invariant
            i <= a@.len(),
            a@.len() == b@.len(),
            x == wanted(a@),
            y == wanted(b@),
            forall|k: int| 0 <= k < i ==> x[k] == y[k],
        decreases a.len() - i,
    {
        if !same_config(&a[i], &b[i]) {
            assert(x[i as int] != y[i as int]);
            return false;
        }
        assert(x[i as int] == y[i as int]);
        i += 1;
    }
    assert(x =~= y);
    true
}

/// What the kernel does on an interface.
#[derive(Debug)]
pub struct AppliedQdisc {
    pub interface: String,
    pub index: u32,
    pub handle: String,
    pub parent: String,
    pub kind: Option<String>,
    /// Whether it was put there by this daemon.
    pub our_identity: bool,
    pub bandwidth_bps: Option<u64>,
    /// What it counted, as the executor writes it, where it counts.
    pub stats: Option<String>,
}

/// What the kernel does on an interface, as texts.
pub struct Live {
    pub interface: Seq<char>,
    pub index: u32,
    pub handle: Seq<char>,
    pub parent: Seq<char>,
    pub kind: Option<Seq<char>>,
    pub our_identity: bool,
    pub bandwidth_bps: Option<u64>,
    pub stats: Option<Seq<char>>,
}

impl View for AppliedQdisc {
    type V = Live;

    open spec fn view(&self) -> Live {
        Live {
            interface: self.interface@,
            index: self.index,
            handle: self.handle@,
            parent: self.parent@,
            kind: crate::text::text_of(self.kind),
            our_identity: self.our_identity,
            bandwidth_bps: self.bandwidth_bps,
            stats: crate::text::text_of(self.stats),
        }
    }
}

pub open spec fn live(v: Seq<AppliedQdisc>) -> Seq<Live> {
    Seq::new(v.len(), |i: int| v[i]@)
}

/// What the kernel can do.
#[derive(Debug, Clone, Copy, PartialEq, Eq, Structural)]
pub struct QosCapabilities {
    pub cake: bool,
    pub fq_codel: bool,
    pub ingress: bool,
}

/// A request to the executor.
#[derive(Debug)]
pub enum QosOp {
    Apply(QosConfig),
    Remove { interface: String },
}

/// A request to the executor, as texts.
pub enum Request {
    Apply(Wanted),
    Remove { interface: Seq<char> },
}

impl View for QosOp {
    type V = Request;

    open spec fn view(&self) -> Request {
        match self {
            QosOp::Apply(c) => Request::Apply(c@),
            QosOp::Remove { interface } => Request::Remove { interface: interface@ },
        }
    }
}

pub open spec fn requests(v: Seq<QosOp>) -> Seq<Request> {
    Seq::new(v.len(), |i: int| v[i]@)
}

/// What the executor answers.
#[derive(Debug)]
pub struct QosResult {
    pub op: String,
    pub interface: String,
    pub ok: bool,
    pub detail: String,
}

/// Why a request was not carried out. An answer that says so counts as a
/// failure like one that never came.
pub open spec fn failure(answer: Result<QosResult, String>) -> Option<Seq<char>> {
    match answer {
        Ok(r) => if r.ok { None } else { Some(r.op@ + ": "@ + r.detail@) },
        Err(e) => Some(e@),
    }
}

/// An answer that says that a request was not carried out is an error.
pub fn qos_result_to_result(result: &QosResult) -> (r: Result<(), String>)
    ensures
        r is Ok <==> result.ok,
        r matches Err(e) ==> e@ == result.op@ + ": "@ + result.detail@,
{
    if result.ok {
        Ok(())
    } else {
        let mut s = result.op.clone();
        s.append(": ");
        s.append(result.detail.as_str());
        Err(s)
    }
}

/// Whether what the kernel does is what is wanted. A rate that cake was asked to
/// keep has to be the one that is reported.
pub open spec fn satisfies(q: Live, c: Wanted) -> bool {
    &&& q.our_identity
    &&& q.interface == c.interface
    &&& q.kind == Some(kind_name(c.kind))
    &&& match (c.bandwidth_bps, q.bandwidth_bps) {
        (Some(want), Some(have)) => want == have,
        (Some(_), None) => c.kind != QdiscKind::Cake,
        (None, _) => true,
    }
}

/// Whether what the kernel does is what is wanted.
pub fn q_matches_config(q: &AppliedQdisc, config: &QosConfig) -> (r: bool)
    ensures
        r == satisfies(q@, config@),
{
    if !q.our_identity || !same_text(q.interface.as_str(), config.interface.as_str()) {
        return false;
    }
    if !option_is(&q.kind, config.kind.as_str()) {
        return false;
    }
    match (config.bandwidth_bps, q.bandwidth_bps) {
        (Some(want), Some(have)) => want == have,
        (Some(_), None) => config.kind != QdiscKind::Cake,
        (None, _) => true,
    }
}

/// Whether something that is wanted is done.
pub open spec fn is_done(c: Wanted, applied: Seq<Live>) -> bool {
    exists|i: int| 0 <= i < applied.len() && satisfies(#[trigger] applied[i], c)
}

fn done(c: &QosConfig, applied: &Vec<AppliedQdisc>) -> (r: bool)
    ensures
        r == is_done(c@, live(applied@)),
{
    let mut i: usize = 0;
    while i < applied.len()
        invariant
            i <= applied@.len(),
            forall|k: int| 0 <= k < i ==> !satisfies(#[trigger] live(applied@)[k], c@),
        decreases applied.len() - i,
    {
        if q_matches_config(&applied[i], c) {
            assert(satisfies(live(applied@)[i as int], c@));
            return true;
        }
        i += 1;
    }
    false
}

/// Whether something is wanted of an interface.
pub open spec fn is_wanted(interface: Seq<char>, desired: Seq<Wanted>) -> bool {
    exists|i: int| 0 <= i < desired.len() && (#[trigger] desired[i]).interface == interface
}

fn interface_wanted(interface: &str, desired: &Vec<QosConfig>) -> (r: bool)
    ensures
        r == is_wanted(interface@, wanted(desired@)),
{
    let mut i: usize = 0;
    while i < desired.len()
        invariant
            i <= desired@.len(),
            forall|k: int| 0 <= k < i ==> (#[trigger] wanted(desired@)[k]).interface != interface@,
        decreases desired.len() - i,
    {
        if same_text(desired[i].interface.as_str(), interface) {
            assert(wanted(desired@)[i as int].interface == interface@);
            return true;
        }
        i += 1;
    }
    false
}

/// Whether the kernel can do what is wanted.
pub open spec fn supports(caps: QosCapabilities, kind: QdiscKind) -> bool {
    match kind {
        QdiscKind::Cake => caps.cake,
        QdiscKind::FqCodel => caps.fq_codel,
        QdiscKind::Ingress => caps.ingress,
    }
}

/// The first thing that is wanted and that the kernel cannot do, as a text.
pub open spec fn unsupported(desired: Seq<Wanted>, caps: QosCapabilities) -> Option<Seq<char>>
    decreases desired.len(),
{
    if desired.len() == 0 {
        None
    } else {
        match unsupported(desired.drop_last(), caps) {
            Some(s) => Some(s),
            None => if supports(caps, desired.last().kind) {
                None
            } else {
                Some(
                    kind_name(desired.last().kind) + " not supported on "@ + desired.last().interface
                        + " (kernel/module missing)"@,
                )
            },
        }
    }
}

proof fn unsupported_stays(desired: Seq<Wanted>, caps: QosCapabilities, n: int)
    requires
        0 <= n <= desired.len(),
        unsupported(desired.take(n), caps) is Some,
    ensures
        unsupported(desired, caps) == unsupported(desired.take(n), caps),
    decreases desired.len(),
{
    if n == desired.len() {
        assert(desired.take(n) =~= desired);
    } else {
        assert(desired.drop_last().take(n) =~= desired.take(n));
        unsupported_stays(desired.drop_last(), caps, n);
    }
}

fn first_unsupported(desired: &Vec<QosConfig>, caps: &QosCapabilities) -> (r: Option<String>)
    ensures
        crate::text::text_of(r) == unsupported(wanted(desired@), *caps),
{
    let ghost all = wanted(desired@);
    let mut i: usize = 0;
    assert(all.take(0) =~= Seq::<Wanted>::empty());
    while i < desired.len()
        invariant
            i <= desired@.len(),
            all == wanted(desired@),
            unsupported(all.take(i as int), *caps) is None,
        decreases desired.len() - i,
    {
        assert(all.take(i as int + 1).drop_last() =~= all.take(i as int));
        let supported = match desired[i].kind {
            QdiscKind::Cake => caps.cake,
            QdiscKind::FqCodel => caps.fq_codel,
            QdiscKind::Ingress => caps.ingress,
        };
        if !supported {
            let mut s = owned(desired[i].kind.as_str());
            s.append(" not supported on ");
            s.append(desired[i].interface.as_str());
            s.append(" (kernel/module missing)");
            proof {
                unsupported_stays(all, *caps, i as int + 1);
            }
            return Some(s);
        }
        i += 1;
    }
    assert(all.take(i as int) =~= all);
    None
}

/// The removals: of what was put on interfaces of which nothing is wanted.
pub open spec fn removals(desired: Seq<Wanted>, applied: Seq<Live>) -> Seq<Request>
    decreases applied.len(),
{
    if applied.len() == 0 {
        Seq::empty()
    } else {
        let q = applied.last();
        let before = removals(desired, applied.drop_last());
        if q.our_identity && !is_wanted(q.interface, desired) {
            before.push(Request::Remove { interface: q.interface })
        } else {
            before
        }
    }
}

/// The changes: of what is wanted and not done.
pub open spec fn changes(desired: Seq<Wanted>, applied: Seq<Live>) -> Seq<Request>
    decreases desired.len(),
{
    if desired.len() == 0 {
        Seq::empty()
    } else {
        let c = desired.last();
        let before = changes(desired.drop_last(), applied);
        if is_done(c, applied) { before } else { before.push(Request::Apply(c)) }
    }
}

/// What is asked of the executor: removals first.
pub open spec fn asked_for(desired: Seq<Wanted>, applied: Seq<Live>) -> Seq<Request> {
    removals(desired, applied) + changes(desired, applied)
}

fn plan_requests(desired: &Vec<QosConfig>, applied: &Vec<AppliedQdisc>) -> (r: Vec<QosOp>)
    ensures
        requests(r@) == asked_for(wanted(desired@), live(applied@)),
{
    let ghost d = wanted(desired@);
    let ghost a = live(applied@);
    let mut out: Vec<QosOp> = Vec::new();
    let mut i: usize = 0;
    assert(a.take(0) =~= Seq::<Live>::empty());
    assert(requests(out@) =~= removals(d, a.take(0)));
    while i < applied.len()
        invariant
            i <= applied@.len(),
            d == wanted(desired@),
            a == live(applied@),
            requests(out@) == removals(d, a.take(i as int)),
        decreases applied.len() - i,
    {
        assert(a.take(i as int + 1).drop_last() =~= a.take(i as int));
        let ghost before = out@;
        if applied[i].our_identity && !interface_wanted(applied[i].interface.as_str(), desired) {
            let op = QosOp::Remove { interface: applied[i].interface.clone() };
            out.push(op);
            assert(requests(out@) =~= requests(before).push(op@));
        }
        i += 1;
    }
    assert(a.take(i as int) =~= a);
    let mut j: usize = 0;
    assert(d.take(0) =~= Seq::<Wanted>::empty());
    assert(requests(out@) =~= removals(d, a) + changes(d.take(0), a));
    while j < desired.len()
        invariant
            j <= desired@.len(),
            d == wanted(desired@),
            a == live(applied@),
            requests(out@) == removals(d, a) + changes(d.take(j as int), a),
        decreases desired.len() - j,
    {
        assert(d.take(j as int + 1).drop_last() =~= d.take(j as int));
        let ghost before = out@;
        if !done(&desired[j], applied) {
            let op = QosOp::Apply(desired[j].duplicate());
            out.push(op);
            assert(requests(out@) =~= requests(before).push(op@));
            assert(removals(d, a) + changes(d.take(j as int), a).push(op@) =~= (removals(d, a) + changes(
                d.take(j as int),
                a,
            )).push(op@));
        }
        j += 1;
    }
    assert(d.take(j as int) =~= d);
    out
}

/// Whether something is wanted of the interface and in the way of what the
/// kernel does.
pub open spec fn is_accounted_for(q: Live, desired: Seq<Wanted>) -> bool {
    exists|i: int|
        0 <= i < desired.len() && (#[trigger] desired[i]).interface == q.interface && kind_name(desired[i].kind)
            == match q.kind {
            Some(k) => k,
            None => ""@,
        }
}

fn accounted_for(q: &AppliedQdisc, desired: &Vec<QosConfig>) -> (r: bool)
    ensures
        r == is_accounted_for(q@, wanted(desired@)),
{
    let mut i: usize = 0;
    while i < desired.len()
        invariant
            i <= desired@.len(),
            forall|k: int|
                0 <= k < i ==> !((#[trigger] wanted(desired@)[k]).interface == q@.interface && kind_name(
                    wanted(desired@)[k].kind,
                ) == match q@.kind {
                    Some(s) => s,
                    None => ""@,
                }),
        decreases desired.len() - i,
    {
        let same_kind = match &q.kind {
            Some(s) => same_text(desired[i].kind.as_str(), s.as_str()),
            None => same_text(desired[i].kind.as_str(), ""),
        };
        if same_kind && same_text(desired[i].interface.as_str(), q.interface.as_str()) {
            assert(wanted(desired@)[i as int].interface == q@.interface);
            return true;
        }
        i += 1;
    }
    false
}

/// Whether what the kernel does is not what is wanted: something is not done,
/// or something was put there that is not wanted.
pub open spec fn drifted(desired: Seq<Wanted>, applied: Seq<Live>) -> bool {
    ||| exists|i: int| 0 <= i < desired.len() && !is_done(#[trigger] desired[i], applied)
    ||| exists|i: int|
        0 <= i < applied.len() && (#[trigger] applied[i]).our_identity && !is_accounted_for(applied[i], desired)
}

/// Whether what the kernel does is not what is wanted.
pub fn drift(desired: &Vec<QosConfig>, applied: &Vec<AppliedQdisc>) -> (r: bool)
    ensures
        r == drifted(wanted(desired@), live(applied@)),
{
    let ghost d = wanted(desired@);
    let ghost a = live(applied@);
    let mut i: usize = 0;
    while i < desired.len()
        invariant
            i <= desired@.len(),
            d == wanted(desired@),
            a == live(applied@),
            forall|k: int| 0 <= k < i ==> is_done(#[trigger] d[k], a),
        decreases desired.len() - i,
    {
        if !done(&desired[i], applied) {
            assert(!is_done(d[i as int], a));
            return true;
        }
        i += 1;
    }
    let mut j: usize = 0;
    while j < applied.len()
        invariant
            j <= applied@.len(),
            d == wanted(desired@),
            a == live(applied@),
            forall|k: int| 0 <= k < j ==> !((#[trigger] a[k]).our_identity && !is_accounted_for(a[k], d)),
        decreases applied.len() - j,
    {
        if applied[j].our_identity && !accounted_for(&applied[j], desired) {
            assert(a[j as int].our_identity && !is_accounted_for(a[j as int], d));
            return true;
        }
        j += 1;
    }
    false
}

/// What is told of a request that was carried out, or was not for a reason.
pub open spec fn outcome(op: Request, why: Option<Seq<char>>) -> crate::events::Told {
    match why {
        None => match op {
            Request::Apply(c) => crate::events::Told::QosApplied { interface: c.interface, kind: kind_name(c.kind) },
            Request::Remove { interface } => crate::events::Told::QosRemoved { interface },
        },
        Some(e) => crate::events::Told::QosError { detail: complaint(op, e) },
    }
}

/// What is said of a request that was not carried out.
pub open spec fn complaint(op: Request, e: Seq<char>) -> Seq<char> {
    match op {
        Request::Apply(c) => "apply "@ + kind_name(c.kind) + " on "@ + c.interface + ": "@ + e,
        Request::Remove { interface } => "orphan cleanup "@ + interface + ": "@ + e,
    }
}

/// What is told of requests that were answered, in order.
pub open spec fn outcomes(ops: Seq<Request>, answers: Seq<Result<QosResult, String>>) -> Seq<crate::events::Told> {
    Seq::new(ops.len(), |i: int| outcome(ops[i], failure(answers[i])))
}

/// What is said of the last request that was not carried out.
pub open spec fn last_complaint(ops: Seq<Request>, answers: Seq<Result<QosResult, String>>) -> Option<Seq<char>>
    decreases ops.len(),
{
    if ops.len() == 0 {
        None
    } else {
        match failure(answers[ops.len() - 1]) {
            Some(e) => Some(complaint(ops.last(), e)),
            None => last_complaint(ops.drop_last(), answers),
        }
    }
}

fn complain(op: &QosOp, e: &str) -> (r: String)
    ensures
        r@ == complaint(op@, e@),
{
    match op {
        QosOp::Apply(c) => {
            let mut s = owned("apply ");
            s.append(c.kind.as_str());
            s.append(" on ");
            s.append(c.interface.as_str());
            s.append(": ");
            s.append(e);
            s
        },
        QosOp::Remove { interface } => {
            let mut s = owned("orphan cleanup ");
            s.append(interface.as_str());
            s.append(": ");
            s.append(e);
            s
        },
    }
}

/// What is shown of shaping.
#[derive(Debug)]
pub struct QosSnapshot {
    pub desired: Vec<QosConfig>,
    pub applied: Vec<AppliedQdisc>,
    pub capabilities: Option<QosCapabilities>,
    pub drift: bool,
    pub last_error: Option<String>,
}

/// What a pass over shaping begins with.
#[derive(Debug)]
pub struct QosPass {
    /// What the kernel did at its beginning.
    pub applied: Vec<AppliedQdisc>,
    pub capabilities: QosCapabilities,
    /// What is asked of the executor.
    pub ops: Vec<QosOp>,
}

/// Keeps the kernel to what is wanted.
pub struct QosManager {
    pub intent: Vec<QosConfig>,
    pub snapshot: QosSnapshot,
}

impl QosManager {
    /// Nothing is wanted.
    pub fn new() -> (r: Self)
        ensures
            r.intent@.len() == 0,
            r.snapshot.desired@.len() == 0,
            r.snapshot.applied@.len() == 0,
            r.snapshot.capabilities is None,
            !r.snapshot.drift,
            r.snapshot.last_error is None,
    {
        QosManager {
            intent: Vec::new(),
            snapshot: QosSnapshot {
                desired: Vec::new(),
                applied: Vec::new(),
                capabilities: None,
                drift: false,
                last_error: None,
            },
        }
    }

    /// Want something else.
    pub fn set_qos_intent(&mut self, configs: Vec<QosConfig>)
        ensures
            final(self).intent == configs,
            final(self).snapshot == old(self).snapshot,
    {
        self.intent = configs;
    }

    /// Want nothing of an interface.
    pub fn remove_qos(&mut self, interface: &str)
        ensures
            wanted(final(self).intent@) == wanted(old(self).intent@).filter(|c: Wanted| c.interface != interface@),
            final(self).snapshot == old(self).snapshot,
    {
        let ghost p = |c: Wanted| c.interface != interface@;
        let ghost all = wanted(self.intent@);
        let mut kept: Vec<QosConfig> = Vec::new();
        let mut i: usize = 0;
        assert(wanted(kept@) =~= all.take(0).filter(p));
        while i < self.intent.len()
            invariant
                i <= self.intent@.len(),
                all == wanted(self.intent@),
                p == |c: Wanted| c.interface != interface@,
                wanted(kept@) == all.take(i as int).filter(p),
                self.snapshot == old(self).snapshot,
            decreases self.intent.len() - i,
        {
            proof {
                assert(all.take(i as int + 1) =~= all.take(i as int).push(all[i as int]));
                all.take(i as int).lemma_filter_push(all[i as int], p);
            }
            let ghost before = kept@;
            if !same_text(self.intent[i].interface.as_str(), interface) {
                kept.push(self.intent[i].duplicate());
                assert(wanted(kept@) =~= wanted(before).push(all[i as int]));
            }
            i += 1;
        }
        assert(all.take(i as int) =~= all);
        self.intent = kept;
    }

    /// Begin a pass, given what the kernel does and can do. What cannot be
    /// observed, and what is wanted and cannot be done, ends the pass with an
    /// error; the latter is told of too.
    pub fn begin(
        &mut self,
        state: Result<Vec<AppliedQdisc>, String>,
        capabilities: Result<QosCapabilities, String>,
        events: &mut Vec<SubsystemEvent>,
    ) -> (r: Result<QosPass, String>)
        ensures
            final(self).intent == old(self).intent,
            match (state, capabilities) {
                (Ok(applied), Ok(caps)) => match unsupported(wanted(old(self).intent@), caps) {
                    None => {
                        &&& r matches Ok(pass)
                        &&& pass.applied == applied
                        &&& pass.capabilities == caps
                        &&& requests(pass.ops@) == asked_for(wanted(old(self).intent@), live(applied@))
                        &&& final(self).snapshot == old(self).snapshot
                        &&& final(events)@ == old(events)@
                    },
                    Some(why) => {
                        &&& r matches Err(e)
                        &&& e@ == why
                        &&& fails_with(old(self).snapshot, final(self).snapshot, why)
                        &&& crate::events::told(final(events)@) == crate::events::told(old(events)@).push(
                            crate::events::Told::QosError { detail: why },
                        )
                    },
                },
                (Err(why), _) => {
                    &&& r matches Err(e)
                    &&& e@ == why@
                    &&& fails_with(old(self).snapshot, final(self).snapshot, why@)
                    &&& final(events)@ == old(events)@
                },
                (_, Err(why)) => {
                    &&& r matches Err(e)
                    &&& e@ == why@
                    &&& fails_with(old(self).snapshot, final(self).snapshot, why@)
                    &&& final(events)@ == old(events)@
                },
            },
    {
        let applied = match state {
            Ok(a) => a,
            Err(e) => {
                self.snapshot.last_error = Some(e.clone());
                self.snapshot.drift = true;
                return Err(e);
            },
        };
        let caps = match capabilities {
            Ok(c) => c,
            Err(e) => {
                self.snapshot.last_error = Some(e.clone());
                self.snapshot.drift = true;
                return Err(e);
            },
        };
        if let Some(why) = first_unsupported(&self.intent, &caps) {
            self.snapshot.last_error = Some(why.clone());
            self.snapshot.drift = true;
            tell(events, SubsystemEvent::QosError { detail: why.clone() });
            return Err(why);
        }
        let ops = plan_requests(&self.intent, &applied);
        Ok(QosPass { applied, capabilities: caps, ops })
    }

    /// End a pass, given the answers to its requests and what the kernel does
    /// now, if that can be observed.
    pub fn finish(
        &mut self,
        pass: QosPass,
        answers: &Vec<Result<QosResult, String>>,
        fresh: Result<Vec<AppliedQdisc>, String>,
        events: &mut Vec<SubsystemEvent>,
    )
        requires
            answers@.len() == pass.ops@.len(),
        ensures
            final(self).intent == old(self).intent,
            ({
                let now = match fresh {
                    Ok(a) => a,
                    Err(_) => pass.applied,
                };
                &&& wanted(final(self).snapshot.desired@) == wanted(old(self).intent@)
                &&& final(self).snapshot.applied == now
                &&& final(self).snapshot.capabilities == Some(pass.capabilities)
                &&& final(self).snapshot.drift == drifted(wanted(old(self).intent@), live(now@))
                &&& crate::text::text_of(final(self).snapshot.last_error) == last_complaint(
                    requests(pass.ops@),
                    answers@,
                )
            }),
            crate::events::told(final(events)@) == crate::events::told(old(events)@) + outcomes(
                requests(pass.ops@),
                answers@,
            ),
    {
        let ghost ops = requests(pass.ops@);
        let mut last_error: Option<String> = None;
        let mut i: usize = 0;
        assert(ops.take(0) =~= Seq::<Request>::empty());
        assert(crate::events::told(events@) =~= crate::events::told(old(events)@) + outcomes(ops.take(0), answers@));
        while i < pass.ops.len()
            invariant
                i <= pass.ops@.len(),
                answers@.len() == pass.ops@.len(),
                ops == requests(pass.ops@),
                *self == *old(self),
                crate::text::text_of(last_error) == last_complaint(ops.take(i as int), answers@),
                crate::events::told(events@) == crate::events::told(old(events)@) + outcomes(
                    ops.take(i as int),
                    answers@,
                ),
            decreases pass.ops.len() - i,
        {
            assert(ops.take(i as int + 1).drop_last() =~= ops.take(i as int));
            let ghost before = crate::events::told(events@);
            let op = &pass.ops[i];
            let why: Option<String> = match &answers[i] {
                Ok(r) => match qos_result_to_result(r) {
                    Ok(_) => None,
                    Err(e) => Some(e),
                },
                Err(e) => Some(e.clone()),
            };
            assert(crate::text::text_of(why) == failure(answers@[i as int]));
            match why {
                None => match op {
                    QosOp::Apply(c) => tell(
                        events,
                        SubsystemEvent::QosApplied { interface: c.interface.clone(), kind: owned(c.kind.as_str()) },
                    ),
                    QosOp::Remove { interface } => tell(
                        events,
                        SubsystemEvent::QosRemoved { interface: interface.clone() },
                    ),
                },
                Some(e) => {
                    let detail = complain(op, e.as_str());
                    tell(events, SubsystemEvent::QosError { detail: detail.clone() });
                    last_error = Some(detail);
                },
            }
            assert(crate::events::told(events@) =~= before.push(outcome(ops[i as int], failure(answers@[i as int]))));
            assert(outcomes(ops.take(i as int + 1), answers@) =~= outcomes(ops.take(i as int), answers@).push(
                outcome(ops[i as int], failure(answers@[i as int])),
            ));
            assert(crate::events::told(events@) =~= crate::events::told(old(events)@) + outcomes(
                ops.take(i as int + 1),
                answers@,
            ));
            i += 1;
        }
        assert(ops.take(i as int) =~= ops);
        let now = match fresh {
            Ok(a) => a,
            Err(_) => pass.applied,
        };
        let drift_now = drift(&self.intent, &now);
        self.snapshot = QosSnapshot {
            desired: clone_configs(&self.intent),
            applied: now,
            capabilities: Some(pass.capabilities),
            drift: drift_now,
            last_error,
        };
    }
}

/// Whether what is shown says that something failed, and nothing else changed.
pub open spec fn fails_with(before: QosSnapshot, after: QosSnapshot, why: Seq<char>) -> bool {
    &&& after.drift
    &&& crate::text::text_of(after.last_error) == Some(why)
    &&& after.desired == before.desired
    &&& after.applied == before.applied
    &&& after.capabilities == before.capabilities
}

/// Where nothing drifted nothing is asked of the executor.
pub proof fn no_drift_asks_for_nothing(desired: Seq<Wanted>, applied: Seq<Live>)
    requires
        !drifted(desired, applied),
    ensures
        asked_for(desired, applied) == Seq::<Request>::empty(),
{
    no_removals(desired, applied, applied.len() as int);
    no_changes(desired, applied, desired.len() as int);
    assert(applied.take(applied.len() as int) =~= applied);
    assert(desired.take(desired.len() as int) =~= desired);
    assert(asked_for(desired, applied) =~= Seq::<Request>::empty());
}

proof fn no_removals(desired: Seq<Wanted>, applied: Seq<Live>, n: int)
    requires
        !drifted(desired, applied),
        0 <= n <= applied.len(),
    ensures
        removals(desired, applied.take(n)) == Seq::<Request>::empty(),
    decreases n,
{
    if n > 0 {
        no_removals(desired, applied, n - 1);
        assert(applied.take(n).drop_last() =~= applied.take(n - 1));
        let q = applied[n - 1];
        if q.our_identity {
            assert(is_accounted_for(q, desired));
            let i = choose|i: int|
                0 <= i < desired.len() && (#[trigger] desired[i]).interface == q.interface && kind_name(desired[i].kind)
                    == match q.kind {
                    Some(k) => k,
                    None => ""@,
                };
            assert(is_wanted(q.interface, desired));
        }
    }
}

proof fn no_changes(desired: Seq<Wanted>, applied: Seq<Live>, n: int)
    requires
        !drifted(desired, applied),
        0 <= n <= desired.len(),
    ensures
        changes(desired.take(n), applied) == Seq::<Request>::empty(),
    decreases n,
{
    if n > 0 {
        no_changes(desired, applied, n - 1);
        assert(desired.take(n).drop_last() =~= desired.take(n - 1));
        assert(is_done(desired[n - 1], applied));
    }
}

/// Only what was put there by this daemon is ever removed, and only from
/// interfaces of which nothing is wanted.
pub proof fn only_our_own_is_removed(desired: Seq<Wanted>, applied: Seq<Live>, interface: Seq<char>)
    requires
        asked_for(desired, applied).contains(Request::Remove { interface }),
    ensures
        !is_wanted(interface, desired),
        exists|i: int| 0 <= i < applied.len() && (#[trigger] applied[i]).our_identity && applied[i].interface == interface,
{
    let all = asked_for(desired, applied);
    let k = choose|k: int| 0 <= k < all.len() && all[k] == (Request::Remove { interface });
    if k < removals(desired, applied).len() {
        removed_is_ours(desired, applied, k);
    } else {
        changes_apply(desired, applied, k - removals(desired, applied).len());
    }
}

proof fn removed_is_ours(desired: Seq<Wanted>, applied: Seq<Live>, k: int)
    requires
        0 <= k < removals(desired, applied).len(),
    ensures
        removals(desired, applied)[k] matches Request::Remove { interface } ==> !is_wanted(interface, desired)
            && exists|i: int|
            0 <= i < applied.len() && (#[trigger] applied[i]).our_identity && applied[i].interface == interface,
    decreases applied.len(),
{
    let q = applied.last();
    let before = removals(desired, applied.drop_last());
    if k < before.len() {
        removed_is_ours(desired, applied.drop_last(), k);
        if let Request::Remove { interface } = removals(desired, applied)[k] {
            let i = choose|i: int|
                0 <= i < applied.drop_last().len() && (#[trigger] applied.drop_last()[i]).our_identity
                    && applied.drop_last()[i].interface == interface;
            assert(applied[i].our_identity && applied[i].interface == interface);
        }
    } else {
        assert(applied[applied.len() - 1] == q);
    }
}

proof fn changes_apply(desired: Seq<Wanted>, applied: Seq<Live>, k: int)
    requires
        0 <= k < changes(desired, applied).len(),
    ensures
        changes(desired, applied)[k] is Apply,
    decreases desired.len(),
{
    let before = changes(desired.drop_last(), applied);
    if k < before.len() {
        changes_apply(desired.drop_last(), applied, k);
    }
}

/// What was put there as it was wanted is what is wanted: it is not asked for
/// again.
pub proof fn what_was_applied_is_done(c: Wanted, applied: Seq<Live>, i: int)
    requires
        0 <= i < applied.len(),
        applied[i] == (Live {
            interface: c.interface,
            kind: Some(kind_name(c.kind)),
            our_identity: true,
            bandwidth_bps: c.bandwidth_bps,
            ..applied[i]
        }),
    ensures
        is_done(c, applied),
{
    assert(satisfies(applied[i], c));
}

/// A discipline is what a configuration wants exactly where it is our own, on
/// its interface, of its kind, and of its bandwidth. One that wants a bandwidth
/// is not met by a discipline that reports none where it is of the kind that
/// reports it; one that wants none is met by any.
pub proof fn what_a_configuration_wants(q: Live, c: Wanted)
    ensures
        satisfies(q, c) ==> q.our_identity && q.interface == c.interface && q.kind == Some(kind_name(c.kind)),
        q.our_identity && q.interface == c.interface && q.kind == Some(kind_name(c.kind)) ==> {
            &&& c.bandwidth_bps is None ==> satisfies(q, c)
            &&& c.bandwidth_bps is Some && q.bandwidth_bps is Some ==> (satisfies(q, c) <==> c.bandwidth_bps
                == q.bandwidth_bps)
            &&& c.bandwidth_bps is Some && q.bandwidth_bps is None ==> (satisfies(q, c) <==> c.kind
                != QdiscKind::Cake)
        },
{
}

proof fn each_change_is_wanted(desired: Seq<Wanted>, applied: Seq<Live>, r: Request)
    ensures
        changes(desired, applied).contains(r) <==> exists|i: int|
            0 <= i < desired.len() && r == Request::Apply(#[trigger] desired[i]) && !is_done(desired[i], applied),
    decreases desired.len(),
{
    if desired.len() > 0 {
        let front = desired.drop_last();
        each_change_is_wanted(front, applied, r);
        crate::seqs::contains_after_push(changes(front, applied), Request::Apply(desired.last()), r);
        assert(desired[desired.len() - 1] == desired.last());
        if changes(front, applied).contains(r) {
            let i = choose|i: int|
                0 <= i < front.len() && r == Request::Apply(#[trigger] front[i]) && !is_done(front[i], applied);
            assert(desired[i] == front[i]);
        }
        if exists|i: int|
            0 <= i < desired.len() && r == Request::Apply(#[trigger] desired[i]) && !is_done(desired[i], applied) {
            let i = choose|i: int|
                0 <= i < desired.len() && r == Request::Apply(#[trigger] desired[i]) && !is_done(desired[i], applied);
            if i < front.len() {
                assert(front[i] == desired[i]);
            }
        }
    }
}

proof fn each_removal_is_ours(desired: Seq<Wanted>, applied: Seq<Live>, r: Request)
    ensures
        removals(desired, applied).contains(r) <==> exists|i: int|
            0 <= i < applied.len() && r == (Request::Remove { interface: (#[trigger] applied[i]).interface })
                && applied[i].our_identity && !is_wanted(applied[i].interface, desired),
    decreases applied.len(),
{
    if applied.len() > 0 {
        let front = applied.drop_last();
        each_removal_is_ours(desired, front, r);
        crate::seqs::contains_after_push(
            removals(desired, front),
            Request::Remove { interface: applied.last().interface },
            r,
        );
        assert(applied[applied.len() - 1] == applied.last());
        if removals(desired, front).contains(r) {
            let i = choose|i: int|
                0 <= i < front.len() && r == (Request::Remove { interface: (#[trigger] front[i]).interface })
                    && front[i].our_identity && !is_wanted(front[i].interface, desired);
            assert(applied[i] == front[i]);
        }
        if exists|i: int|
            0 <= i < applied.len() && r == (Request::Remove { interface: (#[trigger] applied[i]).interface })
                && applied[i].our_identity && !is_wanted(applied[i].interface, desired) {
            let i = choose|i: int|
                0 <= i < applied.len() && r == (Request::Remove { interface: (#[trigger] applied[i]).interface })
                    && applied[i].our_identity && !is_wanted(applied[i].interface, desired);
            if i < front.len() {
                assert(front[i] == applied[i]);
            }
        }
    }
}

proof fn requests_are_of_two_kinds(desired: Seq<Wanted>, applied: Seq<Live>, r: Request)
    ensures
        asked_for(desired, applied).contains(r) <==> removals(desired, applied).contains(r) || changes(
            desired,
            applied,
        ).contains(r),
{
    let a = removals(desired, applied);
    let b = changes(desired, applied);
    let all = asked_for(desired, applied);
    if a.contains(r) {
        assert(all[a.index_of(r)] == r);
    }
    if b.contains(r) {
        assert(all[a.len() + b.index_of(r)] == r);
    }
    if all.contains(r) {
        let k = all.index_of(r);
        if k < a.len() {
            assert(a[k] == r);
        } else {
            assert(b[k - a.len()] == r);
        }
    }
}

/// Each configuration that no discipline satisfies is asked for, whole and as it
/// is wanted; one that is satisfied is not asked for, nor is anything that is
/// not wanted.
pub proof fn what_is_missing_is_asked_for_whole(desired: Seq<Wanted>, applied: Seq<Live>, c: Wanted)
    ensures
        asked_for(desired, applied).contains(Request::Apply(c)) <==> desired.contains(c) && forall|i: int|
            0 <= i < applied.len() ==> !satisfies(#[trigger] applied[i], c),
{
    let r = Request::Apply(c);
    each_change_is_wanted(desired, applied, r);
    each_removal_is_ours(desired, applied, r);
    requests_are_of_two_kinds(desired, applied, r);
    if desired.contains(c) {
        let i = desired.index_of(c);
        assert(desired[i] == c);
    }
}

/// A discipline of our own on an interface that nothing is wanted for is
/// removed, and nothing else is.
pub proof fn what_is_left_over_is_removed(desired: Seq<Wanted>, applied: Seq<Live>, interface: Seq<char>)
    ensures
        asked_for(desired, applied).contains(Request::Remove { interface }) <==> (exists|i: int|
            0 <= i < applied.len() && (#[trigger] applied[i]).our_identity && applied[i].interface == interface)
            && forall|i: int| 0 <= i < desired.len() ==> (#[trigger] desired[i]).interface != interface,
{
    let r = Request::Remove { interface };
    each_change_is_wanted(desired, applied, r);
    each_removal_is_ours(desired, applied, r);
    requests_are_of_two_kinds(desired, applied, r);
}

/// Nothing is asked for before everything that is left over is removed, and what
/// is asked for stands in the order in which it is wanted.
pub proof fn removals_come_first(desired: Seq<Wanted>, applied: Seq<Live>, c: Wanted)
    ensures
        asked_for(desired, applied) == removals(desired, applied) + changes(desired, applied),
        forall|k: int| 0 <= k < removals(desired, applied).len() ==> #[trigger] removals(desired, applied)[k] is Remove,
        is_done(c, applied) ==> changes(desired.push(c), applied) == changes(desired, applied),
        !is_done(c, applied) ==> changes(desired.push(c), applied) == changes(desired, applied).push(Request::Apply(c)),
{
    assert(desired.push(c).drop_last() =~= desired);
    assert forall|k: int| 0 <= k < removals(desired, applied).len() implies #[trigger] removals(
        desired,
        applied,
    )[k] is Remove by {
        let r = removals(desired, applied)[k];
        assert(removals(desired, applied).contains(r));
        each_removal_is_ours(desired, applied, r);
    }
}

/// A kind is supported where the kernel has it.
pub proof fn kernels_support_kinds(caps: QosCapabilities)
    ensures
        supports(caps, QdiscKind::Cake) == caps.cake,
        supports(caps, QdiscKind::FqCodel) == caps.fq_codel,
        supports(caps, QdiscKind::Ingress) == caps.ingress,
{
}

/// Nothing is done where something that is wanted is not supported, and the
/// first such thing is reported.
pub proof fn the_first_unsupported_is_reported(desired: Seq<Wanted>, caps: QosCapabilities)
    ensures
        unsupported(desired, caps) is None <==> forall|i: int|
            0 <= i < desired.len() ==> supports(caps, (#[trigger] desired[i]).kind),
        unsupported(desired, caps) is Some ==> exists|i: int|
            0 <= i < desired.len() && !supports(caps, (#[trigger] desired[i]).kind) && unsupported(desired, caps)
                == Some(
                kind_name(desired[i].kind) + " not supported on "@ + desired[i].interface
                    + " (kernel/module missing)"@,
            ) && forall|k: int| 0 <= k < i ==> supports(caps, (#[trigger] desired[k]).kind),
    decreases desired.len(),
{
    if desired.len() > 0 {
        let front = desired.drop_last();
        the_first_unsupported_is_reported(front, caps);
        let n = desired.len() - 1;
        assert(desired[n] == desired.last());
        if unsupported(front, caps) is None {
            assert forall|k: int| 0 <= k < n implies supports(caps, (#[trigger] desired[k]).kind) by {
                assert(front[k] == desired[k]);
            }
        } else {
            let i = choose|i: int|
                0 <= i < front.len() && !supports(caps, (#[trigger] front[i]).kind) && unsupported(front, caps)
                    == Some(
                    kind_name(front[i].kind) + " not supported on "@ + front[i].interface
                        + " (kernel/module missing)"@,
                ) && forall|k: int| 0 <= k < i ==> supports(caps, (#[trigger] front[k]).kind);
            assert(desired[i] == front[i]);
            assert forall|k: int| 0 <= k < i implies supports(caps, (#[trigger] desired[k]).kind) by {
                assert(front[k] == desired[k]);
            }
        }
    }
}

/// Whether no discipline satisfies a configuration.
pub open spec fn unmet(c: Wanted, applied: Seq<Live>) -> bool {
    forall|k: int| 0 <= k < applied.len() ==> !satisfies(#[trigger] applied[k], c)
}

/// What is in force has drifted exactly where something that is wanted is not
/// satisfied, or a discipline of our own is of no kind that is wanted on its
/// interface.
pub proof fn what_counts_as_drift(desired: Seq<Wanted>, applied: Seq<Live>)
    ensures
        drifted(desired, applied) <==> (exists|i: int| 0 <= i < desired.len() && unmet(#[trigger] desired[i], applied))
            || (exists|i: int|
            0 <= i < applied.len() && (#[trigger] applied[i]).our_identity && !is_accounted_for(applied[i], desired)),
        forall|q: Live, k: int|
            0 <= k < desired.len() && q.interface == (#[trigger] desired[k]).interface && q.kind == Some(
                kind_name(desired[k].kind),
            ) ==> #[trigger] is_accounted_for(q, desired),
{
    assert forall|i: int| 0 <= i < desired.len() implies (unmet(#[trigger] desired[i], applied) <==> !is_done(
        desired[i],
        applied,
    )) by {}
}

/// What became of a request is told: a success by its interface, a failure with
/// what was asked for and why it failed.
pub proof fn requests_are_told_one_by_one(ops: Seq<Request>, answers: Seq<Result<QosResult, String>>, i: int)
    requires
        0 <= i < ops.len(),
    ensures
        outcomes(ops, answers).len() == ops.len(),
        failure(answers[i]) is None ==> (ops[i] matches Request::Apply(c) ==> outcomes(ops, answers)[i] == (
        crate::events::Told::QosApplied { interface: c.interface, kind: kind_name(c.kind) })),
        failure(answers[i]) is None ==> (ops[i] matches Request::Remove { interface } ==> outcomes(ops, answers)[i] == (
        crate::events::Told::QosRemoved { interface })),
        failure(answers[i]) matches Some(e) ==> (ops[i] matches Request::Apply(c) ==> outcomes(ops, answers)[i] == (
        crate::events::Told::QosError {
            detail: "apply "@ + kind_name(c.kind) + " on "@ + c.interface + ": "@ + e,
        })),
        failure(answers[i]) matches Some(e) ==> (ops[i] matches Request::Remove { interface } ==> outcomes(
            ops,
            answers,
        )[i] == (crate::events::Told::QosError { detail: "orphan cleanup "@ + interface + ": "@ + e })),
{
}

/// An answer is a failure where it says so, or where there was none.
pub proof fn which_answers_are_failures(answer: Result<QosResult, String>)
    ensures
        failure(answer) is None <==> answer is Ok && answer->Ok_0.ok,
        answer matches Err(e) ==> failure(answer) == Some(e@),
        answer matches Ok(r) ==> (!r.ok ==> failure(answer) == Some(r.op@ + ": "@ + r.detail@)),
{
}

/// The last failure is remembered.
pub proof fn the_last_failure_is_remembered(ops: Seq<Request>, answers: Seq<Result<QosResult, String>>, i: int)
    requires
        0 <= i < ops.len(),
        failure(answers[i]) is Some,
        forall|k: int| i < k < ops.len() ==> failure(#[trigger] answers[k]) is None,
    ensures
        last_complaint(ops, answers) == Some(complaint(ops[i], failure(answers[i])->0)),
    decreases ops.len(),
{
    if i < ops.len() - 1 {
        assert(failure(answers[ops.len() - 1]) is None);
        the_last_failure_is_remembered(ops.drop_last(), answers, i);
    }
}

/// Where nothing failed nothing is remembered.
pub proof fn no_failure_is_made_up(ops: Seq<Request>, answers: Seq<Result<QosResult, String>>)
    requires
        forall|k: int| 0 <= k < ops.len() ==> failure(#[trigger] answers[k]) is None,
    ensures
        last_complaint(ops, answers) is None,
    decreases ops.len(),
{
    if ops.len() > 0 {
        assert(failure(answers[ops.len() - 1]) is None);
        no_failure_is_made_up(ops.drop_last(), answers);
    }
}

/// Two configurations are shown alike exactly where nothing about them differs.
pub proof fn configurations_are_told_apart(a: QosConfig, b: QosConfig)
    ensures
        a@ == b@ <==> a.interface@ == b.interface@ && a.direction == b.direction && a.kind == b.kind
            && a.bandwidth_bps == b.bandwidth_bps && a.latency_target_ms == b.latency_target_ms && a.overhead_bytes
            == b.overhead_bytes && a.ecn == b.ecn && a.wash == b.wash && a.memory_limit_bytes == b.memory_limit_bytes
            && crate::text::strings(a.classes@) == crate::text::strings(b.classes@) && a.comment@ == b.comment@,
{
}

} // verus!
