//! Measuring what an interface can carry.
//!
//! A transfer with `iperf3` is preferred; else a bounded download is timed. The
//! speed that a link advertises is never taken for a measurement.
use vstd::prelude::*;
use vstd::string::*;

use crate::json::{json_field, JsonField};
use crate::reconciliation::executor_client::lossy_text;
use crate::text::{decimal_of, owned};

verus! {

/// How long a measurement takes at most, in seconds.
pub const PROBE_MAX_SECS: u64 = 6;

/// How much is downloaded at most.
pub const PROBE_MAX_BYTES: u64 = 268435456;

/// How much is read at a time.
pub const PROBE_BUFFER: usize = 131072;

/// Who is asked for data.
#[derive(Debug)]
pub struct ProbeTarget {
    pub host: String,
    pub port: u16,
}

/// A measurement: how many bits were carried over a time. None at all where
/// nothing could be measured.
#[derive(Debug)]
pub struct ThroughputResult {
    pub bits: u64,
    pub over_ns: u64,
    /// How it was measured.
    pub method: &'static str,
    pub detail: String,
}

/// A second, in nanoseconds.
pub const SECOND_NS: u64 = 1000000000;

/// The result where there is nobody to ask.
pub fn no_target() -> (r: ThroughputResult)
    ensures
        r.bits == 0,
        r.over_ns == SECOND_NS,
        r.method@ == "none"@,
        r.detail@ == "no probe target configured (set BALANSIR_PROBE_HOST/PORT)"@,
{
    ThroughputResult {
        bits: 0,
        over_ns: SECOND_NS,
        method: "none",
        detail: owned("no probe target configured (set BALANSIR_PROBE_HOST/PORT)"),
    }
}

/// The arguments of `iperf3`.
pub open spec fn arguments(host: Seq<char>, port: nat) -> Seq<Seq<char>> {
    seq!["-c"@, host, "-p"@, crate::text::decimal(port), "-t"@, crate::text::decimal(6), "-f"@, "m"@, "--json"@]
}

/// The arguments of `iperf3` for a target.
pub fn iperf3_args(target: &ProbeTarget) -> (r: Vec<String>)
    ensures
        crate::text::strings(r@) == arguments(target.host@, target.port as nat),
{
    let mut v: Vec<String> = Vec::new();
    v.push(owned("-c"));
    v.push(target.host.clone());
    v.push(owned("-p"));
    v.push(decimal_of(target.port as u64));
    v.push(owned("-t"));
    v.push(decimal_of(PROBE_MAX_SECS));
    v.push(owned("-f"));
    v.push(owned("m"));
    v.push(owned("--json"));
    assert(crate::text::strings(v@) =~= arguments(target.host@, target.port as nat));
    v
}

/// What is under a key of what a field holds, where it holds an object.
pub open spec fn inner(f: crate::json::Field, key: Seq<char>) -> crate::json::Field {
    match f {
        crate::json::Field::Other(text) => crate::json::member(text, key),
        _ => crate::json::Field::Missing,
    }
}

/// The number that a field holds.
pub open spec fn number_in(f: crate::json::Field) -> Option<u64> {
    match f {
        crate::json::Field::Number { value, .. } => value,
        _ => None,
    }
}

/// The rate in bits per second that a report of `iperf3` holds.
pub open spec fn reported_bps(json: Seq<char>) -> Option<u64> {
    number_in(
        inner(inner(crate::json::member(json, "end"@), "sum_received"@), "bits_per_second"@),
    )
}

fn inner_field(f: &JsonField, key: &str) -> (r: JsonField)
    ensures
        r@ == inner(f@, key@),
{
    match f {
        JsonField::Other(text) => json_field(text.as_str(), key),
        _ => JsonField::Missing,
    }
}

/// The number that a field holds.
pub fn field_number(f: &JsonField) -> (r: Option<u64>)
    ensures
        r == number_in(f@),
{
    match f {
        JsonField::Number { value, .. } => *value,
        _ => None,
    }
}

/// The rate in bits per second that a report of `iperf3` holds, under
/// `end`, `sum_received` and `bits_per_second`.
pub fn parse_iperf3_bps(json: &str) -> (r: Option<u64>)
    ensures
        r == reported_bps(json@),
{
    let end = json_field(json, "end");
    let sum = inner_field(&end, "sum_received");
    let rate = inner_field(&sum, "bits_per_second");
    field_number(&rate)
}

/// What a run of `iperf3` measured. Nothing where it failed, took too long or
/// reported no rate.
pub fn iperf3_result(success: bool, elapsed_ns: u64, stdout: &Vec<u8>) -> (r: Option<ThroughputResult>)
    ensures
        r is Some <==> success && elapsed_ns <= (PROBE_MAX_SECS + 2) * SECOND_NS && reported_bps(
            crate::reconciliation::executor_client::lossy(stdout@),
        ) is Some,
        r matches Some(t) ==> {
            &&& Some(t.bits) == reported_bps(crate::reconciliation::executor_client::lossy(stdout@))
            &&& t.over_ns == SECOND_NS
            &&& t.method@ == "iperf3"@
            &&& t.detail@ == "measured with iperf3 TCP transfer"@
        },
{
    if !success {
        return None;
    }
    if elapsed_ns > (PROBE_MAX_SECS + 2) * SECOND_NS {
        return None;
    }
    let text = lossy_text(stdout);
    match parse_iperf3_bps(text.as_str()) {
        Some(bits) => Some(
            ThroughputResult {
                bits,
                over_ns: SECOND_NS,
                method: "iperf3",
                detail: owned("measured with iperf3 TCP transfer"),
            },
        ),
        None => None,
    }
}

/// A download that is timed.
#[derive(Debug, Clone, Copy, PartialEq, Eq, Structural)]
pub struct NativeProbe {
    pub total: u64,
}

impl NativeProbe {
    pub fn new() -> (r: Self)
        ensures
            r.total == 0,
    {
        NativeProbe { total: 0 }
    }

    /// Take note of what was read, a buffer at most. Whether to read on: not at
    /// the end, not when enough was read and not when the time is up.
    pub fn on_read(&mut self, n: usize, elapsed_secs: u64) -> (r: bool)
        requires
            old(self).total < PROBE_MAX_BYTES,
            n <= PROBE_BUFFER,
        ensures
            final(self).total == old(self).total + n,
            r == (n > 0 && final(self).total < PROBE_MAX_BYTES && elapsed_secs < PROBE_MAX_SECS),
    {
        self.total = self.total + n as u64;
        n > 0 && self.total < PROBE_MAX_BYTES && elapsed_secs < PROBE_MAX_SECS
    }

    /// What the download measured, given the time it took, which is handed over
    /// as a text too.
    pub fn result(&self, elapsed_ns: u64, seconds: &str) -> (r: ThroughputResult)
        requires
            self.total < PROBE_MAX_BYTES + PROBE_BUFFER,
        ensures
            r.method@ == "native"@,
            if elapsed_ns == 0 || self.total == 0 {
                r.bits == 0 && r.over_ns == SECOND_NS && r.detail@ == "no data received (is the endpoint streaming?)"@
            } else {
                r.bits == self.total * 8 && r.over_ns == elapsed_ns && r.detail@ == "downloaded "@
                    + crate::text::decimal((self.total / 1048576) as nat) + " MiB in "@ + seconds@ + "s"@
            },
    {
        if elapsed_ns == 0 || self.total == 0 {
            return ThroughputResult {
                bits: 0,
                over_ns: SECOND_NS,
                method: "native",
                detail: owned("no data received (is the endpoint streaming?)"),
            };
        }
        let mut s = owned("downloaded ");
        s.append(decimal_of(self.total / 1024 / 1024).as_str());
        s.append(" MiB in ");
        s.append(seconds);
        s.append("s");
        ThroughputResult { bits: self.total * 8, over_ns: elapsed_ns, method: "native", detail: s }
    }
}

/// The result where nobody could be reached.
pub fn no_connection(why: &str) -> (r: ThroughputResult)
    ensures
        r.bits == 0,
        r.over_ns == SECOND_NS,
        r.method@ == "native"@,
        r.detail@ == "TCP connect failed: "@ + why@,
{
    let mut s = owned("TCP connect failed: ");
    s.append(why);
    ThroughputResult { bits: 0, over_ns: SECOND_NS, method: "native", detail: s }
}

/// The tool is run against the host and port of the target, for six seconds,
/// and reports in megabits as JSON.
pub proof fn the_tool_is_told_its_target(host: Seq<char>, port: nat)
    ensures
        ({
            let a = arguments(host, port);
            &&& a.len() == 9
            &&& a[0] == "-c"@ && a[1] == host
            &&& a[2] == "-p"@ && a[3] == crate::text::decimal(port)
            &&& a[4] == "-t"@ && a[5] == seq!['6']
            &&& a[6] == "-f"@ && a[7] == "m"@
            &&& a[8] == "--json"@
        }),
{
}

/// A rate is a number of its own; nothing else in its place is one.
pub proof fn rates_are_numbers(text: Seq<char>, value: Option<u64>, flag: bool)
    ensures
        number_in(crate::json::Field::Number { text, value }) == value,
        number_in(crate::json::Field::Text(text)) is None,
        number_in(crate::json::Field::Flag(flag)) is None,
        number_in(crate::json::Field::Missing) is None,
        number_in(crate::json::Field::Unreadable) is None,
        number_in(crate::json::Field::Other(text)) is None,
{
}

/// A part is looked for in an object only.
pub proof fn parts_are_those_of_objects(text: Seq<char>, key: Seq<char>, flag: bool)
    ensures
        inner(crate::json::Field::Other(text), key) == crate::json::member(text, key),
        inner(crate::json::Field::Text(text), key) is Missing,
        inner(crate::json::Field::Flag(flag), key) is Missing,
        inner(crate::json::Field::Missing, key) is Missing,
        inner(crate::json::Field::Unreadable, key) is Missing,
{
}

/// A probe ends after six seconds or 256 megabytes, whichever comes first.
pub proof fn probes_are_bounded()
    ensures
        PROBE_MAX_SECS == 6,
        PROBE_MAX_BYTES == 256 * 1024 * 1024,
        PROBE_BUFFER == 128 * 1024,
        SECOND_NS == 1_000_000_000,
{
}

} // verus!
