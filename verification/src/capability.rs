//! From observed hardware resources to a resource tier and the features that
//! are to be had with it.
use vstd::prelude::*;
use vstd::slice::slice_subrange;

use crate::text::{chars_of, find_char, lines, owned, parse_unsigned, same_chars, same_text, trim, words};

verus! {

/// Below this many megabytes a device is in the minimal tier.
pub const MINIMAL_RAM_MB: u64 = 768;

/// Below this many megabytes a device is in the standard tier.
pub const STANDARD_RAM_MB: u64 = 4096;

/// Whether a feature can be used, and why not, or not fully.
#[derive(Debug)]
pub struct FeatureAvailability {
    pub name: String,
    pub available: bool,
    pub limited: bool,
    pub reason: Option<String>,
}

/// What a device can do.
#[derive(Debug)]
pub struct CapabilityProfile {
    pub tier: String,
    pub ram_mb: u64,
    pub cores: u32,
    pub features: Vec<FeatureAvailability>,
}

/// Whether a feature can be used.
pub struct Feature {
    pub name: Seq<char>,
    pub available: bool,
    pub limited: bool,
    pub reason: Option<Seq<char>>,
}

impl View for FeatureAvailability {
    type V = Feature;

    open spec fn view(&self) -> Feature {
        Feature {
            name: self.name@,
            available: self.available,
            limited: self.limited,
            reason: match self.reason {
                Some(s) => Some(s@),
                None => None,
            },
        }
    }
}

pub open spec fn features_of(v: Seq<FeatureAvailability>) -> Seq<Feature> {
    Seq::new(v.len(), |i: int| v[i]@)
}

pub open spec fn full(name: Seq<char>) -> Feature {
    Feature { name, available: true, limited: false, reason: None }
}

pub open spec fn restricted(name: Seq<char>, reason: Seq<char>) -> Feature {
    Feature { name, available: true, limited: true, reason: Some(reason) }
}

pub open spec fn missing(name: Seq<char>, reason: Seq<char>) -> Feature {
    Feature { name, available: false, limited: false, reason: Some(reason) }
}

impl FeatureAvailability {
    /// A feature that can be used.
    pub fn available(name: &str) -> (r: Self)
        ensures
            r@ == full(name@),
    {
        FeatureAvailability { name: owned(name), available: true, limited: false, reason: None }
    }

    /// A feature that can be used within limits.
    pub fn limited(name: &str, reason: &str) -> (r: Self)
        ensures
            r@ == restricted(name@, reason@),
    {
        FeatureAvailability { name: owned(name), available: true, limited: true, reason: Some(owned(reason)) }
    }

    /// A feature that cannot be used.
    pub fn unavailable(name: &str, reason: &str) -> (r: Self)
        ensures
            r@ == missing(name@, reason@),
    {
        FeatureAvailability { name: owned(name), available: false, limited: false, reason: Some(owned(reason)) }
    }
}

/// The number behind `MemTotal:` in a line, if the line has one.
pub open spec fn mem_total_in(line: Seq<char>) -> Option<nat> {
    let w = crate::text::words_of(line);
    if w.len() >= 2 && w[0] == "MemTotal:"@ {
        crate::text::parsed(w[1], u64::MAX as nat)
    } else {
        None
    }
}

/// The first such number in some lines.
pub open spec fn first_mem_total(l: Seq<Seq<char>>) -> Option<nat>
    decreases l.len(),
{
    if l.len() == 0 {
        None
    } else if mem_total_in(l[0]) is Some {
        mem_total_in(l[0])
    } else {
        first_mem_total(l.skip(1))
    }
}

/// The memory that a memory report names, in megabytes; zero where it names
/// none.
pub open spec fn ram_mb_in(meminfo: Seq<char>) -> u64 {
    match first_mem_total(crate::text::lines_of(meminfo)) {
        Some(kb) => (kb / 1024) as u64,
        None => 0,
    }
}

fn line_mem_total(line: &Vec<char>) -> (r: Option<u64>)
    ensures
        r matches Some(n) ==> mem_total_in(line@) == Some(n as nat),
        r is None ==> mem_total_in(line@) is None,
{
    let w = words(line);
    let ghost all = crate::text::words_of(line@);
    if w.len() < 2 {
        return None;
    }
    assert(all[0] == w@[0]@ && all[1] == w@[1]@);
    let tag = chars_of("MemTotal:");
    if !same_chars(&w[0], &tag) {
        return None;
    }
    parse_unsigned(&w[1], u64::MAX)
}

/// The memory that a memory report names, in megabytes.
pub fn total_ram_mb(meminfo: &str) -> (r: u64)
    ensures
        r == ram_mb_in(meminfo@),
{
    let l = lines(&chars_of(meminfo));
    let ghost all = crate::text::lines_of(meminfo@);
    let mut i: usize = 0;
    assert(all.skip(0) =~= all);
    while i < l.len()
        invariant
            i <= l.len(),
            all == crate::text::texts(l@),
            all == crate::text::lines_of(meminfo@),
            first_mem_total(all) == first_mem_total(all.skip(i as int)),
        decreases l.len() - i,
    {
        assert(all.skip(i as int)[0] == l@[i as int]@);
        if let Some(kb) = line_mem_total(&l[i]) {
            return kb / 1024;
        }
        assert(all.skip(i as int).skip(1) =~= all.skip(i as int + 1));
        i += 1;
    }
    0
}

/// The number of processors that a range such as `0-3` or `0` names, or one
/// where it names none.
pub open spec fn cpus_in(text: Seq<char>) -> nat {
    let s = crate::text::trimmed(text);
    let dash = crate::text::index_of(s, '-') as int;
    let lo = crate::text::parsed(if dash < s.len() { s.take(dash) } else { s }, u32::MAX as nat);
    let hi = if dash < s.len() { crate::text::parsed(s.skip(dash + 1), u32::MAX as nat) } else { None };
    match (lo, hi) {
        (Some(a), Some(b)) => if a <= b && b - a < u32::MAX { (b - a + 1) as nat } else { 1 },
        (Some(a), None) => if a < u32::MAX { a + 1 } else { 1 },
        _ => 1,
    }
}

/// The number of processors that a range such as `0-3` or `0` names. A range
/// that runs backwards or names more than can be counted counts as one.
pub fn cpu_count(text: &str) -> (r: u32)
    ensures
        r == cpus_in(text@),
{
    let all = chars_of(text);
    let s = trim(&all);
    let dash = find_char(s, '-');
    let lo: Option<u64>;
    let hi: Option<u64>;
    if dash < s.len() {
        assert(s@.subrange(0, dash as int) =~= s@.take(dash as int));
        assert(s@.subrange(dash as int + 1, s@.len() as int) =~= s@.skip(dash as int + 1));
        lo = parse_unsigned(slice_subrange(s, 0, dash), u32::MAX as u64);
        hi = parse_unsigned(slice_subrange(s, dash + 1, s.len()), u32::MAX as u64);
    } else {
        lo = parse_unsigned(s, u32::MAX as u64);
        hi = None;
    }
    match (lo, hi) {
        (Some(a), Some(b)) => if a <= b && b - a < u32::MAX as u64 { (b - a + 1) as u32 } else { 1 },
        (Some(a), None) => if a < u32::MAX as u64 { (a + 1) as u32 } else { 1 },
        _ => 1,
    }
}

/// The tier of a device with some megabytes of memory.
pub open spec fn tier_name(ram_mb: u64) -> Seq<char> {
    if ram_mb == 0 {
        "Unknown"@
    } else if ram_mb < MINIMAL_RAM_MB {
        "Minimal"@
    } else if ram_mb < STANDARD_RAM_MB {
        "Standard"@
    } else {
        "Performance"@
    }
}

pub fn tier_for(ram_mb: u64) -> (r: &'static str)
    ensures
        r@ == tier_name(ram_mb),
{
    if ram_mb == 0 {
        "Unknown"
    } else if ram_mb < MINIMAL_RAM_MB {
        "Minimal"
    } else if ram_mb < STANDARD_RAM_MB {
        "Standard"
    } else {
        "Performance"
    }
}

/// The features that every tier has.
pub open spec fn core_features() -> Seq<Feature> {
    seq![
        full("Policy engine"@),
        full("Firewall / nftables"@),
        full("DNS policy plane"@),
        full("B4 connectivity adaptation"@),
        full("QoS / qdisc shaping"@),
    ]
}

/// The features whose availability depends on the tier.
pub open spec fn tier_features(tier: Seq<char>) -> Seq<Feature> {
    if tier == "Minimal"@ {
        seq![
            restricted("Xray transport"@, "Limited resources — one endpoint, modest memory footprint"@),
            restricted("Tailscale"@, "Limited resources — expect reduced throughput"@),
            missing("Advanced telemetry"@, "Disabled by resource profile (retention/collectors too heavy)"@),
            missing("Multiple simultaneous paths"@, "Disabled by resource profile"@),
            missing("ML / BTP"@, "Not available on Minimal profile"@),
        ]
    } else if tier == "Standard"@ {
        seq![
            full("Xray transport"@),
            full("Tailscale"@),
            restricted("Advanced telemetry"@, "Bounded retention on Standard profile"@),
            full("Multiple simultaneous paths"@),
            missing("ML / BTP"@, "Not available on Standard profile"@),
        ]
    } else {
        seq![
            full("Xray transport"@),
            full("Tailscale"@),
            full("Advanced telemetry"@),
            full("Multiple simultaneous paths"@),
            missing("ML / BTP"@, "Not yet implemented"@),
        ]
    }
}

/// The features of a tier. A tier that is not known is taken to have all.
pub fn features_for(tier: &str) -> (r: Vec<FeatureAvailability>)
    ensures
        features_of(r@) == core_features() + tier_features(tier@),
{
    let mut out: Vec<FeatureAvailability> = Vec::new();
    out.push(FeatureAvailability::available("Policy engine"));
    out.push(FeatureAvailability::available("Firewall / nftables"));
    out.push(FeatureAvailability::available("DNS policy plane"));
    out.push(FeatureAvailability::available("B4 connectivity adaptation"));
    out.push(FeatureAvailability::available("QoS / qdisc shaping"));
    if same_text(tier, "Minimal") {
        out.push(
            FeatureAvailability::limited(
                "Xray transport",
                "Limited resources — one endpoint, modest memory footprint",
            ),
        );
        out.push(FeatureAvailability::limited("Tailscale", "Limited resources — expect reduced throughput"));
        out.push(
            FeatureAvailability::unavailable(
                "Advanced telemetry",
                "Disabled by resource profile (retention/collectors too heavy)",
            ),
        );
        out.push(
            FeatureAvailability::unavailable("Multiple simultaneous paths", "Disabled by resource profile"),
        );
        out.push(FeatureAvailability::unavailable("ML / BTP", "Not available on Minimal profile"));
    } else if same_text(tier, "Standard") {
        out.push(FeatureAvailability::available("Xray transport"));
        out.push(FeatureAvailability::available("Tailscale"));
        out.push(FeatureAvailability::limited("Advanced telemetry", "Bounded retention on Standard profile"));
        out.push(FeatureAvailability::available("Multiple simultaneous paths"));
        out.push(FeatureAvailability::unavailable("ML / BTP", "Not available on Standard profile"));
    } else {
        out.push(FeatureAvailability::available("Xray transport"));
        out.push(FeatureAvailability::available("Tailscale"));
        out.push(FeatureAvailability::available("Advanced telemetry"));
        out.push(FeatureAvailability::available("Multiple simultaneous paths"));
        out.push(FeatureAvailability::unavailable("ML / BTP", "Not yet implemented"));
    }
    assert(features_of(out@) =~= core_features() + tier_features(tier@));
    out
}

/// What a device can do, given its memory report and its processor range, as
/// far as they could be read.
pub fn detect(meminfo: Option<&str>, cpus: Option<&str>) -> (r: CapabilityProfile)
    ensures
        r.ram_mb == (match meminfo {
            Some(text) => ram_mb_in(text@),
            None => 0,
        }),
        r.cores == (match cpus {
            Some(text) => cpus_in(text@),
            None => 1,
        }),
        r.tier@ == tier_name(r.ram_mb),
        features_of(r.features@) == core_features() + tier_features(tier_name(r.ram_mb)),
{
    let ram_mb: u64 = match meminfo {
        Some(text) => total_ram_mb(text),
        None => 0,
    };
    let cores: u32 = match cpus {
        Some(text) => cpu_count(text),
        None => 1,
    };
    let tier = tier_for(ram_mb);
    CapabilityProfile { tier: owned(tier), ram_mb, cores, features: features_for(tier) }
}

/// A device never has less than one processor, and the core features are there
/// in every tier.
pub proof fn core_features_are_always_there(text: Seq<char>, tier: Seq<char>, i: int)
    requires
        0 <= i < 5,
    ensures
        cpus_in(text) >= 1,
        (core_features() + tier_features(tier))[i].available,
        !(core_features() + tier_features(tier))[i].limited,
{
}

/// A machine is minimal below 768 megabytes, standard below 4096, and a
/// performance machine from there on; nothing is known of one that reports no
/// memory.
pub proof fn memory_decides_the_tier(ram_mb: u64)
    ensures
        ram_mb == 0 ==> tier_name(ram_mb) == "Unknown"@,
        1 <= ram_mb <= 767 ==> tier_name(ram_mb) == "Minimal"@,
        768 <= ram_mb <= 4095 ==> tier_name(ram_mb) == "Standard"@,
        4096 <= ram_mb ==> tier_name(ram_mb) == "Performance"@,
{
}

proof fn untrimmed(s: Seq<char>)
    requires
        s.len() > 0,
        !crate::text::is_white(s[0]),
        !crate::text::is_white(s.last()),
    ensures
        crate::text::trimmed(s) == s,
{
}

/// A range of processors counts from its first to its last, and a single number
/// counts from zero.
pub proof fn processors_are_counted(a: u32, b: u32)
    ensures
        a <= b && b - a < u32::MAX ==> cpus_in(
            crate::text::decimal(a as nat).push('-') + crate::text::decimal(b as nat),
        ) == b - a + 1,
        a > b ==> cpus_in(crate::text::decimal(a as nat).push('-') + crate::text::decimal(b as nat)) == 1,
        a < u32::MAX ==> cpus_in(crate::text::decimal(a as nat)) == a + 1,
{
    let da = crate::text::decimal(a as nat);
    let db = crate::text::decimal(b as nat);
    crate::text::decimals_are_read_back(a as nat, u32::MAX as nat);
    crate::text::decimals_are_read_back(b as nat, u32::MAX as nat);
    let s = da.push('-') + db;
    assert(s[0] == da[0] && s.last() == db.last());
    assert('0' <= da[0] <= '9' && '0' <= da[da.len() - 1] <= '9' && '0' <= db[db.len() - 1] <= '9');
    untrimmed(s);
    untrimmed(da);
    crate::text::index_of_first(s, '-');
    crate::text::index_of_first(da, '-');
    let n = crate::text::index_of(s, '-') as int;
    assert(s[da.len() as int] == '-');
    if n < da.len() {
        assert(s[n] == da[n]);
    }
    assert(s.take(n) =~= da);
    assert(s.skip(n + 1) =~= db);
    let m = crate::text::index_of(da, '-') as int;
    if m < da.len() {
        assert('0' <= da[m] <= '9');
    }
}

/// The memory is what the first line with a readable total says, in whole
/// megabytes.
pub proof fn the_first_total_counts(l: Seq<Seq<char>>, i: int)
    requires
        0 <= i < l.len(),
        mem_total_in(l[i]) is Some,
        forall|k: int| 0 <= k < i ==> mem_total_in(#[trigger] l[k]) is None,
    ensures
        first_mem_total(l) == mem_total_in(l[i]),
    decreases l.len(),
{
    if i > 0 {
        assert(mem_total_in(l[0]) is None);
        let rest = l.skip(1);
        assert(rest[i - 1] == l[i]);
        assert forall|k: int| 0 <= k < i - 1 implies mem_total_in(#[trigger] rest[k]) is None by {
            assert(rest[k] == l[k + 1]);
        }
        the_first_total_counts(rest, i - 1);
    }
}

/// A line says the total where its first word says so and its second is a
/// number of kilobytes.
pub proof fn totals_are_told_in_kilobytes(line: Seq<char>, meminfo: Seq<char>)
    ensures
        ({
            let w = crate::text::words_of(line);
            &&& mem_total_in(line) is Some ==> w.len() >= 2 && w[0] == "MemTotal:"@ && mem_total_in(line)
                == crate::text::parsed(w[1], u64::MAX as nat)
            &&& w.len() >= 2 && w[0] == "MemTotal:"@ ==> mem_total_in(line) == crate::text::parsed(
                w[1],
                u64::MAX as nat,
            )
        }),
        ({
            let total = first_mem_total(crate::text::lines_of(meminfo));
            &&& total is None ==> ram_mb_in(meminfo) == 0
            &&& total is Some && total->0 <= u64::MAX ==> ram_mb_in(meminfo) * 1024 <= total->0 < ram_mb_in(meminfo) * 1024
                + 1024
        }),
{
}

/// Every tier has the same features, in the same order. Learning is there on
/// none; a minimal machine has limited transports and neither telemetry nor more
/// than one path at a time; a standard one has limited telemetry; nothing else
/// is missing or limited.
pub proof fn tiers_differ_in_what_they_can_bear(tier: Seq<char>)
    ensures
        ({
            let f = tier_features(tier);
            &&& f.len() == 5
            &&& f[0].name == "Xray transport"@
            &&& f[1].name == "Tailscale"@
            &&& f[2].name == "Advanced telemetry"@
            &&& f[3].name == "Multiple simultaneous paths"@
            &&& f[4].name == "ML / BTP"@
            &&& f[0].available && f[1].available && !f[4].available
            &&& f[2].available <==> tier != "Minimal"@
            &&& f[3].available <==> tier != "Minimal"@
            &&& f[0].limited <==> tier == "Minimal"@
            &&& f[1].limited <==> tier == "Minimal"@
            &&& f[2].limited <==> tier == "Standard"@
            &&& !f[3].limited && !f[4].limited
            &&& forall|i: int|
                0 <= i < 5 ==> ((#[trigger] f[i]).reason is None <==> f[i].available && !f[i].limited)
        }),
{
    reveal_strlit("Minimal");
    reveal_strlit("Standard");
    assert("Minimal"@.len() == 7 && "Standard"@.len() == 8);
}

/// The core of the gateway is there in full on every machine.
pub proof fn the_core_is_there_in_full(i: int)
    requires
        0 <= i < 5,
    ensures
        core_features().len() == 5,
        core_features()[i].available,
        !core_features()[i].limited,
        core_features()[i].reason is None,
        core_features()[0].name == "Policy engine"@,
        core_features()[1].name == "Firewall / nftables"@,
        core_features()[2].name == "DNS policy plane"@,
        core_features()[3].name == "B4 connectivity adaptation"@,
        core_features()[4].name == "QoS / qdisc shaping"@,
{
}

} // verus!
