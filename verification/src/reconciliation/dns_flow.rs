//! Domain rules to concrete flow rules.
//!
//! A `DnsRegistry` holds which addresses a domain was seen to resolve to. A
//! `FlowCompiler` expands a rule that names a domain into one rule for each of
//! those addresses, so that no rule behind it names a domain any more.
use vstd::prelude::*;

use crate::model::{DesiredRule, DesiredState, FlowCriteria};
use crate::net::{clone_ips, IpAddr};
use crate::text::{chars_of, lower_chars, string_of};
use crate::text_map::TextMap;

verus! {

/// The addresses of one domain, and the millisecond at which they stop being
/// fresh, where they ever do.
pub struct DnsEntry {
    pub ips: Vec<IpAddr>,
    pub expires_ms: Option<u64>,
}

/// What is known of one domain.
pub struct Resolution {
    pub ips: Seq<IpAddr>,
    pub expires_ms: Option<u64>,
}

impl Resolution {
    /// Whether the addresses may still be used.
    pub open spec fn fresh(self, now_ms: u64) -> bool {
        self.expires_ms matches Some(e) ==> e > now_ms
    }
}

impl View for DnsEntry {
    type V = Resolution;

    open spec fn view(&self) -> Resolution {
        Resolution { ips: self.ips@, expires_ms: self.expires_ms }
    }
}

/// The addresses that domains were seen to resolve to. Domains are compared
/// without regard to ASCII case.
pub struct DnsRegistry {
    inner: TextMap<DnsEntry>,
}

impl View for DnsRegistry {
    type V = Map<Seq<char>, Resolution>;

    closed spec fn view(&self) -> Map<Seq<char>, Resolution> {
        self.inner@.map_values(|e: DnsEntry| e@)
    }
}

/// The time `ttl_ms` after `now_ms`, or the last one that can be named.
pub open spec fn expiry(now_ms: u64, ttl_ms: u64) -> u64 {
    if now_ms + ttl_ms > u64::MAX { u64::MAX } else { (now_ms + ttl_ms) as u64 }
}

impl DnsRegistry {
    /// The fresh addresses of a domain at a time.
    pub open spec fn known(&self, domain: Seq<char>, now_ms: u64) -> Option<Seq<IpAddr>> {
        let key = crate::text::ascii_lower(domain);
        if self@.contains_key(key) && self@[key].fresh(now_ms) {
            Some(self@[key].ips)
        } else {
            None
        }
    }

    /// A registry that knows no domain.
    pub fn new() -> (r: Self)
        ensures
            r@ == Map::<Seq<char>, Resolution>::empty(),
    {
        let r = DnsRegistry { inner: TextMap::new() };
        assert(r@ =~= Map::<Seq<char>, Resolution>::empty());
        r
    }

    fn put(&mut self, domain: &str, entry: DnsEntry)
        ensures
            final(self)@ == old(self)@.insert(crate::text::ascii_lower(domain@), entry@),
    {
        let key = lower_chars(&chars_of(domain));
        self.inner.insert(string_of(&key).as_str(), entry);
        assert(self@ =~= old(self)@.insert(crate::text::ascii_lower(domain@), entry@));
    }

    /// Records the addresses of a domain in place of what was known of it.
    pub fn insert(&mut self, domain: &str, ips: Vec<IpAddr>)
        ensures
            final(self)@ == old(self)@.insert(
                crate::text::ascii_lower(domain@),
                (Resolution { ips: ips@, expires_ms: None }),
            ),
            forall|d: Seq<char>, t: u64| #[trigger]
                final(self).known(d, t) == if crate::text::ascii_lower(d) == crate::text::ascii_lower(domain@) {
                    Some(ips@)
                } else {
                    old(self).known(d, t)
                },
    {
        self.put(domain, DnsEntry { ips, expires_ms: None });
    }

    /// Records the addresses of a domain for `ttl_ms` from `now_ms` on.
    pub fn insert_with_ttl(&mut self, domain: &str, ips: Vec<IpAddr>, ttl_ms: u64, now_ms: u64)
        ensures
            final(self)@ == old(self)@.insert(
                crate::text::ascii_lower(domain@),
                (Resolution { ips: ips@, expires_ms: Some(expiry(now_ms, ttl_ms)) }),
            ),
            now_ms + ttl_ms <= u64::MAX ==> forall|d: Seq<char>, t: u64| #[trigger]
                final(self).known(d, t) == if crate::text::ascii_lower(d) != crate::text::ascii_lower(domain@) {
                    old(self).known(d, t)
                } else if t < now_ms + ttl_ms {
                    Some(ips@)
                } else {
                    None
                },
    {
        let expires_ms: u64 = now_ms.saturating_add(ttl_ms);
        self.put(domain, DnsEntry { ips, expires_ms: Some(expires_ms) });
    }

    /// Forgets a domain.
    pub fn remove(&mut self, domain: &str)
        ensures
            final(self)@ == old(self)@.remove(crate::text::ascii_lower(domain@)),
            forall|d: Seq<char>, t: u64| #[trigger]
                final(self).known(d, t) == if crate::text::ascii_lower(d) == crate::text::ascii_lower(domain@) {
                    None
                } else {
                    old(self).known(d, t)
                },
    {
        let key = lower_chars(&chars_of(domain));
        self.inner.remove(string_of(&key).as_str());
        assert(self@ =~= old(self)@.remove(crate::text::ascii_lower(domain@)));
    }

    /// The addresses of a domain, if they are known and fresh. What is no
    /// longer fresh is forgotten.
    pub fn resolve(&mut self, domain: &str, now_ms: u64) -> (r: Option<Vec<IpAddr>>)
        ensures
            r matches Some(v) ==> old(self).known(domain@, now_ms) == Some(v@) && final(self)@ == old(self)@,
            r is None ==> old(self).known(domain@, now_ms) is None && final(self)@ == old(self)@.remove(
                crate::text::ascii_lower(domain@),
            ),
    {
        let key = string_of(&lower_chars(&chars_of(domain)));
        let mut found: Option<Vec<IpAddr>> = None;
        if let Some(entry) = self.inner.get(key.as_str()) {
            let fresh = match entry.expires_ms {
                Some(e) => e > now_ms,
                None => true,
            };
            if fresh {
                found = Some(clone_ips(&entry.ips));
            }
        }
        if found.is_none() {
            self.inner.remove(key.as_str());
            assert(self@ =~= old(self)@.remove(crate::text::ascii_lower(domain@)));
        }
        found
    }
}

/// One step of the 32-bit FNV-1a hash.
pub open spec fn fnv_step(hash: u32, byte: u8) -> u32 {
    vstd::wrapping::u32_specs::wrapping_mul(hash ^ (byte as u32), 0x01000193)
}

/// The 32-bit FNV-1a hash of bytes.
pub open spec fn fnv(bytes: Seq<u8>) -> u32
    decreases bytes.len(),
{
    if bytes.len() == 0 {
        0x811c9dc5
    } else {
        fnv_step(fnv(bytes.drop_last()), bytes.last())
    }
}

/// The four bytes of a number, the lowest first.
pub open spec fn le_bytes(n: u32) -> Seq<u8> {
    seq![(n % 256) as u8, ((n / 0x100) % 256) as u8, ((n / 0x1_0000) % 256) as u8, (n / 0x100_0000) as u8]
}

/// The bytes of ASCII text.
pub open spec fn ascii_bytes(s: Seq<char>) -> Seq<u8> {
    Seq::new(s.len(), |i: int| s[i] as u8)
}

/// The id of the rule that a domain rule becomes for one address.
pub open spec fn derived_id(base: u32, ip: IpAddr) -> u32 {
    fnv(le_bytes(base) + ascii_bytes(crate::net::ip_text(ip)))
}

fn fnv_add(hash: u32, byte: u8) -> (r: u32)
    ensures
        r == fnv_step(hash, byte),
{
    (hash ^ (byte as u32)).wrapping_mul(0x01000193)
}

/// A stable id for the rule that a domain rule becomes for one address.
pub fn derived_rule_id(base: u32, ip: &IpAddr) -> (r: u32)
    ensures
        r == derived_id(base, *ip),
{
    let text = chars_of(ip.to_text().as_str());
    let mut bytes: Vec<u8> = Vec::new();
    bytes.push((base % 256) as u8);
    bytes.push(((base / 0x100) % 256) as u8);
    bytes.push(((base / 0x1_0000) % 256) as u8);
    bytes.push((base / 0x100_0000) as u8);
    assert(bytes@ =~= le_bytes(base));
    let mut i: usize = 0;
    while i < text.len()
        invariant
            i <= text.len(),
            bytes@ == le_bytes(base) + ascii_bytes(text@).take(i as int),
        decreases text.len() - i,
    {
        bytes.push(text[i] as u8);
        i += 1;
        assert(bytes@ =~= le_bytes(base) + ascii_bytes(text@).take(i as int));
    }
    assert(ascii_bytes(text@).take(i as int) =~= ascii_bytes(text@));
    let mut hash: u32 = 0x811c9dc5;
    let mut k: usize = 0;
    while k < bytes.len()
        invariant
            k <= bytes.len(),
            hash == fnv(bytes@.take(k as int)),
        decreases bytes.len() - k,
    {
        hash = fnv_add(hash, bytes[k]);
        k += 1;
        assert(bytes@.take(k as int).drop_last() =~= bytes@.take(k as int - 1));
    }
    assert(bytes@.take(k as int) =~= bytes@);
    hash
}

/// The rule that `rule` becomes for one address: a derived id, the address in
/// place of the domain, and everything else as it was.
pub open spec fn rule_for(rule: DesiredRule, ip: IpAddr) -> DesiredRule
    recommends
        rule.flow is Some,
{
    DesiredRule {
        id: derived_id(rule.id, ip),
        flow: Some(FlowCriteria { dst_ip: Some(ip), dst_domain: None, ..rule.flow->0 }),
        ..rule
    }
}

/// Whether a rule names a domain.
pub open spec fn names_domain(rule: DesiredRule) -> bool {
    rule.flow matches Some(f) && f.dst_domain is Some
}

/// What a rule compiles to, given the fresh addresses of the domain it names:
/// itself where it names none, one rule for each address where they are known,
/// nothing where they are not.
pub open spec fn expanded(rule: DesiredRule, known: Option<Seq<IpAddr>>) -> Seq<DesiredRule> {
    if !names_domain(rule) {
        seq![rule]
    } else {
        match known {
            Some(ips) => Seq::new(ips.len(), |i: int| rule_for(rule, ips[i])),
            None => Seq::empty(),
        }
    }
}

/// What a rule compiles to under a registry at a time.
pub open spec fn compiled_rule(rule: DesiredRule, registry: DnsRegistry, now_ms: u64) -> Seq<DesiredRule> {
    if names_domain(rule) {
        expanded(rule, registry.known(rule.flow->0.dst_domain->0@, now_ms))
    } else {
        seq![rule]
    }
}

/// What a list of rules compiles to: the rules of each, one after another.
pub open spec fn compiled_rules(rules: Seq<DesiredRule>, registry: DnsRegistry, now_ms: u64) -> Seq<DesiredRule>
    decreases rules.len(),
{
    if rules.len() == 0 {
        Seq::empty()
    } else {
        compiled_rules(rules.drop_last(), registry, now_ms) + compiled_rule(rules.last(), registry, now_ms)
    }
}

/// Expands a rule for given addresses of the domain it names.
pub fn expand_rule(rule: &DesiredRule, known: &Option<Vec<IpAddr>>) -> (r: Vec<DesiredRule>)
    ensures
        r@ == expanded(*rule, if known is Some { Some(known->0@) } else { None }),
{
    let mut out: Vec<DesiredRule> = Vec::new();
    let flow = match &rule.flow {
        Some(f) => f,
        None => {
            out.push(rule.duplicate());
            return out;
        },
    };
    if flow.dst_domain.is_none() {
        out.push(rule.duplicate());
        return out;
    }
    let ips = match known {
        Some(v) => v,
        None => {
            return out;
        },
    };
    let mut i: usize = 0;
    while i < ips.len()
        invariant
            i <= ips.len(),
            *flow == rule.flow->0,
            rule.flow is Some,
            out@ == Seq::new(i as nat, |k: int| rule_for(*rule, ips@[k])),
        decreases ips.len() - i,
    {
        let ip = ips[i];
        let compiled = FlowCriteria {
            src_ip: flow.src_ip,
            dst_ip: Some(ip),
            src_port: flow.src_port,
            dst_port: flow.dst_port,
            protocol: flow.protocol,
            dst_domain: None,
        };
        out.push(
            DesiredRule {
                id: derived_rule_id(rule.id, &ip),
                action: rule.action,
                priority: rule.priority,
                flow: Some(compiled),
            },
        );
        i += 1;
        assert(out@ =~= Seq::new(i as nat, |k: int| rule_for(*rule, ips@[k])));
    }
    out
}

/// Compiles domain rules into concrete rules for single addresses.
pub struct FlowCompiler {
    pub registry: DnsRegistry,
}

impl FlowCompiler {
    pub fn new(registry: DnsRegistry) -> (r: Self)
        ensures
            r.registry == registry,
    {
        FlowCompiler { registry }
    }

    /// Expands one rule. A rule without a domain passes unchanged; one whose
    /// domain is not known compiles to nothing until it is.
    pub fn compile_rule(&mut self, rule: &DesiredRule, now_ms: u64) -> (r: Vec<DesiredRule>)
        ensures
            r@ == compiled_rule(*rule, old(self).registry, now_ms),
            forall|d: Seq<char>| #[trigger] final(self).registry.known(d, now_ms) == old(self).registry.known(d, now_ms),
    {
        let mut known: Option<Vec<IpAddr>> = None;
        if let Some(flow) = &rule.flow {
            if let Some(domain) = &flow.dst_domain {
                known = self.registry.resolve(domain.as_str(), now_ms);
                assert forall|d: Seq<char>| #[trigger]
                    self.registry.known(d, now_ms) == old(self).registry.known(d, now_ms) by {
                    if known is None && crate::text::ascii_lower(d) == crate::text::ascii_lower(domain@) {
                        assert(old(self).registry.known(domain@, now_ms) is None);
                    }
                }
            }
        }
        expand_rule(rule, &known)
    }

    /// Compiles a whole desired state.
    pub fn compile(&mut self, state: &DesiredState, now_ms: u64) -> (r: DesiredState)
        ensures
            r.rules@ == compiled_rules(state.rules@, old(self).registry, now_ms),
            r.drivers@ == state.drivers@,
            crate::qos::wanted(r.qos@) == crate::qos::wanted(state.qos@),
            forall|d: Seq<char>| #[trigger] final(self).registry.known(d, now_ms) == old(self).registry.known(d, now_ms),
    {
        let mut rules: Vec<DesiredRule> = Vec::new();
        let mut i: usize = 0;
        while i < state.rules.len()
            invariant
                i <= state.rules.len(),
                rules@ == compiled_rules(state.rules@.take(i as int), old(self).registry, now_ms),
                forall|d: Seq<char>| #[trigger]
                    self.registry.known(d, now_ms) == old(self).registry.known(d, now_ms),
            decreases state.rules.len() - i,
        {
            let ghost before = self.registry;
            let mut more = self.compile_rule(&state.rules[i], now_ms);
            assert(compiled_rule(state.rules@[i as int], before, now_ms) == compiled_rule(
                state.rules@[i as int],
                old(self).registry,
                now_ms,
            ));
            rules.append(&mut more);
            i += 1;
            assert(state.rules@.take(i as int).drop_last() =~= state.rules@.take(i as int - 1));
        }
        assert(state.rules@.take(i as int) =~= state.rules@);
        DesiredState {
            rules,
            drivers: crate::model::duplicate_drivers(&state.drivers),
            qos: crate::qos::clone_configs(&state.qos),
        }
    }
}

/// No rule that a compiled state holds names a domain.
pub proof fn compiled_rules_name_no_domain(rules: Seq<DesiredRule>, registry: DnsRegistry, now_ms: u64)
    ensures
        forall|i: int|
            0 <= i < compiled_rules(rules, registry, now_ms).len() ==> !names_domain(
                #[trigger] compiled_rules(rules, registry, now_ms)[i],
            ),
    decreases rules.len(),
{
    if rules.len() > 0 {
        compiled_rules_name_no_domain(rules.drop_last(), registry, now_ms);
        let front = compiled_rules(rules.drop_last(), registry, now_ms);
        let back = compiled_rule(rules.last(), registry, now_ms);
        assert forall|i: int| 0 <= i < (front + back).len() implies !names_domain(#[trigger] (front + back)[i]) by {
            if i >= front.len() {
                assert((front + back)[i] == back[i - front.len()]);
            }
        }
    }
}

/// Compiling what was compiled changes nothing.
pub proof fn compiling_twice_is_compiling_once(rules: Seq<DesiredRule>, registry: DnsRegistry, now_ms: u64)
    ensures
        compiled_rules(compiled_rules(rules, registry, now_ms), registry, now_ms) == compiled_rules(
            rules,
            registry,
            now_ms,
        ),
{
    compiled_rules_name_no_domain(rules, registry, now_ms);
    plain_rules_stay(compiled_rules(rules, registry, now_ms), registry, now_ms);
}

proof fn plain_rules_stay(rules: Seq<DesiredRule>, registry: DnsRegistry, now_ms: u64)
    requires
        forall|i: int| 0 <= i < rules.len() ==> !names_domain(#[trigger] rules[i]),
    ensures
        compiled_rules(rules, registry, now_ms) == rules,
    decreases rules.len(),
{
    if rules.len() > 0 {
        plain_rules_stay(rules.drop_last(), registry, now_ms);
        assert(!names_domain(rules.last()));
        assert(rules.drop_last() + seq![rules.last()] =~= rules);
    }
}

/// A rule that names a domain compiles to one rule for each address of the
/// domain, in order. Each has that address as its destination and names no
/// domain; the source, the ports, the protocol, the action and the priority are
/// those of the rule.
pub proof fn compiled_rules_keep_everything_else(rule: DesiredRule, ips: Seq<IpAddr>, i: int)
    requires
        rule.flow is Some,
        rule.flow->0.dst_domain is Some,
        0 <= i < ips.len(),
    ensures
        expanded(rule, Some(ips)).len() == ips.len(),
        expanded(rule, Some(ips))[i].action == rule.action,
        expanded(rule, Some(ips))[i].priority == rule.priority,
        expanded(rule, Some(ips))[i].flow is Some,
        expanded(rule, Some(ips))[i].flow->0.src_ip == rule.flow->0.src_ip,
        expanded(rule, Some(ips))[i].flow->0.dst_ip == Some(ips[i]),
        expanded(rule, Some(ips))[i].flow->0.src_port == rule.flow->0.src_port,
        expanded(rule, Some(ips))[i].flow->0.dst_port == rule.flow->0.dst_port,
        expanded(rule, Some(ips))[i].flow->0.protocol == rule.flow->0.protocol,
        expanded(rule, Some(ips))[i].flow->0.dst_domain is None,
{
}

/// A rule that names no domain compiles to itself, whatever is known; one that
/// names a domain compiles to nothing where no address of it is known.
pub proof fn rules_without_addresses(rule: DesiredRule, known: Option<Seq<IpAddr>>)
    ensures
        rule.flow is None || rule.flow->0.dst_domain is None ==> expanded(rule, known) == seq![rule],
        rule.flow is Some && rule.flow->0.dst_domain is Some && known is None ==> expanded(rule, known).len() == 0,
{
}

/// A rule is compiled with the addresses that its own domain has at the time,
/// however the domain is written.
pub proof fn rules_get_the_addresses_of_their_domain(rule: DesiredRule, registry: DnsRegistry, now_ms: u64)
    ensures
        rule.flow is None || rule.flow->0.dst_domain is None ==> compiled_rule(rule, registry, now_ms) == seq![rule],
        rule.flow is Some && rule.flow->0.dst_domain is Some ==> {
            let key = crate::text::ascii_lower(rule.flow->0.dst_domain->0@);
            let made = compiled_rule(rule, registry, now_ms);
            &&& !registry@.contains_key(key) ==> made.len() == 0
            &&& registry@.contains_key(key) && registry@[key].expires_ms is Some && now_ms
                >= registry@[key].expires_ms->0 ==> made.len() == 0
            &&& registry@.contains_key(key) && (registry@[key].expires_ms is None || now_ms
                < registry@[key].expires_ms->0) ==> made.len() == registry@[key].ips.len() && forall|i: int|
                0 <= i < made.len() ==> (#[trigger] made[i]).flow is Some && made[i].flow->0.dst_ip == Some(
                    registry@[key].ips[i],
                )
        },
{
}

/// What was recorded lasts for its time: it is known at every moment before
/// `now_ms + ttl_ms`, and not from then on.
pub proof fn addresses_last_their_time(ips: Seq<IpAddr>, now_ms: u64, ttl_ms: u64, t: u64)
    requires
        now_ms + ttl_ms <= u64::MAX,
    ensures
        (Resolution { ips, expires_ms: Some(expiry(now_ms, ttl_ms)) }).fresh(t) <==> t < now_ms + ttl_ms,
        (Resolution { ips, expires_ms: None }).fresh(t),
{
}

/// A time that cannot be named any more is cut to the last one that can.
pub proof fn late_times_are_cut(now_ms: u64, ttl_ms: u64)
    ensures
        expiry(now_ms, ttl_ms) <= u64::MAX,
        expiry(now_ms, ttl_ms) >= now_ms,
        expiry(now_ms, ttl_ms) <= now_ms + ttl_ms,
        now_ms + ttl_ms > u64::MAX ==> expiry(now_ms, ttl_ms) == u64::MAX,
{
}

proof fn hashing_is_folding(bytes: Seq<u8>)
    ensures
        fnv(bytes) == bytes.fold_left(
            2166136261u32,
            |h: u32, b: u8| vstd::wrapping::u32_specs::wrapping_mul(h ^ (b as u32), 16777619u32),
        ),
    decreases bytes.len(),
{
    if bytes.len() > 0 {
        hashing_is_folding(bytes.drop_last());
    }
}

/// The id of a rule for one address is the 32-bit FNV-1a hash of the four bytes
/// of the rule's own id, the lowest first, and the address as it is written.
pub proof fn derived_ids_are_hashes(base: u32, ip: IpAddr)
    ensures
        ({
            let low = seq![
                (base % 256) as u8,
                ((base / 256) % 256) as u8,
                ((base / 65536) % 256) as u8,
                (base / 16777216) as u8,
            ];
            let text = crate::net::ip_text(ip);
            let bytes = low + Seq::new(text.len(), |i: int| text[i] as u8);
            derived_id(base, ip) == bytes.fold_left(
                2166136261u32,
                |h: u32, b: u8| vstd::wrapping::u32_specs::wrapping_mul(h ^ (b as u32), 16777619u32),
            )
        }),
{
    let text = crate::net::ip_text(ip);
    hashing_is_folding(le_bytes(base) + ascii_bytes(text));
}

/// Each rule that a domain rule compiles to has an id that its own id and the
/// address decide, and nothing else.
pub proof fn ids_follow_rule_and_address(a: DesiredRule, b: DesiredRule, ips: Seq<IpAddr>, i: int)
    requires
        a.flow is Some && a.flow->0.dst_domain is Some,
        b.flow is Some && b.flow->0.dst_domain is Some,
        0 <= i < ips.len(),
    ensures
        expanded(a, Some(ips))[i].id == derived_id(a.id, ips[i]),
        a.id == b.id ==> expanded(a, Some(ips))[i].id == expanded(b, Some(ips))[i].id,
{
}

/// Rules are compiled one by one, and what they become stands in their order.
pub proof fn rules_compile_one_by_one(
    first: Seq<DesiredRule>,
    second: Seq<DesiredRule>,
    registry: DnsRegistry,
    now_ms: u64,
)
    ensures
        compiled_rules(first + second, registry, now_ms) == compiled_rules(first, registry, now_ms)
            + compiled_rules(second, registry, now_ms),
        second.len() == 1 ==> compiled_rules(second, registry, now_ms) == compiled_rule(second[0], registry, now_ms),
    decreases second.len(),
{
    if second.len() == 0 {
        assert(first + second =~= first);
        assert(compiled_rules(first, registry, now_ms) + compiled_rules(second, registry, now_ms) =~= compiled_rules(
            first,
            registry,
            now_ms,
        ));
    } else {
        let front = second.drop_last();
        rules_compile_one_by_one(first, front, registry, now_ms);
        assert((first + second).drop_last() =~= first + front);
        assert((first + second).last() == second.last());
        assert(compiled_rules(first + second, registry, now_ms) =~= compiled_rules(first, registry, now_ms)
            + compiled_rules(second, registry, now_ms));
        if second.len() == 1 {
            assert(front =~= Seq::<DesiredRule>::empty());
            assert(compiled_rules(second, registry, now_ms) =~= compiled_rule(second[0], registry, now_ms));
        }
    }
}

} // verus!
