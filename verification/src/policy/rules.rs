//! Policy rules as they are written down.
use vstd::prelude::*;

use std::collections::hash_map::DefaultHasher;
use std::hash::{Hash, Hasher};

use vstd::std_specs::hash::DefaultHasherAdditionalSpecFns;

use crate::model::Action;
use crate::net::{ipv4, IpAddr};
use crate::policy::matcher::Matcher;
use crate::text::{chars_of, parse_unsigned, split};

verus! {

/// A policy file.
#[derive(Debug)]
pub struct PolicyFile {
    pub rules: Vec<PolicyRuleToml>,
}

/// A rule in the file.
#[derive(Debug)]
pub struct PolicyRuleToml {
    pub name: String,
    pub priority: u32,
    pub enabled: bool,
    pub matcher: MatcherToml,
    pub action: ActionToml,
}

/// A matcher in the file.
#[derive(Debug)]
pub enum MatcherToml {
    Any,
    Nothing,
    DomainSuffix { suffix: String },
    DomainExact { domain: String },
    IpRange { cidr: String },
    Port { port: u16 },
    PortRange { start: u16, end: u16 },
    Protocol { proto: u8 },
}

/// An action in the file.
#[derive(Debug)]
pub enum ActionToml {
    Route { table: u32 },
    Forward { driver: String },
    Block,
    Reject,
    Allow,
}

/// A rule of policy.
#[derive(Debug)]
pub struct PolicyRule {
    pub id: u32,
    pub name: String,
    pub priority: u32,
    pub enabled: bool,
    pub matcher: Matcher,
    pub action: Action,
    pub fallback: Option<Action>,
}

/// What hashing a text feeds to a hasher.
pub uninterp spec fn fed_by(s: Seq<char>) -> Seq<Seq<u8>>;

/// `<str as Hash>::hash`: feeds a text to a hasher. What it feeds depends on the
/// text alone.
#[verifier::external_body]
fn feed(s: &str, hasher: &mut DefaultHasher)
    ensures
        final(hasher)@ == old(hasher)@ + fed_by(s@),
{
    s.hash(hasher)
}

/// The hash of a text: the low half of what the default hasher makes of it.
pub open spec fn hash_of(s: Seq<char>) -> u32 {
    (DefaultHasher::spec_finish(fed_by(s)) % 0x1_0000_0000) as u32
}

/// The hash of a text.
pub fn hash_domain(domain: &str) -> (r: u32)
    ensures
        r == hash_of(domain@),
{
    let mut hasher = DefaultHasher::new();
    feed(domain, &mut hasher);
    assert(hasher@ =~= fed_by(domain@));
    (hasher.finish() % 0x1_0000_0000) as u32
}

/// A decimal number that fits in a byte.
pub open spec fn byte_of(s: Seq<char>) -> Option<u8> {
    match crate::text::parsed(s, 255) {
        Some(n) => Some(n as u8),
        None => None,
    }
}

/// Whether all parts are decimal numbers that fit in a byte.
pub open spec fn all_bytes(parts: Seq<Seq<char>>) -> bool {
    forall|i: int| 0 <= i < parts.len() ==> byte_of(#[trigger] parts[i]) is Some
}

/// The IPv4 address and the prefix length that a range is written as, `a.b.c.d/n`.
/// What stands behind a second slash or a fourth number plays no part.
pub open spec fn range_of(cidr: Seq<char>) -> Option<(IpAddr, u8)> {
    let parts = crate::text::split_on(cidr, '/');
    let numbers = crate::text::split_on(parts[0], '.');
    if parts.len() < 2 || numbers.len() < 4 || !all_bytes(numbers) || byte_of(parts[1]) is None {
        None
    } else {
        Some(
            (
                crate::net::v4_of(
                    byte_of(numbers[0])->0,
                    byte_of(numbers[1])->0,
                    byte_of(numbers[2])->0,
                    byte_of(numbers[3])->0,
                ),
                byte_of(parts[1])->0,
            ),
        )
    }
}

fn read_byte(s: &[char]) -> (r: Option<u8>)
    ensures
        r == byte_of(s@),
{
    match parse_unsigned(s, 255) {
        Some(n) => Some(n as u8),
        None => None,
    }
}

/// The IPv4 address and the prefix length that a range is written as.
pub fn parse_range(cidr: &str) -> (r: Option<(IpAddr, u8)>)
    ensures
        r == range_of(cidr@),
{
    let parts = split(&chars_of(cidr), '/');
    let ghost texts = crate::text::split_on(cidr@, '/');
    assert(crate::text::texts(parts@) == texts);
    if parts.len() < 2 {
        return None;
    }
    assert(parts@[0]@ == texts[0]);
    assert(parts@[1]@ == texts[1]);
    let numbers = split(&parts[0], '.');
    let ghost all = crate::text::split_on(texts[0], '.');
    assert(crate::text::texts(numbers@) == all);
    let mut bytes: Vec<u8> = Vec::new();
    let mut i: usize = 0;
    while i < numbers.len()
        invariant
            i <= numbers@.len(),
            crate::text::texts(numbers@) == all,
            texts == crate::text::split_on(cidr@, '/'),
            all == crate::text::split_on(texts[0], '.'),
            bytes@.len() == i,
            forall|k: int| 0 <= k < i ==> byte_of(#[trigger] all[k]) == Some(bytes@[k]),
        decreases numbers.len() - i,
    {
        assert(numbers@[i as int]@ == all[i as int]);
        match read_byte(&numbers[i]) {
            Some(b) => {
                bytes.push(b);
            },
            None => {
                return None;
            },
        }
        i += 1;
    }
    assert(all_bytes(all));
    if bytes.len() < 4 {
        return None;
    }
    match read_byte(&parts[1]) {
        Some(mask) => {
            assert(byte_of(all[0]) == Some(bytes@[0]));
            assert(byte_of(all[1]) == Some(bytes@[1]));
            assert(byte_of(all[2]) == Some(bytes@[2]));
            assert(byte_of(all[3]) == Some(bytes@[3]));
            Some((ipv4(bytes[0], bytes[1], bytes[2], bytes[3]), mask))
        },
        None => None,
    }
}

/// The matcher that one in the file stands for.
pub open spec fn matcher_of(m: MatcherToml) -> Matcher {
    match m {
        MatcherToml::Any => Matcher::Any,
        MatcherToml::Nothing => Matcher::Nothing,
        MatcherToml::DomainSuffix { suffix } => Matcher::DomainSuffix { suffix: hash_of(suffix@) },
        MatcherToml::DomainExact { domain } => Matcher::DomainExact { hash: hash_of(domain@) },
        MatcherToml::IpRange { cidr } => match range_of(cidr@) {
            Some((base, mask)) => Matcher::IpRange { base, mask },
            None => Matcher::Nothing,
        },
        MatcherToml::Port { port } => Matcher::Port { port },
        MatcherToml::PortRange { start, end } => Matcher::PortRange { start, end },
        MatcherToml::Protocol { proto } => Matcher::Protocol { proto },
    }
}

/// The action that one in the file stands for.
pub open spec fn action_of(a: ActionToml) -> Action {
    match a {
        ActionToml::Route { table } => Action::Route { table },
        ActionToml::Forward { driver } => Action::Forward { driver: hash_of(driver@) },
        ActionToml::Block => Action::Block,
        ActionToml::Reject => Action::Reject,
        ActionToml::Allow => Action::Allow,
    }
}

/// Whether a rule in the file can be read: its range, if it has one, is one.
pub open spec fn readable(r: PolicyRuleToml) -> bool {
    r.matcher matches MatcherToml::IpRange { cidr } ==> range_of(cidr@) is Some
}

/// Whether a rule is the one that stands in the file, under a number.
pub open spec fn rule_is(r: PolicyRule, t: PolicyRuleToml, id: u32) -> bool {
    &&& r.id == id
    &&& r.name@ == t.name@
    &&& r.priority == t.priority
    &&& r.enabled == t.enabled
    &&& r.matcher == matcher_of(t.matcher)
    &&& r.action == action_of(t.action)
    &&& r.fallback is None
}

impl PolicyRuleToml {
    /// Whether the rule can be read.
    pub fn is_readable(&self) -> (r: bool)
        ensures
            r == readable(*self),
    {
        match &self.matcher {
            MatcherToml::IpRange { cidr } => parse_range(cidr.as_str()).is_some(),
            _ => true,
        }
    }

    /// The rule that stands in the file, under a number. A range has to be one.
    pub fn to_rule(&self, id: u32) -> (r: PolicyRule)
        requires
            readable(*self),
        ensures
            rule_is(r, *self, id),
    {
        let matcher = match &self.matcher {
            MatcherToml::Any => Matcher::Any,
            MatcherToml::Nothing => Matcher::Nothing,
            MatcherToml::DomainSuffix { suffix } => Matcher::DomainSuffix { suffix: hash_domain(suffix.as_str()) },
            MatcherToml::DomainExact { domain } => Matcher::DomainExact { hash: hash_domain(domain.as_str()) },
            MatcherToml::IpRange { cidr } => match parse_range(cidr.as_str()) {
                Some((base, mask)) => Matcher::IpRange { base, mask },
                None => Matcher::Nothing,
            },
            MatcherToml::Port { port } => Matcher::Port { port: *port },
            MatcherToml::PortRange { start, end } => Matcher::PortRange { start: *start, end: *end },
            MatcherToml::Protocol { proto } => Matcher::Protocol { proto: *proto },
        };
        let action = match &self.action {
            ActionToml::Route { table } => Action::Route { table: *table },
            ActionToml::Forward { driver } => Action::Forward { driver: hash_domain(driver.as_str()) },
            ActionToml::Block => Action::Block,
            ActionToml::Reject => Action::Reject,
            ActionToml::Allow => Action::Allow,
        };
        PolicyRule {
            id,
            name: self.name.clone(),
            priority: self.priority,
            enabled: self.enabled,
            matcher,
            action,
            fallback: None,
        }
    }
}

impl PolicyFile {
    /// The rules of the file, numbered from one in the order of the file.
    pub fn to_rules(&self) -> (r: Vec<PolicyRule>)
        requires
            self.rules@.len() <= u32::MAX,
            forall|i: int| 0 <= i < self.rules@.len() ==> readable(#[trigger] self.rules@[i]),
        ensures
            r@.len() == self.rules@.len(),
            forall|i: int| 0 <= i < r@.len() ==> rule_is(#[trigger] r@[i], self.rules@[i], (i + 1) as u32),
    {
        let mut out: Vec<PolicyRule> = Vec::new();
        let mut i: usize = 0;
        while i < self.rules.len()
            invariant
                i <= self.rules@.len(),
                self.rules@.len() <= u32::MAX,
                forall|k: int| 0 <= k < self.rules@.len() ==> readable(#[trigger] self.rules@[k]),
                out@.len() == i,
                forall|k: int| 0 <= k < i ==> rule_is(#[trigger] out@[k], self.rules@[k], (k + 1) as u32),
            decreases self.rules.len() - i,
        {
            out.push(self.rules[i].to_rule(i as u32 + 1));
            i += 1;
        }
        out
    }
}

/// A rule has everything that is written of it: its name, its priority, whether
/// it is enabled, and its place as its id.
pub proof fn rules_keep_what_is_written(r: PolicyRule, t: PolicyRuleToml, id: u32)
    requires
        rule_is(r, t, id),
    ensures
        r.id == id,
        r.name@ == t.name@,
        r.priority == t.priority,
        r.enabled == t.enabled,
        r.fallback is None,
        t.action is Block <==> r.action is Block,
        t.action is Reject <==> r.action is Reject,
        t.action is Allow <==> r.action is Allow,
        t.action matches ActionToml::Route { table } ==> r.action == (Action::Route { table }),
        t.action matches ActionToml::Forward { driver } ==> r.action == (Action::Forward {
            driver: hash_of(driver@),
        }),
{
}

/// A rule matches the packets that are written of it.
pub proof fn rules_match_what_is_written(m: MatcherToml, ctx: crate::policy::matcher::PacketContext)
    ensures
        ({
            let matched = crate::policy::matcher::holds(matcher_of(m), ctx, 0);
            match m {
                MatcherToml::Any => matched,
                MatcherToml::Nothing => !matched,
                MatcherToml::DomainSuffix { suffix } => matched <==> ctx.domain_hash == Some(hash_of(suffix@)),
                MatcherToml::DomainExact { domain } => matched <==> ctx.domain_hash == Some(hash_of(domain@)),
                MatcherToml::IpRange { cidr } => matched <==> match range_of(cidr@) {
                    Some((base, mask)) => crate::policy::matcher::in_range(base, mask, ctx.dst_ip),
                    None => false,
                },
                MatcherToml::Port { port } => matched <==> ctx.dst_port == port,
                MatcherToml::PortRange { start, end } => matched <==> start <= ctx.dst_port && ctx.dst_port <= end,
                MatcherToml::Protocol { proto } => matched <==> ctx.protocol == proto,
            }
        }),
{
}

proof fn range_of_parts(
    da: Seq<char>,
    db: Seq<char>,
    dc: Seq<char>,
    dd: Seq<char>,
    dm: Seq<char>,
)
    requires
        byte_of(da) is Some,
        byte_of(db) is Some,
        byte_of(dc) is Some,
        byte_of(dd) is Some,
        byte_of(dm) is Some,
        !da.contains('.') && !db.contains('.') && !dc.contains('.') && !dd.contains('.'),
        !da.contains('/') && !db.contains('/') && !dc.contains('/') && !dd.contains('/') && !dm.contains('/'),
    ensures
        range_of(da.push('.') + db.push('.') + dc.push('.') + dd.push('/') + dm) == Some(
            (crate::net::v4_of(byte_of(da)->0, byte_of(db)->0, byte_of(dc)->0, byte_of(dd)->0), byte_of(dm)->0),
        ),
{
    let whole = da.push('.') + db.push('.') + dc.push('.') + dd.push('/') + dm;
    let ip = da.push('.') + db.push('.') + dc.push('.') + dd;
    assert(!ip.contains('/')) by {
        if ip.contains('/') {
            let k = ip.index_of('/');
            let na = da.len();
            let nb = db.len();
            let nc = dc.len();
            if k < na {
                assert(ip[k] == da[k]);
                assert(da.contains(da[k]));
            } else if na < k < na + 1 + nb {
                assert(ip[k] == db[k - na - 1]);
                assert(db.contains(db[k - na - 1]));
            } else if na + 1 + nb < k < na + nb + nc + 2 {
                assert(ip[k] == dc[k - na - nb - 2]);
                assert(dc.contains(dc[k - na - nb - 2]));
            } else if k > na + nb + nc + 2 {
                assert(ip[k] == dd[k - na - nb - nc - 3]);
                assert(dd.contains(dd[k - na - nb - nc - 3]));
            }
        }
    }
    crate::text::splitting_once(ip, dm, '/');
    crate::text::no_split(dm, '/');
    assert(ip.push('/') + dm =~= whole);
    let r1 = db.push('.') + dc.push('.') + dd;
    let r2 = dc.push('.') + dd;
    crate::text::splitting_once(da, r1, '.');
    crate::text::splitting_once(db, r2, '.');
    crate::text::splitting_once(dc, dd, '.');
    crate::text::no_split(dd, '.');
    assert(da.push('.') + r1 =~= ip);
    assert(db.push('.') + r2 =~= r1);
    let parts = crate::text::split_on(whole, '/');
    assert(parts =~= seq![ip, dm]);
    let numbers = crate::text::split_on(ip, '.');
    assert(numbers =~= seq![da, db, dc, dd]);
    assert(all_bytes(numbers));
}

proof fn a_written_byte(n: u8)
    ensures
        byte_of(crate::text::decimal(n as nat)) == Some(n),
        !crate::text::decimal(n as nat).contains('.'),
        !crate::text::decimal(n as nat).contains('/'),
{
    crate::text::decimals_are_read_back(n as nat, 255);
}

/// A range that is written as four numbers with dots and a length of the prefix
/// behind a slash is read as that address and that length.
pub proof fn written_ranges_are_read(a: u8, b: u8, c: u8, d: u8, mask: u8)
    ensures
        range_of(
            crate::text::decimal(a as nat).push('.') + crate::text::decimal(b as nat).push('.')
                + crate::text::decimal(c as nat).push('.') + crate::text::decimal(d as nat).push('/')
                + crate::text::decimal(mask as nat),
        ) == Some((IpAddr::V4((a * 16777216 + b * 65536 + c * 256 + d) as u32), mask)),
{
    a_written_byte(a);
    a_written_byte(b);
    a_written_byte(c);
    a_written_byte(d);
    a_written_byte(mask);
    range_of_parts(
        crate::text::decimal(a as nat),
        crate::text::decimal(b as nat),
        crate::text::decimal(c as nat),
        crate::text::decimal(d as nat),
        crate::text::decimal(mask as nat),
    );
}

/// The hash of a name is the lower half of what the hasher says of it.
pub proof fn hashes_are_the_lower_half(s: Seq<char>)
    ensures
        hash_of(s) == DefaultHasher::spec_finish(fed_by(s)) % 4294967296,
{
}

} // verus!
