//! Which mechanisms a flow may use, and how it fails.
use vstd::prelude::*;

use crate::text::{chars_of, ends_with, lower_chars, same_chars};

verus! {

/// What a flow does when no protected mechanism is available.
#[derive(Debug, Clone, Copy, PartialEq, Eq, Structural)]
pub enum B4FailSemantic {
    /// Fail the connection.
    Strict,
    /// Fall back within what is explicitly allowed.
    Safe,
    /// Use the best connectivity there is.
    Default,
}

impl Default for B4FailSemantic {
    fn default() -> (r: B4FailSemantic)
        ensures
            r == B4FailSemantic::Strict,
    {
        B4FailSemantic::Strict
    }
}

/// A mechanism that adapts a path.
#[derive(Debug, Clone, Copy, PartialEq, Eq, Structural)]
pub enum B4Capability {
    /// Lower the size of packets.
    Mtu,
    /// Resolve through another DNS path.
    DnsPath,
}

/// The name of a mechanism.
pub open spec fn capability_text(c: B4Capability) -> Seq<char> {
    match c {
        B4Capability::Mtu => "Mtu"@,
        B4Capability::DnsPath => "DnsPath"@,
    }
}

impl B4Capability {
    /// The name of the mechanism.
    pub fn name(self) -> (r: &'static str)
        ensures
            r@ == capability_text(self),
    {
        match self {
            B4Capability::Mtu => "Mtu",
            B4Capability::DnsPath => "DnsPath",
        }
    }
}

/// What a flow may use, and how it fails.
#[derive(Debug)]
pub struct B4Profile {
    /// Mechanisms in the order of preference.
    pub capabilities: Vec<B4Capability>,
    pub fail: B4FailSemantic,
    /// Whether a plain direct path is acceptable.
    pub allow_direct: bool,
    /// Whether a tunnel is an acceptable last resort.
    pub allow_tunnel: bool,
}

/// What a flow may use, and how it fails.
pub struct Profile {
    pub capabilities: Seq<B4Capability>,
    pub fail: B4FailSemantic,
    pub allow_direct: bool,
    pub allow_tunnel: bool,
}

impl View for B4Profile {
    type V = Profile;

    open spec fn view(&self) -> Profile {
        Profile {
            capabilities: self.capabilities@,
            fail: self.fail,
            allow_direct: self.allow_direct,
            allow_tunnel: self.allow_tunnel,
        }
    }
}

/// The profile of a flow that policy says nothing of: strict, direct, and
/// without any mechanism.
pub open spec fn default_profile() -> Profile {
    Profile {
        capabilities: Seq::empty(),
        fail: B4FailSemantic::Strict,
        allow_direct: true,
        allow_tunnel: false,
    }
}

impl Default for B4Profile {
    fn default() -> (r: B4Profile)
        ensures
            r@ == default_profile(),
    {
        let r = B4Profile {
            capabilities: Vec::new(),
            fail: B4FailSemantic::Strict,
            allow_direct: true,
            allow_tunnel: false,
        };
        assert(r@.capabilities =~= Seq::<B4Capability>::empty());
        r
    }
}

impl B4Profile {
    /// The same profile, owned separately.
    pub fn duplicate(&self) -> (r: B4Profile)
        ensures
            r@ == self@,
    {
        let mut capabilities: Vec<B4Capability> = Vec::new();
        let mut i: usize = 0;
        while i < self.capabilities.len()
            invariant
                i <= self.capabilities@.len(),
                capabilities@ == self.capabilities@.take(i as int),
            decreases self.capabilities.len() - i,
        {
            capabilities.push(self.capabilities[i]);
            i += 1;
            assert(capabilities@ =~= self.capabilities@.take(i as int));
        }
        assert(capabilities@ =~= self.capabilities@);
        B4Profile {
            capabilities,
            fail: self.fail,
            allow_direct: self.allow_direct,
            allow_tunnel: self.allow_tunnel,
        }
    }

    /// Whether a mechanism may be used.
    pub fn allows(&self, c: B4Capability) -> (r: bool)
        ensures
            r == self@.capabilities.contains(c),
    {
        let mut i: usize = 0;
        while i < self.capabilities.len()
            invariant
                i <= self.capabilities@.len(),
                forall|k: int| 0 <= k < i ==> self.capabilities@[k] != c,
            decreases self.capabilities.len() - i,
        {
            if self.capabilities[i] == c {
                return true;
            }
            i += 1;
        }
        false
    }
}

/// The profile of the flows of one domain.
#[derive(Debug)]
pub struct B4FlowRule {
    /// The domain, with its subdomains.
    pub domain: String,
    pub profile: B4Profile,
}

/// Which profile the flows of a domain have.
#[derive(Debug)]
pub struct B4Policy {
    pub flows: Vec<B4FlowRule>,
}

/// Whether a rule for a domain is about a flow: the domain itself or one of its
/// subdomains, without regard to ASCII case.
pub open spec fn covers(rule_domain: Seq<char>, flow: Seq<char>) -> bool {
    let d = crate::text::ascii_lower(rule_domain);
    let f = crate::text::ascii_lower(flow);
    f == d || crate::text::ends_in(f, seq!['.'] + d)
}

/// The profile that the first rule about a flow gives it.
pub open spec fn profile_in(rules: Seq<B4FlowRule>, flow: Seq<char>) -> Profile
    decreases rules.len(),
{
    if rules.len() == 0 {
        default_profile()
    } else if covers(rules[0].domain@, flow) {
        rules[0].profile@
    } else {
        profile_in(rules.skip(1), flow)
    }
}

pub open spec fn domains_in(rules: Seq<B4FlowRule>) -> Seq<Seq<char>> {
    Seq::new(rules.len(), |i: int| rules[i].domain@)
}

fn rule_covers(rule_domain: &str, flow: &str) -> (r: bool)
    ensures
        r == covers(rule_domain@, flow@),
{
    let d = lower_chars(&chars_of(rule_domain));
    let f = lower_chars(&chars_of(flow));
    let mut tail: Vec<char> = Vec::new();
    tail.push('.');
    let mut more = lower_chars(&chars_of(rule_domain));
    tail.append(&mut more);
    assert(tail@ =~= seq!['.'] + d@);
    same_chars(&f, &d) || ends_with(&f, &tail)
}

impl B4Policy {
    /// The domains that policy knows.
    pub fn flow_domains(&self) -> (r: Vec<String>)
        ensures
            crate::text::strings(r@) == domains_in(self.flows@),
    {
        let mut out: Vec<String> = Vec::new();
        let mut i: usize = 0;
        while i < self.flows.len()
            invariant
                i <= self.flows@.len(),
                crate::text::strings(out@) == domains_in(self.flows@).take(i as int),
            decreases self.flows.len() - i,
        {
            let ghost before = out@;
            out.push(self.flows[i].domain.clone());
            assert(crate::text::strings(out@) =~= crate::text::strings(before).push(domains_in(self.flows@)[i as int]));
            i += 1;
            assert(domains_in(self.flows@).take(i as int) =~= domains_in(self.flows@).take(i as int - 1).push(
                domains_in(self.flows@)[i as int - 1],
            ));
        }
        assert(domains_in(self.flows@).take(i as int) =~= domains_in(self.flows@));
        out
    }

    /// The profile of a flow, by its domain.
    pub fn profile_for(&self, domain: &str) -> (r: B4Profile)
        ensures
            r@ == profile_in(self.flows@, domain@),
    {
        let mut i: usize = 0;
        assert(self.flows@.skip(0) =~= self.flows@);
        while i < self.flows.len()
            invariant
                i <= self.flows@.len(),
                profile_in(self.flows@, domain@) == profile_in(self.flows@.skip(i as int), domain@),
            decreases self.flows.len() - i,
        {
            assert(self.flows@.skip(i as int)[0] == self.flows@[i as int]);
            if rule_covers(self.flows[i].domain.as_str(), domain) {
                return self.flows[i].profile.duplicate();
            }
            assert(self.flows@.skip(i as int).skip(1) =~= self.flows@.skip(i as int + 1));
            i += 1;
        }
        B4Profile::default()
    }
}

impl Default for B4Policy {
    fn default() -> (r: B4Policy)
        ensures
            r.flows@.len() == 0,
    {
        B4Policy { flows: Vec::new() }
    }
}

/// A flow that no rule is about has the default profile.
pub proof fn unknown_flow_is_strict(rules: Seq<B4FlowRule>, flow: Seq<char>)
    requires
        forall|i: int| 0 <= i < rules.len() ==> !covers((#[trigger] rules[i]).domain@, flow),
    ensures
        profile_in(rules, flow) == default_profile(),
    decreases rules.len(),
{
    if rules.len() > 0 {
        assert(!covers(rules[0].domain@, flow));
        assert forall|i: int| 0 <= i < rules.skip(1).len() implies !covers((#[trigger] rules.skip(1)[i]).domain@, flow) by {
            assert(rules.skip(1)[i] == rules[i + 1]);
        }
        unknown_flow_is_strict(rules.skip(1), flow);
    }
}

/// A rule covers every subdomain of its domain.
pub proof fn rules_cover_subdomains(domain: Seq<char>, prefix: Seq<char>)
    ensures
        covers(domain, domain),
        covers(domain, prefix.push('.') + domain),
{
    let f = crate::text::ascii_lower(prefix.push('.') + domain);
    let tail = seq!['.'] + crate::text::ascii_lower(domain);
    assert(f.skip(f.len() - tail.len()) =~= tail);
}

/// The first rule that covers a flow gives it its profile, whole.
pub proof fn the_first_covering_rule_decides(rules: Seq<B4FlowRule>, flow: Seq<char>, i: int)
    requires
        0 <= i < rules.len(),
        covers(rules[i].domain@, flow),
        forall|j: int| 0 <= j < i ==> !covers((#[trigger] rules[j]).domain@, flow),
    ensures
        profile_in(rules, flow) == rules[i].profile@,
    decreases rules.len(),
{
    if i > 0 {
        assert(!covers(rules[0].domain@, flow));
        let rest = rules.skip(1);
        assert(rest[i - 1] == rules[i]);
        assert forall|j: int| 0 <= j < i - 1 implies !covers((#[trigger] rest[j]).domain@, flow) by {
            assert(rest[j] == rules[j + 1]);
        }
        the_first_covering_rule_decides(rest, flow, i - 1);
    }
}

/// A rule covers a flow only where the flow is its domain or ends in a dot and
/// its domain, without regard to case.
pub proof fn rules_cover_nothing_else(domain: Seq<char>, flow: Seq<char>)
    requires
        covers(domain, flow),
    ensures
        ({
            let d = crate::text::ascii_lower(domain);
            let f = crate::text::ascii_lower(flow);
            f == d || exists|n: int|
                0 <= n < f.len() && #[trigger] f[n] == '.' && f.skip(n + 1) == d
        }),
{
    let d = crate::text::ascii_lower(domain);
    let f = crate::text::ascii_lower(flow);
    if f != d {
        let n = f.len() - d.len() - 1;
        let tail = f.skip(n);
        assert(tail == seq!['.'] + d);
        assert(tail[0] == f[n]);
        assert(f.skip(n + 1) =~= tail.skip(1));
        assert((seq!['.'] + d).skip(1) =~= d);
    }
}

/// A flow without a rule may use the direct path and nothing else, and fails
/// strictly; nothing is adapted for it.
pub proof fn without_a_rule_nothing_is_adapted()
    ensures
        default_profile().capabilities.len() == 0,
        default_profile().fail == B4FailSemantic::Strict,
        default_profile().allow_direct,
        !default_profile().allow_tunnel,
{
}

} // verus!
