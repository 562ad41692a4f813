//! B4 policy as it is written down.
use vstd::prelude::*;
use vstd::string::*;

use crate::b4_engine::policy::{B4Capability, B4FailSemantic, B4FlowRule, B4Policy, B4Profile};
use crate::b4_engine::state::B4EngineConfig;
use crate::text::{chars_of, lower_string, owned, same_text, string_of, upper_chars};

verus! {

/// A B4 configuration file.
#[derive(Debug)]
pub struct B4Toml {
    pub engine: B4EngineToml,
    pub flows: Vec<B4FlowToml>,
}

/// A flow in the file.
#[derive(Debug)]
pub struct B4FlowToml {
    pub domain: String,
    pub capabilities: Vec<String>,
    pub fail: String,
    pub allow_direct: bool,
    pub allow_tunnel: bool,
}

/// The engine section of the file.
#[derive(Debug, Clone, Copy, PartialEq, Eq, Structural)]
pub struct B4EngineToml {
    pub enabled: bool,
    pub max_attempts: u32,
}

/// What a switch is where the file does not set it.
pub fn default_true() -> (r: bool)
    ensures
        r,
{
    true
}

/// How many attempts there are where the file does not say.
pub fn default_max_attempts() -> (r: u32)
    ensures
        r == 3,
{
    3
}

impl Default for B4EngineToml {
    fn default() -> (r: B4EngineToml)
        ensures
            r == (B4EngineToml { enabled: true, max_attempts: 3 }),
    {
        B4EngineToml { enabled: default_true(), max_attempts: default_max_attempts() }
    }
}

impl Default for B4Toml {
    fn default() -> (r: B4Toml)
        ensures
            r.engine == (B4EngineToml { enabled: true, max_attempts: 3 }),
            r.flows@.len() == 0,
    {
        B4Toml { engine: B4EngineToml::default(), flows: Vec::new() }
    }
}

/// The mechanism that a word names.
pub open spec fn capability_named(word: Seq<char>) -> Result<B4Capability, Seq<char>> {
    let w = crate::text::ascii_lower(word);
    if w == "mtu"@ {
        Ok(B4Capability::Mtu)
    } else if w == "dns_path"@ || w == "dnspath"@ {
        Ok(B4Capability::DnsPath)
    } else {
        Err("unknown b4 capability: "@ + w)
    }
}

/// The mechanisms that words name, or the error of the first that names none.
pub open spec fn capabilities_named(words: Seq<Seq<char>>) -> Result<Seq<B4Capability>, Seq<char>>
    decreases words.len(),
{
    if words.len() == 0 {
        Ok(Seq::empty())
    } else {
        match capabilities_named(words.drop_last()) {
            Err(e) => Err(e),
            Ok(front) => match capability_named(words.last()) {
                Err(e) => Err(e),
                Ok(c) => Ok(front.push(c)),
            },
        }
    }
}

/// The way of failing that a word names.
pub open spec fn fail_named(word: Seq<char>) -> Result<B4FailSemantic, Seq<char>> {
    let w = crate::text::ascii_upper(word);
    if w.len() == 0 || w == "STRICT"@ {
        Ok(B4FailSemantic::Strict)
    } else if w == "SAFE"@ {
        Ok(B4FailSemantic::Safe)
    } else if w == "DEFAULT"@ {
        Ok(B4FailSemantic::Default)
    } else {
        Err("unknown b4 fail semantic: "@ + w)
    }
}

/// The error that a flow of the file has, if any.
pub open spec fn flow_fault(f: B4FlowToml) -> Option<Seq<char>> {
    match capabilities_named(crate::text::strings(f.capabilities@)) {
        Err(e) => Some(e),
        Ok(_) => match fail_named(f.fail@) {
            Err(e) => Some(e),
            Ok(_) => None,
        },
    }
}

/// Whether a rule says what a flow of the file says.
pub open spec fn rule_is(r: B4FlowRule, f: B4FlowToml) -> bool {
    &&& r.domain@ == f.domain@
    &&& capabilities_named(crate::text::strings(f.capabilities@)) == Ok::<Seq<B4Capability>, Seq<char>>(
        r.profile@.capabilities,
    )
    &&& fail_named(f.fail@) == Ok::<B4FailSemantic, Seq<char>>(r.profile@.fail)
    &&& r.profile@.allow_direct == f.allow_direct
    &&& r.profile@.allow_tunnel == f.allow_tunnel
}

fn read_capability(word: &str) -> (r: Result<B4Capability, String>)
    ensures
        r matches Ok(c) ==> capability_named(word@) == Ok::<B4Capability, Seq<char>>(c),
        r matches Err(e) ==> capability_named(word@) == Err::<B4Capability, Seq<char>>(e@),
{
    let w = lower_string(word);
    if same_text(w.as_str(), "mtu") {
        Ok(B4Capability::Mtu)
    } else if same_text(w.as_str(), "dns_path") || same_text(w.as_str(), "dnspath") {
        Ok(B4Capability::DnsPath)
    } else {
        let mut s = owned("unknown b4 capability: ");
        s.append(w.as_str());
        Err(s)
    }
}

fn read_fail(word: &str) -> (r: Result<B4FailSemantic, String>)
    ensures
        r matches Ok(c) ==> fail_named(word@) == Ok::<B4FailSemantic, Seq<char>>(c),
        r matches Err(e) ==> fail_named(word@) == Err::<B4FailSemantic, Seq<char>>(e@),
{
    let w = string_of(&upper_chars(&chars_of(word)));
    if w.as_str().is_empty() || same_text(w.as_str(), "STRICT") {
        Ok(B4FailSemantic::Strict)
    } else if same_text(w.as_str(), "SAFE") {
        Ok(B4FailSemantic::Safe)
    } else if same_text(w.as_str(), "DEFAULT") {
        Ok(B4FailSemantic::Default)
    } else {
        let mut s = owned("unknown b4 fail semantic: ");
        s.append(w.as_str());
        Err(s)
    }
}

proof fn later_words_keep_the_error(words: Seq<Seq<char>>, n: int)
    requires
        0 <= n <= words.len(),
        capabilities_named(words.take(n)) is Err,
    ensures
        capabilities_named(words) == capabilities_named(words.take(n)),
    decreases words.len(),
{
    if n == words.len() {
        assert(words.take(n) =~= words);
    } else {
        assert(words.drop_last().take(n) =~= words.take(n));
        later_words_keep_the_error(words.drop_last(), n);
    }
}

impl B4FlowToml {
    /// The rule that the flow stands for.
    pub fn to_rule(&self) -> (r: Result<B4FlowRule, String>)
        ensures
            r matches Ok(rule) ==> rule_is(rule, *self) && flow_fault(*self) is None,
            r matches Err(e) ==> flow_fault(*self) == Some(e@),
    {
        let ghost words = crate::text::strings(self.capabilities@);
        let mut capabilities: Vec<B4Capability> = Vec::new();
        let mut i: usize = 0;
        assert(words.take(0) =~= Seq::<Seq<char>>::empty());
        assert(capabilities@ =~= Seq::<B4Capability>::empty());
        while i < self.capabilities.len()
            invariant
                i <= self.capabilities@.len(),
                words == crate::text::strings(self.capabilities@),
                capabilities_named(words.take(i as int)) == Ok::<Seq<B4Capability>, Seq<char>>(capabilities@),
            decreases self.capabilities.len() - i,
        {
            assert(words.take(i as int + 1).drop_last() =~= words.take(i as int));
            assert(words.take(i as int + 1).last() == self.capabilities@[i as int]@);
            match read_capability(self.capabilities[i].as_str()) {
                Ok(c) => {
                    capabilities.push(c);
                },
                Err(e) => {
                    proof {
                        later_words_keep_the_error(words, i as int + 1);
                    }
                    return Err(e);
                },
            }
            i += 1;
        }
        assert(words.take(i as int) =~= words);
        let fail = match read_fail(self.fail.as_str()) {
            Ok(f) => f,
            Err(e) => {
                return Err(e);
            },
        };
        Ok(
            B4FlowRule {
                domain: self.domain.clone(),
                profile: B4Profile {
                    capabilities,
                    fail,
                    allow_direct: self.allow_direct,
                    allow_tunnel: self.allow_tunnel,
                },
            },
        )
    }
}

/// The first error among the flows of a file.
pub open spec fn first_fault(flows: Seq<B4FlowToml>) -> Option<Seq<char>>
    decreases flows.len(),
{
    if flows.len() == 0 {
        None
    } else if flow_fault(flows[0]) is Some {
        flow_fault(flows[0])
    } else {
        first_fault(flows.skip(1))
    }
}

impl B4Toml {
    /// The configuration of the engine.
    pub fn engine_config(&self) -> (r: B4EngineConfig)
        ensures
            r == (B4EngineConfig { max_attempts: self.engine.max_attempts, enabled: self.engine.enabled }),
    {
        B4EngineConfig { max_attempts: self.engine.max_attempts, enabled: self.engine.enabled }
    }

    /// The policy of the file.
    pub fn policy(&self) -> (r: Result<B4Policy, String>)
        ensures
            r matches Ok(p) ==> first_fault(self.flows@) is None && p.flows@.len() == self.flows@.len() && forall|i: int|
                0 <= i < p.flows@.len() ==> rule_is(#[trigger] p.flows@[i], self.flows@[i]),
            r matches Err(e) ==> first_fault(self.flows@) == Some(e@),
    {
        let mut flows: Vec<B4FlowRule> = Vec::new();
        let mut i: usize = 0;
        assert(self.flows@.skip(0) =~= self.flows@);
        while i < self.flows.len()
            invariant
                i <= self.flows@.len(),
                flows@.len() == i,
                first_fault(self.flows@) == first_fault(self.flows@.skip(i as int)),
                forall|k: int| 0 <= k < i ==> rule_is(#[trigger] flows@[k], self.flows@[k]),
            decreases self.flows.len() - i,
        {
            assert(self.flows@.skip(i as int)[0] == self.flows@[i as int]);
            assert(self.flows@.skip(i as int).skip(1) =~= self.flows@.skip(i as int + 1));
            match self.flows[i].to_rule() {
                Ok(rule) => {
                    flows.push(rule);
                },
                Err(e) => {
                    return Err(e);
                },
            }
            i += 1;
        }
        Ok(B4Policy { flows })
    }
}

/// A capability is read without regard to case; there are two, and one of them
/// has two spellings.
pub proof fn capabilities_are_read_without_case(word: Seq<char>)
    ensures
        crate::text::ascii_lower(word) == "mtu"@ ==> capability_named(word) == Ok::<B4Capability, Seq<char>>(
            B4Capability::Mtu,
        ),
        crate::text::ascii_lower(word) == "dns_path"@ || crate::text::ascii_lower(word) == "dnspath"@
            ==> capability_named(word) == Ok::<B4Capability, Seq<char>>(B4Capability::DnsPath),
        crate::text::ascii_lower(word) != "mtu"@ && crate::text::ascii_lower(word) != "dns_path"@
            && crate::text::ascii_lower(word) != "dnspath"@ ==> capability_named(word) == Err::<
            B4Capability,
            Seq<char>,
        >("unknown b4 capability: "@ + crate::text::ascii_lower(word)),
        capability_named(crate::text::ascii_lower(word)) == capability_named(word),
{
    crate::text::ascii_lower_idempotent(word);
    reveal_strlit("mtu");
    reveal_strlit("dns_path");
    reveal_strlit("dnspath");
}

/// Capabilities are read in their order, each by its word; where a word is not
/// known, the first such word is reported.
pub proof fn capabilities_are_read_in_order(words: Seq<Seq<char>>)
    ensures
        capabilities_named(words) matches Ok(cs) ==> cs.len() == words.len() && forall|i: int|
            0 <= i < words.len() ==> capability_named(#[trigger] words[i]) == Ok::<B4Capability, Seq<char>>(cs[i]),
        capabilities_named(words) matches Err(e) ==> exists|i: int|
            0 <= i < words.len() && capability_named(#[trigger] words[i]) == Err::<B4Capability, Seq<char>>(e)
                && forall|k: int| 0 <= k < i ==> capability_named(#[trigger] words[k]) is Ok,
    decreases words.len(),
{
    if words.len() > 0 {
        let front = words.drop_last();
        capabilities_are_read_in_order(front);
        assert forall|i: int| 0 <= i < front.len() implies #[trigger] front[i] == words[i] by {}
        let n = words.len() - 1;
        assert(words[n] == words.last());
        match capabilities_named(front) {
            Ok(cs) => {
                match capability_named(words.last()) {
                    Ok(c) => {
                        let all = cs.push(c);
                        assert forall|i: int| 0 <= i < words.len() implies capability_named(#[trigger] words[i])
                            == Ok::<B4Capability, Seq<char>>(all[i]) by {
                            if i < n {
                                assert(front[i] == words[i]);
                            }
                        }
                    },
                    Err(e) => {
                        assert forall|k: int| 0 <= k < n implies capability_named(#[trigger] words[k]) is Ok by {
                            assert(front[k] == words[k]);
                        }
                        assert(capability_named(words[n]) == Err::<B4Capability, Seq<char>>(e));
                    },
                }
            },
            Err(e) => {
                let i = choose|i: int|
                    0 <= i < front.len() && capability_named(#[trigger] front[i]) == Err::<B4Capability, Seq<char>>(e)
                        && forall|k: int| 0 <= k < i ==> capability_named(#[trigger] front[k]) is Ok;
                assert(words[i] == front[i]);
                assert forall|k: int| 0 <= k < i implies capability_named(#[trigger] words[k]) is Ok by {
                    assert(front[k] == words[k]);
                }
            },
        }
    }
}

/// How a flow fails is read without regard to case, and is strict where nothing
/// is written.
pub proof fn failing_is_strict_unless_written(word: Seq<char>)
    ensures
        word.len() == 0 ==> fail_named(word) == Ok::<B4FailSemantic, Seq<char>>(B4FailSemantic::Strict),
        crate::text::ascii_upper(word) == "STRICT"@ ==> fail_named(word) == Ok::<B4FailSemantic, Seq<char>>(
            B4FailSemantic::Strict,
        ),
        crate::text::ascii_upper(word) == "SAFE"@ ==> fail_named(word) == Ok::<B4FailSemantic, Seq<char>>(
            B4FailSemantic::Safe,
        ),
        crate::text::ascii_upper(word) == "DEFAULT"@ ==> fail_named(word) == Ok::<B4FailSemantic, Seq<char>>(
            B4FailSemantic::Default,
        ),
        fail_named(word) == Ok::<B4FailSemantic, Seq<char>>(B4FailSemantic::Safe) ==> crate::text::ascii_upper(word)
            == "SAFE"@,
        fail_named(word) == Ok::<B4FailSemantic, Seq<char>>(B4FailSemantic::Default) ==> crate::text::ascii_upper(word)
            == "DEFAULT"@,
        fail_named(word) is Err ==> fail_named(word) == Err::<B4FailSemantic, Seq<char>>(
            "unknown b4 fail semantic: "@ + crate::text::ascii_upper(word),
        ),
{
    reveal_strlit("STRICT");
    reveal_strlit("SAFE");
    reveal_strlit("DEFAULT");
    assert("SAFE"@.len() == 4 && "DEFAULT"@.len() == 7 && "STRICT"@.len() == 6);
}

/// A flow rule has what is written of the flow: its domain, its capabilities in
/// order, how it fails, and which paths it may use.
pub proof fn flow_rules_keep_what_is_written(r: B4FlowRule, f: B4FlowToml, i: int)
    requires
        rule_is(r, f),
    ensures
        r.domain@ == f.domain@,
        r.profile.allow_direct == f.allow_direct,
        r.profile.allow_tunnel == f.allow_tunnel,
        fail_named(f.fail@) == Ok::<B4FailSemantic, Seq<char>>(r.profile.fail),
        r.profile.capabilities@.len() == f.capabilities@.len(),
        0 <= i < f.capabilities@.len() ==> capability_named(f.capabilities@[i]@) == Ok::<B4Capability, Seq<char>>(
            r.profile.capabilities@[i],
        ),
{
    let words = crate::text::strings(f.capabilities@);
    capabilities_are_read_in_order(words);
    if 0 <= i < f.capabilities@.len() {
        assert(words[i] == f.capabilities@[i]@);
    }
}

/// A file is refused exactly where one of its flows is, and for the fault of the
/// first such flow.
pub proof fn the_first_fault_is_reported(flows: Seq<B4FlowToml>)
    ensures
        first_fault(flows) is None <==> forall|i: int| 0 <= i < flows.len() ==> flow_fault(#[trigger] flows[i]) is None,
        first_fault(flows) is Some ==> exists|i: int|
            0 <= i < flows.len() && flow_fault(#[trigger] flows[i]) == first_fault(flows) && forall|k: int|
                0 <= k < i ==> flow_fault(#[trigger] flows[k]) is None,
    decreases flows.len(),
{
    if flows.len() > 0 {
        let rest = flows.skip(1);
        the_first_fault_is_reported(rest);
        if flow_fault(flows[0]) is None {
            if first_fault(rest) is None {
                assert forall|i: int| 0 <= i < flows.len() implies flow_fault(#[trigger] flows[i]) is None by {
                    if i > 0 {
                        assert(rest[i - 1] == flows[i]);
                    }
                }
            } else {
                let i = choose|i: int|
                    0 <= i < rest.len() && flow_fault(#[trigger] rest[i]) == first_fault(rest) && forall|k: int|
                        0 <= k < i ==> flow_fault(#[trigger] rest[k]) is None;
                assert(flows[i + 1] == rest[i]);
                assert forall|k: int| 0 <= k < i + 1 implies flow_fault(#[trigger] flows[k]) is None by {
                    if k > 0 {
                        assert(rest[k - 1] == flows[k]);
                    }
                }
            }
        } else {
            assert(flow_fault(flows[0]) == first_fault(flows));
        }
    }
}

/// A flow is at fault exactly where a capability of it or how it fails is not
/// known.
pub proof fn which_flows_are_at_fault(f: B4FlowToml)
    ensures
        flow_fault(f) is None <==> capabilities_named(crate::text::strings(f.capabilities@)) is Ok && fail_named(
            f.fail@,
        ) is Ok,
{
}

} // verus!
