//! Rules found by a hash of a domain or by a port.
use vstd::prelude::*;

use std::collections::HashMap;

verus! {

/// Finds rules by the hash of a domain.
pub struct DomainMatcher {
    exact: HashMap<u32, usize>,
    suffix: Vec<(u32, usize)>,
}

/// The rule of the first entry with a hash.
pub open spec fn first_with(entries: Seq<(u32, usize)>, hash: u32) -> Option<usize>
    decreases entries.len(),
{
    if entries.len() == 0 {
        None
    } else if entries[0].0 == hash {
        Some(entries[0].1)
    } else {
        first_with(entries.skip(1), hash)
    }
}

/// The rules by exact hash that a list gives; the last entry for a hash counts.
pub open spec fn exact_of(rules: Seq<(u32, bool, usize)>) -> Map<u32, usize>
    decreases rules.len(),
{
    if rules.len() == 0 {
        Map::empty()
    } else if rules.last().1 {
        exact_of(rules.drop_last()).insert(rules.last().0, rules.last().2)
    } else {
        exact_of(rules.drop_last())
    }
}

/// The other rules of a list, in order.
pub open spec fn suffix_of(rules: Seq<(u32, bool, usize)>) -> Seq<(u32, usize)>
    decreases rules.len(),
{
    if rules.len() == 0 {
        Seq::empty()
    } else if rules.last().1 {
        suffix_of(rules.drop_last())
    } else {
        suffix_of(rules.drop_last()).push((rules.last().0, rules.last().2))
    }
}

/// How many rules a matcher holds.
#[derive(Debug, Clone, Copy, PartialEq, Eq, Structural)]
pub struct DomainMatcherStats {
    pub exact_count: usize,
    pub suffix_count: usize,
    pub total_rules: usize,
}

impl DomainMatcher {
    /// The rules by exact hash.
    pub closed spec fn exact_rules(&self) -> Map<u32, usize> {
        self.exact@
    }

    /// The other rules, in the order in which they came.
    pub closed spec fn suffix_rules(&self) -> Seq<(u32, usize)> {
        self.suffix@
    }

    pub fn new() -> (r: Self)
        ensures
            r.exact_rules() == Map::<u32, usize>::empty(),
            r.suffix_rules() == Seq::<(u32, usize)>::empty(),
    {
        DomainMatcher { exact: HashMap::new(), suffix: Vec::new() }
    }

    /// Adds a rule for a domain. It replaces an earlier one for the same hash.
    pub fn add_exact(&mut self, domain_hash: u32, rule_id: usize)
        ensures
            final(self).exact_rules() == old(self).exact_rules().insert(domain_hash, rule_id),
            final(self).suffix_rules() == old(self).suffix_rules(),
    {
        self.exact.insert(domain_hash, rule_id);
    }

    /// Adds a rule for the subdomains of a domain.
    pub fn add_suffix(&mut self, suffix_hash: u32, rule_id: usize)
        ensures
            final(self).exact_rules() == old(self).exact_rules(),
            final(self).suffix_rules() == old(self).suffix_rules().push((suffix_hash, rule_id)),
    {
        self.suffix.push((suffix_hash, rule_id));
    }

    /// A matcher with the rules of a list: the hash, whether it is exact, and
    /// the rule.
    pub fn from_rules(rules: &[(u32, bool, usize)]) -> (r: Self)
        ensures
            r.exact_rules() == exact_of(rules@),
            r.suffix_rules() == suffix_of(rules@),
    {
        let mut matcher = DomainMatcher::new();
        let mut i: usize = 0;
        assert(rules@.take(0) =~= Seq::<(u32, bool, usize)>::empty());
        while i < rules.len()
            invariant
                i <= rules@.len(),
                matcher.exact_rules() == exact_of(rules@.take(i as int)),
                matcher.suffix_rules() == suffix_of(rules@.take(i as int)),
            decreases rules.len() - i,
        {
            assert(rules@.take(i as int + 1).drop_last() =~= rules@.take(i as int));
            let (hash, is_exact, rule_id) = rules[i];
            if is_exact {
                matcher.add_exact(hash, rule_id);
            } else {
                matcher.add_suffix(hash, rule_id);
            }
            i += 1;
        }
        assert(rules@.take(i as int) =~= rules@);
        matcher
    }

    /// The rule for a hash: an exact one first, then the first of the others.
    pub fn matches(&self, domain_hash: u32) -> (r: Option<usize>)
        ensures
            r == if self.exact_rules().contains_key(domain_hash) {
                Some(self.exact_rules()[domain_hash])
            } else {
                first_with(self.suffix_rules(), domain_hash)
            },
    {
        if let Some(rule_id) = self.exact.get(&domain_hash) {
            return Some(*rule_id);
        }
        let mut i: usize = 0;
        assert(self.suffix@.skip(0) =~= self.suffix@);
        while i < self.suffix.len()
            invariant
                i <= self.suffix@.len(),
                !self.exact@.contains_key(domain_hash),
                first_with(self.suffix@, domain_hash) == first_with(self.suffix@.skip(i as int), domain_hash),
            decreases self.suffix.len() - i,
        {
            assert(self.suffix@.skip(i as int)[0] == self.suffix@[i as int]);
            assert(self.suffix@.skip(i as int).skip(1) =~= self.suffix@.skip(i as int + 1));
            let (suffix_hash, rule_id) = self.suffix[i];
            if suffix_hash == domain_hash {
                return Some(rule_id);
            }
            i += 1;
        }
        None
    }

    /// How many rules there are. There have to be no more than can be counted.
    pub fn stats(&self) -> (r: DomainMatcherStats)
        requires
            self.exact_rules().len() + self.suffix_rules().len() <= usize::MAX,
        ensures
            r.exact_count == self.exact_rules().len(),
            r.suffix_count == self.suffix_rules().len(),
            r.total_rules == self.exact_rules().len() + self.suffix_rules().len(),
    {
        DomainMatcherStats {
            exact_count: self.exact.len(),
            suffix_count: self.suffix.len(),
            total_rules: self.exact.len() + self.suffix.len(),
        }
    }
}

impl Default for DomainMatcher {
    fn default() -> (r: DomainMatcher)
        ensures
            r.exact_rules() == Map::<u32, usize>::empty(),
            r.suffix_rules() == Seq::<(u32, usize)>::empty(),
    {
        DomainMatcher::new()
    }
}

/// Finds rules by port.
pub struct PortMatcher {
    ports: HashMap<u16, usize>,
}

/// How many ports a matcher knows.
#[derive(Debug, Clone, Copy, PartialEq, Eq, Structural)]
pub struct PortMatcherStats {
    pub total_ports: usize,
}

impl PortMatcher {
    /// The rules by port.
    pub closed spec fn rules(&self) -> Map<u16, usize> {
        self.ports@
    }

    pub fn new() -> (r: Self)
        ensures
            r.rules() == Map::<u16, usize>::empty(),
    {
        PortMatcher { ports: HashMap::new() }
    }

    /// Adds a rule for a port. It replaces an earlier one.
    pub fn add_port(&mut self, port: u16, rule_id: usize)
        ensures
            final(self).rules() == old(self).rules().insert(port, rule_id),
    {
        self.ports.insert(port, rule_id);
    }

    /// The rule for a port.
    pub fn matches(&self, port: u16) -> (r: Option<usize>)
        ensures
            r == if self.rules().contains_key(port) { Some(self.rules()[port]) } else { None },
    {
        match self.ports.get(&port) {
            Some(rule_id) => Some(*rule_id),
            None => None,
        }
    }

    pub fn stats(&self) -> (r: PortMatcherStats)
        ensures
            r.total_ports == self.rules().len(),
    {
        PortMatcherStats { total_ports: self.ports.len() }
    }
}

impl Default for PortMatcher {
    fn default() -> (r: PortMatcher)
        ensures
            r.rules() == Map::<u16, usize>::empty(),
    {
        PortMatcher::new()
    }
}

proof fn first_entry(entries: Seq<(u32, usize)>, hash: u32)
    ensures
        first_with(entries, hash) is None <==> forall|i: int|
            0 <= i < entries.len() ==> (#[trigger] entries[i]).0 != hash,
        first_with(entries, hash) is Some ==> exists|i: int|
            0 <= i < entries.len() && #[trigger] entries[i] == (hash, first_with(entries, hash)->0) && forall|k: int|
                0 <= k < i ==> (#[trigger] entries[k]).0 != hash,
    decreases entries.len(),
{
    if entries.len() > 0 {
        let rest = entries.skip(1);
        first_entry(rest, hash);
        if entries[0].0 != hash {
            if first_with(rest, hash) is Some {
                let i = choose|i: int|
                    0 <= i < rest.len() && #[trigger] rest[i] == (hash, first_with(rest, hash)->0) && forall|k: int|
                        0 <= k < i ==> (#[trigger] rest[k]).0 != hash;
                assert(entries[i + 1] == rest[i]);
                assert forall|k: int| 0 <= k < i + 1 implies (#[trigger] entries[k]).0 != hash by {
                    if k > 0 {
                        assert(entries[k] == rest[k - 1]);
                    }
                }
            } else {
                assert forall|k: int| 0 <= k < entries.len() implies (#[trigger] entries[k]).0 != hash by {
                    if k > 0 {
                        assert(entries[k] == rest[k - 1]);
                    }
                }
            }
        } else {
            assert(entries[0] == (hash, first_with(entries, hash)->0));
        }
    }
}

/// The first suffix entry with a hash decides; there is an answer exactly where
/// there is such an entry.
pub proof fn the_first_suffix_decides(entries: Seq<(u32, usize)>, hash: u32)
    ensures
        first_with(entries, hash) is None <==> forall|i: int|
            0 <= i < entries.len() ==> (#[trigger] entries[i]).0 != hash,
        forall|i: int|
            0 <= i < entries.len() && (#[trigger] entries[i]).0 == hash && (forall|k: int|
                0 <= k < i ==> (#[trigger] entries[k]).0 != hash) ==> first_with(entries, hash) == Some(entries[i].1),
{
    first_entry(entries, hash);
    assert forall|i: int|
        0 <= i < entries.len() && (#[trigger] entries[i]).0 == hash && (forall|k: int|
            0 <= k < i ==> (#[trigger] entries[k]).0 != hash) implies first_with(entries, hash) == Some(
        entries[i].1,
    ) by {
        let j = choose|j: int|
            0 <= j < entries.len() && #[trigger] entries[j] == (hash, first_with(entries, hash)->0) && forall|k: int|
                0 <= k < j ==> (#[trigger] entries[k]).0 != hash;
        if j < i {
            assert(entries[j].0 != hash);
        }
        if i < j {
            assert(entries[i].0 != hash);
        }
    }
}

proof fn last_exact(rules: Seq<(u32, bool, usize)>, hash: u32)
    ensures
        exact_of(rules).contains_key(hash) <==> exists|i: int|
            0 <= i < rules.len() && (#[trigger] rules[i]).0 == hash && rules[i].1,
        exact_of(rules).contains_key(hash) ==> exists|i: int|
            0 <= i < rules.len() && #[trigger] rules[i] == (hash, true, exact_of(rules)[hash]) && forall|k: int|
                i < k < rules.len() ==> !((#[trigger] rules[k]).0 == hash && rules[k].1),
    decreases rules.len(),
{
    if rules.len() > 0 {
        let front = rules.drop_last();
        let last = rules.last();
        last_exact(front, hash);
        assert(rules[rules.len() - 1] == last);
        if last.1 && last.0 == hash {
            assert(rules[rules.len() - 1] == (hash, true, exact_of(rules)[hash]));
        } else {
            if exact_of(front).contains_key(hash) {
                let i = choose|i: int|
                    0 <= i < front.len() && #[trigger] front[i] == (hash, true, exact_of(front)[hash]) && forall|k: int|
                        i < k < front.len() ==> !((#[trigger] front[k]).0 == hash && front[k].1);
                assert(rules[i] == front[i]);
                assert forall|k: int| i < k < rules.len() implies !((#[trigger] rules[k]).0 == hash && rules[k].1) by {
                    if k < front.len() {
                        assert(front[k] == rules[k]);
                    }
                }
            }
            if exists|i: int| 0 <= i < rules.len() && (#[trigger] rules[i]).0 == hash && rules[i].1 {
                let i = choose|i: int| 0 <= i < rules.len() && (#[trigger] rules[i]).0 == hash && rules[i].1;
                assert(front[i] == rules[i]);
            }
        }
    }
}

/// Of the exact rules with a hash the last one decides; there is an answer
/// exactly where there is such a rule.
pub proof fn the_last_exact_rule_decides(rules: Seq<(u32, bool, usize)>, hash: u32, i: int)
    requires
        0 <= i < rules.len(),
        rules[i].0 == hash,
        rules[i].1,
        forall|k: int| i < k < rules.len() ==> !((#[trigger] rules[k]).0 == hash && rules[k].1),
    ensures
        exact_of(rules).contains_key(hash),
        exact_of(rules)[hash] == rules[i].2,
{
    last_exact(rules, hash);
    let j = choose|j: int|
        0 <= j < rules.len() && #[trigger] rules[j] == (hash, true, exact_of(rules)[hash]) && forall|k: int|
            j < k < rules.len() ==> !((#[trigger] rules[k]).0 == hash && rules[k].1);
    if i < j {
        assert(!(rules[j].0 == hash && rules[j].1));
    }
    if j < i {
        assert(!(rules[i].0 == hash && rules[i].1));
    }
}

/// A hash that no exact rule has is found among the suffix rules only.
pub proof fn only_exact_rules_are_exact(rules: Seq<(u32, bool, usize)>, hash: u32)
    requires
        forall|k: int| 0 <= k < rules.len() ==> !((#[trigger] rules[k]).0 == hash && rules[k].1),
    ensures
        !exact_of(rules).contains_key(hash),
{
    last_exact(rules, hash);
}

/// The suffix rules are those that are not exact, in their order, each with its
/// hash and its id.
pub proof fn suffix_rules_keep_their_order(first: Seq<(u32, bool, usize)>, second: Seq<(u32, bool, usize)>)
    ensures
        suffix_of(first + second) == suffix_of(first) + suffix_of(second),
        second.len() == 1 && second[0].1 ==> suffix_of(second).len() == 0,
        second.len() == 1 && !second[0].1 ==> suffix_of(second) == seq![(second[0].0, second[0].2)],
    decreases second.len(),
{
    if second.len() == 0 {
        assert(first + second =~= first);
        assert(suffix_of(first) + suffix_of(second) =~= suffix_of(first));
    } else {
        let front = second.drop_last();
        suffix_rules_keep_their_order(first, front);
        assert((first + second).drop_last() =~= first + front);
        assert((first + second).last() == second.last());
        assert(suffix_of(first + second) =~= suffix_of(first) + suffix_of(second));
        if second.len() == 1 {
            assert(suffix_of(front).len() == 0);
        }
    }
}

} // verus!
