//! Finding a strategy for domains that are interfered with.
//!
//! The search is bounded, measured and remembered: there is a fixed ladder of
//! candidates, each is tried for a bounded time, no domain gets more trials than
//! its budget, and a strategy that was found is used until it is no longer
//! fresh. How well a candidate did is a floating-point number; here it is
//! carried as its bits, and whoever measures it says whether it passed and
//! whether it is better than the strategy in use.
use vstd::prelude::*;
use vstd::string::*;

use crate::order::insert_text;
use crate::text::{clone_option, option_is, owned, same_text};
use crate::text_map::TextMap;

verus! {

/// Bounds on the search. Times are in seconds.
#[derive(Debug, Clone, Copy, PartialEq, Eq, Structural)]
pub struct DiscoveryConfig {
    /// How long a strategy is fresh.
    pub strategy_ttl_secs: u64,
    /// How many candidates are tried for a domain.
    pub max_candidates_per_domain: usize,
    /// How long a trial lasts.
    pub trial_window_secs: u64,
    /// How many trials there are at a time.
    pub max_concurrent_trials: usize,
    /// The bits of by how many percent a candidate has to be better to be taken.
    pub better_threshold_bits: u64,
}

impl Default for DiscoveryConfig {
    fn default() -> (r: DiscoveryConfig)
        ensures
            r == (DiscoveryConfig {
                strategy_ttl_secs: 86400,
                max_candidates_per_domain: 5,
                trial_window_secs: 45,
                max_concurrent_trials: 4,
                better_threshold_bits: 0x4034000000000000,
            }),
    {
        DiscoveryConfig {
            strategy_ttl_secs: 86400,
            max_candidates_per_domain: 5,
            trial_window_secs: 45,
            max_concurrent_trials: 4,
            better_threshold_bits: 0x4034000000000000,
        }
    }
}

/// Whether times that are computed with a configuration at a time can be
/// written down.
pub open spec fn times_fit(c: DiscoveryConfig, now_ms: i64) -> bool {
    &&& c.strategy_ttl_secs * 1000 <= i64::MAX
    &&& c.trial_window_secs * 1000 <= i64::MAX
    &&& now_ms + c.trial_window_secs * 1000 <= i64::MAX
}

/// How far the trial of a candidate is.
#[derive(Debug, Clone, Copy, PartialEq, Eq, Structural)]
pub enum CandidateStatus {
    Untried,
    Trying,
    Measured,
    Selected,
}

impl CandidateStatus {
    pub fn as_str(self) -> (r: &'static str)
        ensures
            r@ == match self {
                CandidateStatus::Untried => "untried"@,
                CandidateStatus::Trying => "trying"@,
                CandidateStatus::Measured => "measured"@,
                CandidateStatus::Selected => "selected"@,
            },
    {
        match self {
            CandidateStatus::Untried => "untried",
            CandidateStatus::Trying => "trying",
            CandidateStatus::Measured => "measured",
            CandidateStatus::Selected => "selected",
        }
    }
}

/// A candidate of a domain.
#[derive(Debug)]
pub struct CandidateState {
    pub name: String,
    pub status: CandidateStatus,
    /// The bits of how well it did.
    pub quality_bits: u64,
    pub rejected_reason: Option<String>,
    pub trial_ends_ms: i64,
}

/// What is known of a domain.
#[derive(Debug)]
pub struct DomainDiscoveryState {
    pub domain: String,
    /// The strategy in use.
    pub active: Option<String>,
    pub candidates: Vec<CandidateState>,
    pub selected_ms: i64,
    pub validated_ms: i64,
    pub observed_blocked: bool,
    pub last_event: Option<String>,
}

/// A candidate, as texts.
pub struct Candidate {
    pub name: Seq<char>,
    pub status: CandidateStatus,
    pub quality_bits: u64,
    pub rejected_reason: Option<Seq<char>>,
    pub trial_ends_ms: i64,
}

/// What is known of a domain, as texts.
#[verifier::ext_equal]
pub struct Known {
    pub domain: Seq<char>,
    pub active: Option<Seq<char>>,
    pub candidates: Seq<Candidate>,
    pub selected_ms: i64,
    pub validated_ms: i64,
    pub observed_blocked: bool,
    pub last_event: Option<Seq<char>>,
}

impl View for CandidateState {
    type V = Candidate;

    open spec fn view(&self) -> Candidate {
        Candidate {
            name: self.name@,
            status: self.status,
            quality_bits: self.quality_bits,
            rejected_reason: crate::text::text_of(self.rejected_reason),
            trial_ends_ms: self.trial_ends_ms,
        }
    }
}

pub open spec fn candidates_of(v: Seq<CandidateState>) -> Seq<Candidate> {
    Seq::new(v.len(), |i: int| v[i]@)
}

impl View for DomainDiscoveryState {
    type V = Known;

    open spec fn view(&self) -> Known {
        Known {
            domain: self.domain@,
            active: crate::text::text_of(self.active),
            candidates: candidates_of(self.candidates@),
            selected_ms: self.selected_ms,
            validated_ms: self.validated_ms,
            observed_blocked: self.observed_blocked,
            last_event: crate::text::text_of(self.last_event),
        }
    }
}

impl DomainDiscoveryState {
    /// The same state, owned separately.
    pub fn duplicate(&self) -> (r: DomainDiscoveryState)
        ensures
            r@ == self@,
    {
        let mut candidates: Vec<CandidateState> = Vec::new();
        let mut i: usize = 0;
        while i < self.candidates.len()
            invariant
                i <= self.candidates@.len(),
                candidates@.len() == i,
                forall|k: int| 0 <= k < i ==> (#[trigger] candidates@[k])@ == self.candidates@[k]@,
            decreases self.candidates.len() - i,
        {
            let c = &self.candidates[i];
            candidates.push(
                CandidateState {
                    name: c.name.clone(),
                    status: c.status,
                    quality_bits: c.quality_bits,
                    rejected_reason: clone_option(&c.rejected_reason),
                    trial_ends_ms: c.trial_ends_ms,
                },
            );
            i += 1;
        }
        assert(candidates_of(candidates@) =~= candidates_of(self.candidates@));
        DomainDiscoveryState {
            domain: self.domain.clone(),
            active: clone_option(&self.active),
            candidates,
            selected_ms: self.selected_ms,
            validated_ms: self.validated_ms,
            observed_blocked: self.observed_blocked,
            last_event: clone_option(&self.last_event),
        }
    }
}

/// A strategy: what is done with the packets of a flow.
#[derive(Debug)]
pub struct B4Set {
    pub name: String,
    pub enabled: bool,
    pub syn_ttl: u8,
    pub drop_sack: bool,
    pub fragmentation: String,
    pub middle_sni: bool,
    pub first_byte_split: bool,
    pub extension_split: bool,
    pub shuffle_mode: String,
    pub fake_sni: bool,
    pub fake_strategy: String,
    pub seq_offset: u32,
    pub udp_mode: String,
    pub udp_fake_len: u32,
    pub filter_quic: String,
}

impl B4Set {
    /// Whether the strategy is about UDP too.
    pub fn wants_udp(&self) -> (r: bool)
        ensures
            r == (self.udp_mode@ == "fake"@),
    {
        same_text(self.udp_mode.as_str(), "fake")
    }
}

/// A strategy of the ladder: split by extension, and more as asked for.
fn rung(name: &str, first_byte: bool, fake: bool, middle: bool, udp: bool) -> (r: B4Set)
    ensures
        r.name@ == name@,
        r.enabled,
        r.syn_ttl == 7,
        !r.drop_sack,
        r.fragmentation@ == "combo"@,
        r.extension_split,
        r.first_byte_split == first_byte,
        r.middle_sni == middle,
        r.shuffle_mode@ == if middle { "full"@ } else { ""@ },
        r.fake_sni == fake,
        r.fake_strategy@ == if fake { "pastseq"@ } else { ""@ },
        r.seq_offset == if fake { 10000u32 } else { 0u32 },
        r.udp_mode@ == if udp { "fake"@ } else { ""@ },
        r.udp_fake_len == if udp { 64u32 } else { 0u32 },
        r.filter_quic@ == if udp { "parse"@ } else { ""@ },
{
    B4Set {
        name: owned(name),
        enabled: true,
        syn_ttl: 7,
        drop_sack: false,
        fragmentation: owned("combo"),
        middle_sni: middle,
        first_byte_split: first_byte,
        extension_split: true,
        shuffle_mode: owned(if middle { "full" } else { "" }),
        fake_sni: fake,
        fake_strategy: owned(if fake { "pastseq" } else { "" }),
        seq_offset: if fake { 10000 } else { 0 },
        udp_mode: owned(if udp { "fake" } else { "" }),
        udp_fake_len: if udp { 64 } else { 0 },
        filter_quic: owned(if udp { "parse" } else { "" }),
    }
}

/// The names of strategies.
pub open spec fn set_names(v: Seq<B4Set>) -> Seq<Seq<char>> {
    Seq::new(v.len(), |i: int| v[i].name@)
}

/// The names of the ladder, from the least to the most that is done.
pub open spec fn ladder() -> Seq<Seq<char>> {
    seq!["mss"@, "pastseq"@, "combo"@, "combo+quic"@]
}

/// Whether strategies are the ladder: each splits by extension, all but the
/// first split the first byte and send a fake name, the last two split the name
/// and shuffle, and the last is about UDP too.
pub open spec fn is_ladder(v: Seq<B4Set>) -> bool {
    &&& set_names(v) == ladder()
    &&& forall|i: int|
        0 <= i < 4 ==> {
            &&& (#[trigger] v[i]).enabled
            &&& v[i].syn_ttl == 7
            &&& !v[i].drop_sack
            &&& v[i].fragmentation@ == "combo"@
            &&& v[i].extension_split
            &&& v[i].first_byte_split == (i >= 1)
            &&& v[i].fake_sni == (i >= 1)
            &&& v[i].fake_strategy@ == if i >= 1 { "pastseq"@ } else { ""@ }
            &&& v[i].seq_offset == if i >= 1 { 10000u32 } else { 0u32 }
            &&& v[i].middle_sni == (i >= 2)
            &&& v[i].shuffle_mode@ == if i >= 2 { "full"@ } else { ""@ }
            &&& v[i].udp_mode@ == if i == 3 { "fake"@ } else { ""@ }
            &&& v[i].udp_fake_len == if i == 3 { 64u32 } else { 0u32 }
            &&& v[i].filter_quic@ == if i == 3 { "parse"@ } else { ""@ }
        }
}

/// The ladder of candidates, from the least to the most that is done.
pub fn build_candidate_sets() -> (r: Vec<B4Set>)
    ensures
        is_ladder(r@),
{
    let mut sets: Vec<B4Set> = Vec::new();
    sets.push(rung("mss", false, false, false, false));
    sets.push(rung("pastseq", true, true, false, false));
    sets.push(rung("combo", true, true, true, false));
    sets.push(rung("combo+quic", true, true, true, true));
    assert(set_names(sets@) =~= ladder());
    sets
}

/// What is known of a domain that was just seen to be interfered with.
pub open spec fn first_seen(domain: Seq<char>) -> Known {
    Known {
        domain,
        active: None,
        candidates: Seq::new(
            ladder().len(),
            |i: int|
                Candidate {
                    name: ladder()[i],
                    status: CandidateStatus::Untried,
                    quality_bits: 0,
                    rejected_reason: None,
                    trial_ends_ms: 0,
                },
        ),
        selected_ms: 0,
        validated_ms: 0,
        observed_blocked: true,
        last_event: None,
    }
}

/// What is known of a domain after it was seen to be interfered with.
pub open spec fn seen_blocked(domain: Seq<char>, known: Option<Known>) -> Known {
    match known {
        Some(k) => if k.observed_blocked {
            k
        } else {
            Known {
                observed_blocked: true,
                last_event: Some("observed blocked \u{2192} starting discovery"@),
                ..k
            }
        },
        None => first_seen(domain),
    }
}

/// How many candidates were measured.
pub open spec fn measured_count(c: Seq<Candidate>) -> nat
    decreases c.len(),
{
    if c.len() == 0 {
        0
    } else {
        measured_count(c.drop_last()) + if c.last().status == CandidateStatus::Measured { 1nat } else { 0nat }
    }
}

/// Whether a candidate is due for another trial.
pub open spec fn stale(c: Candidate, now_ms: i64, ttl_ms: int) -> bool {
    c.status == CandidateStatus::Measured && now_ms - c.trial_ends_ms > ttl_ms
}

/// The first candidate that was not tried.
pub open spec fn first_untried(c: Seq<Candidate>) -> Option<int> {
    first_where(c, |x: Candidate| x.status == CandidateStatus::Untried)
}

pub open spec fn first_where(c: Seq<Candidate>, p: spec_fn(Candidate) -> bool) -> Option<int>
    decreases c.len(),
{
    if c.len() == 0 {
        None
    } else {
        match first_where(c.drop_last(), p) {
            Some(i) => Some(i),
            None => if p(c.last()) { Some(c.len() - 1) } else { None },
        }
    }
}

/// The candidate to try next: the first that was not tried, else the first
/// whose measurement is no longer fresh.
pub open spec fn next_candidate(c: Seq<Candidate>, now_ms: i64, ttl_ms: int) -> Option<int> {
    match first_untried(c) {
        Some(i) => Some(i),
        None => first_where(c, |x: Candidate| stale(x, now_ms, ttl_ms)),
    }
}

/// What a pass over a domain comes to before anything is measured.
pub enum Pass {
    /// A strategy to use, or none. Nothing is tried.
    Settled(Option<Seq<char>>),
    /// A candidate to try.
    Try(int),
}

/// What a pass over a domain comes to before anything is measured.
pub open spec fn pass_of(k: Known, c: DiscoveryConfig, trials: nat, now_ms: i64) -> Pass {
    let ttl_ms = c.strategy_ttl_secs * 1000;
    if k.active is Some && now_ms - k.validated_ms < ttl_ms {
        Pass::Settled(k.active)
    } else if measured_count(k.candidates) >= c.max_candidates_per_domain {
        Pass::Settled(k.active)
    } else {
        match next_candidate(k.candidates, now_ms, ttl_ms) {
            None => Pass::Settled(k.active),
            Some(i) => if trials >= c.max_concurrent_trials { Pass::Settled(k.active) } else { Pass::Try(i) },
        }
    }
}

/// What is known of a domain while a candidate is tried.
pub open spec fn under_trial(k: Known, i: int, c: DiscoveryConfig, now_ms: i64) -> Known {
    Known {
        candidates: k.candidates.update(
            i,
            Candidate {
                status: CandidateStatus::Trying,
                trial_ends_ms: (now_ms + c.trial_window_secs * 1000) as i64,
                ..k.candidates[i]
            },
        ),
        ..k
    }
}

/// How a trial went.
#[derive(Debug)]
pub struct Verdict {
    /// The bits of how well the candidate did.
    pub quality_bits: u64,
    /// The same as text.
    pub quality_text: String,
    /// Whether the candidate works at all.
    pub passed: bool,
    /// Whether it is better than the strategy in use by the threshold.
    pub better: bool,
}

/// What is known of a domain after a trial.
pub open spec fn after_trial(k: Known, i: int, now_ms: i64, v: Verdict) -> Known {
    let name = k.candidates[i].name;
    let measured = Known {
        candidates: k.candidates.update(
            i,
            Candidate {
                status: CandidateStatus::Measured,
                quality_bits: v.quality_bits,
                rejected_reason: if v.passed {
                    k.candidates[i].rejected_reason
                } else {
                    Some("connectivity probe failed"@)
                },
                ..k.candidates[i]
            },
        ),
        ..k
    };
    if !v.passed {
        Known {
            last_event: Some("candidate "@ + name + " rejected (quality "@ + v.quality_text@ + ")"@),
            ..measured
        }
    } else if k.active is None || v.better {
        Known {
            active: Some(name),
            selected_ms: now_ms,
            validated_ms: now_ms,
            observed_blocked: false,
            last_event: Some("selected "@ + name + " (quality "@ + v.quality_text@ + ")"@),
            ..measured
        }
    } else {
        Known {
            last_event: Some("candidate "@ + name + " measured "@ + v.quality_text@ + ", below threshold"@),
            ..measured
        }
    }
}

/// What is known of a domain after a candidate was tried, begun and ended at a
/// time.
pub open spec fn tried(k: Known, i: int, c: DiscoveryConfig, now_ms: i64, v: Verdict) -> Known {
    after_trial(under_trial(k, i, c, now_ms), i, now_ms, v)
}

/// What a pass comes to before anything is measured.
#[derive(Debug)]
pub enum TrialStep {
    /// A strategy to use, or none. Nothing is tried.
    Settled(Option<String>),
    /// A candidate to try, by its place and its name.
    Try { index: usize, name: String },
}

/// How a candidate is tried, and what its quality means.
pub trait ConnectivityProbe {
    /// How well a domain can be reached now, as bits.
    fn probe(&mut self, host: &str) -> u64;

    /// Whether a quality means that the domain can be reached.
    fn works(&self, quality: u64) -> bool;

    /// Whether a quality is better than another by a threshold.
    fn beats(&self, quality: u64, rival: u64, threshold: u64) -> bool;

    /// A quality as a text.
    fn shown(&self, quality: u64) -> String;
}

/// Whether a verdict is what a probe says of the quality in it, given the
/// quality that it has to beat where a strategy is in use.
pub open spec fn judged<P: ConnectivityProbe>(p: P, v: Verdict, rival: Option<u64>, threshold: u64) -> bool {
    &&& call_ensures(P::works, (&p, v.quality_bits), v.passed)
    &&& call_ensures(P::shown, (&p, v.quality_bits), v.quality_text)
    &&& match rival {
        Some(x) => call_ensures(P::beats, (&p, v.quality_bits, x, threshold), v.better),
        None => !v.better,
    }
}

/// A probe that takes a connection for a page that loads.
#[derive(Debug, Clone, Copy, PartialEq, Eq, Structural)]
pub struct TcpTlsProbe {
    pub port: u16,
    pub timeout_secs: u64,
}

impl TcpTlsProbe {
    pub fn new(port: u16) -> (r: Self)
        ensures
            r == (TcpTlsProbe { port, timeout_secs: 3 }),
    {
        TcpTlsProbe { port, timeout_secs: 3 }
    }
}

/// The search: what is known of each domain.
pub struct B4Discovery {
    pub config: DiscoveryConfig,
    /// What is known, by domain.
    pub store: TextMap<DomainDiscoveryState>,
    /// How many trials are under way.
    pub active_trials: usize,
}

fn find_candidate(v: &Vec<CandidateState>, now_ms: i64, ttl_ms: i64, untried: bool) -> (r: Option<usize>)
    ensures
        r matches Some(i) ==> i < v@.len(),
        untried ==> (match r {
            Some(i) => first_untried(candidates_of(v@)) == Some(i as int),
            None => first_untried(candidates_of(v@)) is None,
        }),
        !untried ==> (match r {
            Some(i) => first_where(candidates_of(v@), |x: Candidate| stale(x, now_ms, ttl_ms as int)) == Some(i as int),
            None => first_where(candidates_of(v@), |x: Candidate| stale(x, now_ms, ttl_ms as int)) is None,
        }),
{
    let ghost all = candidates_of(v@);
    let ghost p = if untried {
        |x: Candidate| x.status == CandidateStatus::Untried
    } else {
        |x: Candidate| stale(x, now_ms, ttl_ms as int)
    };
    let mut i: usize = 0;
    assert(all.take(0) =~= Seq::<Candidate>::empty());
    while i < v.len()
        invariant
            i <= v@.len(),
            all == candidates_of(v@),
            p == if untried {
                |x: Candidate| x.status == CandidateStatus::Untried
            } else {
                |x: Candidate| stale(x, now_ms, ttl_ms as int)
            },
            first_where(all.take(i as int), p) is None,
        decreases v.len() - i,
    {
        let c = &v[i];
        let fits = if untried {
            c.status == CandidateStatus::Untried
        } else {
            c.status == CandidateStatus::Measured && (now_ms as i128 - c.trial_ends_ms as i128) > ttl_ms as i128
        };
        assert(all.take(i as int + 1).drop_last() =~= all.take(i as int));
        assert(fits == p(all[i as int]));
        if fits {
            proof {
                first_stays(all, p, i as int + 1);
            }
            return Some(i);
        }
        i += 1;
    }
    assert(all.take(i as int) =~= all);
    None
}

proof fn first_stays(c: Seq<Candidate>, p: spec_fn(Candidate) -> bool, n: int)
    requires
        0 <= n <= c.len(),
        first_where(c.take(n), p) is Some,
    ensures
        first_where(c, p) == first_where(c.take(n), p),
    decreases c.len(),
{
    if n == c.len() {
        assert(c.take(n) =~= c);
    } else {
        assert(c.drop_last().take(n) =~= c.take(n));
        first_stays(c.drop_last(), p, n);
    }
}

fn count_measured(v: &Vec<CandidateState>) -> (r: usize)
    ensures
        r == measured_count(candidates_of(v@)),
{
    let ghost all = candidates_of(v@);
    let mut n: usize = 0;
    let mut i: usize = 0;
    assert(all.take(0) =~= Seq::<Candidate>::empty());
    while i < v.len()
        invariant
            i <= v@.len(),
            all == candidates_of(v@),
            n == measured_count(all.take(i as int)),
            n <= i,
        decreases v.len() - i,
    {
        assert(all.take(i as int + 1).drop_last() =~= all.take(i as int));
        if v[i].status == CandidateStatus::Measured {
            n += 1;
        }
        i += 1;
    }
    assert(all.take(i as int) =~= all);
    n
}

fn event(a: &str, b: &str, c: &str, d: &str, e: &str) -> (r: String)
    ensures
        r@ == a@ + b@ + c@ + d@ + e@,
{
    let mut s = owned(a);
    s.append(b);
    s.append(c);
    s.append(d);
    s.append(e);
    s
}

impl B4Discovery {
    /// What is known of each domain.
    pub closed spec fn known(&self) -> Map<Seq<char>, Known> {
        self.store@.map_values(|d: DomainDiscoveryState| d@)
    }

    /// What is known of a domain, if anything.
    pub open spec fn known_of(&self, domain: Seq<char>) -> Option<Known> {
        if self.known().contains_key(domain) { Some(self.known()[domain]) } else { None }
    }

    pub fn new() -> (r: Self)
        ensures
            r.known() == Map::<Seq<char>, Known>::empty(),
            r.active_trials == 0,
            r.config == (DiscoveryConfig {
                strategy_ttl_secs: 86400,
                max_candidates_per_domain: 5,
                trial_window_secs: 45,
                max_concurrent_trials: 4,
                better_threshold_bits: 0x4034000000000000,
            }),
    {
        let r = B4Discovery { config: DiscoveryConfig::default(), store: TextMap::new(), active_trials: 0 };
        assert(r.known() =~= Map::<Seq<char>, Known>::empty());
        r
    }

    /// What is known of a domain, or that it was just seen.
    pub open spec fn known_or_new(&self, domain: Seq<char>) -> Known {
        match self.known_of(domain) {
            Some(k) => k,
            None => first_seen(domain),
        }
    }

    /// Whether what is known of each domain bears its name.
    pub open spec fn keyed(&self) -> bool {
        forall|d: Seq<char>| #[trigger] self.known().contains_key(d) ==> self.known()[d].domain == d
    }

    /// The candidates.
    pub fn candidate_sets(&self) -> (r: Vec<B4Set>)
        ensures
            is_ladder(r@),
    {
        build_candidate_sets()
    }

    /// Take note that a domain is interfered with.
    pub fn observe_blocked(&mut self, domain: &str)
        ensures
            final(self).known() == old(self).known().insert(
                domain@,
                seen_blocked(domain@, old(self).known_of(domain@)),
            ),
            final(self).config == old(self).config,
            final(self).active_trials == old(self).active_trials,
            old(self).keyed() ==> final(self).keyed(),
    {
        let ghost before = self.known();
        let state = match self.store.remove(domain) {
            Some(mut s) => {
                if !s.observed_blocked {
                    s.observed_blocked = true;
                    s.last_event = Some(owned("observed blocked \u{2192} starting discovery"));
                }
                s
            },
            None => {
                let sets = build_candidate_sets();
                let mut candidates: Vec<CandidateState> = Vec::new();
                let mut i: usize = 0;
                while i < sets.len()
                    invariant
                        i <= sets@.len(),
                        set_names(sets@) == ladder(),
                        candidates@.len() == i,
                        forall|k: int| 0 <= k < i ==> (#[trigger] candidates@[k])@ == first_seen(domain@).candidates[k],
                    decreases sets.len() - i,
                {
                    assert(set_names(sets@)[i as int] == sets@[i as int].name@);
                    candidates.push(
                        CandidateState {
                            name: sets[i].name.clone(),
                            status: CandidateStatus::Untried,
                            quality_bits: 0,
                            rejected_reason: None,
                            trial_ends_ms: 0,
                        },
                    );
                    i += 1;
                }
                assert(set_names(sets@).len() == ladder().len());
                assert(candidates_of(candidates@) =~= first_seen(domain@).candidates);
                DomainDiscoveryState {
                    domain: owned(domain),
                    active: None,
                    candidates,
                    selected_ms: 0,
                    validated_ms: 0,
                    observed_blocked: true,
                    last_event: None,
                }
            },
        };
        assert(state@ == seen_blocked(domain@, old(self).known_of(domain@)));
        let ghost kept = state@;
        self.store.insert(domain, state);
        assert(self.known() =~= before.insert(domain@, kept));
    }

    /// Begin a pass over a domain: a strategy to use, or a candidate to try.
    pub fn begin(&mut self, domain: &str, now_ms: i64) -> (r: TrialStep)
        requires
            times_fit(old(self).config, now_ms),
            old(self).active_trials < usize::MAX,
        ensures
            ({
                let k = old(self).known_or_new(domain@);
                match pass_of(k, old(self).config, old(self).active_trials as nat, now_ms) {
                    Pass::Settled(s) => {
                        &&& r matches TrialStep::Settled(x)
                        &&& crate::text::text_of(x) == s
                        &&& final(self).known() == old(self).known().insert(domain@, k)
                        &&& final(self).active_trials == old(self).active_trials
                    },
                    Pass::Try(i) => {
                        &&& r matches TrialStep::Try { index, name }
                        &&& index == i
                        &&& index < k.candidates.len()
                        &&& name@ == k.candidates[i].name
                        &&& final(self).known() == old(self).known().insert(
                            domain@,
                            under_trial(k, i, old(self).config, now_ms),
                        )
                        &&& final(self).active_trials == old(self).active_trials + 1
                    },
                }
            }),
            final(self).config == old(self).config,
            old(self).keyed() ==> final(self).keyed(),
    {
        let ghost before = self.known();
        if !self.store.contains_key(domain) {
            self.observe_blocked(domain);
        }
        let ghost k = old(self).known_or_new(domain@);
        assert(self.known() =~= before.insert(domain@, k));
        assert(self.known().contains_key(domain@) && self.known()[domain@] == k);
        let ghost mid = self.known();
        let ttl_ms: i64 = (self.config.strategy_ttl_secs * 1000) as i64;
        let mut state = match self.store.remove(domain) {
            Some(s) => s,
            None => {
                return TrialStep::Settled(None);
            },
        };
        assert(state@ == k);
        let fresh = state.active.is_some() && (now_ms as i128 - state.validated_ms as i128) < ttl_ms as i128;
        let mut index: Option<usize> = None;
        if !fresh && count_measured(&state.candidates) < self.config.max_candidates_per_domain {
            index = find_candidate(&state.candidates, now_ms, ttl_ms, true);
            if index.is_none() {
                index = find_candidate(&state.candidates, now_ms, ttl_ms, false);
            }
            if self.active_trials >= self.config.max_concurrent_trials {
                index = None;
            }
        }
        let step = match index {
            Some(i) => {
                let c = &state.candidates[i];
                let name = c.name.clone();
                let next = CandidateState {
                    name: c.name.clone(),
                    status: CandidateStatus::Trying,
                    quality_bits: c.quality_bits,
                    rejected_reason: clone_option(&c.rejected_reason),
                    trial_ends_ms: now_ms + (self.config.trial_window_secs * 1000) as i64,
                };
                let ghost was = state.candidates@;
                state.candidates.set(i, next);
                assert(candidates_of(state.candidates@) =~= candidates_of(was).update(i as int, next@));
                self.active_trials = self.active_trials + 1;
                TrialStep::Try { index: i, name }
            },
            None => TrialStep::Settled(clone_option(&state.active)),
        };
        let ghost kept = state@;
        self.store.insert(domain, state);
        assert(self.known() =~= mid.insert(domain@, kept));
        assert(self.known() =~= before.insert(domain@, kept));
        step
    }

    /// The bits of how well the strategy in use did, given how well the
    /// candidate at a place just did: what a candidate has to beat. Zero where
    /// the strategy in use is no candidate; nothing where none is in use.
    pub fn rival_quality(&self, domain: &str, index: usize, quality_bits: u64) -> (r: Option<u64>)
        ensures
            r == rival(self.known_of(domain@), index as int, quality_bits),
    {
        match self.store.get(domain) {
            Some(state) => match &state.active {
                Some(active) => {
                    let ghost all = candidates_of(state.candidates@);
                    let mut i: usize = 0;
                    assert(all.skip(0) =~= all);
                    while i < state.candidates.len()
                        invariant
                            i <= state.candidates@.len(),
                            all == candidates_of(state.candidates@),
                            state@.active == Some(active@),
                            state@.candidates == all,
                            self.known_of(domain@) == Some(state@),
                            rival_in(all, active@, index as int, quality_bits, 0) == rival_in(
                                all,
                                active@,
                                index as int,
                                quality_bits,
                                i as int,
                            ),
                        decreases state.candidates.len() - i,
                    {
                        assert(all[i as int].name == state.candidates@[i as int].name@);
                        if same_text(state.candidates[i].name.as_str(), active.as_str()) {
                            return Some(
                                if i == index {
                                    quality_bits
                                } else {
                                    state.candidates[i].quality_bits
                                },
                            );
                        }
                        i += 1;
                    }
                    Some(0)
                },
                None => None,
            },
            None => None,
        }
    }

    /// End a trial. The strategy to use from now on, or none.
    pub fn finish(&mut self, domain: &str, index: usize, now_ms: i64, verdict: &Verdict) -> (r: Option<String>)
        requires
            old(self).known_of(domain@) is Some,
            index < old(self).known_of(domain@)->0.candidates.len(),
            old(self).active_trials > 0,
        ensures
            final(self).known() == old(self).known().insert(
                domain@,
                after_trial(old(self).known_of(domain@)->0, index as int, now_ms, *verdict),
            ),
            crate::text::text_of(r) == after_trial(
                old(self).known_of(domain@)->0,
                index as int,
                now_ms,
                *verdict,
            ).active,
            final(self).active_trials == old(self).active_trials - 1,
            final(self).config == old(self).config,
            old(self).keyed() ==> final(self).keyed(),
    {
        let ghost before = self.known();
        let ghost k = before[domain@];
        self.active_trials = self.active_trials - 1;
        let mut state = match self.store.remove(domain) {
            Some(s) => s,
            None => {
                return None;
            },
        };
        let name = state.candidates[index].name.clone();
        let c = &state.candidates[index];
        let next = CandidateState {
            name: c.name.clone(),
            status: CandidateStatus::Measured,
            quality_bits: verdict.quality_bits,
            rejected_reason: if verdict.passed {
                clone_option(&c.rejected_reason)
            } else {
                Some(owned("connectivity probe failed"))
            },
            trial_ends_ms: c.trial_ends_ms,
        };
        let ghost was = state.candidates@;
        state.candidates.set(index, next);
        assert(candidates_of(state.candidates@) =~= candidates_of(was).update(index as int, next@));
        if !verdict.passed {
            state.last_event = Some(
                event("candidate ", name.as_str(), " rejected (quality ", verdict.quality_text.as_str(), ")"),
            );
        } else if state.active.is_none() || verdict.better {
            state.last_event = Some(event("selected ", name.as_str(), " (quality ", verdict.quality_text.as_str(), ")"));
            state.active = Some(name);
            state.selected_ms = now_ms;
            state.validated_ms = now_ms;
            state.observed_blocked = false;
        } else {
            state.last_event = Some(
                event("candidate ", name.as_str(), " measured ", verdict.quality_text.as_str(), ", below threshold"),
            );
        }
        assert(state@ == after_trial(k, index as int, now_ms, *verdict));
        let result = clone_option(&state.active);
        let ghost kept = state@;
        self.store.insert(domain, state);
        assert(self.known() =~= before.insert(domain@, kept));
        result
    }

    /// A whole pass over a domain: the strategy to use, or none. Where a
    /// candidate is tried the probe is asked once and decides how the trial went;
    /// where none is, the probe is left alone.
    pub fn discover<P: ConnectivityProbe>(&mut self, domain: &str, now_ms: i64, probe: &mut P) -> (r: Option<String>)
        requires
            times_fit(old(self).config, now_ms),
            old(self).active_trials < usize::MAX,
        ensures
            ({
                let k = old(self).known_or_new(domain@);
                match pass_of(k, old(self).config, old(self).active_trials as nat, now_ms) {
                    Pass::Settled(s) => {
                        &&& crate::text::text_of(r) == s
                        &&& final(self).known() == old(self).known().insert(domain@, k)
                        &&& *final(probe) == *old(probe)
                    },
                    Pass::Try(i) => exists|v: Verdict, asked: &mut P| {
                        &&& final(self).known() == old(self).known().insert(
                            domain@,
                            #[trigger] tried(k, i, old(self).config, now_ms, v),
                        )
                        &&& crate::text::text_of(r) == tried(k, i, old(self).config, now_ms, v).active
                        &&& *asked == *old(probe)
                        &&& *final(asked) == *final(probe)
                        &&& #[trigger] call_ensures(P::probe, (asked, domain), v.quality_bits)
                        &&& judged(
                            *final(probe),
                            v,
                            rival(Some(under_trial(k, i, old(self).config, now_ms)), i, v.quality_bits),
                            old(self).config.better_threshold_bits,
                        )
                    },
                }
            }),
            final(self).config == old(self).config,
            final(self).active_trials == old(self).active_trials,
            old(self).keyed() ==> final(self).keyed(),
    {
        let ghost before = self.known();
        match self.begin(domain, now_ms) {
            TrialStep::Settled(s) => s,
            TrialStep::Try { index, .. } => {
                let ghost mid = self.known();
                assert(self.known_of(domain@) is Some);
                let quality_bits = probe.probe(domain);
                let better = match self.rival_quality(domain, index, quality_bits) {
                    Some(rival) => probe.beats(quality_bits, rival, self.config.better_threshold_bits),
                    None => false,
                };
                let verdict = Verdict {
                    quality_bits,
                    quality_text: probe.shown(quality_bits),
                    passed: probe.works(quality_bits),
                    better,
                };
                let r = self.finish(domain, index, now_ms, &verdict);
                proof {
                    let k = old(self).known_or_new(domain@);
                    let after = tried(k, index as int, old(self).config, now_ms, verdict);
                    assert(mid[domain@] == under_trial(k, index as int, old(self).config, now_ms));
                    assert(judged(
                        *probe,
                        verdict,
                        rival(Some(mid[domain@]), index as int, quality_bits),
                        old(self).config.better_threshold_bits,
                    ));
                    assert(self.known() =~= before.insert(domain@, after));
                }
                r
            },
        }
    }

    /// The strategy in use for a domain.
    pub fn active_for(&self, domain: &str) -> (r: Option<String>)
        ensures
            crate::text::text_of(r) == match self.known_of(domain@) {
                Some(k) => k.active,
                None => None,
            },
    {
        match self.store.get(domain) {
            Some(s) => clone_option(&s.active),
            None => None,
        }
    }


    /// The domains of which something is known, in order.
    pub fn domains(&self) -> (r: Vec<String>)
        ensures
            crate::order::ascending(crate::text::strings(r@)),
            forall|d: Seq<char>| #[trigger] crate::text::strings(r@).contains(d) <==> self.known().contains_key(d),
    {
        let mut out: Vec<String> = Vec::new();
        let n = self.store.len();
        let ghost keys = self.store.keys();
        let mut i: usize = 0;
        assert(crate::text::strings(out@) =~= Seq::<Seq<char>>::empty());
        while i < n
            invariant
                i <= n,
                n == keys.len(),
                keys == self.store.keys(),
                crate::order::ascending(crate::text::strings(out@)),
                forall|d: Seq<char>| #[trigger]
                    crate::text::strings(out@).contains(d) <==> exists|k: int| 0 <= k < i && #[trigger] keys[k] == d,
            decreases n - i,
        {
            let (key, _) = self.store.entry(i);
            insert_text(&mut out, key.as_str());
            i += 1;
            assert forall|d: Seq<char>| #[trigger] crate::text::strings(out@).contains(d) implies exists|k: int|
                0 <= k < i && #[trigger] keys[k] == d by {
                if d == key@ {
                    assert(keys[i as int - 1] == d);
                }
            }
        }
        assert forall|d: Seq<char>| #[trigger] crate::text::strings(out@).contains(d) <==> self.known().contains_key(
            d,
        ) by {
            if self.store@.contains_key(d) {
                assert(keys.contains(d));
            }
            if crate::text::strings(out@).contains(d) {
                let k = choose|k: int| 0 <= k < n && #[trigger] keys[k] == d;
                assert(keys.contains(d));
                assert(self.store@.contains_key(d));
            }
        }
        out
    }

    /// What is known of each domain, in the order of the domains.
    pub fn state(&self) -> (r: Vec<DomainDiscoveryState>)
        requires
            self.keyed(),
        ensures
            crate::order::ascending(domain_names(r@)),
            forall|d: Seq<char>| #[trigger] domain_names(r@).contains(d) <==> self.known().contains_key(d),
            forall|i: int| 0 <= i < r@.len() ==> (#[trigger] r@[i])@ == self.known()[r@[i].domain@],
    {
        let names = self.domains();
        let ghost all = crate::text::strings(names@);
        let mut out: Vec<DomainDiscoveryState> = Vec::new();
        let mut i: usize = 0;
        assert(domain_names(out@) =~= all.take(0));
        while i < names.len()
            invariant
                i <= names@.len(),
                self.keyed(),
                all == crate::text::strings(names@),
                forall|d: Seq<char>| #[trigger] all.contains(d) <==> self.known().contains_key(d),
                domain_names(out@) == all.take(i as int),
                forall|k: int| 0 <= k < out@.len() ==> (#[trigger] out@[k])@ == self.known()[out@[k].domain@],
            decreases names.len() - i,
        {
            assert(all.contains(all[i as int]));
            if let Some(d) = self.store.get(names[i].as_str()) {
                let ghost before = out@;
                let copy = d.duplicate();
                assert(copy@ == self.known()[all[i as int]]);
                out.push(copy);
                assert(domain_names(out@) =~= domain_names(before).push(all[i as int]));
                assert(all.take(i as int + 1) =~= all.take(i as int).push(all[i as int]));
            }
            i += 1;
        }
        assert(all.take(i as int) =~= all);
        out
    }

    /// The candidates that are in use for some domain.
    pub fn active_sets(&self) -> (r: Vec<B4Set>)
        ensures
            exists|l: Seq<B4Set>| #[trigger] is_ladder(l) && r@ == l.filter(|s: B4Set| self.in_use(s.name@)),
    {
        let names = self.domains();
        let mut sets = build_candidate_sets();
        let ghost p = |s: B4Set| self.in_use(s.name@);
        let ghost l = sets@;
        let mut out: Vec<B4Set> = Vec::new();
        let ghost mut at: int = 0;
        assert(sets@ =~= l.skip(0));
        assert(out@ =~= l.take(0).filter(p));
        while sets.len() > 0
            invariant
                0 <= at <= l.len(),
                is_ladder(l),
                sets@ == l.skip(at),
                p == |s: B4Set| self.in_use(s.name@),
                forall|d: Seq<char>| #[trigger]
                    crate::text::strings(names@).contains(d) <==> self.known().contains_key(d),
                out@ == l.take(at).filter(p),
            decreases sets.len(),
        {
            assert(l.skip(at)[0] == l[at]);
            let set = sets.remove(0);
            assert(sets@ =~= l.skip(at + 1));
            let used = self.uses(&names, set.name.as_str());
            proof {
                assert(l.take(at + 1) =~= l.take(at).push(l[at]));
                l.take(at).lemma_filter_push(l[at], p);
            }
            if used {
                out.push(set);
            }
            proof {
                at = at + 1;
            }
        }
        assert(l.take(at) =~= l);
        out
    }

    /// Whether a strategy is in use for some domain.
    pub open spec fn in_use(&self, name: Seq<char>) -> bool {
        exists|d: Seq<char>| #[trigger] self.known().contains_key(d) && self.known()[d].active == Some(name)
    }

    fn uses(&self, names: &Vec<String>, name: &str) -> (r: bool)
        requires
            forall|d: Seq<char>| #[trigger]
                crate::text::strings(names@).contains(d) <==> self.known().contains_key(d),
        ensures
            r == self.in_use(name@),
    {
        let mut i: usize = 0;
        let ghost all = crate::text::strings(names@);
        while i < names.len()
            invariant
                i <= names@.len(),
                all == crate::text::strings(names@),
                forall|d: Seq<char>| #[trigger] all.contains(d) <==> self.known().contains_key(d),
                forall|k: int| 0 <= k < i ==> self.known()[#[trigger] all[k]].active != Some(name@),
            decreases names.len() - i,
        {
            assert(all.contains(all[i as int]));
            let active = self.active_for(names[i].as_str());
            if option_is(&active, name) {
                assert(self.known().contains_key(all[i as int]));
                return true;
            }
            i += 1;
        }
        proof {
            if self.in_use(name@) {
                let d = choose|d: Seq<char>| #[trigger]
                    self.known().contains_key(d) && self.known()[d].active == Some(name@);
                assert(all.contains(d));
                let k = choose|k: int| 0 <= k < all.len() && all[k] == d;
                assert(self.known()[all[k]].active != Some(name@));
            }
        }
        false
    }
}

/// The names of the domains of states.
pub open spec fn domain_names(v: Seq<DomainDiscoveryState>) -> Seq<Seq<char>> {
    Seq::new(v.len(), |i: int| v[i].domain@)
}

/// What the search is at, to be shown.
#[derive(Debug)]
pub struct DiscoverySnapshot {
    pub enabled: bool,
    pub domains: Vec<DomainDiscoveryState>,
    pub last_error: Option<String>,
}

/// The search, which can be switched off.
pub struct DiscoveryManager {
    pub inner: B4Discovery,
    pub enabled: bool,
}

/// The bounds of a search that nobody set otherwise.
pub open spec fn usual_bounds() -> DiscoveryConfig {
    DiscoveryConfig {
        strategy_ttl_secs: 86400,
        max_candidates_per_domain: 5,
        trial_window_secs: 45,
        max_concurrent_trials: 4,
        better_threshold_bits: 0x4034000000000000,
    }
}

impl DiscoveryManager {
    pub fn new() -> (r: Self)
        ensures
            r.enabled,
            r.inner.known() == Map::<Seq<char>, Known>::empty(),
            r.inner.active_trials == 0,
            r.inner.config == usual_bounds(),
    {
        DiscoveryManager { inner: B4Discovery::new(), enabled: true }
    }

    pub fn set_enabled(&mut self, enabled: bool)
        ensures
            final(self).enabled == enabled,
            final(self).inner == old(self).inner,
    {
        self.enabled = enabled;
    }

    pub fn is_enabled(&self) -> (r: bool)
        ensures
            r == self.enabled,
    {
        self.enabled
    }

    /// A domain was seen to be interfered with: take note and begin a pass.
    /// Nothing is done where the search is switched off.
    pub fn on_blocked(&mut self, domain: &str, now_ms: i64) -> (r: TrialStep)
        requires
            times_fit(old(self).inner.config, now_ms),
            old(self).inner.active_trials < usize::MAX,
        ensures
            !old(self).enabled ==> r == TrialStep::Settled(None) && *final(self) == *old(self),
            old(self).enabled ==> {
                let k = seen_blocked(domain@, old(self).inner.known_of(domain@));
                match pass_of(k, old(self).inner.config, old(self).inner.active_trials as nat, now_ms) {
                    Pass::Settled(s) => {
                        &&& r matches TrialStep::Settled(x)
                        &&& crate::text::text_of(x) == s
                        &&& final(self).inner.known() == old(self).inner.known().insert(domain@, k)
                        &&& final(self).inner.active_trials == old(self).inner.active_trials
                    },
                    Pass::Try(i) => {
                        &&& r matches TrialStep::Try { index, name }
                        &&& index == i
                        &&& index < k.candidates.len()
                        &&& name@ == k.candidates[i].name
                        &&& final(self).inner.known() == old(self).inner.known().insert(
                            domain@,
                            under_trial(k, i, old(self).inner.config, now_ms),
                        )
                        &&& final(self).inner.active_trials == old(self).inner.active_trials + 1
                    },
                }
            },
            final(self).enabled == old(self).enabled,
            final(self).inner.config == old(self).inner.config,
            old(self).inner.keyed() ==> final(self).inner.keyed(),
    {
        if !self.enabled {
            return TrialStep::Settled(None);
        }
        self.inner.observe_blocked(domain);
        let ghost mid = self.inner.known();
        let ghost k = seen_blocked(domain@, old(self).inner.known_of(domain@));
        assert(self.inner.known_of(domain@) == Some(k));
        let r = self.inner.begin(domain, now_ms);
        proof {
            assert(mid.insert(domain@, k) =~= old(self).inner.known().insert(domain@, k));
            if let Pass::Try(i) = pass_of(k, old(self).inner.config, old(self).inner.active_trials as nat, now_ms) {
                let t = under_trial(k, i, old(self).inner.config, now_ms);
                assert(mid.insert(domain@, t) =~= old(self).inner.known().insert(domain@, t));
            }
        }
        r
    }

    /// The strategy in use for a domain.
    pub fn active_for(&self, domain: &str) -> (r: Option<String>)
        ensures
            crate::text::text_of(r) == match self.inner.known_of(domain@) {
                Some(k) => k.active,
                None => None,
            },
    {
        self.inner.active_for(domain)
    }

    /// What the search is at, to be shown.
    pub fn snapshot(&self) -> (r: DiscoverySnapshot)
        requires
            self.inner.keyed(),
        ensures
            r.enabled == self.enabled,
            r.last_error is None,
            crate::order::ascending(domain_names(r.domains@)),
            forall|d: Seq<char>| #[trigger]
                domain_names(r.domains@).contains(d) <==> self.inner.known().contains_key(d),
            forall|i: int| 0 <= i < r.domains@.len() ==> (#[trigger] r.domains@[i])@ == self.inner.known()[r.domains@[i].domain@],
    {
        DiscoverySnapshot { enabled: self.enabled, domains: self.inner.state(), last_error: None }
    }
}

/// The bits that a candidate has to beat, from a place on.
pub open spec fn rival_in(c: Seq<Candidate>, active: Seq<char>, index: int, bits: u64, from: int) -> u64
    decreases c.len() - from,
{
    if from >= c.len() {
        0
    } else if c[from].name == active {
        if from == index { bits } else { c[from].quality_bits }
    } else {
        rival_in(c, active, index, bits, from + 1)
    }
}

pub open spec fn rival(known: Option<Known>, index: int, bits: u64) -> Option<u64> {
    match known {
        Some(k) => match k.active {
            Some(a) => Some(rival_in(k.candidates, a, index, bits, 0)),
            None => None,
        },
        None => None,
    }
}

/// A strategy that was just taken is used without a trial for as long as it is
/// fresh.
pub proof fn fresh_strategies_are_reused(k: Known, i: int, c: DiscoveryConfig, v: Verdict, taken_ms: i64, trials: nat, now_ms: i64)
    requires
        0 <= i < k.candidates.len(),
        v.passed && (k.active is None || v.better),
        now_ms - taken_ms < c.strategy_ttl_secs * 1000,
    ensures
        pass_of(after_trial(k, i, taken_ms, v), c, trials, now_ms) == Pass::Settled(Some(k.candidates[i].name)),
{
}

/// A domain whose budget is used up is not tried again: what is in use stays.
pub proof fn the_search_is_bounded(k: Known, c: DiscoveryConfig, trials: nat, now_ms: i64)
    requires
        measured_count(k.candidates) >= c.max_candidates_per_domain,
    ensures
        pass_of(k, c, trials, now_ms) == Pass::Settled(k.active),
{
}

/// No more trials are begun than may go on at a time.
pub proof fn trials_are_limited(k: Known, c: DiscoveryConfig, trials: nat, now_ms: i64)
    requires
        trials >= c.max_concurrent_trials,
    ensures
        pass_of(k, c, trials, now_ms) is Settled,
{
}

/// A candidate that does not work is never taken: what is in use stays.
pub proof fn failures_are_not_taken(k: Known, i: int, now_ms: i64, v: Verdict)
    requires
        !v.passed,
    ensures
        after_trial(k, i, now_ms, v).active == k.active,
{
}

proof fn where_is_there(c: Seq<Candidate>, p: spec_fn(Candidate) -> bool)
    ensures
        first_where(c, p) matches Some(i) ==> 0 <= i < c.len() && p(c[i]),
    decreases c.len(),
{
    if c.len() > 0 {
        where_is_there(c.drop_last(), p);
    }
}

proof fn count_after_update(c: Seq<Candidate>, i: int, x: Candidate)
    requires
        0 <= i < c.len(),
    ensures
        measured_count(c.update(i, x)) == measured_count(c) - (if c[i].status == CandidateStatus::Measured {
            1int
        } else {
            0int
        }) + (if x.status == CandidateStatus::Measured { 1int } else { 0int }),
    decreases c.len(),
{
    if i == c.len() - 1 {
        assert(c.update(i, x).drop_last() =~= c.drop_last());
    } else {
        count_after_update(c.drop_last(), i, x);
        assert(c.update(i, x).drop_last() =~= c.drop_last().update(i, x));
    }
}

/// A whole pass never brings more candidates to be measured than the budget
/// allows, and each first trial of a candidate is counted.
pub proof fn trials_are_counted(k: Known, c: DiscoveryConfig, trials: nat, began_ms: i64, ended_ms: i64, v: Verdict)
    requires
        measured_count(k.candidates) <= c.max_candidates_per_domain,
    ensures
        pass_of(k, c, trials, began_ms) matches Pass::Try(i) ==> {
            let after = after_trial(under_trial(k, i, c, began_ms), i, ended_ms, v);
            &&& measured_count(after.candidates) <= c.max_candidates_per_domain
            &&& measured_count(after.candidates) == measured_count(k.candidates) + if k.candidates[i].status
                == CandidateStatus::Untried {
                1int
            } else {
                0int
            }
        },
{
    if let Pass::Try(i) = pass_of(k, c, trials, began_ms) {
        let ttl_ms = c.strategy_ttl_secs * 1000;
        where_is_there(k.candidates, |x: Candidate| x.status == CandidateStatus::Untried);
        where_is_there(k.candidates, |x: Candidate| stale(x, began_ms, ttl_ms));
        let t = under_trial(k, i, c, began_ms);
        count_after_update(k.candidates, i, t.candidates[i]);
        let a = after_trial(t, i, ended_ms, v);
        count_after_update(t.candidates, i, a.candidates[i]);
        assert(a.candidates =~= t.candidates.update(i, a.candidates[i]));
        assert(t.candidates =~= k.candidates.update(i, t.candidates[i]));
    }
}

/// What several passes over a domain come to.
#[verifier::ext_equal]
pub struct Search {
    pub known: Known,
    /// The candidates that were tried, in order.
    pub probed: Seq<Seq<char>>,
    /// What each pass gave: the strategy to use, or none.
    pub results: Seq<Option<Seq<char>>>,
}

/// What passes over a domain come to, one at each time, where each trial goes as
/// the verdict for its pass says. Other trials that are under way count.
pub open spec fn searched(
    k: Known,
    c: DiscoveryConfig,
    trials: nat,
    times: Seq<i64>,
    verdicts: Seq<Verdict>,
) -> Search
    decreases times.len(),
{
    if times.len() == 0 {
        Search { known: k, probed: Seq::empty(), results: Seq::empty() }
    } else {
        let s = searched(k, c, trials, times.drop_last(), verdicts.drop_last());
        match pass_of(s.known, c, trials, times.last()) {
            Pass::Settled(r) => Search { results: s.results.push(r), ..s },
            Pass::Try(i) => {
                let after = tried(s.known, i, c, times.last(), verdicts.last());
                Search {
                    known: after,
                    probed: s.probed.push(s.known.candidates[i].name),
                    results: s.results.push(after.active),
                }
            },
        }
    }
}

/// How many candidates are tried in a number of passes in which none works: one
/// in each, up to the length of the ladder and the budget.
pub open spec fn trials_in(passes: nat, c: DiscoveryConfig) -> nat {
    if passes <= ladder().len() && passes <= c.max_candidates_per_domain {
        passes
    } else if ladder().len() <= c.max_candidates_per_domain {
        ladder().len()
    } else {
        c.max_candidates_per_domain as nat
    }
}

/// What is known after trials in which no candidate worked.
pub open spec fn none_worked(k: Known, n: nat) -> bool {
    &&& k.active is None
    &&& k.candidates.len() == ladder().len()
    &&& forall|i: int|
        0 <= i < ladder().len() ==> {
            &&& (#[trigger] k.candidates[i]).name == ladder()[i]
            &&& i < n ==> k.candidates[i].status == CandidateStatus::Measured && k.candidates[i].rejected_reason
                == Some("connectivity probe failed"@)
            &&& i >= n ==> k.candidates[i].status == CandidateStatus::Untried
        }
}

proof fn first_is(c: Seq<Candidate>, p: spec_fn(Candidate) -> bool, i: int)
    requires
        0 <= i < c.len(),
        p(c[i]),
        forall|j: int| 0 <= j < i ==> !p(#[trigger] c[j]),
    ensures
        first_where(c, p) == Some(i),
    decreases c.len(),
{
    if i < c.len() - 1 {
        first_is(c.drop_last(), p, i);
    } else {
        none_is(c.drop_last(), p);
    }
}

proof fn none_is(c: Seq<Candidate>, p: spec_fn(Candidate) -> bool)
    requires
        forall|j: int| 0 <= j < c.len() ==> !p(#[trigger] c[j]),
    ensures
        first_where(c, p) is None,
    decreases c.len(),
{
    if c.len() > 0 {
        assert forall|j: int| 0 <= j < c.drop_last().len() implies !p(#[trigger] c.drop_last()[j]) by {
            assert(c.drop_last()[j] == c[j]);
        }
        none_is(c.drop_last(), p);
        assert(!p(c[c.len() - 1]));
    }
}

proof fn count_is(c: Seq<Candidate>, n: nat)
    requires
        n <= c.len(),
        forall|j: int| 0 <= j < c.len() ==> ((#[trigger] c[j]).status == CandidateStatus::Measured <==> j < n),
    ensures
        measured_count(c) == n,
    decreases c.len(),
{
    if c.len() > 0 {
        let m: nat = if n == c.len() { (n - 1) as nat } else { n };
        count_is(c.drop_last(), m);
        assert(c[c.len() - 1].status == CandidateStatus::Measured <==> n == c.len());
    }
}

/// Where no candidate works, passes over a domain within the time for which a
/// measurement is fresh try the ladder from its first rung on, one rung in each
/// pass, until the ladder or the budget is at its end, and then try nothing. No
/// pass gives a strategy. What was tried is measured and rejected, and the rest
/// is untried.
pub proof fn failing_passes_climb_the_ladder(
    domain: Seq<char>,
    c: DiscoveryConfig,
    trials: nat,
    times: Seq<i64>,
    verdicts: Seq<Verdict>,
)
    requires
        trials < c.max_concurrent_trials,
        times.len() == verdicts.len(),
        forall|i: int| 0 <= i < times.len() ==> times_fit(c, #[trigger] times[i]),
        forall|i: int| 0 <= i < verdicts.len() ==> !(#[trigger] verdicts[i]).passed,
        forall|i: int, j: int|
            0 <= i < j < times.len() ==> #[trigger] times[j] - #[trigger] times[i] <= (c.strategy_ttl_secs
                + c.trial_window_secs) * 1000,
    ensures
        ({
            let s = searched(first_seen(domain), c, trials, times, verdicts);
            &&& s.probed == ladder().take(trials_in(times.len(), c) as int)
            &&& s.results == Seq::new(times.len(), |i: int| None::<Seq<char>>)
            &&& none_worked(s.known, trials_in(times.len(), c))
        }),
{
    climbing(domain, c, trials, times, verdicts);
}

proof fn climbing(domain: Seq<char>, c: DiscoveryConfig, trials: nat, times: Seq<i64>, verdicts: Seq<Verdict>)
    requires
        trials < c.max_concurrent_trials,
        times.len() == verdicts.len(),
        forall|i: int| 0 <= i < times.len() ==> times_fit(c, #[trigger] times[i]),
        forall|i: int| 0 <= i < verdicts.len() ==> !(#[trigger] verdicts[i]).passed,
        forall|i: int, j: int|
            0 <= i < j < times.len() ==> #[trigger] times[j] - #[trigger] times[i] <= (c.strategy_ttl_secs
                + c.trial_window_secs) * 1000,
    ensures
        ({
            let s = searched(first_seen(domain), c, trials, times, verdicts);
            let n = trials_in(times.len(), c);
            &&& s.probed == ladder().take(n as int)
            &&& s.results == Seq::new(times.len(), |i: int| None::<Seq<char>>)
            &&& none_worked(s.known, n)
            &&& forall|i: int|
                0 <= i < n ==> (#[trigger] s.known.candidates[i]).trial_ends_ms == times[i] + c.trial_window_secs * 1000
        }),
    decreases times.len(),
{
    let k = first_seen(domain);
    let s = searched(k, c, trials, times, verdicts);
    if times.len() == 0 {
        assert(ladder().take(0) =~= Seq::<Seq<char>>::empty());
        assert(s.results =~= Seq::new(0, |i: int| None::<Seq<char>>));
        assert(none_worked(s.known, 0));
    } else {
        let early = times.drop_last();
        let now_ms = times.last();
        assert forall|i: int| 0 <= i < early.len() implies times_fit(c, #[trigger] early[i]) by {
            assert(early[i] == times[i]);
        }
        assert forall|i: int, j: int| 0 <= i < j < early.len() implies #[trigger] early[j] - #[trigger] early[i] <= (
        c.strategy_ttl_secs + c.trial_window_secs) * 1000 by {
            assert(times[j] - times[i] <= (c.strategy_ttl_secs + c.trial_window_secs) * 1000);
        }
        climbing(domain, c, trials, early, verdicts.drop_last());
        let f = searched(k, c, trials, early, verdicts.drop_last());
        let n = trials_in(early.len(), c);
        let cs = f.known.candidates;
        let ttl_ms = c.strategy_ttl_secs * 1000;
        let untried = |x: Candidate| x.status == CandidateStatus::Untried;
        let due = |x: Candidate| stale(x, now_ms, ttl_ms);
        count_is(cs, n);
        if n < ladder().len() {
            first_is(cs, untried, n as int);
            assert(next_candidate(cs, now_ms, ttl_ms) == Some(n as int));
        } else {
            none_is(cs, untried);
            assert forall|j: int| 0 <= j < cs.len() implies !due(#[trigger] cs[j]) by {
                assert(cs[j].trial_ends_ms == early[j] + c.trial_window_secs * 1000);
                assert(times[times.len() - 1] - times[j] <= (c.strategy_ttl_secs + c.trial_window_secs) * 1000);
            }
            none_is(cs, due);
            assert(next_candidate(cs, now_ms, ttl_ms) is None);
        }
        if n < ladder().len() && n < c.max_candidates_per_domain {
            assert(n == early.len());
            assert(trials_in(times.len(), c) == n + 1);
            assert(times_fit(c, times[times.len() - 1]));
            assert(!verdicts[verdicts.len() - 1].passed);
            assert(pass_of(f.known, c, trials, now_ms) == Pass::Try(n as int));
            assert(s.probed =~= ladder().take(n as int + 1));
            assert(s.results =~= Seq::new(times.len(), |i: int| None::<Seq<char>>));
            assert(none_worked(s.known, n + 1));
            assert forall|i: int| 0 <= i < n + 1 implies (#[trigger] s.known.candidates[i]).trial_ends_ms == times[i]
                + c.trial_window_secs * 1000 by {
                if i < n {
                    assert(s.known.candidates[i] == cs[i]);
                    assert(early[i] == times[i]);
                }
            }
        } else {
            assert(trials_in(times.len(), c) == n);
            assert(pass_of(f.known, c, trials, now_ms) == Pass::Settled(None));
            assert(s.results =~= Seq::new(times.len(), |i: int| None::<Seq<char>>));
            assert forall|i: int| 0 <= i < n implies (#[trigger] s.known.candidates[i]).trial_ends_ms == times[i]
                + c.trial_window_secs * 1000 by {
                assert(early[i] == times[i]);
            }
        }
    }
}

proof fn first_is_first(c: Seq<Candidate>, p: spec_fn(Candidate) -> bool)
    ensures
        first_where(c, p) is None <==> forall|i: int| 0 <= i < c.len() ==> !p(#[trigger] c[i]),
        first_where(c, p) matches Some(i) ==> 0 <= i < c.len() && p(c[i]) && forall|k: int|
            0 <= k < i ==> !p(#[trigger] c[k]),
    decreases c.len(),
{
    if c.len() > 0 {
        let front = c.drop_last();
        first_is_first(front, p);
        assert forall|i: int| 0 <= i < front.len() implies #[trigger] front[i] == c[i] by {}
        assert(c[c.len() - 1] == c.last());
        if first_where(front, p) is None {
            assert forall|k: int| 0 <= k < c.len() - 1 implies !p(#[trigger] c[k]) by {
                assert(!p(front[k]));
            }
        } else {
            let i = first_where(front, p)->0;
            assert(front[i] == c[i]);
            assert forall|k: int| 0 <= k < i implies !p(#[trigger] c[k]) by {
                assert(!p(front[k]));
            }
        }
    }
}

/// A domain without a strategy that is still fresh, with trials left, is tried
/// with the first candidate that was never tried.
pub proof fn the_first_untried_candidate_is_next(k: Known, c: DiscoveryConfig, trials: nat, now_ms: i64, i: int)
    requires
        k.active is None || now_ms - k.validated_ms >= c.strategy_ttl_secs * 1000,
        measured_count(k.candidates) < c.max_candidates_per_domain,
        trials < c.max_concurrent_trials,
        0 <= i < k.candidates.len(),
        k.candidates[i].status == CandidateStatus::Untried,
        forall|j: int| 0 <= j < i ==> (#[trigger] k.candidates[j]).status != CandidateStatus::Untried,
    ensures
        pass_of(k, c, trials, now_ms) == Pass::Try(i),
{
    first_is_first(k.candidates, |x: Candidate| x.status == CandidateStatus::Untried);
}

/// Where every candidate was tried, the first one that was measured longer ago
/// than a strategy lasts is tried again; where there is none, what is in use
/// stays.
pub proof fn old_measurements_are_repeated(k: Known, c: DiscoveryConfig, trials: nat, now_ms: i64, i: int)
    requires
        k.active is None || now_ms - k.validated_ms >= c.strategy_ttl_secs * 1000,
        measured_count(k.candidates) < c.max_candidates_per_domain,
        trials < c.max_concurrent_trials,
        forall|j: int| 0 <= j < k.candidates.len() ==> (#[trigger] k.candidates[j]).status != CandidateStatus::Untried,
        0 <= i <= k.candidates.len(),
        forall|j: int|
            0 <= j < i ==> (#[trigger] k.candidates[j]).status != CandidateStatus::Measured || now_ms
                - k.candidates[j].trial_ends_ms <= c.strategy_ttl_secs * 1000,
    ensures
        i < k.candidates.len() && k.candidates[i].status == CandidateStatus::Measured && now_ms
            - k.candidates[i].trial_ends_ms > c.strategy_ttl_secs * 1000 ==> pass_of(k, c, trials, now_ms) == Pass::Try(
            i,
        ),
        i == k.candidates.len() ==> pass_of(k, c, trials, now_ms) == Pass::Settled(k.active),
{
    let ttl_ms = c.strategy_ttl_secs * 1000;
    first_is_first(k.candidates, |x: Candidate| x.status == CandidateStatus::Untried);
    first_is_first(k.candidates, |x: Candidate| stale(x, now_ms, ttl_ms));
}

/// A strategy that was validated less than its lifetime ago is used without a
/// trial.
pub proof fn fresh_strategies_need_no_trial(k: Known, c: DiscoveryConfig, trials: nat, now_ms: i64)
    requires
        k.active is Some,
        now_ms - k.validated_ms < c.strategy_ttl_secs * 1000,
    ensures
        pass_of(k, c, trials, now_ms) == Pass::Settled(k.active),
{
}

/// A trial marks its candidate as being tried until its window is over, and
/// nothing else.
pub proof fn trials_mark_their_candidate(k: Known, i: int, c: DiscoveryConfig, now_ms: i64, j: int)
    requires
        0 <= i < k.candidates.len(),
        0 <= j < k.candidates.len(),
        times_fit(c, now_ms),
    ensures
        ({
            let t = under_trial(k, i, c, now_ms);
            &&& t.candidates.len() == k.candidates.len()
            &&& t.candidates[i].status == CandidateStatus::Trying
            &&& t.candidates[i].trial_ends_ms == now_ms + 1000 * c.trial_window_secs
            &&& t.candidates[i].name == k.candidates[i].name
            &&& t.candidates[i].quality_bits == k.candidates[i].quality_bits
            &&& t.candidates[i].rejected_reason == k.candidates[i].rejected_reason
            &&& j != i ==> t.candidates[j] == k.candidates[j]
            &&& t.domain == k.domain
            &&& t.active == k.active
            &&& t.selected_ms == k.selected_ms
            &&& t.validated_ms == k.validated_ms
            &&& t.observed_blocked == k.observed_blocked
            &&& t.last_event == k.last_event
        }),
{
}

/// A trial ends with its candidate measured. One that worked is taken where
/// nothing was in use or it is better than what was; one that did not work is
/// rejected. Nothing else about any candidate changes.
pub proof fn trials_end_with_a_measurement(k: Known, i: int, now_ms: i64, v: Verdict, j: int)
    requires
        0 <= i < k.candidates.len(),
        0 <= j < k.candidates.len(),
    ensures
        ({
            let a = after_trial(k, i, now_ms, v);
            let name = k.candidates[i].name;
            &&& a.candidates.len() == k.candidates.len()
            &&& a.candidates[i].status == CandidateStatus::Measured
            &&& a.candidates[i].quality_bits == v.quality_bits
            &&& a.candidates[i].name == name
            &&& a.candidates[i].trial_ends_ms == k.candidates[i].trial_ends_ms
            &&& v.passed ==> a.candidates[i].rejected_reason == k.candidates[i].rejected_reason
            &&& !v.passed ==> a.candidates[i].rejected_reason == Some("connectivity probe failed"@)
            &&& j != i ==> a.candidates[j] == k.candidates[j]
            &&& a.domain == k.domain
            &&& v.passed && (k.active is None || v.better) ==> a.active == Some(name) && a.selected_ms == now_ms
                && a.validated_ms == now_ms && !a.observed_blocked && a.last_event == Some(
                "selected "@ + name + " (quality "@ + v.quality_text@ + ")"@,
            )
            &&& !v.passed || (k.active is Some && !v.better) ==> a.active == k.active && a.selected_ms
                == k.selected_ms && a.validated_ms == k.validated_ms && a.observed_blocked == k.observed_blocked
            &&& !v.passed ==> a.last_event == Some(
                "candidate "@ + name + " rejected (quality "@ + v.quality_text@ + ")"@,
            )
            &&& v.passed && k.active is Some && !v.better ==> a.last_event == Some(
                "candidate "@ + name + " measured "@ + v.quality_text@ + ", below threshold"@,
            )
        }),
{
}

/// A domain that is seen blocked for the first time has four candidates, from
/// the mildest to the strongest, none of them tried; one that was known keeps
/// everything but that it is blocked.
pub proof fn blocked_domains_get_candidates(domain: Seq<char>, known: Option<Known>)
    ensures
        seen_blocked(domain, known).observed_blocked,
        known matches Some(k) ==> {
            let after = seen_blocked(domain, known);
            &&& after.domain == k.domain
            &&& after.active == k.active
            &&& after.candidates == k.candidates
            &&& after.selected_ms == k.selected_ms
            &&& after.validated_ms == k.validated_ms
            &&& k.observed_blocked ==> after.last_event == k.last_event
        },
        known is None ==> {
            let after = seen_blocked(domain, known);
            &&& after.domain == domain
            &&& after.active is None
            &&& after.candidates.len() == 4
            &&& after.candidates[0].name == "mss"@
            &&& after.candidates[1].name == "pastseq"@
            &&& after.candidates[2].name == "combo"@
            &&& after.candidates[3].name == "combo+quic"@
            &&& forall|i: int|
                0 <= i < 4 ==> (#[trigger] after.candidates[i]).status == CandidateStatus::Untried
                    && after.candidates[i].quality_bits == 0 && after.candidates[i].rejected_reason is None
                    && after.candidates[i].trial_ends_ms == 0
            &&& after.selected_ms == 0
            &&& after.validated_ms == 0
            &&& after.last_event is None
        },
{
}

/// Each measured candidate counts once, and no other one does.
pub proof fn measured_candidates_are_counted(first: Seq<Candidate>, second: Seq<Candidate>)
    ensures
        measured_count(first + second) == measured_count(first) + measured_count(second),
        second.len() == 1 && second[0].status == CandidateStatus::Measured ==> measured_count(second) == 1,
        second.len() == 1 && second[0].status != CandidateStatus::Measured ==> measured_count(second) == 0,
    decreases second.len(),
{
    if second.len() == 0 {
        assert(first + second =~= first);
    } else {
        let front = second.drop_last();
        measured_candidates_are_counted(first, front);
        assert((first + second).drop_last() =~= first + front);
        assert((first + second).last() == second.last());
        if second.len() == 1 {
            assert(measured_count(front) == 0);
        }
    }
}

proof fn rival_from(c: Seq<Candidate>, active: Seq<char>, index: int, bits: u64, from: int, at: int)
    requires
        0 <= from <= at < c.len(),
        c[at].name == active,
        forall|k: int| from <= k < at ==> (#[trigger] c[k]).name != active,
    ensures
        rival_in(c, active, index, bits, from) == if at == index { bits } else { c[at].quality_bits },
    decreases at - from,
{
    if from < at {
        assert(c[from].name != active);
        rival_from(c, active, index, bits, from + 1, at);
    }
}

/// A candidate is held against what is in use: against its last quality, or its
/// own new one where the candidate itself is in use. Where nothing is in use
/// there is nothing to hold it against.
pub proof fn candidates_are_held_against_what_is_in_use(k: Known, index: int, bits: u64, at: int)
    ensures
        rival(None, index, bits) is None,
        k.active is None ==> rival(Some(k), index, bits) is None,
        0 <= at < k.candidates.len() && k.active == Some(k.candidates[at].name) && (forall|j: int|
            0 <= j < at ==> (#[trigger] k.candidates[j]).name != k.candidates[at].name) ==> rival(Some(k), index, bits)
            == Some(if at == index { bits } else { k.candidates[at].quality_bits }),
{
    if 0 <= at < k.candidates.len() && k.active == Some(k.candidates[at].name) && (forall|j: int|
        0 <= j < at ==> (#[trigger] k.candidates[j]).name != k.candidates[at].name) {
        rival_from(k.candidates, k.candidates[at].name, index, bits, 0, at);
    }
}

/// Each rung of the ladder does what the one below it does, and one thing more:
/// past the first a false name is sent and the first byte split off, past the
/// second the name is split in its middle, and the last one covers QUIC too.
pub proof fn rungs_do_more_and_more(v: Seq<B4Set>, i: int)
    requires
        is_ladder(v),
        0 <= i < 4,
    ensures
        v.len() == 4,
        v[0].name@ == "mss"@,
        v[1].name@ == "pastseq"@,
        v[2].name@ == "combo"@,
        v[3].name@ == "combo+quic"@,
        v[i].enabled,
        v[i].syn_ttl == 7,
        !v[i].drop_sack,
        v[i].fragmentation@ == "combo"@,
        v[i].extension_split,
        v[i].first_byte_split <==> i >= 1,
        v[i].fake_sni <==> i >= 1,
        v[i].seq_offset == if i >= 1 { 10000u32 } else { 0u32 },
        v[i].middle_sni <==> i >= 2,
        i >= 2 ==> v[i].shuffle_mode@ == "full"@,
        i >= 1 ==> v[i].fake_strategy@ == "pastseq"@,
        i == 3 ==> v[i].udp_mode@ == "fake"@ && v[i].udp_fake_len == 64 && v[i].filter_quic@ == "parse"@,
        i < 3 ==> v[i].udp_mode@ == ""@ && v[i].udp_fake_len == 0 && v[i].filter_quic@ == ""@,
{
    let names = set_names(v);
    assert(names.len() == ladder().len());
    assert(names[0] == v[0].name@ && names[1] == v[1].name@ && names[2] == v[2].name@ && names[3] == v[3].name@);
}

/// A strategy lasts a day, a trial 45 seconds; a domain is measured five times
/// at most, and four trials go on at a time.
pub proof fn the_usual_bounds()
    ensures
        usual_bounds().strategy_ttl_secs == 24 * 60 * 60,
        usual_bounds().trial_window_secs == 45,
        usual_bounds().max_candidates_per_domain == 5,
        usual_bounds().max_concurrent_trials == 4,
        usual_bounds().better_threshold_bits == 0x4034000000000000,
{
}

/// A set is in use exactly where some domain that is known uses it.
pub proof fn which_sets_are_in_use(search: &B4Discovery, name: Seq<char>, domain: Seq<char>)
    ensures
        search.known().contains_key(domain) && search.known()[domain].active == Some(name) ==> search.in_use(name),
        search.in_use(name) ==> exists|d: Seq<char>| #[trigger]
            search.known().contains_key(d) && search.known()[d].active == Some(name),
{
}

/// A verdict is the probe's own: whether the quality works, how it is shown, and
/// whether it beats what is in use by the threshold; where nothing is in use it
/// beats nothing.
pub proof fn verdicts_are_those_of_the_probe<P: ConnectivityProbe>(p: P, v: Verdict, rival: u64, threshold: u64)
    ensures
        judged(p, v, None, threshold) ==> !v.better,
        judged(p, v, Some(rival), threshold) ==> call_ensures(
            P::beats,
            (&p, v.quality_bits, rival, threshold),
            v.better,
        ),
        judged(p, v, Some(rival), threshold) || judged(p, v, None, threshold) ==> call_ensures(
            P::works,
            (&p, v.quality_bits),
            v.passed,
        ) && call_ensures(P::shown, (&p, v.quality_bits), v.quality_text),
{
}

} // verus!
