//! DNS filtering for LAN clients: per-domain classification, a response cache,
//! and negative answers.
use vstd::prelude::*;
use vstd::slice::{slice_subrange, slice_to_vec};
use vstd::string::*;

use crate::dns::{CacheEntry, Cached};
use crate::model::{Capabilities, HealthStatus};
use crate::net::{be_number, ipv4, IpAddr, SocketAddr};
use crate::reconciliation::dns_flow::{DnsRegistry, Resolution};
use crate::text::{list_has, to_lowercase, utf8_text};
use crate::text_map::TextMap;

verus! {

/// What is done with the traffic of a domain.
#[derive(Debug, Clone, Copy, PartialEq, Eq, Structural)]
pub enum DnsClassification {
    /// Pass through directly.
    Direct,
    /// Answer that the name does not exist.
    Block,
    /// Apply the B4 strategies.
    B4,
    /// Route through the VPN tunnel.
    Vpn,
}

impl Default for DnsClassification {
    fn default() -> (r: DnsClassification)
        ensures
            r == DnsClassification::Direct,
    {
        DnsClassification::Direct
    }
}

/// What is done with one domain, and the address it has to resolve to, if any.
#[derive(Debug)]
pub struct DomainPolicy {
    pub domain: String,
    pub classification: DnsClassification,
    pub ip_override: Option<IpAddr>,
    pub ttl: Option<u32>,
}

/// Configuration of the filter.
#[derive(Debug)]
pub struct DnsFilterConfig {
    pub listen: SocketAddr,
    pub upstreams: Vec<SocketAddr>,
    pub cache_size: usize,
    pub log_queries: bool,
    pub blocklist: Vec<String>,
    /// Domains that pass, whatever the blocklist says.
    pub allowlist: Vec<String>,
    /// What comes before both lists.
    pub domain_policies: Vec<DomainPolicy>,
    pub default_classification: DnsClassification,
    pub forward_timeout_secs: u64,
    pub cache_ttl_secs: u64,
}

/// How many seconds an upstream has, where nothing else is configured.
pub fn default_forward_timeout() -> (r: u64)
    ensures
        r == 2,
{
    2
}

/// How many seconds a response is cached, where nothing else is configured.
pub fn default_cache_ttl() -> (r: u64)
    ensures
        r == 30,
{
    30
}

impl Default for DnsFilterConfig {
    fn default() -> (r: DnsFilterConfig)
        ensures
            r.listen == crate::dns::v4_socket(0, 0, 0, 0, 53),
            r.upstreams@ == seq![crate::dns::v4_socket(1, 1, 1, 1, 53), crate::dns::v4_socket(8, 8, 8, 8, 53)],
            r.cache_size == 10000,
            !r.log_queries,
            r.blocklist@.len() == 0,
            r.allowlist@.len() == 0,
            r.domain_policies@.len() == 0,
            r.default_classification == DnsClassification::Direct,
            r.forward_timeout_secs == 2,
            r.cache_ttl_secs == 30,
    {
        let mut upstreams: Vec<SocketAddr> = Vec::new();
        upstreams.push(SocketAddr { ip: ipv4(1, 1, 1, 1), port: 53 });
        upstreams.push(SocketAddr { ip: ipv4(8, 8, 8, 8), port: 53 });
        assert(upstreams@ =~= seq![crate::dns::v4_socket(1, 1, 1, 1, 53), crate::dns::v4_socket(8, 8, 8, 8, 53)]);
        DnsFilterConfig {
            listen: SocketAddr { ip: ipv4(0, 0, 0, 0), port: 53 },
            upstreams,
            cache_size: 10000,
            log_queries: false,
            blocklist: Vec::new(),
            allowlist: Vec::new(),
            domain_policies: Vec::new(),
            default_classification: DnsClassification::Direct,
            forward_timeout_secs: default_forward_timeout(),
            cache_ttl_secs: default_cache_ttl(),
        }
    }
}

/// Each text in lower case.
pub open spec fn lower_all(list: Seq<Seq<char>>) -> Seq<Seq<char>> {
    Seq::new(list.len(), |i: int| crate::text::unicode_lower(list[i]))
}

/// The policies by their domain in lower case. Of two for one domain the later
/// counts.
pub open spec fn policies_by_domain(p: Seq<DomainPolicy>) -> Map<Seq<char>, DomainPolicy>
    decreases p.len(),
{
    if p.len() == 0 {
        Map::empty()
    } else {
        policies_by_domain(p.drop_last()).insert(crate::text::unicode_lower(p.last().domain@), p.last())
    }
}

fn lower_list(list: &Vec<String>) -> (r: Vec<String>)
    ensures
        crate::text::strings(r@) == lower_all(crate::text::strings(list@)),
{
    let mut out: Vec<String> = Vec::new();
    let mut i: usize = 0;
    while i < list.len()
        invariant
            i <= list.len(),
            crate::text::strings(out@) == lower_all(crate::text::strings(list@)).take(i as int),
        decreases list.len() - i,
    {
        let ghost before = out@;
        out.push(to_lowercase(list[i].as_str()));
        assert(crate::text::strings(out@) =~= crate::text::strings(before).push(
            lower_all(crate::text::strings(list@))[i as int],
        ));
        i += 1;
        assert(lower_all(crate::text::strings(list@)).take(i as int) =~= lower_all(crate::text::strings(list@)).take(
            i as int - 1,
        ).push(lower_all(crate::text::strings(list@))[i as int - 1]));
    }
    assert(lower_all(crate::text::strings(list@)).take(i as int) =~= lower_all(crate::text::strings(list@)));
    out
}

impl DomainPolicy {
    fn duplicate(&self) -> (r: DomainPolicy)
        ensures
            r == *self,
    {
        DomainPolicy {
            domain: self.domain.clone(),
            classification: self.classification,
            ip_override: self.ip_override,
            ttl: self.ttl,
        }
    }
}

fn policy_map(policies: &Vec<DomainPolicy>) -> (r: TextMap<DomainPolicy>)
    ensures
        r@ == policies_by_domain(policies@),
{
    let mut out: TextMap<DomainPolicy> = TextMap::new();
    let mut i: usize = 0;
    while i < policies.len()
        invariant
            i <= policies.len(),
            out@ == policies_by_domain(policies@.take(i as int)),
        decreases policies.len() - i,
    {
        let key = to_lowercase(policies[i].domain.as_str());
        out.insert(key.as_str(), policies[i].duplicate());
        i += 1;
        assert(policies@.take(i as int).drop_last() =~= policies@.take(i as int - 1));
    }
    assert(policies@.take(i as int) =~= policies@);
    out
}

/// The classification of a domain in lower case, and the address it has to
/// resolve to, if any.
pub open spec fn classified(
    lower: Seq<char>,
    policies: Map<Seq<char>, DomainPolicy>,
    allow: Seq<Seq<char>>,
    block: Seq<Seq<char>>,
    default: DnsClassification,
) -> (DnsClassification, Option<IpAddr>) {
    if policies.contains_key(lower) {
        (policies[lower].classification, policies[lower].ip_override)
    } else if allow.contains(lower) {
        (DnsClassification::Direct, None)
    } else if block.contains(lower) {
        (DnsClassification::Block, None)
    } else {
        (default, None)
    }
}

/// The state of the filter between two datagrams.
pub struct DnsFilterState {
    pub cache: Vec<CacheEntry>,
    pub cache_size: usize,
    pub blocklist: Vec<String>,
    pub allowlist: Vec<String>,
    pub domain_policies: TextMap<DomainPolicy>,
    pub default_classification: DnsClassification,
    pub upstreams: Vec<SocketAddr>,
    pub forward_timeout_secs: u64,
    pub cache_ttl_secs: u64,
    pub log_queries: bool,
    pub round_robin: usize,
}

/// The labels of a name, as text, from a place in a query on. Nothing where a
/// label is cut off or is not text.
pub open spec fn text_labels(query: Seq<u8>, pos: int) -> Option<Seq<Seq<char>>>
    decreases query.len() - pos,
{
    if pos < 0 || pos >= query.len() || query[pos] == 0 || query[pos] >= 192 {
        Some(Seq::empty())
    } else {
        let end = pos + 1 + query[pos];
        if end > query.len() {
            None
        } else if !vstd::utf8::valid_utf8(query.subrange(pos + 1, end)) {
            None
        } else {
            match text_labels(query, end) {
                None => None,
                Some(rest) => Some(seq![vstd::utf8::decode_utf8(query.subrange(pos + 1, end))] + rest),
            }
        }
    }
}

/// Texts with dots between them.
pub open spec fn dot_joined(labels: Seq<Seq<char>>) -> Seq<char>
    decreases labels.len(),
{
    if labels.len() == 0 {
        Seq::empty()
    } else if labels.len() == 1 {
        labels[0]
    } else {
        dot_joined(labels.drop_last()) + "."@ + labels.last()
    }
}

/// The domain that a query is about.
pub open spec fn domain_in(query: Seq<u8>) -> Option<Seq<char>> {
    if query.len() < 17 {
        None
    } else {
        match text_labels(query, 12) {
            None => None,
            Some(labels) => Some(dot_joined(labels)),
        }
    }
}

/// The entries of a cache after room was made for one more: where it is full,
/// a tenth of its size, and at least one entry, leaves, the oldest first.
pub open spec fn tenth_dropped(e: Seq<Cached>, size: usize) -> Seq<Cached> {
    if e.len() < size {
        e
    } else {
        let n = if size / 10 > 1 { (size / 10) as int } else { 1 };
        if n >= e.len() { Seq::empty() } else { e.skip(n) }
    }
}

/// The end of a cache lifetime of some seconds that starts now.
pub open spec fn ttl_end(now_ms: u64, ttl_secs: u64) -> u64 {
    let ttl_ms = if ttl_secs * 1000 > u64::MAX { u64::MAX } else { (ttl_secs * 1000) as u64 };
    crate::reconciliation::dns_flow::expiry(now_ms, ttl_ms)
}

impl DnsFilterState {
    /// The responses in the cache, the oldest first.
    pub open spec fn cached(&self) -> Seq<Cached> {
        crate::dns::cached_views(self.cache@)
    }

    /// The state for a configuration, with an empty cache.
    pub fn new(config: &DnsFilterConfig) -> (r: DnsFilterState)
        ensures
            r.cached() == Seq::<Cached>::empty(),
            r.cache_size == config.cache_size,
            crate::text::strings(r.blocklist@) == lower_all(crate::text::strings(config.blocklist@)),
            crate::text::strings(r.allowlist@) == lower_all(crate::text::strings(config.allowlist@)),
            r.domain_policies@ == policies_by_domain(config.domain_policies@),
            r.default_classification == config.default_classification,
            r.upstreams@ == config.upstreams@,
            r.forward_timeout_secs == config.forward_timeout_secs,
            r.cache_ttl_secs == config.cache_ttl_secs,
            r.log_queries == config.log_queries,
            r.round_robin == 0,
    {
        let r = DnsFilterState {
            cache: Vec::new(),
            cache_size: config.cache_size,
            blocklist: lower_list(&config.blocklist),
            allowlist: lower_list(&config.allowlist),
            domain_policies: policy_map(&config.domain_policies),
            default_classification: config.default_classification,
            upstreams: crate::dns::clone_sockets(&config.upstreams),
            forward_timeout_secs: config.forward_timeout_secs,
            cache_ttl_secs: config.cache_ttl_secs,
            log_queries: config.log_queries,
            round_robin: 0,
        };
        assert(r.cached() =~= Seq::<Cached>::empty());
        r
    }

    /// The classification of a domain in lower case.
    pub open spec fn classifies(&self, lower: Seq<char>) -> (DnsClassification, Option<IpAddr>) {
        classified(
            lower,
            self.domain_policies@,
            crate::text::strings(self.allowlist@),
            crate::text::strings(self.blocklist@),
            self.default_classification,
        )
    }

    /// Classify a domain that is in lower case already. A policy for the domain
    /// comes before the allowlist, that before the blocklist, and what is
    /// configured for every other domain comes last.
    pub fn classify_lower(&self, lower: &str) -> (r: (DnsClassification, Option<IpAddr>))
        ensures
            r == self.classifies(lower@),
    {
        if let Some(policy) = self.domain_policies.get(lower) {
            return (policy.classification, policy.ip_override);
        }
        if list_has(&self.allowlist, lower) {
            return (DnsClassification::Direct, None);
        }
        if list_has(&self.blocklist, lower) {
            return (DnsClassification::Block, None);
        }
        (self.default_classification, None)
    }

    /// Classify a query domain.
    pub fn classify(&self, domain: &str) -> (r: (DnsClassification, Option<IpAddr>))
        ensures
            r == self.classifies(crate::text::unicode_lower(domain@)),
    {
        let lower = to_lowercase(domain);
        self.classify_lower(lower.as_str())
    }

    /// The cached response to a query, if there is one that is not stale. A
    /// stale one leaves the cache.
    pub fn cache_get(&mut self, query: &[u8], now_ms: u64) -> (r: Option<Vec<u8>>)
        requires
            crate::dns::one_each(old(self).cached()),
        ensures
            crate::dns::one_each(final(self).cached()),
            r is Some <==> exists|i: int|
                0 <= i < old(self).cached().len() && crate::dns::serves(#[trigger] old(self).cached()[i], query@, now_ms),
            r matches Some(v) ==> *final(self) == *old(self) && exists|i: int|
                0 <= i < old(self).cached().len() && crate::dns::serves(#[trigger] old(self).cached()[i], query@, now_ms)
                    && old(self).cached()[i].response == v@,
            r is None ==> final(self).cached() == crate::dns::without_query(old(self).cached(), query@) && *final(self) == (
            DnsFilterState { cache: final(self).cache, ..*old(self) }),
    {
        let i = crate::dns::find_query(&self.cache, query);
        if i < self.cache.len() && self.cache[i].expires_ms > now_ms {
            let found = slice_to_vec(&self.cache[i].response);
            assert(crate::dns::serves(self.cached()[i as int], query@, now_ms));
            return Some(found);
        }
        proof {
            assert forall|k: int| 0 <= k < old(self).cached().len() implies !crate::dns::serves(
                #[trigger] old(self).cached()[k],
                query@,
                now_ms,
            ) by {
                if i < old(self).cached().len() {
                    assert(old(self).cached()[i as int].query == query@);
                } else {
                    assert(old(self).cache@[k].query@ != query@);
                }
            }
            crate::dns::filtered_one_each(self.cached(), |c: Cached| c.query != query@);
        }
        self.cache = crate::dns::drop_query(&self.cache, query);
        None
    }

    /// Store a response in the cache.
    pub fn cache_put(&mut self, query: &[u8], response: &[u8], now_ms: u64)
        requires
            crate::dns::one_each(old(self).cached()),
        ensures
            crate::dns::one_each(final(self).cached()),
            final(self).cached() == crate::dns::without_query(
                tenth_dropped(old(self).cached(), old(self).cache_size),
                query@,
            ).push(Cached { query: query@, response: response@, expires_ms: ttl_end(now_ms, old(self).cache_ttl_secs) }),
            *final(self) == (DnsFilterState { cache: final(self).cache, ..*old(self) }),
    {
        let ghost before = self.cached();
        let mut first: usize = 0;
        if self.cache.len() >= self.cache_size {
            let tenth: usize = self.cache_size / 10;
            first = if tenth > 1 { tenth } else { 1 };
            if first > self.cache.len() {
                first = self.cache.len();
            }
        }
        let kept = crate::dns::drop_front(&self.cache, first);
        assert(crate::dns::cached_views(kept@) =~= tenth_dropped(before, self.cache_size));
        let mut entries = crate::dns::drop_query(&kept, query);
        proof {
            crate::dns::filtered_one_each(tenth_dropped(before, self.cache_size), |c: Cached| c.query != query@);
        }
        let ghost others = crate::dns::cached_views(entries@);
        let ttl_ms: u64 = if self.cache_ttl_secs > u64::MAX / 1000 { u64::MAX } else { self.cache_ttl_secs * 1000 };
        let expires_ms: u64 = now_ms.saturating_add(ttl_ms);
        entries.push(CacheEntry { query: slice_to_vec(query), response: slice_to_vec(response), expires_ms });
        assert(crate::dns::cached_views(entries@) =~= others.push(
            Cached { query: query@, response: response@, expires_ms },
        ));
        self.cache = entries;
    }

    /// Extract the domain that a query is about.
    pub fn extract_domain(query: &[u8]) -> (r: Option<String>)
        ensures
            r matches Some(s) ==> domain_in(query@) == Some(s@),
            r is None ==> domain_in(query@) is None,
    {
        if query.len() < 17 {
            return None;
        }
        let mut pos: usize = 12;
        let mut out = String::new();
        let ghost mut labels: Seq<Seq<char>> = Seq::empty();
        proof {
            if let Some(l) = text_labels(query@, 12) {
                assert(labels + l =~= l);
            }
        }
        let mut first = true;
        while pos < query.len() && query[pos] != 0 && query[pos] < 192
            invariant
                query.len() >= 17,
                out@ == dot_joined(labels),
                first == (labels.len() == 0),
                text_labels(query@, 12) == (match text_labels(query@, pos as int) {
                    None => None::<Seq<Seq<char>>>,
                    Some(rest) => Some(labels + rest),
                }),
            decreases query.len() - pos,
        {
            let len: usize = query[pos] as usize;
            if len > query.len() - pos - 1 {
                return None;
            }
            let end: usize = pos + 1 + len;
            let label = match utf8_text(slice_subrange(query, pos + 1, end)) {
                Some(t) => t,
                None => {
                    return None;
                },
            };
            if first {
                first = false;
            } else {
                out.append(".");
            }
            out.append(label.as_str());
            proof {
                let next = labels.push(label@);
                assert(next.drop_last() =~= labels);
                if labels.len() == 0 {
                    assert(Seq::<char>::empty() + label@ =~= label@);
                }
                if let Some(rest) = text_labels(query@, end as int) {
                    assert(labels + (seq![label@] + rest) =~= next + rest);
                }
                labels = next;
            }
            pos = end;
        }
        assert(labels + Seq::<Seq<char>>::empty() =~= labels);
        Some(out)
    }
}

/// A policy for a domain decides, whatever the lists say.
pub proof fn policy_comes_first(
    lower: Seq<char>,
    policies: Map<Seq<char>, DomainPolicy>,
    allow: Seq<Seq<char>>,
    block: Seq<Seq<char>>,
    default: DnsClassification,
)
    requires
        policies.contains_key(lower),
    ensures
        classified(lower, policies, allow, block, default).0 == policies[lower].classification,
{
}

/// The allowlist overrides the blocklist.
pub proof fn allowlist_overrides_blocklist(
    lower: Seq<char>,
    policies: Map<Seq<char>, DomainPolicy>,
    allow: Seq<Seq<char>>,
    block: Seq<Seq<char>>,
    default: DnsClassification,
)
    requires
        !policies.contains_key(lower),
        allow.contains(lower),
    ensures
        classified(lower, policies, allow, block, default).0 == DnsClassification::Direct,
{
}

// ---------------------------------------------------------------------------
// Answers
// ---------------------------------------------------------------------------

/// A query turned into a response without answers, with a second flag byte.
pub open spec fn refused(query: Seq<u8>, flags: u8) -> Seq<u8> {
    Seq::new(
        query.len(),
        |i: int|
            if query.len() >= 4 && i == 2 {
                query[2] | 0x81u8
            } else if query.len() >= 4 && i == 3 {
                flags
            } else if query.len() >= 8 && (i == 6 || i == 7) {
                0u8
            } else {
                query[i]
            },
    )
}

fn refusal(query: &[u8], flags: u8) -> (r: Vec<u8>)
    ensures
        r@ == refused(query@, flags),
{
    let mut resp = slice_to_vec(query);
    if resp.len() >= 4 {
        let b: u8 = query[2] | 0x81u8;
        resp.set(2, b);
        resp.set(3, flags);
    }
    if resp.len() >= 8 {
        resp.set(6, 0u8);
        resp.set(7, 0u8);
    }
    assert(resp@ =~= refused(query@, flags));
    resp
}

/// Build an NXDOMAIN response.
pub fn build_nxdomain(query: &[u8]) -> (r: Vec<u8>)
    ensures
        r@ == refused(query@, 0x83),
{
    refusal(query, 0x83)
}

/// Build a SERVFAIL response.
pub fn build_servfail(query: &[u8]) -> (r: Vec<u8>)
    ensures
        r@ == refused(query@, 0x82),
{
    refusal(query, 0x82)
}

/// A refusal of a query with a header is a response without answers, with the
/// id of the query and the response code that it was built for.
pub proof fn refusal_header(query: Seq<u8>, flags: u8)
    requires
        query.len() >= crate::dns_plane::HEADER_LEN,
    ensures
        refused(query, flags)[0] == query[0],
        refused(query, flags)[1] == query[1],
        crate::dns_plane::header_of(refused(query, flags))->0.qr,
        crate::dns_plane::header_of(refused(query, flags))->0.rcode == flags % 16,
        crate::dns_plane::header_of(refused(query, flags))->0.ancount == 0,
{
    let b = query[2];
    let f = b | 0x81u8;
    assert(f >= 128) by (bit_vector)
        requires
            f == b | 0x81u8,
    ;
}

/// The place behind the labels of a name that starts at `pos`: at its zero or
/// past the end, or behind a pointer.
pub open spec fn labels_skipped(msg: Seq<u8>, pos: int) -> int
    decreases msg.len() + 256 - pos,
{
    if pos < 0 || pos >= msg.len() || msg[pos] == 0 {
        pos
    } else if msg[pos] >= 192 {
        pos + 2
    } else {
        labels_skipped(msg, pos + 1 + msg[pos])
    }
}

/// The place at the zero that ends the labels from `pos` on, or past the end.
pub open spec fn zero_found(msg: Seq<u8>, pos: int) -> int
    decreases msg.len() + 256 - pos,
{
    if pos < 0 || pos >= msg.len() || msg[pos] == 0 { pos } else { zero_found(msg, pos + 1 + msg[pos]) }
}

/// The place behind the owner name of a record at `pos`.
pub open spec fn owner_skipped(msg: Seq<u8>, pos: int) -> int {
    if pos + 1 < msg.len() && msg[pos] >= 192 { pos + 2 } else { zero_found(msg, pos) + 1 }
}

/// The address in the data of a record, where its type and length fit.
pub open spec fn plain_address(rtype: nat, data: Seq<u8>) -> Option<IpAddr> {
    if rtype == 1 && data.len() == 4 {
        Some(crate::net::v4_of(data[0], data[1], data[2], data[3]))
    } else if rtype == 28 && data.len() == 16 {
        Some(IpAddr::V6(crate::net::be_value(data) as u128))
    } else {
        None
    }
}

/// The addresses in up to `n` records from `pos` on. A record that does not
/// fit ends the walk.
pub open spec fn plain_addresses(msg: Seq<u8>, pos: int, n: nat) -> Seq<IpAddr>
    decreases n,
{
    if n == 0 || pos >= msg.len() {
        Seq::empty()
    } else {
        let at = owner_skipped(msg, pos);
        if at + 10 > msg.len() {
            Seq::empty()
        } else {
            let rdlen = crate::dns_plane::be16(msg[at + 8], msg[at + 9]) as int;
            let end = at + 10 + rdlen;
            if end > msg.len() {
                Seq::empty()
            } else {
                let rest = plain_addresses(msg, end, (n - 1) as nat);
                match plain_address(crate::dns_plane::be16(msg[at], msg[at + 1]), msg.subrange(at + 10, end)) {
                    Some(ip) => seq![ip] + rest,
                    None => rest,
                }
            }
        }
    }
}

/// The addresses that a response holds, as far as a walk over its records that
/// does not follow pointers finds them.
pub open spec fn addresses_in(msg: Seq<u8>) -> Option<Seq<IpAddr>> {
    if msg.len() < 12 {
        None
    } else {
        let ips = plain_addresses(
            msg,
            labels_skipped(msg, 12) + 5,
            crate::dns_plane::be16(msg[6], msg[7]),
        );
        if ips.len() == 0 { None } else { Some(ips) }
    }
}

fn skip_labels(msg: &[u8], from: usize) -> (r: usize)
    requires
        msg.len() <= isize::MAX,
        from <= isize::MAX,
    ensures
        r == labels_skipped(msg@, from as int),
        r <= msg.len() + 256 || r == from,
{
    let mut pos: usize = from;
    while pos < msg.len() && msg[pos] != 0
        invariant
            msg.len() <= isize::MAX,
            labels_skipped(msg@, from as int) == labels_skipped(msg@, pos as int),
            pos <= msg.len() + 256 || pos == from,
        decreases msg.len() + 256 - pos,
    {
        let len: usize = msg[pos] as usize;
        if len >= 192 {
            return pos + 2;
        }
        pos = pos + 1 + len;
    }
    pos
}

fn skip_owner(msg: &[u8], from: usize) -> (r: usize)
    requires
        msg.len() <= isize::MAX,
        from < msg.len(),
    ensures
        r == owner_skipped(msg@, from as int),
        r <= msg.len() + 257,
{
    if from + 1 < msg.len() && msg[from] >= 192 {
        return from + 2;
    }
    let mut pos: usize = from;
    while pos < msg.len() && msg[pos] != 0
        invariant
            msg.len() <= isize::MAX,
            zero_found(msg@, from as int) == zero_found(msg@, pos as int),
            pos <= msg.len() + 256,
        decreases msg.len() + 256 - pos,
    {
        pos = pos + 1 + msg[pos] as usize;
    }
    pos + 1
}

fn address_from(rtype: u16, data: &[u8]) -> (r: Option<IpAddr>)
    ensures
        r == plain_address(rtype as nat, data@),
{
    if rtype == 1 && data.len() == 4 {
        Some(ipv4(data[0], data[1], data[2], data[3]))
    } else if rtype == 28 && data.len() == 16 {
        Some(IpAddr::V6(be_number(data)))
    } else {
        None
    }
}

/// The addresses in the A and AAAA records of a response.
pub fn parse_a_aaaa(response: &[u8]) -> (r: Option<Vec<IpAddr>>)
    requires
        response.len() <= isize::MAX,
    ensures
        r matches Some(v) ==> addresses_in(response@) == Some(v@),
        r is None ==> addresses_in(response@) is None,
{
    if response.len() < 12 {
        return None;
    }
    let ancount: u16 = response[6] as u16 * 256 + response[7] as u16;
    let mut pos: usize = skip_labels(response, 12) + 5;
    let ghost start = pos as int;
    let mut left: u16 = ancount;
    let mut ips: Vec<IpAddr> = Vec::new();
    assert(ips@ + plain_addresses(response@, start, ancount as nat) =~= plain_addresses(
        response@,
        start,
        ancount as nat,
    ));
    while left > 0 && pos < response.len()
        invariant_except_break
            ips@ + plain_addresses(response@, pos as int, left as nat) == plain_addresses(
                response@,
                start,
                ancount as nat,
            ),
        invariant
            response.len() <= isize::MAX,
        ensures
            ips@ == plain_addresses(response@, start, ancount as nat),
        decreases left,
    {
        let at = skip_owner(response, pos);
        if at + 10 > response.len() {
            assert(ips@ + Seq::<IpAddr>::empty() =~= ips@);
            break;
        }
        let rtype: u16 = response[at] as u16 * 256 + response[at + 1] as u16;
        let rdlen: usize = response[at + 8] as usize * 256 + response[at + 9] as usize;
        let end: usize = at + 10 + rdlen;
        if end > response.len() {
            assert(ips@ + Seq::<IpAddr>::empty() =~= ips@);
            break;
        }
        let ghost before = ips@;
        let ghost rest = plain_addresses(response@, end as int, (left - 1) as nat);
        if let Some(ip) = address_from(rtype, slice_subrange(response, at + 10, end)) {
            ips.push(ip);
            assert(before + (seq![ip] + rest) =~= ips@ + rest);
        }
        pos = end;
        left -= 1;
        if left == 0 || pos >= response.len() {
            assert(ips@ + Seq::<IpAddr>::empty() =~= ips@);
        }
    }
    if ips.len() == 0 {
        None
    } else {
        Some(ips)
    }
}

// ---------------------------------------------------------------------------
// The filter between datagrams
// ---------------------------------------------------------------------------

/// What is to be done with a query.
#[derive(Debug)]
pub enum FilterStep {
    /// Nothing.
    Ignore,
    /// Send this answer to the client.
    Answer(Vec<u8>),
    /// Ask the upstreams at these places, one after another, until one answers.
    Ask(Vec<usize>),
}

/// The places of `n` upstreams in the order in which they are asked, from
/// place `first` on and round.
pub open spec fn round_from(first: int, n: nat) -> Seq<usize> {
    Seq::new(n, |i: int| if first + i < n { (first + i) as usize } else { (first + i - n) as usize })
}

impl DnsFilterState {
    /// Whether the cache holds one response for a query at most, and the
    /// upstream to ask first is one of them.
    pub open spec fn wf(&self) -> bool {
        &&& crate::dns::one_each(self.cached())
        &&& self.upstreams@.len() == 0 || self.round_robin < self.upstreams@.len()
    }

    /// The classification of a query. Where it names no domain, that is what is
    /// configured for all others.
    pub open spec fn classifies_query(&self, query: Seq<u8>) -> DnsClassification {
        match domain_in(query) {
            Some(domain) => self.classifies(crate::text::unicode_lower(domain)).0,
            None => self.default_classification,
        }
    }

    fn classify_query(&self, query: &[u8]) -> (r: DnsClassification)
        ensures
            r == self.classifies_query(query@),
    {
        match DnsFilterState::extract_domain(query) {
            Some(domain) => self.classify(domain.as_str()).0,
            None => self.default_classification,
        }
    }

    fn order(&self) -> (r: Vec<usize>)
        requires
            self.wf(),
        ensures
            r@ == round_from(self.round_robin as int, self.upstreams@.len()),
    {
        let n: usize = self.upstreams.len();
        let mut out: Vec<usize> = Vec::new();
        let mut offset: usize = 0;
        while offset < n
            invariant
                n == self.upstreams@.len(),
                self.wf(),
                offset <= n,
                out@ == round_from(self.round_robin as int, n as nat).take(offset as int),
            decreases n - offset,
        {
            let idx: usize = if offset < n - self.round_robin {
                self.round_robin + offset
            } else {
                offset - (n - self.round_robin)
            };
            out.push(idx);
            offset += 1;
            assert(out@ =~= round_from(self.round_robin as int, n as nat).take(offset as int));
        }
        assert(out@ =~= round_from(self.round_robin as int, n as nat));
        out
    }

    /// What is to be done with a query.
    pub fn on_query(&mut self, query: &[u8], now_ms: u64) -> (r: FilterStep)
        requires
            old(self).wf(),
        ensures
            final(self).wf(),
            *final(self) == (DnsFilterState { cache: final(self).cache, ..*old(self) }),
            query.len() == 0 <==> r is Ignore,
            query.len() > 0 && old(self).classifies_query(query@) == DnsClassification::Block ==> (
            r matches FilterStep::Answer(v) && v@ == refused(query@, 0x83)),
            query.len() == 0 || old(self).classifies_query(query@) == DnsClassification::Block ==> final(self).cached()
                == old(self).cached(),
            query.len() > 0 && old(self).classifies_query(query@) != DnsClassification::Block ==> (match r {
                FilterStep::Ignore => false,
                FilterStep::Answer(v) => final(self).cached() == old(self).cached() && exists|i: int|
                    0 <= i < old(self).cached().len() && crate::dns::serves(
                        #[trigger] old(self).cached()[i],
                        query@,
                        now_ms,
                    ) && old(self).cached()[i].response == v@,
                FilterStep::Ask(places) => places@ == round_from(
                    old(self).round_robin as int,
                    old(self).upstreams@.len(),
                ) && final(self).cached() == crate::dns::without_query(old(self).cached(), query@) && !exists|i: int|
                    0 <= i < old(self).cached().len() && crate::dns::serves(
                        #[trigger] old(self).cached()[i],
                        query@,
                        now_ms,
                    ),
            }),
    {
        if query.len() == 0 {
            return FilterStep::Ignore;
        }
        match self.classify_query(query) {
            DnsClassification::Block => FilterStep::Answer(build_nxdomain(query)),
            _ => match self.cache_get(query, now_ms) {
                Some(response) => FilterStep::Answer(response),
                None => FilterStep::Ask(self.order()),
            },
        }
    }

    /// Takes notice of which upstream answered a query, and what. Returns what
    /// the client is sent: a failure where no upstream answered.
    pub fn on_reply(
        &mut self,
        query: &[u8],
        reply: Option<(usize, Vec<u8>)>,
        registry: &mut DnsRegistry,
        observing: bool,
        now_ms: u64,
    ) -> (r: Vec<u8>)
        requires
            old(self).wf(),
            reply matches Some((at, resp)) ==> at < old(self).upstreams@.len() && resp@.len() <= isize::MAX,
        ensures
            final(self).wf(),
            reply is None ==> r@ == refused(query@, 0x82) && *final(self) == *old(self) && final(registry)@ == old(
                registry,
            )@,
            reply matches Some((at, resp)) ==> {
                &&& r@ == resp@
                &&& final(self).round_robin == (at + 1) % (old(self).upstreams@.len() as int)
                &&& final(self).cached() == crate::dns::without_query(
                    tenth_dropped(old(self).cached(), old(self).cache_size),
                    query@,
                ).push(
                    Cached { query: query@, response: resp@, expires_ms: ttl_end(now_ms, old(self).cache_ttl_secs) },
                )
                &&& *final(self) == (DnsFilterState {
                    cache: final(self).cache,
                    round_robin: final(self).round_robin,
                    ..*old(self)
                })
                &&& final(registry)@ == (match (domain_in(query@), addresses_in(resp@)) {
                    (Some(domain), Some(ips)) => if observing {
                        old(registry)@.insert(
                            crate::text::ascii_lower(domain),
                            (Resolution { ips, expires_ms: None }),
                        )
                    } else {
                        old(registry)@
                    },
                    _ => old(registry)@,
                })
            },
    {
        let (at, resp) = match reply {
            Some((at, resp)) => (at, resp),
            None => {
                return build_servfail(query);
            },
        };
        self.cache_put(query, &resp, now_ms);
        let size: usize = self.upstreams.len();
        self.round_robin = if at + 1 == size { 0 } else { at + 1 };
        proof {
            let n = size as int;
            if at + 1 < n {
                vstd::arithmetic::div_mod::lemma_small_mod((at + 1) as nat, n as nat);
            } else {
                vstd::arithmetic::div_mod::lemma_mod_self_0(n);
            }
        }
        if observing {
            if let Some(domain) = DnsFilterState::extract_domain(query) {
                if let Some(ips) = parse_a_aaaa(&resp) {
                    registry.insert(domain.as_str(), ips);
                }
            }
        }
        resp
    }
}

/// The filter as a driver.
pub struct DnsFilterDriver {
    pub id: u32,
    pub running: bool,
    pub health: HealthStatus,
    pub local: Option<SocketAddr>,
    pub observing: bool,
}

impl DnsFilterDriver {
    pub fn new(id: u32) -> (r: Self)
        ensures
            r == (DnsFilterDriver {
                id,
                running: false,
                health: HealthStatus::Unknown,
                local: None,
                observing: false,
            }),
    {
        DnsFilterDriver { id, running: false, health: HealthStatus::Unknown, local: None, observing: false }
    }

    /// From the next start on, answers are recorded.
    pub fn attach_registry(&mut self)
        ensures
            *final(self) == (DnsFilterDriver { observing: true, ..*old(self) }),
    {
        self.observing = true;
    }

    pub fn local_addr(&self) -> (r: Option<SocketAddr>)
        ensures
            r == self.local,
    {
        self.local
    }

    pub fn name(&self) -> (r: &'static str)
        ensures
            r@ == "DNS Filter"@,
    {
        "DNS Filter"
    }

    pub fn capabilities(&self) -> (r: Capabilities)
        ensures
            r == (Capabilities { tunnel: false, proxy: false, packet_processor: false, dns: true }),
    {
        Capabilities { tunnel: false, proxy: false, packet_processor: false, dns: true }
    }

    /// Takes notice that the listener is bound.
    pub fn started(&mut self, local: SocketAddr)
        ensures
            *final(self) == (DnsFilterDriver {
                local: Some(local),
                running: true,
                health: HealthStatus::Healthy,
                ..*old(self)
            }),
    {
        self.local = Some(local);
        self.running = true;
        self.health = HealthStatus::Healthy;
    }

    /// Takes notice that the listener is closed.
    pub fn stopped(&mut self)
        ensures
            *final(self) == (DnsFilterDriver {
                running: false,
                health: HealthStatus::Unhealthy { reason: 1 },
                ..*old(self)
            }),
    {
        self.running = false;
        self.health = HealthStatus::Unhealthy { reason: 1 };
    }

    pub fn health_check(&self) -> (r: HealthStatus)
        ensures
            r == self.health,
    {
        self.health
    }
}

/// A domain without a policy is direct where it is allowed, blocked where it is
/// only blocked, and what the default says otherwise; an address in its place
/// comes from a policy only.
pub proof fn lists_decide_without_a_policy(
    lower: Seq<char>,
    policies: Map<Seq<char>, DomainPolicy>,
    allow: Seq<Seq<char>>,
    block: Seq<Seq<char>>,
    default: DnsClassification,
)
    ensures
        ({
            let (class, address) = classified(lower, policies, allow, block, default);
            &&& policies.contains_key(lower) ==> class == policies[lower].classification && address
                == policies[lower].ip_override
            &&& !policies.contains_key(lower) ==> address is None
            &&& !policies.contains_key(lower) && allow.contains(lower) ==> class == DnsClassification::Direct
            &&& !policies.contains_key(lower) && !allow.contains(lower) && block.contains(lower) ==> class
                == DnsClassification::Block
            &&& !policies.contains_key(lower) && !allow.contains(lower) && !block.contains(lower) ==> class == default
        }),
{
}

proof fn last_policy(p: Seq<DomainPolicy>, lower: Seq<char>)
    ensures
        policies_by_domain(p).contains_key(lower) <==> exists|i: int|
            0 <= i < p.len() && crate::text::unicode_lower((#[trigger] p[i]).domain@) == lower,
        policies_by_domain(p).contains_key(lower) ==> exists|i: int|
            0 <= i < p.len() && crate::text::unicode_lower((#[trigger] p[i]).domain@) == lower && p[i]
                == policies_by_domain(p)[lower] && forall|k: int|
                i < k < p.len() ==> crate::text::unicode_lower((#[trigger] p[k]).domain@) != lower,
    decreases p.len(),
{
    if p.len() > 0 {
        let front = p.drop_last();
        last_policy(front, lower);
        assert(p[p.len() - 1] == p.last());
        if crate::text::unicode_lower(p.last().domain@) != lower {
            if policies_by_domain(front).contains_key(lower) {
                let i = choose|i: int|
                    0 <= i < front.len() && crate::text::unicode_lower((#[trigger] front[i]).domain@) == lower
                        && front[i] == policies_by_domain(front)[lower] && forall|k: int|
                        i < k < front.len() ==> crate::text::unicode_lower((#[trigger] front[k]).domain@) != lower;
                assert(p[i] == front[i]);
                assert forall|k: int| i < k < p.len() implies crate::text::unicode_lower((#[trigger] p[k]).domain@)
                    != lower by {
                    if k < front.len() {
                        assert(front[k] == p[k]);
                    }
                }
            }
            if exists|i: int| 0 <= i < p.len() && crate::text::unicode_lower((#[trigger] p[i]).domain@) == lower {
                let i = choose|i: int|
                    0 <= i < p.len() && crate::text::unicode_lower((#[trigger] p[i]).domain@) == lower;
                assert(front[i] == p[i]);
            }
        }
    }
}

/// The last policy that is written for a domain holds for it, whole.
pub proof fn the_last_policy_holds(p: Seq<DomainPolicy>, i: int)
    requires
        0 <= i < p.len(),
        forall|k: int|
            i < k < p.len() ==> crate::text::unicode_lower((#[trigger] p[k]).domain@) != crate::text::unicode_lower(
                p[i].domain@,
            ),
    ensures
        policies_by_domain(p).contains_key(crate::text::unicode_lower(p[i].domain@)),
        policies_by_domain(p)[crate::text::unicode_lower(p[i].domain@)] == p[i],
{
    let lower = crate::text::unicode_lower(p[i].domain@);
    last_policy(p, lower);
    let j = choose|j: int|
        0 <= j < p.len() && crate::text::unicode_lower((#[trigger] p[j]).domain@) == lower && p[j]
            == policies_by_domain(p)[lower] && forall|k: int|
            j < k < p.len() ==> crate::text::unicode_lower((#[trigger] p[k]).domain@) != lower;
    if j < i {
        assert(crate::text::unicode_lower(p[i].domain@) != lower);
    }
}

/// A domain that no policy is written for has none.
pub proof fn no_policy_is_made_up(p: Seq<DomainPolicy>, lower: Seq<char>)
    requires
        forall|k: int| 0 <= k < p.len() ==> crate::text::unicode_lower((#[trigger] p[k]).domain@) != lower,
    ensures
        !policies_by_domain(p).contains_key(lower),
{
    last_policy(p, lower);
}

/// Lists are held in lower case, entry by entry.
pub proof fn lists_are_lower_case(list: Seq<Seq<char>>, i: int)
    requires
        0 <= i < list.len(),
    ensures
        lower_all(list).len() == list.len(),
        lower_all(list)[i] == crate::text::unicode_lower(list[i]),
{
}

/// The texts of labels.
pub open spec fn decoded(labels: Seq<Seq<u8>>) -> Seq<Seq<char>> {
    Seq::new(labels.len(), |i: int| vstd::utf8::decode_utf8(labels[i]))
}

proof fn reading_text_labels(query: Seq<u8>, pos: int, labels: Seq<Seq<u8>>)
    requires
        0 <= pos,
        pos + crate::dns_plane::wire_name(labels).len() <= query.len(),
        query.subrange(pos, pos + crate::dns_plane::wire_name(labels).len()) == crate::dns_plane::wire_name(labels),
        forall|i: int|
            0 <= i < labels.len() ==> 0 < (#[trigger] labels[i]).len() < 192 && vstd::utf8::valid_utf8(labels[i]),
    ensures
        text_labels(query, pos) == Some(decoded(labels)),
        labels_skipped(query, pos) == pos + crate::dns_plane::wire_name(labels).len() - 1,
        zero_found(query, pos) == pos + crate::dns_plane::wire_name(labels).len() - 1,
    decreases labels.len(),
{
    let wire = crate::dns_plane::wire_name(labels);
    let here = query.subrange(pos, pos + wire.len());
    if labels.len() == 0 {
        assert(here[0] == query[pos]);
        assert(wire[0] == 0);
        assert(decoded(labels) =~= Seq::<Seq<char>>::empty());
    } else {
        let first = labels[0];
        let rest = labels.skip(1);
        let tail = crate::dns_plane::wire_name(rest);
        assert(tail.len() >= 1) by {
            reveal_with_fuel(crate::dns_plane::wire_name, 2);
        }
        assert(wire == seq![first.len() as u8] + first + tail);
        assert(here[0] == query[pos] && wire[0] == first.len() as u8);
        assert forall|i: int| 0 <= i < rest.len() implies 0 < (#[trigger] rest[i]).len() < 192
            && vstd::utf8::valid_utf8(rest[i]) by {
            assert(rest[i] == labels[i + 1]);
        }
        let next = pos + 1 + first.len();
        assert(query.subrange(next, next + tail.len()) =~= tail) by {
            assert forall|k: int| 0 <= k < tail.len() implies query[next + k] == #[trigger] tail[k] by {
                assert(here[1 + first.len() + k] == query[next + k]);
                assert(wire[1 + first.len() + k] == tail[k]);
            }
        }
        assert(query.subrange(pos + 1, next) =~= first) by {
            assert forall|k: int| 0 <= k < first.len() implies query[pos + 1 + k] == #[trigger] first[k] by {
                assert(here[1 + k] == query[pos + 1 + k]);
                assert(wire[1 + k] == first[k]);
            }
        }
        reading_text_labels(query, next, rest);
        assert(seq![vstd::utf8::decode_utf8(first)] + decoded(rest) =~= decoded(labels));
    }
}

proof fn dots_join(labels: Seq<Seq<char>>)
    ensures
        dot_joined(labels) == crate::text::joined(labels, "."@),
    decreases labels.len(),
{
    if labels.len() > 1 {
        dots_join(labels.drop_last());
    }
}

/// The domain of a query is what its labels say, with dots between them.
pub proof fn queries_name_their_domain(query: Seq<u8>, labels: Seq<Seq<u8>>)
    requires
        query.len() >= 17,
        12 + crate::dns_plane::wire_name(labels).len() <= query.len(),
        query.subrange(12, 12int + crate::dns_plane::wire_name(labels).len()) == crate::dns_plane::wire_name(labels),
        forall|i: int|
            0 <= i < labels.len() ==> 0 < (#[trigger] labels[i]).len() < 192 && vstd::utf8::valid_utf8(labels[i]),
    ensures
        domain_in(query) == Some(crate::text::joined(decoded(labels), "."@)),
{
    reading_text_labels(query, 12, labels);
    dots_join(decoded(labels));
}

/// A cache that is not full keeps everything. A full one loses its oldest tenth,
/// and at least one entry; what is left stays in order.
pub proof fn full_caches_lose_their_oldest_tenth(e: Seq<Cached>, size: usize)
    ensures
        e.len() < size ==> tenth_dropped(e, size) == e,
        e.len() == size && size >= 20 ==> tenth_dropped(e, size) == e.skip(size as int / 10),
        e.len() >= size && 1 < e.len() && size < 20 ==> tenth_dropped(e, size) == e.skip(1),
        e.len() >= size && e.len() > 0 ==> tenth_dropped(e, size).len() < e.len(),
        exists|n: int| 0 <= n <= e.len() && tenth_dropped(e, size) == #[trigger] e.skip(n),
{
    assert(e.skip(0) =~= e);
    assert(e.skip(e.len() as int) =~= Seq::<Cached>::empty());
}

/// What is cached for some seconds is served at every moment before they are
/// over, and at none from then on.
pub proof fn answers_are_cached_for_their_seconds(
    query: Seq<u8>,
    response: Seq<u8>,
    now_ms: u64,
    ttl_secs: u64,
    later_ms: u64,
)
    requires
        now_ms + 1000 * ttl_secs <= u64::MAX,
    ensures
        crate::dns::serves(
            Cached { query, response, expires_ms: ttl_end(now_ms, ttl_secs) },
            query,
            later_ms,
        ) <==> later_ms < now_ms + 1000 * ttl_secs,
{
}

/// A refusal is as long as the query. It is marked as a response to a query
/// that wants recursion, carries the flags and no answers, and is the query
/// otherwise.
pub proof fn refusals_keep_the_question(query: Seq<u8>, flags: u8, i: int)
    requires
        query.len() >= 8,
        0 <= i < query.len(),
    ensures
        refused(query, flags).len() == query.len(),
        i != 2 && i != 3 && i != 6 && i != 7 ==> refused(query, flags)[i] == query[i],
        refused(query, flags)[2] & 0x81 == 0x81,
        refused(query, flags)[2] & 0x7e == query[2] & 0x7e,
        refused(query, flags)[3] == flags,
        refused(query, flags)[6] == 0,
        refused(query, flags)[7] == 0,
{
    let b = query[2];
    assert((b | 0x81) & 0x81 == 0x81) by (bit_vector);
    assert((b | 0x81) & 0x7e == b & 0x7e) by (bit_vector);
}

/// A record of type 1 with four bytes of data holds an IPv4 address, one of
/// type 28 with sixteen an IPv6 address, and no other one holds an address.
pub proof fn which_data_is_an_address(rtype: nat, data: Seq<u8>)
    ensures
        plain_address(rtype, data) is Some <==> rtype == 1 && data.len() == 4 || rtype == 28 && data.len() == 16,
        rtype == 1 && data.len() == 4 ==> plain_address(rtype, data) == Some(
            IpAddr::V4((data[0] * 16777216 + data[1] * 65536 + data[2] * 256 + data[3]) as u32),
        ),
        rtype == 28 && data.len() == 16 ==> plain_address(rtype, data)->0 is V6,
{
}

/// An address record whose owner is a pointer is read in its place, and the
/// records behind it follow.
pub proof fn address_records_are_read_in_order(msg: Seq<u8>, pos: int, n: nat)
    requires
        0 <= pos,
        pos + 16 <= msg.len(),
        n > 0,
        msg[pos] >= 192,
        msg[pos + 2] == 0 && msg[pos + 3] == 1,
        msg[pos + 10] == 0 && msg[pos + 11] == 4,
    ensures
        plain_addresses(msg, pos, n) == seq![
            IpAddr::V4(
                (msg[pos + 12] * 16777216 + msg[pos + 13] * 65536 + msg[pos + 14] * 256 + msg[pos + 15]) as u32,
            ),
        ] + plain_addresses(msg, pos + 16, (n - 1) as nat),
{
    let data = msg.subrange(pos + 12, pos + 16);
    assert(data[0] == msg[pos + 12] && data[1] == msg[pos + 13] && data[2] == msg[pos + 14] && data[3] == msg[pos
        + 15]);
}

/// The answers of a response are read from behind its question, as many as its
/// header counts.
pub proof fn answers_are_read_behind_the_question(msg: Seq<u8>, labels: Seq<Seq<u8>>)
    requires
        12 + crate::dns_plane::wire_name(labels).len() <= msg.len(),
        msg.subrange(12, 12int + crate::dns_plane::wire_name(labels).len()) == crate::dns_plane::wire_name(labels),
        forall|i: int|
            0 <= i < labels.len() ==> 0 < (#[trigger] labels[i]).len() < 192 && vstd::utf8::valid_utf8(labels[i]),
    ensures
        ({
            let ips = plain_addresses(
                msg,
                12int + crate::dns_plane::wire_name(labels).len() + 4,
                (msg[6] * 256 + msg[7]) as nat,
            );
            &&& ips.len() > 0 ==> addresses_in(msg) == Some(ips)
            &&& ips.len() == 0 ==> addresses_in(msg) is None
        }),
{
    assert(crate::dns_plane::wire_name(labels).len() >= 1) by {
        reveal_with_fuel(crate::dns_plane::wire_name, 2);
    }
    reading_text_labels(msg, 12, labels);
}

/// The upstreams are asked in a circle that begins at the one whose turn it is.
pub proof fn places_take_turns(first: int, n: nat, i: int)
    requires
        0 <= first < n <= usize::MAX,
        0 <= i < n,
    ensures
        round_from(first, n).len() == n,
        round_from(first, n)[i] == (first + i) % (n as int),
{
    if first + i < n {
        vstd::arithmetic::div_mod::lemma_small_mod((first + i) as nat, n);
    } else {
        vstd::arithmetic::div_mod::lemma_fundamental_div_mod_converse(first + i, n as int, 1, first + i - n);
    }
}

/// A query is classified as the domain it asks for is, in lower case, by the
/// policies and lists of the filter; one without a domain by its default.
pub proof fn queries_are_classified_as_their_domain(filter: &DnsFilterState, query: Seq<u8>)
    ensures
        domain_in(query) is None ==> filter.classifies_query(query) == filter.default_classification,
        domain_in(query) matches Some(domain) ==> filter.classifies_query(query) == classified(
            crate::text::unicode_lower(domain),
            filter.domain_policies@,
            crate::text::strings(filter.allowlist@),
            crate::text::strings(filter.blocklist@),
            filter.default_classification,
        ).0,
{
}

} // verus!
