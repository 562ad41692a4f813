//! The DNS forwarder: filtering, caching, upstream failover, and the SOCKS5
//! framing that takes queries through a proxy.
//!
//! Sockets stay outside. The forwarder is told of each query and of what the
//! upstreams answered, and says what is to be done next.
use vstd::prelude::*;
use vstd::slice::{slice_subrange, slice_to_vec};
use vstd::string::*;

use crate::dns_plane::{ingest, query_name};
use crate::model::{Capabilities, DriverId, HealthStatus};
use crate::net::{be_number, ipv4, IpAddr, SocketAddr};
use crate::reconciliation::dns_flow::DnsRegistry;
use crate::text::{chars_of, list_has, lower_chars, string_of};

verus! {

/// How long one upstream may take before the next one is tried.
pub const FORWARD_TIMEOUT_MS: u64 = 2000;

/// How long a response is served from the cache.
pub const CACHE_TTL_MS: u64 = 30_000;

/// How long a SOCKS5 proxy may take to open a relay.
pub const RELAY_TIMEOUT_MS: u64 = 3000;

// ---------------------------------------------------------------------------
// SOCKS5
// ---------------------------------------------------------------------------

/// What is wrong with bytes from a SOCKS5 proxy.
#[derive(Clone, Copy, Debug, PartialEq, Eq, Structural)]
pub enum SocksError {
    HandshakeFailed,
    AssociateFailed,
    EmptyAddress,
    ShortIpv4,
    ShortIpv6,
    UnsupportedAddress,
    ShortPacket,
    BadReserved,
    UnknownAddress,
    BadHeader,
}

/// The greeting that offers a proxy no authentication.
pub fn socks5_greeting() -> (r: Vec<u8>)
    ensures
        r@ == seq![5u8, 1, 0],
{
    vec![5u8, 1, 0]
}

/// The command that asks a proxy for a UDP relay.
pub fn socks5_associate() -> (r: Vec<u8>)
    ensures
        r@ == seq![5u8, 3, 0, 1, 0, 0, 0, 0, 0, 0],
{
    vec![5u8, 3, 0, 1, 0, 0, 0, 0, 0, 0]
}

/// Whether a proxy agreed to the greeting.
pub fn greeting_accepted(reply: &[u8]) -> (r: Result<(), SocksError>)
    ensures
        r is Ok <==> reply.len() >= 2 && reply@[0] == 5 && reply@[1] == 0,
        r matches Err(e) ==> e == SocksError::HandshakeFailed,
{
    if reply.len() >= 2 && reply[0] == 5 && reply[1] == 0 {
        Ok(())
    } else {
        Err(SocksError::HandshakeFailed)
    }
}

/// The address in SOCKS5 form: its type, its bytes and its port.
pub open spec fn socks5_addr(bytes: Seq<u8>) -> Result<SocketAddr, SocksError> {
    if bytes.len() == 0 {
        Err(SocksError::EmptyAddress)
    } else if bytes[0] == 1 {
        if bytes.len() < 7 {
            Err(SocksError::ShortIpv4)
        } else {
            Ok(
                SocketAddr {
                    ip: crate::net::v4_of(bytes[1], bytes[2], bytes[3], bytes[4]),
                    port: crate::dns_plane::be16(bytes[5], bytes[6]) as u16,
                },
            )
        }
    } else if bytes[0] == 4 {
        if bytes.len() < 19 {
            Err(SocksError::ShortIpv6)
        } else {
            Ok(
                SocketAddr {
                    ip: IpAddr::V6(crate::net::be_value(bytes.subrange(1, 17)) as u128),
                    port: crate::dns_plane::be16(bytes[17], bytes[18]) as u16,
                },
            )
        }
    } else {
        Err(SocksError::UnsupportedAddress)
    }
}

/// Parse a SOCKS5 address: its type, its bytes and its port.
pub fn parse_socks5_addr(bytes: &[u8]) -> (r: Result<SocketAddr, SocksError>)
    ensures
        r == socks5_addr(bytes@),
{
    if bytes.len() == 0 {
        return Err(SocksError::EmptyAddress);
    }
    if bytes[0] == 1 {
        if bytes.len() < 7 {
            return Err(SocksError::ShortIpv4);
        }
        let port: u16 = bytes[5] as u16 * 256 + bytes[6] as u16;
        Ok(SocketAddr { ip: ipv4(bytes[1], bytes[2], bytes[3], bytes[4]), port })
    } else if bytes[0] == 4 {
        if bytes.len() < 19 {
            return Err(SocksError::ShortIpv6);
        }
        let port: u16 = bytes[17] as u16 * 256 + bytes[18] as u16;
        Ok(SocketAddr { ip: IpAddr::V6(be_number(slice_subrange(bytes, 1, 17))), port })
    } else {
        Err(SocksError::UnsupportedAddress)
    }
}

/// The relay address that a proxy names in its reply to the associate command.
pub fn relay_address(reply: &[u8]) -> (r: Result<SocketAddr, SocksError>)
    ensures
        r == (if reply.len() < 3 || reply@[0] != 5 || reply@[1] != 0 {
            Err(SocksError::AssociateFailed)
        } else {
            socks5_addr(reply@.skip(3))
        }),
{
    if reply.len() < 3 || reply[0] != 5 || reply[1] != 0 {
        return Err(SocksError::AssociateFailed);
    }
    assert(reply@.subrange(3, reply@.len() as int) =~= reply@.skip(3));
    parse_socks5_addr(slice_subrange(reply, 3, reply.len()))
}

/// The `n` bytes of a number in network order.
pub open spec fn be_bytes(value: nat, n: nat) -> Seq<u8>
    decreases n,
{
    if n == 0 {
        Seq::empty()
    } else {
        be_bytes(value / 256, (n - 1) as nat).push((value % 256) as u8)
    }
}

pub fn be_bytes_of(value: u128, n: usize) -> (r: Vec<u8>)
    ensures
        r@ == be_bytes(value as nat, n as nat),
    decreases n,
{
    if n == 0 {
        return Vec::new();
    }
    let mut v = be_bytes_of(value / 256, n - 1);
    v.push((value % 256) as u8);
    v
}

/// The upstream to ask after one of them, by its place in the order in which they
/// are asked: the next one, until one answered or none is left.
pub fn next_upstream(tried: usize, upstreams: usize, answered: bool) -> (r: Option<usize>)
    ensures
        r == if answered || tried + 1 >= upstreams { None } else { Some((tried + 1) as usize) },
{
    if answered || upstreams == 0 || tried >= upstreams - 1 {
        None
    } else {
        Some(tried + 1)
    }
}

/// The header that goes before a datagram to `to`.
pub open spec fn udp_header(to: SocketAddr) -> Seq<u8> {
    match to.ip {
        IpAddr::V4(bits) => seq![0u8, 0, 0, 1] + be_bytes(bits as nat, 4) + be_bytes(to.port as nat, 2),
        IpAddr::V6(bits) => seq![0u8, 0, 0, 4] + be_bytes(bits as nat, 16) + be_bytes(to.port as nat, 2),
    }
}

/// Wraps a query for a SOCKS5 relay.
pub fn wrap_datagram(query: &[u8], upstream: SocketAddr) -> (r: Vec<u8>)
    ensures
        r@ == udp_header(upstream) + query@,
{
    let mut packet: Vec<u8> = Vec::new();
    packet.push(0);
    packet.push(0);
    packet.push(0);
    match upstream.ip {
        IpAddr::V4(bits) => {
            packet.push(1);
            assert(packet@ =~= seq![0u8, 0, 0, 1]);
            let mut addr = be_bytes_of(bits as u128, 4);
            packet.append(&mut addr);
        },
        IpAddr::V6(bits) => {
            packet.push(4);
            assert(packet@ =~= seq![0u8, 0, 0, 4]);
            let mut addr = be_bytes_of(bits, 16);
            packet.append(&mut addr);
        },
    }
    let mut port = be_bytes_of(upstream.port as u128, 2);
    packet.append(&mut port);
    let mut body = slice_to_vec(query);
    packet.append(&mut body);
    packet
}

/// The length of the header of a relayed datagram, where its address type is
/// known.
pub open spec fn header_len(packet: Seq<u8>) -> Option<int> {
    if packet[3] == 1 {
        Some(10)
    } else if packet[3] == 3 {
        Some(if packet.len() < 5 { 7 } else { 7 + packet[4] as int })
    } else if packet[3] == 4 {
        Some(22)
    } else {
        None
    }
}

/// The payload of a relayed datagram.
pub open spec fn datagram_payload(packet: Seq<u8>) -> Result<Seq<u8>, SocksError> {
    if packet.len() < 4 {
        Err(SocksError::ShortPacket)
    } else if packet[0] != 0 || packet[1] != 0 || packet[2] != 0 {
        Err(SocksError::BadReserved)
    } else {
        match header_len(packet) {
            None => Err(SocksError::UnknownAddress),
            Some(n) => if packet.len() < n {
                Err(SocksError::BadHeader)
            } else {
                Ok(packet.skip(n))
            },
        }
    }
}

/// Strips the SOCKS5 header from a relayed datagram.
pub fn unwrap_datagram(packet: &[u8]) -> (r: Result<Vec<u8>, SocksError>)
    ensures
        r matches Ok(v) ==> datagram_payload(packet@) == Ok::<Seq<u8>, SocksError>(v@),
        r matches Err(e) ==> datagram_payload(packet@) == Err::<Seq<u8>, SocksError>(e),
{
    if packet.len() < 4 {
        return Err(SocksError::ShortPacket);
    }
    if packet[0] != 0 || packet[1] != 0 || packet[2] != 0 {
        return Err(SocksError::BadReserved);
    }
    let n: usize = if packet[3] == 1 {
        10
    } else if packet[3] == 3 {
        if packet.len() < 5 {
            7
        } else {
            7 + packet[4] as usize
        }
    } else if packet[3] == 4 {
        22
    } else {
        return Err(SocksError::UnknownAddress);
    };
    if packet.len() < n {
        return Err(SocksError::BadHeader);
    }
    assert(packet@.subrange(n as int, packet@.len() as int) =~= packet@.skip(n as int));
    Ok(slice_to_vec(slice_subrange(packet, n, packet.len())))
}

pub proof fn be_bytes_len(value: nat, n: nat)
    ensures
        be_bytes(value, n).len() == n,
    decreases n,
{
    if n > 0 {
        be_bytes_len(value / 256, (n - 1) as nat);
    }
}

/// What a relay is sent for an upstream comes out of it unchanged.
pub proof fn unwrapping_undoes_wrapping(query: Seq<u8>, upstream: SocketAddr)
    ensures
        datagram_payload(udp_header(upstream) + query) == Ok::<Seq<u8>, SocksError>(query),
{
    match upstream.ip {
        IpAddr::V4(bits) => {
            be_bytes_len(bits as nat, 4);
        },
        IpAddr::V6(bits) => {
            be_bytes_len(bits as nat, 16);
        },
    }
    be_bytes_len(upstream.port as nat, 2);
    let packet = udp_header(upstream) + query;
    assert(packet.skip(udp_header(upstream).len() as int) =~= query);
}

// ---------------------------------------------------------------------------
// Configuration
// ---------------------------------------------------------------------------

/// Configuration of the forwarder.
#[derive(Debug)]
pub struct DnsForwarderConfig {
    /// Listen address.
    pub listen: SocketAddr,
    /// Upstream servers.
    pub upstreams: Vec<SocketAddr>,
    pub doh: bool,
    pub dot: bool,
    /// The most responses that the cache holds.
    pub cache_size: usize,
    pub log_queries: bool,
    /// Domains, with their subdomains, that are answered with NXDOMAIN.
    pub blocklist: Vec<String>,
    /// Domains, with their subdomains, that override the blocklist.
    pub allowlist: Vec<String>,
    /// The SOCKS5 proxy that queries go through, if any.
    pub socks5_proxy: Option<SocketAddr>,
}

pub open spec fn v4_socket(a: u8, b: u8, c: u8, d: u8, port: u16) -> SocketAddr {
    SocketAddr { ip: crate::net::v4_of(a, b, c, d), port }
}

/// Whether two configurations are alike.
pub open spec fn same_config(a: DnsForwarderConfig, b: DnsForwarderConfig) -> bool {
    &&& a.listen == b.listen
    &&& a.upstreams@ == b.upstreams@
    &&& a.doh == b.doh
    &&& a.dot == b.dot
    &&& a.cache_size == b.cache_size
    &&& a.log_queries == b.log_queries
    &&& crate::text::strings(a.blocklist@) == crate::text::strings(b.blocklist@)
    &&& crate::text::strings(a.allowlist@) == crate::text::strings(b.allowlist@)
    &&& a.socks5_proxy == b.socks5_proxy
}

impl DnsForwarderConfig {
    /// The same configuration, owned separately.
    pub fn duplicate(&self) -> (r: DnsForwarderConfig)
        ensures
            same_config(r, *self),
    {
        DnsForwarderConfig {
            listen: self.listen,
            upstreams: clone_sockets(&self.upstreams),
            doh: self.doh,
            dot: self.dot,
            cache_size: self.cache_size,
            log_queries: self.log_queries,
            blocklist: crate::text::clone_strings(&self.blocklist),
            allowlist: crate::text::clone_strings(&self.allowlist),
            socks5_proxy: self.socks5_proxy,
        }
    }
}

impl Default for DnsForwarderConfig {
    fn default() -> (r: DnsForwarderConfig)
        ensures
            r.listen == v4_socket(127, 0, 0, 1, 53),
            r.upstreams@ == seq![v4_socket(1, 1, 1, 1, 53), v4_socket(8, 8, 8, 8, 53)],
            !r.doh,
            !r.dot,
            r.cache_size == 10000,
            !r.log_queries,
            r.blocklist@.len() == 0,
            r.allowlist@.len() == 0,
            r.socks5_proxy is None,
    {
        let mut upstreams: Vec<SocketAddr> = Vec::new();
        upstreams.push(SocketAddr { ip: ipv4(1, 1, 1, 1), port: 53 });
        upstreams.push(SocketAddr { ip: ipv4(8, 8, 8, 8), port: 53 });
        assert(upstreams@ =~= seq![v4_socket(1, 1, 1, 1, 53), v4_socket(8, 8, 8, 8, 53)]);
        DnsForwarderConfig {
            listen: SocketAddr { ip: ipv4(127, 0, 0, 1), port: 53 },
            upstreams,
            doh: false,
            dot: false,
            cache_size: 10000,
            log_queries: false,
            blocklist: Vec::new(),
            allowlist: Vec::new(),
            socks5_proxy: None,
        }
    }
}

// ---------------------------------------------------------------------------
// Cache
// ---------------------------------------------------------------------------

/// A response in the cache.
pub struct CacheEntry {
    pub query: Vec<u8>,
    pub response: Vec<u8>,
    pub expires_ms: u64,
}

/// A response in the cache: the query it answers and when it goes stale.
pub struct Cached {
    pub query: Seq<u8>,
    pub response: Seq<u8>,
    pub expires_ms: u64,
}

impl View for CacheEntry {
    type V = Cached;

    open spec fn view(&self) -> Cached {
        Cached { query: self.query@, response: self.response@, expires_ms: self.expires_ms }
    }
}

pub open spec fn cached_views(v: Seq<CacheEntry>) -> Seq<Cached> {
    Seq::new(v.len(), |i: int| v[i]@)
}

/// The entries that are not stale at a time.
pub open spec fn fresh_only(e: Seq<Cached>, now_ms: u64) -> Seq<Cached> {
    e.filter(|c: Cached| c.expires_ms > now_ms)
}

/// The entries that are not for a query.
pub open spec fn without_query(e: Seq<Cached>, query: Seq<u8>) -> Seq<Cached> {
    e.filter(|c: Cached| c.query != query)
}

/// Whether an entry is for a query and not stale.
pub open spec fn serves(c: Cached, query: Seq<u8>, now_ms: u64) -> bool {
    c.query == query && c.expires_ms > now_ms
}

/// What is left after room was made for one more entry.
pub open spec fn room_made(e: Seq<Cached>, cap: usize, now_ms: u64) -> Seq<Cached> {
    if e.len() < cap {
        e
    } else if fresh_only(e, now_ms).len() < cap {
        fresh_only(e, now_ms)
    } else {
        Seq::empty()
    }
}

/// What the cache holds after a response was put into it.
pub open spec fn after_put(e: Seq<Cached>, query: Seq<u8>, response: Seq<u8>, cap: usize, now_ms: u64) -> Seq<Cached> {
    if cap == 0 {
        e
    } else {
        without_query(room_made(e, cap, now_ms), query).push(
            Cached { query, response, expires_ms: crate::reconciliation::dns_flow::expiry(now_ms, CACHE_TTL_MS) },
        )
    }
}

pub open spec fn one_each(e: Seq<Cached>) -> bool {
    forall|i: int, j: int| 0 <= i < j < e.len() ==> #[trigger] e[i].query != #[trigger] e[j].query
}

/// A small bounded cache of responses by the bytes of the query.
pub struct DnsCache {
    entries: Vec<CacheEntry>,
}

impl View for DnsCache {
    type V = Seq<Cached>;

    closed spec fn view(&self) -> Seq<Cached> {
        cached_views(self.entries@)
    }
}

fn same_bytes(a: &[u8], b: &[u8]) -> (r: bool)
    ensures
        r == (a@ == b@),
{
    if a.len() != b.len() {
        return false;
    }
    let mut i: usize = 0;
    while i < a.len()
        invariant
            i <= a.len(),
            a.len() == b.len(),
            forall|k: int| 0 <= k < i ==> a@[k] == b@[k],
        decreases a.len() - i,
    {
        if a[i] != b[i] {
            return false;
        }
        i += 1;
    }
    assert(a@ =~= b@);
    true
}

fn keep_fresh(v: &Vec<CacheEntry>, now_ms: u64) -> (r: Vec<CacheEntry>)
    ensures
        cached_views(r@) == fresh_only(cached_views(v@), now_ms),
{
    let ghost all = cached_views(v@);
    let ghost p = |c: Cached| c.expires_ms > now_ms;
    let mut out: Vec<CacheEntry> = Vec::new();
    let mut i: usize = 0;
    reveal(Seq::filter);
    assert(all.take(0).filter(p) =~= Seq::empty());
    while i < v.len()
        invariant
            i <= v.len(),
            all == cached_views(v@),
            p == (|c: Cached| c.expires_ms > now_ms),
            cached_views(out@) == all.take(i as int).filter(p),
        decreases v.len() - i,
    {
        let e = &v[i];
        proof {
            reveal(Seq::filter);
            assert(all.take(i as int + 1).drop_last() =~= all.take(i as int));
            assert(all.take(i as int + 1).last() == e@);
        }
        if e.expires_ms > now_ms {
            let ghost before = out@;
            out.push(
                CacheEntry {
                    query: slice_to_vec(&e.query),
                    response: slice_to_vec(&e.response),
                    expires_ms: e.expires_ms,
                },
            );
            assert(cached_views(out@) =~= cached_views(before).push(e@));
        }
        i += 1;
    }
    assert(all.take(i as int) =~= all);
    out
}

pub fn drop_query(v: &Vec<CacheEntry>, query: &[u8]) -> (r: Vec<CacheEntry>)
    ensures
        cached_views(r@) == without_query(cached_views(v@), query@),
{
    let ghost all = cached_views(v@);
    let ghost p = |c: Cached| c.query != query@;
    let mut out: Vec<CacheEntry> = Vec::new();
    let mut i: usize = 0;
    reveal(Seq::filter);
    assert(all.take(0).filter(p) =~= Seq::empty());
    while i < v.len()
        invariant
            i <= v.len(),
            all == cached_views(v@),
            p == (|c: Cached| c.query != query@),
            cached_views(out@) == all.take(i as int).filter(p),
        decreases v.len() - i,
    {
        let e = &v[i];
        proof {
            reveal(Seq::filter);
            assert(all.take(i as int + 1).drop_last() =~= all.take(i as int));
            assert(all.take(i as int + 1).last() == e@);
        }
        if !same_bytes(&e.query, query) {
            let ghost before = out@;
            out.push(
                CacheEntry {
                    query: slice_to_vec(&e.query),
                    response: slice_to_vec(&e.response),
                    expires_ms: e.expires_ms,
                },
            );
            assert(cached_views(out@) =~= cached_views(before).push(e@));
        }
        i += 1;
    }
    assert(all.take(i as int) =~= all);
    out
}

/// The entries from a place on.
pub fn drop_front(v: &Vec<CacheEntry>, n: usize) -> (r: Vec<CacheEntry>)
    requires
        n <= v.len(),
    ensures
        cached_views(r@) == cached_views(v@).skip(n as int),
{
    let mut out: Vec<CacheEntry> = Vec::new();
    let mut i: usize = n;
    while i < v.len()
        invariant
            n <= i <= v.len(),
            cached_views(out@) == cached_views(v@).subrange(n as int, i as int),
        decreases v.len() - i,
    {
        let e = &v[i];
        let ghost before = out@;
        out.push(
            CacheEntry {
                query: slice_to_vec(&e.query),
                response: slice_to_vec(&e.response),
                expires_ms: e.expires_ms,
            },
        );
        assert(cached_views(out@) =~= cached_views(before).push(e@));
        i += 1;
        assert(cached_views(v@).subrange(n as int, i as int) =~= cached_views(v@).subrange(n as int, i as int - 1).push(
            e@,
        ));
    }
    assert(cached_views(v@).subrange(n as int, i as int) =~= cached_views(v@).skip(n as int));
    out
}

pub proof fn filtered_one_each(e: Seq<Cached>, p: spec_fn(Cached) -> bool)
    requires
        one_each(e),
    ensures
        one_each(e.filter(p)),
        forall|i: int|
            0 <= i < e.filter(p).len() ==> p(#[trigger] e.filter(p)[i]) && exists|k: int|
                0 <= k < e.len() && e[k] == e.filter(p)[i],
    decreases e.len(),
{
    reveal(Seq::filter);
    if e.len() > 0 {
        let d = e.drop_last();
        filtered_one_each(d, p);
        let f = e.filter(p);
        assert forall|i: int| 0 <= i < f.len() implies p(#[trigger] f[i]) && exists|k: int|
            0 <= k < e.len() && e[k] == f[i] by {
            if i < d.filter(p).len() {
                let k = choose|k: int| 0 <= k < d.len() && d[k] == d.filter(p)[i];
                assert(e[k] == f[i]);
            } else {
                assert(e[e.len() - 1] == f[i]);
            }
        }
        assert forall|i: int, j: int| 0 <= i < j < f.len() implies #[trigger] f[i].query != #[trigger] f[j].query by {
            if j >= d.filter(p).len() {
                let k = choose|k: int| 0 <= k < d.len() && d[k] == d.filter(p)[i];
                assert(e[k] == f[i]);
                assert(e[e.len() - 1] == f[j]);
            }
        }
    }
}

pub fn find_query(v: &Vec<CacheEntry>, query: &[u8]) -> (r: usize)
    ensures
        r <= v.len(),
        r < v.len() ==> v@[r as int].query@ == query@,
        forall|k: int| 0 <= k < r ==> (#[trigger] v@[k]).query@ != query@,
{
    let mut i: usize = 0;
    while i < v.len()
        invariant
            i <= v.len(),
            forall|k: int| 0 <= k < i ==> (#[trigger] v@[k]).query@ != query@,
        decreases v.len() - i,
    {
        if same_bytes(&v[i].query, query) {
            return i;
        }
        i += 1;
    }
    i
}

impl DnsCache {
    #[verifier::type_invariant]
    spec fn inv(self) -> bool {
        one_each(cached_views(self.entries@))
    }

    /// An empty cache.
    pub fn new() -> (r: DnsCache)
        ensures
            r@ == Seq::<Cached>::empty(),
    {
        let r = DnsCache { entries: Vec::new() };
        assert(r@ =~= Seq::<Cached>::empty());
        r
    }

    /// The response to a query, if there is one that is not stale. A stale one
    /// leaves the cache.
    pub fn get(&mut self, query: &[u8], now_ms: u64) -> (r: Option<Vec<u8>>)
        ensures
            r is Some <==> exists|i: int| 0 <= i < old(self)@.len() && serves(#[trigger] old(self)@[i], query@, now_ms),
            r matches Some(v) ==> final(self)@ == old(self)@ && exists|i: int|
                0 <= i < old(self)@.len() && serves(#[trigger] old(self)@[i], query@, now_ms) && old(self)@[i].response
                    == v@,
            r is None ==> final(self)@ == without_query(old(self)@, query@),
    {
        proof {
            use_type_invariant(&*self);
        }
        let i = find_query(&self.entries, query);
        if i < self.entries.len() && self.entries[i].expires_ms > now_ms {
            let found = slice_to_vec(&self.entries[i].response);
            assert(serves(self@[i as int], query@, now_ms));
            return Some(found);
        }
        proof {
            assert forall|k: int| 0 <= k < old(self)@.len() implies !serves(#[trigger] old(self)@[k], query@, now_ms) by {
                if i < old(self)@.len() {
                    assert(old(self)@[i as int].query == query@);
                } else {
                    assert(old(self).entries@[k].query@ != query@);
                }
            }
            filtered_one_each(self@, |c: Cached| c.query != query@);
        }
        let mut entries: Vec<CacheEntry> = Vec::new();
        std::mem::swap(&mut entries, &mut self.entries);
        self.entries = drop_query(&entries, query);
        None
    }

    /// Keeps a response for a while. Where the cache is full, stale responses
    /// make room; where none is stale, all do.
    pub fn put(&mut self, query: Vec<u8>, response: Vec<u8>, cap: usize, now_ms: u64)
        ensures
            final(self)@ == after_put(old(self)@, query@, response@, cap, now_ms),
    {
        if cap == 0 {
            return;
        }
        proof {
            use_type_invariant(&*self);
        }
        let ghost before = self@;
        let mut entries: Vec<CacheEntry> = Vec::new();
        std::mem::swap(&mut entries, &mut self.entries);
        if entries.len() >= cap {
            entries = keep_fresh(&entries, now_ms);
            if entries.len() >= cap {
                entries = Vec::new();
                assert(cached_views(entries@) =~= Seq::<Cached>::empty());
            }
        }
        proof {
            filtered_one_each(before, |c: Cached| c.expires_ms > now_ms);
            filtered_one_each(room_made(before, cap, now_ms), |c: Cached| c.query != query@);
        }
        entries = drop_query(&entries, &query);
        let ghost kept = cached_views(entries@);
        let expires_ms: u64 = now_ms.saturating_add(CACHE_TTL_MS);
        let ghost entry = Cached { query: query@, response: response@, expires_ms };
        entries.push(CacheEntry { query, response, expires_ms });
        assert(cached_views(entries@) =~= kept.push(entry));
        self.entries = entries;
    }
}

/// What was put into a cache is served until it goes stale.
pub proof fn put_is_served(e: Seq<Cached>, query: Seq<u8>, response: Seq<u8>, cap: usize, now_ms: u64, later_ms: u64)
    requires
        cap > 0,
        later_ms < crate::reconciliation::dns_flow::expiry(now_ms, CACHE_TTL_MS),
    ensures
        exists|i: int|
            0 <= i < after_put(e, query, response, cap, now_ms).len() && serves(
                #[trigger] after_put(e, query, response, cap, now_ms)[i],
                query,
                later_ms,
            ) && after_put(e, query, response, cap, now_ms)[i].response == response,
{
    let after = after_put(e, query, response, cap, now_ms);
    assert(serves(after[after.len() - 1], query, later_ms));
}

/// A cache never holds more than it may.
pub proof fn put_keeps_bound(e: Seq<Cached>, query: Seq<u8>, response: Seq<u8>, cap: usize, now_ms: u64)
    requires
        e.len() <= cap,
    ensures
        after_put(e, query, response, cap, now_ms).len() <= cap,
{
    let room = room_made(e, cap, now_ms);
    room.lemma_filter_len(|c: Cached| c.query != query);
}

// ---------------------------------------------------------------------------
// Filtering
// ---------------------------------------------------------------------------

/// What is done with a query for a domain.
#[derive(Debug, Clone, Copy, PartialEq, Eq, Structural)]
pub enum DomainDecision {
    /// Resolve through the upstreams.
    Pass,
    /// Answer with NXDOMAIN here; never send the query upstream.
    Block,
}

/// The decision for a name in lower case: that of the most specific of the
/// name and its parents that a list holds.
pub open spec fn decision(name: Seq<char>, block: Seq<Seq<char>>, allow: Seq<Seq<char>>) -> DomainDecision
    decreases name.len(),
{
    let dot = crate::text::index_of(name, '.') as int;
    if allow.contains(name) {
        DomainDecision::Pass
    } else if block.contains(name) {
        DomainDecision::Block
    } else if dot < name.len() {
        decision(name.skip(dot + 1), block, allow)
    } else {
        DomainDecision::Pass
    }
}

/// The form in which a domain is looked up in the lists.
pub open spec fn list_key(domain: Seq<char>) -> Seq<char> {
    crate::text::ascii_lower(crate::dns_plane::without_dots(domain))
}

fn key_chars(domain: &str) -> (r: Vec<char>)
    ensures
        r@ == list_key(domain@),
{
    let name = chars_of(domain);
    let mut n: usize = name.len();
    assert(name@.take(n as int) =~= name@);
    while n > 0 && name[n - 1] == '.'
        invariant
            n <= name.len(),
            crate::dns_plane::without_dots(name@.take(n as int)) == crate::dns_plane::without_dots(name@),
        decreases n,
    {
        assert(name@.take(n as int).drop_last() =~= name@.take(n as int - 1));
        n -= 1;
    }
    assert(name@.subrange(0, n as int) =~= name@.take(n as int));
    lower_chars(slice_subrange(&name, 0, n))
}

/// Classify a domain against the blocklist and the allowlist. An entry covers
/// the domain itself and every subdomain; the more specific entry wins, and of
/// two equal ones that of the allowlist.
pub fn classify_domain(domain: &str, block: &Vec<String>, allow: &Vec<String>) -> (r: DomainDecision)
    ensures
        r == decision(list_key(domain@), crate::text::strings(block@), crate::text::strings(allow@)),
{
    let key = key_chars(domain);
    let mut rest: &[char] = &key;
    loop
        invariant
            decision(key@, crate::text::strings(block@), crate::text::strings(allow@)) == decision(
                rest@,
                crate::text::strings(block@),
                crate::text::strings(allow@),
            ),
            key@ == list_key(domain@),
        decreases rest.len(),
    {
        let candidate = string_of(rest);
        if list_has(allow, candidate.as_str()) {
            return DomainDecision::Pass;
        }
        if list_has(block, candidate.as_str()) {
            return DomainDecision::Block;
        }
        let dot = crate::text::find_char(rest, '.');
        if dot >= rest.len() {
            return DomainDecision::Pass;
        }
        assert(rest@.subrange(dot as int + 1, rest@.len() as int) =~= rest@.skip(dot as int + 1));
        rest = slice_subrange(rest, dot + 1, rest.len());
    }
}

/// An allowlisted domain passes, whatever is blocked.
pub proof fn allowlist_wins(name: Seq<char>, block: Seq<Seq<char>>, allow: Seq<Seq<char>>)
    requires
        allow.contains(name),
    ensures
        decision(name, block, allow) == DomainDecision::Pass,
{
}

/// A subdomain that no list names is treated as its parent is: an entry covers
/// every subdomain.
pub proof fn subdomain_follows_parent(
    label: Seq<char>,
    parent: Seq<char>,
    block: Seq<Seq<char>>,
    allow: Seq<Seq<char>>,
)
    requires
        !label.contains('.'),
        !allow.contains(label.push('.') + parent),
        !block.contains(label.push('.') + parent),
    ensures
        decision(label.push('.') + parent, block, allow) == decision(parent, block, allow),
{
    let name = label.push('.') + parent;
    crate::text::index_of_first(name, '.');
    assert(name[label.len() as int] == '.');
    let dot = crate::text::index_of(name, '.') as int;
    if dot < label.len() {
        assert(label[dot] == '.');
    }
    assert(dot == label.len());
    assert(name.skip(dot + 1) =~= parent);
}

/// Where nothing is blocked, everything passes.
pub proof fn nothing_blocked_passes(name: Seq<char>, allow: Seq<Seq<char>>)
    ensures
        decision(name, Seq::empty(), allow) == DomainDecision::Pass,
    decreases name.len(),
{
    let dot = crate::text::index_of(name, '.') as int;
    if dot < name.len() {
        nothing_blocked_passes(name.skip(dot + 1), allow);
    }
}

/// The second header byte pair of a negative answer keeps the opcode and the
/// recursion-desired bit of the query.
pub open spec fn answer_flags(b: u8) -> u8 {
    (b & 0x79u8) | 0x80u8
}

/// The negative answer to a query: its header marked as an NXDOMAIN response
/// without records, and the rest as it was.
pub open spec fn nxdomain_of(query: Seq<u8>) -> Seq<u8> {
    Seq::new(
        query.len(),
        |i: int|
            if i == 2 && query.len() >= 4 {
                answer_flags(query[2])
            } else if i == 3 {
                3u8
            } else if 6 <= i < 12 {
                0u8
            } else {
                query[i]
            },
    )
}

/// Build an NXDOMAIN response from the header of a query.
pub fn nxdomain_response(query: &[u8]) -> (r: Vec<u8>)
    ensures
        r@ == nxdomain_of(query@),
{
    let mut resp = slice_to_vec(query);
    if resp.len() >= 4 {
        let flags: u8 = (query[2] & 0x79u8) | 0x80u8;
        resp.set(2, flags);
        resp.set(3, 3u8);
    }
    let mut i: usize = 6;
    while i < 12 && i < resp.len()
        invariant
            6 <= i <= 12,
            resp.len() == query.len(),
            forall|k: int|
                0 <= k < query.len() && !(i <= k < 12) ==> #[trigger] resp@[k] == nxdomain_of(query@)[k],
        decreases 12 - i,
    {
        resp.set(i, 0u8);
        i += 1;
    }
    assert(resp@ =~= nxdomain_of(query@));
    resp
}

/// The negative answer to a query with a header says that it is a response,
/// that the name does not exist, and that nothing is cut off; its id and its
/// number of questions are those of the query, and it has no answers.
pub proof fn nxdomain_header(query: Seq<u8>)
    requires
        query.len() >= crate::dns_plane::HEADER_LEN,
    ensures
        nxdomain_of(query)[0] == query[0],
        nxdomain_of(query)[1] == query[1],
        crate::dns_plane::header_of(nxdomain_of(query)) == Some(
            crate::dns_plane::Header {
                qr: true,
                tc: false,
                rcode: 3,
                qdcount: crate::dns_plane::header_of(query)->0.qdcount,
                ancount: 0,
            },
        ),
{
    let b = query[2];
    let f = answer_flags(b);
    assert(f >= 128 && (f / 2) % 2 == 0) by (bit_vector)
        requires
            f == (b & 0x79u8) | 0x80u8,
    ;
}

/// The lists that decide which domains are blocked.
pub struct DnsFilterSets {
    pub block: Vec<String>,
    pub allow: Vec<String>,
}

/// The entries of a configured list as they are looked up; empty ones fall out.
pub open spec fn list_keys(list: Seq<Seq<char>>) -> Seq<Seq<char>>
    decreases list.len(),
{
    if list.len() == 0 {
        Seq::empty()
    } else if list_key(list.last()).len() == 0 {
        list_keys(list.drop_last())
    } else {
        list_keys(list.drop_last()).push(list_key(list.last()))
    }
}

fn normal_list(list: &Vec<String>) -> (r: Vec<String>)
    ensures
        crate::text::strings(r@) == list_keys(crate::text::strings(list@)),
{
    let ghost all = crate::text::strings(list@);
    let mut out: Vec<String> = Vec::new();
    let mut i: usize = 0;
    assert(crate::text::strings(out@) =~= list_keys(all.take(0)));
    while i < list.len()
        invariant
            i <= list.len(),
            all == crate::text::strings(list@),
            crate::text::strings(out@) == list_keys(all.take(i as int)),
        decreases list.len() - i,
    {
        let key = key_chars(list[i].as_str());
        assert(all.take(i as int + 1).drop_last() =~= all.take(i as int));
        if key.len() > 0 {
            let ghost before = out@;
            out.push(string_of(&key));
            assert(crate::text::strings(out@) =~= crate::text::strings(before).push(key@));
        }
        i += 1;
    }
    assert(all.take(i as int) =~= all);
    out
}

impl DnsFilterSets {
    /// The lists of a configuration.
    pub fn new(blocklist: &Vec<String>, allowlist: &Vec<String>) -> (r: DnsFilterSets)
        ensures
            crate::text::strings(r.block@) == list_keys(crate::text::strings(blocklist@)),
            crate::text::strings(r.allow@) == list_keys(crate::text::strings(allowlist@)),
    {
        DnsFilterSets { block: normal_list(blocklist), allow: normal_list(allowlist) }
    }

    /// The decision for a domain.
    pub open spec fn decides(&self, domain: Seq<char>) -> DomainDecision {
        decision(list_key(domain), crate::text::strings(self.block@), crate::text::strings(self.allow@))
    }

    pub fn classify(&self, domain: &str) -> (r: DomainDecision)
        ensures
            r == self.decides(domain@),
    {
        classify_domain(domain, &self.block, &self.allow)
    }

    /// The decision for a query. One that asks for no name passes.
    pub open spec fn decides_query(&self, query: Seq<u8>) -> DomainDecision {
        match crate::dns_plane::asked_name(query) {
            None => DomainDecision::Pass,
            Some(domain) => self.decides(domain),
        }
    }

    pub fn classify_query(&self, query: &[u8]) -> (r: DomainDecision)
        ensures
            r == self.decides_query(query@),
    {
        match query_name(query) {
            None => DomainDecision::Pass,
            Some(domain) => self.classify(domain.as_str()),
        }
    }
}

// ---------------------------------------------------------------------------
// Forwarding
// ---------------------------------------------------------------------------

/// What is to be done with a query.
#[derive(Debug)]
pub enum QueryStep {
    /// Nothing.
    Ignore,
    /// Send this answer to the client.
    Answer(Vec<u8>),
    /// Ask these upstreams, one after another, until one answers.
    Ask(Vec<SocketAddr>),
}

/// What is to be done with the relay to a SOCKS5 proxy.
#[derive(Debug, Clone, Copy, PartialEq, Eq, Structural)]
pub enum RelayStep {
    /// Keep what there is.
    Keep,
    /// Go without a relay.
    Direct,
    /// Open a relay through this proxy; go without one where that fails.
    Connect(SocketAddr),
}

/// The forwarder between two datagrams.
pub struct Forwarder {
    pub upstreams: Vec<SocketAddr>,
    pub cache: DnsCache,
    pub cache_size: usize,
    pub filter: DnsFilterSets,
    /// Whether answers are recorded in the registry.
    pub observing: bool,
    /// Which upstream is asked first.
    pub round_robin: usize,
    /// The proxy that the present relay belongs to.
    pub proxy: Option<SocketAddr>,
}

/// `v` with the elements before place `n` moved behind the others.
pub open spec fn rotated(v: Seq<SocketAddr>, n: int) -> Seq<SocketAddr> {
    v.skip(n) + v.take(n)
}

/// The upstreams of a configuration, or the one there is by default.
pub open spec fn effective_upstreams(configured: Seq<SocketAddr>) -> Seq<SocketAddr> {
    if configured.len() == 0 { seq![v4_socket(1, 1, 1, 1, 53)] } else { configured }
}

pub fn clone_sockets(v: &Vec<SocketAddr>) -> (r: Vec<SocketAddr>)
    ensures
        r@ == v@,
{
    let mut out: Vec<SocketAddr> = Vec::new();
    let mut i: usize = 0;
    while i < v.len()
        invariant
            i <= v.len(),
            out@ == v@.take(i as int),
        decreases v.len() - i,
    {
        out.push(v[i]);
        i += 1;
        assert(out@ =~= v@.take(i as int));
    }
    assert(v@.take(i as int) =~= v@);
    out
}

impl Forwarder {
    /// Whether there is an upstream, and one of them is the first to ask.
    pub open spec fn wf(&self) -> bool {
        self.round_robin < self.upstreams@.len()
    }

    /// A forwarder for a configuration, with an empty cache.
    pub fn new(config: &DnsForwarderConfig, observing: bool) -> (r: Forwarder)
        ensures
            r.wf(),
            r.upstreams@ == effective_upstreams(config.upstreams@),
            r.cache@ == Seq::<Cached>::empty(),
            r.cache_size == config.cache_size,
            crate::text::strings(r.filter.block@) == list_keys(crate::text::strings(config.blocklist@)),
            crate::text::strings(r.filter.allow@) == list_keys(crate::text::strings(config.allowlist@)),
            r.observing == observing,
            r.round_robin == 0,
            r.proxy is None,
    {
        let mut upstreams = clone_sockets(&config.upstreams);
        if upstreams.len() == 0 {
            upstreams.push(SocketAddr { ip: ipv4(1, 1, 1, 1), port: 53 });
            assert(upstreams@ =~= seq![v4_socket(1, 1, 1, 1, 53)]);
        }
        Forwarder {
            upstreams,
            cache: DnsCache::new(),
            cache_size: config.cache_size,
            filter: DnsFilterSets::new(&config.blocklist, &config.allowlist),
            observing,
            round_robin: 0,
            proxy: None,
        }
    }

    /// Whether the cache answers a query at a time.
    pub open spec fn caches(&self, query: Seq<u8>, now_ms: u64) -> bool {
        exists|i: int| 0 <= i < self.cache@.len() && serves(#[trigger] self.cache@[i], query, now_ms)
    }

    /// Takes notice of the proxy that queries have to go through.
    pub fn on_proxy(&mut self, current: Option<SocketAddr>) -> (r: RelayStep)
        ensures
            r == (if current == old(self).proxy {
                RelayStep::Keep
            } else {
                match current {
                    Some(addr) => RelayStep::Connect(addr),
                    None => RelayStep::Direct,
                }
            }),
            *final(self) == (Forwarder { proxy: current, ..*old(self) }),
    {
        let same = match (current, self.proxy) {
            (Some(a), Some(b)) => a == b,
            (None, None) => true,
            _ => false,
        };
        if same {
            return RelayStep::Keep;
        }
        self.proxy = current;
        match current {
            Some(addr) => RelayStep::Connect(addr),
            None => RelayStep::Direct,
        }
    }

    fn order(&self) -> (r: Vec<SocketAddr>)
        requires
            self.wf(),
        ensures
            r@ == rotated(self.upstreams@, self.round_robin as int),
    {
        let n: usize = self.upstreams.len();
        let mut out: Vec<SocketAddr> = Vec::new();
        let mut offset: usize = 0;
        while offset < n
            invariant
                n == self.upstreams@.len(),
                self.wf(),
                offset <= n,
                out@ == rotated(self.upstreams@, self.round_robin as int).take(offset as int),
            decreases n - offset,
        {
            let idx: usize = if offset < n - self.round_robin {
                self.round_robin + offset
            } else {
                offset - (n - self.round_robin)
            };
            out.push(self.upstreams[idx]);
            offset += 1;
            assert(out@ =~= rotated(self.upstreams@, self.round_robin as int).take(offset as int));
        }
        assert(out@ =~= rotated(self.upstreams@, self.round_robin as int));
        out
    }

    /// What is to be done with a query.
    pub fn on_query(&mut self, query: &[u8], now_ms: u64) -> (r: QueryStep)
        requires
            old(self).wf(),
        ensures
            final(self).wf(),
            final(self).upstreams == old(self).upstreams,
            final(self).cache_size == old(self).cache_size,
            final(self).filter == old(self).filter,
            final(self).observing == old(self).observing,
            final(self).round_robin == old(self).round_robin,
            final(self).proxy == old(self).proxy,
            query.len() == 0 <==> r is Ignore,
            query.len() > 0 && old(self).filter.decides_query(query@) == DomainDecision::Block ==> (
            r matches QueryStep::Answer(v) && v@ == nxdomain_of(query@)),
            query.len() == 0 || old(self).filter.decides_query(query@) == DomainDecision::Block ==> final(self).cache@
                == old(self).cache@,
            query.len() > 0 && old(self).filter.decides_query(query@) == DomainDecision::Pass ==> (match r {
                QueryStep::Ignore => false,
                QueryStep::Answer(v) => final(self).cache@ == old(self).cache@ && exists|i: int|
                    0 <= i < old(self).cache@.len() && serves(#[trigger] old(self).cache@[i], query@, now_ms)
                        && old(self).cache@[i].response == v@,
                QueryStep::Ask(order) => !old(self).caches(query@, now_ms) && order@ == rotated(
                    old(self).upstreams@,
                    old(self).round_robin as int,
                ) && final(self).cache@ == without_query(old(self).cache@, query@),
            }),
    {
        if query.len() == 0 {
            return QueryStep::Ignore;
        }
        match self.filter.classify_query(query) {
            DomainDecision::Block => QueryStep::Answer(nxdomain_response(query)),
            DomainDecision::Pass => match self.cache.get(query, now_ms) {
                Some(response) => QueryStep::Answer(response),
                None => QueryStep::Ask(self.order()),
            },
        }
    }

    /// Takes notice of what the upstreams answered to a query, if anything.
    /// Returns what the client is sent.
    pub fn on_answer(
        &mut self,
        query: &[u8],
        response: Option<Vec<u8>>,
        registry: &mut DnsRegistry,
        now_ms: u64,
    ) -> (r: Option<Vec<u8>>)
        requires
            old(self).wf(),
        ensures
            final(self).wf(),
            final(self).upstreams == old(self).upstreams,
            final(self).cache_size == old(self).cache_size,
            final(self).filter == old(self).filter,
            final(self).observing == old(self).observing,
            final(self).proxy == old(self).proxy,
            final(self).round_robin == (old(self).round_robin + 1) % (old(self).upstreams@.len() as int),
            r == response,
            final(self).cache@ == (match response {
                Some(v) => after_put(old(self).cache@, query@, v@, old(self).cache_size, now_ms),
                None => old(self).cache@,
            }),
            final(registry)@ == (match response {
                Some(v) => if old(self).observing {
                    crate::dns_plane::recorded(old(registry)@, crate::dns_plane::learned(query@, v@), now_ms)
                } else {
                    old(registry)@
                },
                None => old(registry)@,
            }),
    {
        let size: usize = self.upstreams.len();
        assert(self.round_robin < size);
        self.round_robin = if self.round_robin + 1 == self.upstreams.len() { 0 } else { self.round_robin + 1 };
        proof {
            let n = self.upstreams@.len() as int;
            if old(self).round_robin + 1 < n {
                vstd::arithmetic::div_mod::lemma_small_mod((old(self).round_robin + 1) as nat, n as nat);
            } else {
                vstd::arithmetic::div_mod::lemma_mod_self_0(n);
            }
        }
        if let Some(v) = &response {
            self.cache.put(slice_to_vec(query), slice_to_vec(v), self.cache_size, now_ms);
            if self.observing {
                ingest(registry, query, v, now_ms);
            }
        }
        response
    }
}

// ---------------------------------------------------------------------------
// Driver
// ---------------------------------------------------------------------------

/// The forwarder as a driver.
pub struct DnsForwarderDriver {
    pub id: DriverId,
    pub config: DnsForwarderConfig,
    pub running: bool,
    pub health: HealthStatus,
    pub local: Option<SocketAddr>,
    pub observing: bool,
    pub vpn_proxy: Option<SocketAddr>,
}

impl DnsForwarderDriver {
    pub fn new(id: DriverId, config: DnsForwarderConfig) -> (r: Self)
        ensures
            r == (DnsForwarderDriver {
                id,
                config,
                running: false,
                health: HealthStatus::Unknown,
                local: None,
                observing: false,
                vpn_proxy: None,
            }),
    {
        DnsForwarderDriver {
            id,
            config,
            running: false,
            health: HealthStatus::Unknown,
            local: None,
            observing: false,
            vpn_proxy: None,
        }
    }

    pub fn id(&self) -> (r: DriverId)
        ensures
            r == self.id,
    {
        self.id
    }

    pub fn name(&self) -> (r: &'static str)
        ensures
            r@ == "DNS Forwarder"@,
    {
        "DNS Forwarder"
    }

    pub fn capabilities(&self) -> (r: Capabilities)
        ensures
            r == (Capabilities { tunnel: false, proxy: false, packet_processor: false, dns: true }),
    {
        Capabilities { tunnel: false, proxy: false, packet_processor: false, dns: true }
    }

    /// From the next start on, answers are recorded.
    pub fn attach_registry(&mut self)
        ensures
            *final(self) == (DnsForwarderDriver { observing: true, ..*old(self) }),
    {
        self.observing = true;
    }

    /// Sets the proxy that queries go through, or none.
    pub fn set_vpn_proxy(&mut self, addr: Option<SocketAddr>)
        ensures
            *final(self) == (DnsForwarderDriver { vpn_proxy: addr, ..*old(self) }),
    {
        self.vpn_proxy = addr;
    }

    /// The address that the listener is bound to.
    pub fn local_addr(&self) -> (r: Option<SocketAddr>)
        ensures
            r == self.local,
    {
        self.local
    }

    /// The forwarder to run, where none is running yet.
    pub fn plan_start(&self) -> (r: Option<Forwarder>)
        ensures
            r is None <==> self.running,
            r matches Some(f) ==> f.wf() && f.upstreams@ == effective_upstreams(self.config.upstreams@) && f.cache@
                == Seq::<Cached>::empty() && f.cache_size == self.config.cache_size && f.observing == self.observing
                && f.round_robin == 0 && f.proxy is None && crate::text::strings(f.filter.block@) == list_keys(
                crate::text::strings(self.config.blocklist@),
            ) && crate::text::strings(f.filter.allow@) == list_keys(crate::text::strings(self.config.allowlist@)),
    {
        if self.running {
            None
        } else {
            Some(Forwarder::new(&self.config, self.observing))
        }
    }

    /// Takes notice that the listener is bound.
    pub fn started(&mut self, local: Option<SocketAddr>)
        ensures
            *final(self) == (DnsForwarderDriver {
                local,
                running: true,
                health: HealthStatus::Healthy,
                ..*old(self)
            }),
    {
        self.local = local;
        self.running = true;
        self.health = HealthStatus::Healthy;
    }

    /// Takes notice that the listener is closed.
    pub fn stopped(&mut self)
        ensures
            *final(self) == (DnsForwarderDriver {
                local: None,
                running: false,
                health: HealthStatus::Unknown,
                ..*old(self)
            }),
    {
        self.local = None;
        self.running = false;
        self.health = HealthStatus::Unknown;
    }

    /// The port that the listener has, or would have.
    pub fn listen_port(&self) -> (r: u16)
        ensures
            r == (match self.local {
                Some(a) => a.port,
                None => self.config.listen.port,
            }),
    {
        match self.local {
            Some(a) => a.port,
            None => self.config.listen.port,
        }
    }

    /// The health of the driver, given whether its task came to an end and what
    /// the system lists as UDP listeners on the port, where it lists anything.
    pub fn health_from(&self, task_finished: bool, listeners: Option<&str>) -> (r: HealthStatus)
        ensures
            r == (if !self.running {
                HealthStatus::Unhealthy { reason: 1 }
            } else if task_finished {
                HealthStatus::Unhealthy { reason: 2 }
            } else if listeners matches Some(text) && crate::text::occurs_in(
                crate::text::decimal(match self.local {
                    Some(a) => a.port as nat,
                    None => self.config.listen.port as nat,
                }),
                text@,
            ) {
                HealthStatus::Healthy
            } else {
                HealthStatus::Degraded { reason: 1 }
            }),
    {
        if !self.running {
            return HealthStatus::Unhealthy { reason: 1 };
        }
        if task_finished {
            return HealthStatus::Unhealthy { reason: 2 };
        }
        let port = crate::text::decimal_of(self.listen_port() as u64);
        match listeners {
            Some(text) => {
                if crate::text::contains(&chars_of(text), &chars_of(port.as_str())) {
                    HealthStatus::Healthy
                } else {
                    HealthStatus::Degraded { reason: 1 }
                }
            },
            None => HealthStatus::Degraded { reason: 1 },
        }
    }
}

proof fn bytes_say_their_number(value: nat, n: nat)
    requires
        value < crate::net::pow256(n),
    ensures
        be_bytes(value, n).len() == n,
        crate::net::be_value(be_bytes(value, n)) == value,
    decreases n,
{
    if n > 0 {
        let p = crate::net::pow256((n - 1) as nat);
        assert(value / 256 < p) by (nonlinear_arith)
            requires
                value < 256 * p,
        ;
        bytes_say_their_number(value / 256, (n - 1) as nat);
        let s = be_bytes(value, n);
        assert(s.drop_last() =~= be_bytes(value / 256, (n - 1) as nat));
    }
}

/// An address that a datagram is sent to is read back from its header: the
/// family, the address and the port.
pub proof fn addresses_survive_the_relay(to: SocketAddr)
    ensures
        socks5_addr(udp_header(to).skip(3)) == Ok::<SocketAddr, SocksError>(to),
        udp_header(to)[0] == 0 && udp_header(to)[1] == 0 && udp_header(to)[2] == 0,
        to.ip is V4 ==> udp_header(to).len() == 10 && udp_header(to)[3] == 1,
        to.ip is V6 ==> udp_header(to).len() == 22 && udp_header(to)[3] == 4,
{
    reveal_with_fuel(crate::net::pow256, 17);
    let port = be_bytes(to.port as nat, 2);
    assert(crate::net::pow256(2) == 65536);
    bytes_say_their_number(to.port as nat, 2);
    reveal_with_fuel(crate::net::be_value, 3);
    assert(port.drop_last().drop_last().len() == 0);
    assert(crate::net::be_value(port) == port[0] * 256 + port[1]);
    let h = udp_header(to);
    match to.ip {
        IpAddr::V4(bits) => {
            assert(crate::net::pow256(4) == 0x1_0000_0000);
            bytes_say_their_number(bits as nat, 4);
            let b = be_bytes(bits as nat, 4);
            crate::dns_plane::four_bytes(b);
            let s = h.skip(3);
            assert(s[0] == 1);
            assert(s[1] == b[0] && s[2] == b[1] && s[3] == b[2] && s[4] == b[3]);
            assert(s[5] == port[0] && s[6] == port[1]);
        },
        IpAddr::V6(bits) => {
            assert(crate::net::pow256(16) == 0x1_0000_0000_0000_0000_0000_0000_0000_0000);
            bytes_say_their_number(bits as nat, 16);
            let b = be_bytes(bits as nat, 16);
            let s = h.skip(3);
            assert(s[0] == 4);
            assert(s.subrange(1, 17) =~= b);
            assert(s[17] == port[0] && s[18] == port[1]);
        },
    }
}

/// An address is refused where it is empty, of a kind that is not known, or cut
/// short; every other one is read.
pub proof fn which_relay_addresses_are_read(bytes: Seq<u8>)
    ensures
        bytes.len() == 0 ==> socks5_addr(bytes) == Err::<SocketAddr, SocksError>(SocksError::EmptyAddress),
        bytes.len() > 0 && bytes[0] == 1 ==> (socks5_addr(bytes) is Ok <==> bytes.len() >= 7),
        bytes.len() > 0 && bytes[0] == 4 ==> (socks5_addr(bytes) is Ok <==> bytes.len() >= 19),
        bytes.len() > 0 && bytes[0] != 1 && bytes[0] != 4 ==> socks5_addr(bytes) == Err::<SocketAddr, SocksError>(
            SocksError::UnsupportedAddress,
        ),
        bytes.len() > 0 && bytes[0] == 1 && bytes.len() < 7 ==> socks5_addr(bytes) == Err::<SocketAddr, SocksError>(
            SocksError::ShortIpv4,
        ),
        bytes.len() > 0 && bytes[0] == 4 && bytes.len() < 19 ==> socks5_addr(bytes) == Err::<SocketAddr, SocksError>(
            SocksError::ShortIpv6,
        ),
{
}

/// What a relay sends is taken exactly where it begins with three zeros and its
/// address, of a kind that is known, lies within it; what follows is the
/// answer.
pub proof fn which_datagrams_are_taken(packet: Seq<u8>)
    ensures
        packet.len() < 4 ==> datagram_payload(packet) == Err::<Seq<u8>, SocksError>(SocksError::ShortPacket),
        packet.len() >= 4 && !(packet[0] == 0 && packet[1] == 0 && packet[2] == 0) ==> datagram_payload(packet)
            == Err::<Seq<u8>, SocksError>(SocksError::BadReserved),
        packet.len() >= 4 && packet[0] == 0 && packet[1] == 0 && packet[2] == 0 ==> {
            &&& packet[3] == 1 && packet.len() >= 10 ==> datagram_payload(packet) == Ok::<Seq<u8>, SocksError>(
                packet.skip(10),
            )
            &&& packet[3] == 4 && packet.len() >= 22 ==> datagram_payload(packet) == Ok::<Seq<u8>, SocksError>(
                packet.skip(22),
            )
            &&& packet[3] == 3 && packet.len() >= 5 && packet.len() >= 7 + packet[4] ==> datagram_payload(packet)
                == Ok::<Seq<u8>, SocksError>(packet.skip(7 + packet[4]))
            &&& packet[3] == 1 && packet.len() < 10 || packet[3] == 4 && packet.len() < 22 || packet[3] == 3 && (
            packet.len() < 7 || packet.len() < 7 + packet[4]) ==> datagram_payload(packet) == Err::<
                Seq<u8>,
                SocksError,
            >(SocksError::BadHeader)
            &&& packet[3] != 1 && packet[3] != 3 && packet[3] != 4 ==> datagram_payload(packet) == Err::<
                Seq<u8>,
                SocksError,
            >(SocksError::UnknownAddress)
        },
{
}

/// A name that is blocked and not allowed is blocked; one that no list names
/// and that has no parent passes.
pub proof fn blocked_names_are_blocked(name: Seq<char>, block: Seq<Seq<char>>, allow: Seq<Seq<char>>)
    ensures
        block.contains(name) && !allow.contains(name) ==> decision(name, block, allow) == DomainDecision::Block,
        !block.contains(name) && !allow.contains(name) && !name.contains('.') ==> decision(name, block, allow)
            == DomainDecision::Pass,
{
    let dot = crate::text::index_of(name, '.') as int;
    crate::text::index_of_first(name, '.');
    if dot < name.len() {
        assert(name.contains(name[dot]));
    }
}

/// Whether a domain is written in upper or lower case, or with a dot at its
/// end, makes no difference to the lists.
pub proof fn spelling_makes_no_difference(filter: &DnsFilterSets, domain: Seq<char>)
    ensures
        list_key(crate::text::ascii_lower(domain)) == list_key(domain),
        list_key(domain.push('.')) == list_key(domain),
        filter.decides(crate::text::ascii_lower(domain)) == filter.decides(domain),
        filter.decides(domain.push('.')) == filter.decides(domain),
{
    crate::dns_plane::lower_without_dots(domain);
    crate::text::ascii_lower_idempotent(crate::dns_plane::without_dots(domain));
    assert(domain.push('.').drop_last() =~= domain);
}

/// A list holds the key of each of its entries, in order, but for those that
/// are empty.
pub proof fn lists_hold_their_entries(first: Seq<Seq<char>>, second: Seq<Seq<char>>)
    ensures
        list_keys(first + second) == list_keys(first) + list_keys(second),
        second.len() == 1 && list_key(second[0]).len() > 0 ==> list_keys(second) == seq![list_key(second[0])],
        second.len() == 1 && list_key(second[0]).len() == 0 ==> list_keys(second).len() == 0,
    decreases second.len(),
{
    if second.len() == 0 {
        assert(first + second =~= first);
        assert(list_keys(first) + list_keys(second) =~= list_keys(first));
    } else {
        let front = second.drop_last();
        lists_hold_their_entries(first, front);
        assert((first + second).drop_last() =~= first + front);
        assert((first + second).last() == second.last());
        assert(list_keys(first + second) =~= list_keys(first) + list_keys(second));
        if second.len() == 1 {
            assert(list_keys(front).len() == 0);
        }
    }
}

/// An entry of a blocklist covers the name it is written for and every
/// subdomain of it that no list names, however both are written.
pub proof fn blocklists_cover_subdomains(
    entry: Seq<char>,
    label: Seq<char>,
    block: Seq<Seq<char>>,
    allow: Seq<Seq<char>>,
)
    requires
        block.contains(list_key(entry)),
        !allow.contains(list_key(entry)),
        !label.contains('.'),
        !allow.contains(label.push('.') + list_key(entry)),
    ensures
        decision(list_key(entry), block, allow) == DomainDecision::Block,
        decision(label.push('.') + list_key(entry), block, allow) == DomainDecision::Block,
{
    if !block.contains(label.push('.') + list_key(entry)) {
        subdomain_follows_parent(label, list_key(entry), block, allow);
    }
}

/// A negative answer is as long as the query and keeps its id, its opcode,
/// whether recursion is wanted, its question count and everything behind the
/// header. It has no records.
pub proof fn negative_answers_keep_the_question(query: Seq<u8>, i: int)
    requires
        query.len() >= 12,
        0 <= i < query.len(),
    ensures
        nxdomain_of(query).len() == query.len(),
        i < 2 || i == 4 || i == 5 || i >= 12 ==> nxdomain_of(query)[i] == query[i],
        6 <= i < 12 ==> nxdomain_of(query)[i] == 0,
        nxdomain_of(query)[2] & 0x79 == query[2] & 0x79,
        nxdomain_of(query)[2] & 0x86 == 0x80,
        nxdomain_of(query)[3] == 3,
{
    let b = query[2];
    assert(((b & 0x79) | 0x80) & 0x79 == b & 0x79) by (bit_vector);
    assert(((b & 0x79) | 0x80) & 0x86 == 0x80) by (bit_vector);
}

/// Forgetting a query leaves every other entry as it was, and none for the
/// query.
pub proof fn forgetting_a_query(e: Seq<Cached>, query: Seq<u8>, c: Cached)
    ensures
        without_query(e, query).contains(c) <==> e.contains(c) && c.query != query,
        without_query(e, query).len() <= e.len(),
{
    let p = |c: Cached| c.query != query;
    broadcast use vstd::seq_lib::group_filter_ensures;

    e.lemma_filter_len(p);
    let f = e.filter(p);
    if f.contains(c) {
        let i = f.index_of(c);
        assert(p(f[i]));
        filtered_from(e, p, i);
    }
    if e.contains(c) && c.query != query {
        assert(p(c));
        let i = e.index_of(c);
        assert(p(e[i]));
    }
}

proof fn filtered_from(e: Seq<Cached>, p: spec_fn(Cached) -> bool, i: int)
    requires
        0 <= i < e.filter(p).len(),
    ensures
        e.contains(e.filter(p)[i]),
    decreases e.len(),
{
    reveal(Seq::filter);
    if e.len() > 0 {
        let d = e.drop_last();
        if i < d.filter(p).len() {
            filtered_from(d, p, i);
            let k = d.index_of(d.filter(p)[i]);
            assert(e[k] == d[k]);
        } else {
            assert(e[e.len() - 1] == e.last());
        }
    }
}

/// A cached answer is served for thirty seconds: at every moment before that,
/// and at none from then on. While there is room, what was cached for other
/// queries stays.
pub proof fn answers_are_cached_for_thirty_seconds(
    e: Seq<Cached>,
    query: Seq<u8>,
    response: Seq<u8>,
    cap: usize,
    now_ms: u64,
    later_ms: u64,
    other: Cached,
)
    requires
        cap > 0,
        now_ms + 30000 <= u64::MAX,
    ensures
        ({
            let after = after_put(e, query, response, cap, now_ms);
            &&& after.len() > 0
            &&& after.last().query == query
            &&& after.last().response == response
            &&& serves(after.last(), query, later_ms) <==> later_ms < now_ms + 30000
            &&& after.contains(other) && other != after.last() ==> other.query != query
            &&& other.query != query && e.len() < cap ==> (after.contains(other) <==> e.contains(other))
            &&& other.query != query && after.contains(other) ==> e.contains(other)
        }),
{
    let after = after_put(e, query, response, cap, now_ms);
    let room = room_made(e, cap, now_ms);
    let kept = without_query(room, query);
    forgetting_a_query(room, query, other);
    crate::seqs::contains_after_push(kept, after.last(), other);
    assert(after.drop_last() =~= kept);
    let fresh = |c: Cached| c.expires_ms > now_ms;
    if room.contains(other) && e.len() >= cap {
        let i = room.index_of(other);
        if fresh_only(e, now_ms).len() < cap {
            filtered_from(e, fresh, i);
        }
    }
}

/// What is not fresh any more makes room: where a full cache has entries that
/// are not, those go and the fresh ones of other queries stay. A cache that may
/// hold nothing stays as it is.
pub proof fn stale_answers_make_room(
    e: Seq<Cached>,
    query: Seq<u8>,
    response: Seq<u8>,
    cap: usize,
    now_ms: u64,
    i: int,
)
    requires
        0 <= i < e.len(),
        e[i].query != query,
    ensures
        cap == 0 ==> after_put(e, query, response, cap, now_ms) == e,
        cap > 0 && e.len() >= cap && fresh_only(e, now_ms).len() < cap ==> (after_put(
            e,
            query,
            response,
            cap,
            now_ms,
        ).contains(e[i]) <==> e[i].expires_ms > now_ms),
        cap > 0 && e.len() >= cap && fresh_only(e, now_ms).len() >= cap ==> after_put(
            e,
            query,
            response,
            cap,
            now_ms,
        ).len() == 1,
{
    let fresh = |c: Cached| c.expires_ms > now_ms;
    let f = e.filter(fresh);
    broadcast use vstd::seq_lib::group_filter_ensures;

    forgetting_a_query(f, query, e[i]);
    if cap > 0 {
        let after = after_put(e, query, response, cap, now_ms);
        let room = room_made(e, cap, now_ms);
        crate::seqs::contains_after_push(without_query(room, query), after.last(), e[i]);
        assert(after.drop_last() =~= without_query(room, query));
        if e[i].expires_ms > now_ms {
            assert(fresh(e[i]));
        }
        if f.contains(e[i]) {
            assert(fresh(f[f.index_of(e[i])]));
        }
        if e.len() >= cap && f.len() >= cap {
            reveal(Seq::filter);
            assert(without_query(room, query).len() == 0);
        }
    }
}

/// An entry is served for its own query only, and only before it expires.
pub proof fn entries_serve_their_own_query(c: Cached, query: Seq<u8>, now_ms: u64)
    ensures
        serves(c, query, now_ms) <==> c.query == query && now_ms < c.expires_ms,
{
}

/// The upstreams are asked in a circle that begins at the one whose turn it is.
pub proof fn upstreams_take_turns(v: Seq<SocketAddr>, n: int, i: int)
    requires
        0 <= n < v.len(),
        0 <= i < v.len(),
    ensures
        rotated(v, n).len() == v.len(),
        n + i < v.len() ==> rotated(v, n)[i] == v[n + i],
        n + i >= v.len() ==> rotated(v, n)[i] == v[n + i - v.len()],
{
}

/// Without an upstream there is still one to ask; otherwise those that are
/// configured are asked.
pub proof fn there_is_always_an_upstream(configured: Seq<SocketAddr>)
    ensures
        effective_upstreams(configured).len() > 0,
        configured.len() > 0 ==> effective_upstreams(configured) == configured,
        configured.len() == 0 ==> effective_upstreams(configured) == seq![
            SocketAddr { ip: IpAddr::V4(0x01010101), port: 53 },
        ],
{
}

/// Two configurations are the same where nothing about them differs.
pub proof fn same_means_the_same_throughout(a: DnsForwarderConfig, b: DnsForwarderConfig)
    requires
        same_config(a, b),
    ensures
        a.listen == b.listen,
        a.upstreams@ == b.upstreams@,
        a.doh == b.doh,
        a.dot == b.dot,
        a.cache_size == b.cache_size,
        a.log_queries == b.log_queries,
        a.socks5_proxy == b.socks5_proxy,
        crate::text::strings(a.blocklist@) == crate::text::strings(b.blocklist@),
        crate::text::strings(a.allowlist@) == crate::text::strings(b.allowlist@),
{
}

/// A query is treated as the domain it asks for is; one that asks for none
/// passes.
pub proof fn queries_are_treated_as_their_domain(filter: &DnsFilterSets, query: Seq<u8>)
    ensures
        crate::dns_plane::asked_name(query) is None ==> filter.decides_query(query) == DomainDecision::Pass,
        crate::dns_plane::asked_name(query) matches Some(domain) ==> filter.decides_query(query) == decision(
            list_key(domain),
            crate::text::strings(filter.block@),
            crate::text::strings(filter.allow@),
        ),
{
}

} // verus!
