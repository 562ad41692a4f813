//! What the TCP tables of the host and the DNS plane show of a flow.
//!
//! Only signals of the host stack are used: the state of connections, and
//! whether a domain resolves. No payload is looked at.
use vstd::prelude::*;
use vstd::slice::slice_subrange;

use crate::b4_engine::observe::{B4Observation, B4Observer};
use crate::net::IpAddr;
use crate::reconciliation::dns_flow::DnsRegistry;
use crate::text::{chars_of, find_char, lines, parse_hex, parse_unsigned, same_chars, same_text, words};

verus! {

/// A 32-bit number with its bytes in reverse order.
pub open spec fn swapped(v: nat) -> nat {
    (v % 256) * 0x100_0000 + ((v / 0x100) % 256) * 0x1_0000 + ((v / 0x1_0000) % 256) * 0x100 + (v / 0x100_0000) % 256
}

fn swap(v: u32) -> (r: u32)
    ensures
        r == swapped(v as nat),
{
    (v % 256) * 0x100_0000 + ((v / 0x100) % 256) * 0x1_0000 + ((v / 0x1_0000) % 256) * 0x100 + (v / 0x100_0000) % 256
}

/// The number that eight hexadecimal digits in a table stand for, with the
/// bytes in the order of an address.
pub open spec fn group_value(s: Seq<char>) -> Option<nat> {
    match crate::text::parsed_hex(s, u32::MAX as nat) {
        Some(v) => Some(swapped(v)),
        None => None,
    }
}

/// The remote address in a field `HEXIP:HEXPORT` of a TCP table. An IPv4 address
/// is eight digits, little-endian. An IPv6 address is four groups of eight
/// digits, each little-endian, the last group first.
pub open spec fn remote_ip(field: Seq<char>, ipv6: bool) -> Option<IpAddr> {
    let hex = field.take(crate::text::index_of(field, ':') as int);
    if ipv6 {
        if hex.len() != 32 {
            None
        } else {
            match (
                group_value(hex.subrange(0, 8)),
                group_value(hex.subrange(8, 16)),
                group_value(hex.subrange(16, 24)),
                group_value(hex.subrange(24, 32)),
            ) {
                (Some(a), Some(b), Some(c), Some(d)) => Some(
                    IpAddr::V6(
                        (d * 0x1_0000_0000_0000_0000_0000_0000 + c * 0x1_0000_0000_0000_0000 + b * 0x1_0000_0000
                            + a) as u128,
                    ),
                ),
                _ => None,
            }
        }
    } else if hex.len() != 8 {
        None
    } else {
        match group_value(hex) {
            Some(a) => Some(IpAddr::V4(a as u32)),
            None => None,
        }
    }
}

fn read_group(s: &[char]) -> (r: Option<u32>)
    ensures
        r matches Some(v) ==> group_value(s@) == Some(v as nat),
        r is None ==> group_value(s@) is None,
{
    match parse_hex(s, u32::MAX as u64) {
        Some(v) => Some(swap(v as u32)),
        None => None,
    }
}

/// The remote address in a field of a TCP table.
pub fn remote_ip_str(field: &str, ipv6: bool) -> (r: Option<IpAddr>)
    ensures
        r == remote_ip(field@, ipv6),
{
    remote_ip_chars(&chars_of(field), ipv6)
}

fn remote_ip_chars(field: &[char], ipv6: bool) -> (r: Option<IpAddr>)
    ensures
        r == remote_ip(field@, ipv6),
{
    let end = find_char(field, ':');
    let hex = slice_subrange(field, 0, end);
    assert(hex@ =~= field@.take(end as int));
    if ipv6 {
        if hex.len() != 32 {
            return None;
        }
        let a = match read_group(slice_subrange(hex, 0, 8)) {
            Some(v) => v,
            None => {
                return None;
            },
        };
        let b = match read_group(slice_subrange(hex, 8, 16)) {
            Some(v) => v,
            None => {
                return None;
            },
        };
        let c = match read_group(slice_subrange(hex, 16, 24)) {
            Some(v) => v,
            None => {
                return None;
            },
        };
        let d = match read_group(slice_subrange(hex, 24, 32)) {
            Some(v) => v,
            None => {
                return None;
            },
        };
        Some(
            IpAddr::V6(
                d as u128 * 0x1_0000_0000_0000_0000_0000_0000 + c as u128 * 0x1_0000_0000_0000_0000 + b as u128
                    * 0x1_0000_0000 + a as u128,
            ),
        )
    } else {
        if hex.len() != 8 {
            return None;
        }
        match read_group(hex) {
            Some(a) => Some(IpAddr::V4(a)),
            None => None,
        }
    }
}

/// Whether a connection to an address belongs to a flow: by the addresses of
/// its domain where they are known, else by the text of the address.
pub open spec fn belongs(ip: IpAddr, flow_key: Seq<char>, resolved: Option<Seq<IpAddr>>) -> bool {
    match resolved {
        Some(ips) => ips.contains(ip),
        None => crate::net::ip_text(ip) == flow_key,
    }
}

/// A text without the colons at its end.
pub open spec fn without_colons(s: Seq<char>) -> Seq<char>
    decreases s.len(),
{
    if s.len() > 0 && s.last() == ':' { without_colons(s.drop_last()) } else { s }
}

/// What the connections of a flow show: the most retransmissions, and whether
/// one was closed hard.
pub struct Seen {
    pub retransmissions: Option<u32>,
    pub reset: Option<bool>,
}

/// What is known after one more line of a table.
pub open spec fn seen_line(
    seen: Seen,
    line: Seq<char>,
    ipv6: bool,
    flow_key: Seq<char>,
    resolved: Option<Seq<IpAddr>>,
) -> Seen {
    let fields = crate::text::words_of(line);
    if fields.len() < 4 {
        seen
    } else {
        match remote_ip(fields[2], ipv6) {
            Some(ip) if belongs(ip, flow_key, resolved) => Seen {
                reset: if fields[3] == "04"@ || fields[3] == "05"@ { Some(true) } else { seen.reset },
                retransmissions: if fields.len() > 6 {
                    match crate::text::parsed(without_colons(fields[6]), u32::MAX as nat) {
                        Some(n) => Some(
                            match seen.retransmissions {
                                Some(m) if m >= n => m,
                                _ => n as u32,
                            },
                        ),
                        None => seen.retransmissions,
                    }
                } else {
                    seen.retransmissions
                },
            },
            _ => seen,
        }
    }
}

/// What is known after some lines of a table, in order.
pub open spec fn seen_lines(
    seen: Seen,
    rows: Seq<Seq<char>>,
    ipv6: bool,
    flow_key: Seq<char>,
    resolved: Option<Seq<IpAddr>>,
) -> Seen
    decreases rows.len(),
{
    if rows.len() == 0 {
        seen
    } else {
        seen_line(seen_lines(seen, rows.drop_last(), ipv6, flow_key, resolved), rows.last(), ipv6, flow_key, resolved)
    }
}

/// The lines of a table below its header.
pub open spec fn rows_of(table: Seq<char>) -> Seq<Seq<char>> {
    let all = crate::text::lines_of(table);
    if all.len() == 0 { all } else { all.skip(1) }
}

/// What both tables show of a flow.
pub open spec fn seen_tables(
    tcp: Seq<char>,
    tcp6: Seq<char>,
    flow_key: Seq<char>,
    resolved: Option<Seq<IpAddr>>,
) -> Seen {
    let none = Seen { retransmissions: None, reset: None };
    seen_lines(seen_lines(none, rows_of(tcp), false, flow_key, resolved), rows_of(tcp6), true, flow_key, resolved)
}

/// What both tables show of a flow, as an observation.
pub open spec fn host_observation(
    tcp: Seq<char>,
    tcp6: Seq<char>,
    flow_key: Seq<char>,
    resolved: Option<Seq<IpAddr>>,
) -> B4Observation {
    let seen = seen_tables(tcp, tcp6, flow_key, resolved);
    B4Observation {
        retransmissions: seen.retransmissions,
        reset_or_timeout: seen.reset,
        ..B4Observation::nothing()
    }
}

pub open spec fn addresses(resolved: Option<Vec<IpAddr>>) -> Option<Seq<IpAddr>> {
    match resolved {
        Some(v) => Some(v@),
        None => None,
    }
}

fn matches_key(ip: IpAddr, flow_key: &str, resolved: &Option<Vec<IpAddr>>) -> (r: bool)
    ensures
        r == belongs(ip, flow_key@, addresses(*resolved)),
{
    match resolved {
        Some(ips) => {
            let mut i: usize = 0;
            while i < ips.len()
                invariant
                    i <= ips@.len(),
                    addresses(*resolved) == Some(ips@),
                    forall|k: int| 0 <= k < i ==> ips@[k] != ip,
                decreases ips.len() - i,
            {
                if ips[i] == ip {
                    return true;
                }
                i += 1;
            }
            false
        },
        None => same_text(ip.to_text().as_str(), flow_key),
    }
}

fn trim_colons(s: &[char]) -> (r: &[char])
    ensures
        r@ == without_colons(s@),
{
    let mut end = s.len();
    assert(s@.take(end as int) =~= s@);
    while end > 0 && s[end - 1] == ':'
        invariant
            end <= s@.len(),
            without_colons(s@) == without_colons(s@.take(end as int)),
        decreases end,
    {
        assert(s@.take(end as int).drop_last() =~= s@.take(end as int - 1));
        end -= 1;
    }
    let r = slice_subrange(s, 0, end);
    assert(r@ =~= s@.take(end as int));
    r
}

fn is_word(s: &[char], w: &str) -> (r: bool)
    ensures
        r == (s@ == w@),
{
    same_chars(s, &chars_of(w))
}

fn read_table(
    seen: (Option<u32>, Option<bool>),
    table: &str,
    ipv6: bool,
    flow_key: &str,
    resolved: &Option<Vec<IpAddr>>,
) -> (r: (Option<u32>, Option<bool>))
    ensures
        (Seen { retransmissions: r.0, reset: r.1 }) == seen_lines(
            Seen { retransmissions: seen.0, reset: seen.1 },
            rows_of(table@),
            ipv6,
            flow_key@,
            addresses(*resolved),
        ),
{
    let rows = lines(&chars_of(table));
    let ghost all = rows_of(table@);
    let ghost start = Seen { retransmissions: seen.0, reset: seen.1 };
    let mut retransmissions: Option<u32> = seen.0;
    let mut reset: Option<bool> = seen.1;
    if rows.len() == 0 {
        return seen;
    }
    let mut i: usize = 1;
    assert(all.take(0) =~= Seq::<Seq<char>>::empty());
    while i < rows.len()
        invariant
            1 <= i <= rows@.len(),
            crate::text::texts(rows@) == crate::text::lines_of(table@),
            all == crate::text::texts(rows@).skip(1),
            (Seen { retransmissions, reset }) == seen_lines(
                start,
                all.take(i as int - 1),
                ipv6,
                flow_key@,
                addresses(*resolved),
            ),
        decreases rows.len() - i,
    {
        assert(all.take(i as int).drop_last() =~= all.take(i as int - 1));
        assert(all.take(i as int).last() == rows@[i as int]@);
        let fields = words(&rows[i]);
        let ghost f = crate::text::words_of(rows@[i as int]@);
        assert(crate::text::texts(fields@) == f);
        if fields.len() >= 4 {
            assert(fields@[2]@ == f[2]);
            assert(fields@[3]@ == f[3]);
            if let Some(ip) = remote_ip_chars(&fields[2], ipv6) {
                if matches_key(ip, flow_key, resolved) {
                    if is_word(&fields[3], "04") || is_word(&fields[3], "05") {
                        reset = Some(true);
                    }
                    if fields.len() > 6 {
                        assert(fields@[6]@ == f[6]);
                        if let Some(n) = parse_unsigned(trim_colons(&fields[6]), u32::MAX as u64) {
                            let most: u32 = match retransmissions {
                                Some(m) => if m as u64 >= n { m } else { n as u32 },
                                None => n as u32,
                            };
                            retransmissions = Some(most);
                        }
                    }
                }
            }
        }
        i += 1;
    }
    assert(all.take(i as int - 1) =~= all);
    (retransmissions, reset)
}

/// What the TCP tables of the host show of a flow.
pub fn host_stack_observe(
    flow_key: &str,
    resolved: &Option<Vec<IpAddr>>,
    tcp: &str,
    tcp6: &str,
) -> (r: B4Observation)
    ensures
        r == host_observation(tcp@, tcp6@, flow_key@, addresses(*resolved)),
{
    let first = read_table((None, None), tcp, false, flow_key, resolved);
    let both = read_table(first, tcp6, true, flow_key, resolved);
    let mut obs = B4Observation::default();
    obs.retransmissions = both.0;
    obs.reset_or_timeout = both.1;
    obs
}

/// Observes flows in the TCP tables of the host.
#[derive(Debug)]
pub struct HostStackObserver {
    /// The table of IPv4 connections, as it was last read.
    pub tcp: String,
    /// The table of IPv6 connections, as it was last read.
    pub tcp6: String,
}

impl B4Observer for HostStackObserver {
    fn observe(&mut self, flow_key: &str) -> (r: B4Observation)
        ensures
            r == host_observation(old(self).tcp@, old(self).tcp6@, flow_key@, None),
            *final(self) == *old(self),
    {
        host_stack_observe(flow_key, &None, self.tcp.as_str(), self.tcp6.as_str())
    }
}

/// Observes flows in the TCP tables of the host and in the DNS plane.
pub struct CompositeObserver {
    /// The DNS plane, where there is one.
    pub dns: Option<DnsRegistry>,
}

impl CompositeObserver {
    /// The DNS plane, where there is one.
    pub open spec fn registry(&self) -> Option<DnsRegistry> {
        self.dns
    }

    pub fn new(dns: Option<DnsRegistry>) -> (r: Self)
        ensures
            r.registry() == dns,
    {
        CompositeObserver { dns }
    }

    /// Observe a flow: its connections, and whether its domain resolves. Where
    /// there is no DNS plane, nothing is said of resolution.
    pub fn observe(&mut self, flow_key: &str, tcp: &str, tcp6: &str, now_ms: u64) -> (r: B4Observation)
        ensures
            r == match old(self).registry() {
                Some(registry) => (B4Observation {
                    dns_ok: Some(registry.known(flow_key@, now_ms) is Some),
                    ..host_observation(tcp@, tcp6@, flow_key@, registry.known(flow_key@, now_ms))
                }),
                None => host_observation(tcp@, tcp6@, flow_key@, None),
            },
            final(self).dns is Some == old(self).dns is Some,
            old(self).dns is Some ==> final(self).dns->0@ == (if old(self).dns->0.known(flow_key@, now_ms) is Some {
                old(self).dns->0@
            } else {
                old(self).dns->0@.remove(crate::text::ascii_lower(flow_key@))
            }),
    {
        match &mut self.dns {
            Some(registry) => {
                let resolved = registry.resolve(flow_key, now_ms);
                let mut obs = host_stack_observe(flow_key, &resolved, tcp, tcp6);
                obs.dns_ok = Some(resolved.is_some());
                obs
            },
            None => host_stack_observe(flow_key, &None, tcp, tcp6),
        }
    }
}

/// The kernel writes the four bytes of an address with the first one last.
pub proof fn the_first_byte_is_written_last(a: u8, b: u8, c: u8, d: u8)
    ensures
        swapped((a + b * 256 + c * 65536 + d * 16777216) as nat) == a * 16777216 + b * 65536 + c * 256 + d,
        swapped(swapped((a + b * 256 + c * 65536 + d * 16777216) as nat)) == a + b * 256 + c * 65536 + d * 16777216,
{
    turned_round(a as nat, b as nat, c as nat, d as nat);
    turned_round(d as nat, c as nat, b as nat, a as nat);
}

proof fn turned_round(a: nat, b: nat, c: nat, d: nat)
    requires
        a < 256 && b < 256 && c < 256 && d < 256,
    ensures
        swapped(a + b * 256 + c * 65536 + d * 16777216) == a * 16777216 + b * 65536 + c * 256 + d,
{
    let v = a + b * 256 + c * 65536 + d * 16777216;
    assert(v / 256 == b + c * 256 + d * 65536);
    assert(v % 256 == a);
    assert(v / 65536 == c + d * 256);
    assert(v / 16777216 == d);
    assert((b + c * 256 + d * 65536) % 256 == b);
    assert((c + d * 256) % 256 == c);
    assert(d % 256 == d);
}

/// The address of an entry stands before its colon: eight hexadecimal digits
/// for IPv4, four times eight for IPv6, the last eight the highest; anything
/// else is no address.
pub proof fn addresses_stand_before_the_colon(hex: Seq<char>, port: Seq<char>, ipv6: bool)
    requires
        !hex.contains(':'),
    ensures
        ({
            let field = hex.push(':') + port;
            let groups = Seq::new(4, |i: int| group_value(hex.subrange(8 * i, 8 * i + 8)));
            &&& !ipv6 && hex.len() != 8 ==> remote_ip(field, ipv6) is None
            &&& !ipv6 && hex.len() == 8 ==> (remote_ip(field, ipv6) is Some <==> group_value(hex) is Some)
            &&& !ipv6 && hex.len() == 8 && group_value(hex) is Some ==> remote_ip(field, ipv6) == Some(
                IpAddr::V4(group_value(hex)->0 as u32),
            )
            &&& ipv6 && hex.len() != 32 ==> remote_ip(field, ipv6) is None
            &&& ipv6 && hex.len() == 32 && (forall|i: int| 0 <= i < 4 ==> (#[trigger] groups[i]) is Some) ==> remote_ip(
                field,
                ipv6,
            ) == Some(
                IpAddr::V6(
                    (groups[3]->0 * 0x1_0000_0000_0000_0000_0000_0000 + groups[2]->0 * 0x1_0000_0000_0000_0000
                        + groups[1]->0 * 0x1_0000_0000 + groups[0]->0) as u128,
                ),
            )
        }),
{
    let field = hex.push(':') + port;
    crate::text::index_of_first(field, ':');
    let n = crate::text::index_of(field, ':') as int;
    assert(field[hex.len() as int] == ':');
    if n < hex.len() {
        assert(field[n] == hex[n]);
        assert(hex.contains(hex[n]));
    }
    assert(n == hex.len());
    assert(field.take(n) =~= hex);
    let groups = Seq::new(4, |i: int| group_value(hex.subrange(8 * i, 8 * i + 8)));
    assert(groups[0] == group_value(hex.subrange(0, 8)));
    assert(groups[1] == group_value(hex.subrange(8, 16)));
    assert(groups[2] == group_value(hex.subrange(16, 24)));
    assert(groups[3] == group_value(hex.subrange(24, 32)));
}

/// A group of digits says the number that they write, with its bytes turned
/// round.
pub proof fn groups_say_what_they_write(s: Seq<char>)
    ensures
        group_value(s) is Some <==> crate::text::parsed_hex(s, 0xffff_ffff) is Some,
        group_value(s) is Some ==> group_value(s)->0 == swapped(crate::text::parsed_hex(s, 0xffff_ffff)->0),
{
}

/// An address belongs to a flow where it is one of the addresses that the flow
/// resolves to, or, where nothing is known of it, where the flow is the address
/// as it is written.
pub proof fn which_addresses_belong_to_a_flow(ip: IpAddr, flow_key: Seq<char>, resolved: Option<Seq<IpAddr>>)
    ensures
        resolved matches Some(ips) ==> (belongs(ip, flow_key, resolved) <==> ips.contains(ip)),
        resolved is None ==> (belongs(ip, flow_key, resolved) <==> flow_key == crate::net::ip_text(ip)),
{
}

/// A row says something of a flow only where it has an address of the flow. A
/// connection that is closing after a reset or time-out is then remembered, and
/// the most retransmissions of any row are.
pub proof fn rows_of_a_flow_are_counted(
    seen: Seen,
    line: Seq<char>,
    ipv6: bool,
    flow_key: Seq<char>,
    resolved: Option<Seq<IpAddr>>,
)
    ensures
        ({
            let fields = crate::text::words_of(line);
            let after = seen_line(seen, line, ipv6, flow_key, resolved);
            let ours = fields.len() >= 4 && remote_ip(fields[2], ipv6) is Some && belongs(
                remote_ip(fields[2], ipv6)->0,
                flow_key,
                resolved,
            );
            let read = crate::text::parsed(without_colons(fields[6]), 0xffff_ffff);
            &&& !ours ==> after == seen
            &&& ours && (fields[3] == "04"@ || fields[3] == "05"@) ==> after.reset == Some(true)
            &&& ours && fields[3] != "04"@ && fields[3] != "05"@ ==> after.reset == seen.reset
            &&& ours && fields.len() > 6 && read is Some ==> after.retransmissions is Some
                && after.retransmissions->0 >= read->0 && (seen.retransmissions is Some ==> after.retransmissions->0
                >= seen.retransmissions->0) && (after.retransmissions->0 == read->0 || after.retransmissions
                == seen.retransmissions)
            &&& ours && (fields.len() <= 6 || read is None) ==> after.retransmissions == seen.retransmissions
        }),
{
}

/// Rows are read one after another.
pub proof fn rows_are_read_one_after_another(
    seen: Seen,
    first: Seq<Seq<char>>,
    second: Seq<Seq<char>>,
    ipv6: bool,
    flow_key: Seq<char>,
    resolved: Option<Seq<IpAddr>>,
)
    ensures
        seen_lines(seen, first + second, ipv6, flow_key, resolved) == seen_lines(
            seen_lines(seen, first, ipv6, flow_key, resolved),
            second,
            ipv6,
            flow_key,
            resolved,
        ),
        second.len() == 1 ==> seen_lines(seen, second, ipv6, flow_key, resolved) == seen_line(
            seen,
            second[0],
            ipv6,
            flow_key,
            resolved,
        ),
    decreases second.len(),
{
    if second.len() == 0 {
        assert(first + second =~= first);
    } else {
        rows_are_read_one_after_another(seen, first, second.drop_last(), ipv6, flow_key, resolved);
        assert((first + second).drop_last() =~= first + second.drop_last());
        assert((first + second).last() == second.last());
        if second.len() == 1 {
            assert(seen_lines(seen, second.drop_last(), ipv6, flow_key, resolved) == seen);
        }
    }
}

/// What the tables of connections say of a flow are its retransmissions and its
/// resets, IPv4 before IPv6, each table without its first line; they say nothing
/// else.
pub proof fn tables_say_two_things(
    tcp: Seq<char>,
    tcp6: Seq<char>,
    flow_key: Seq<char>,
    resolved: Option<Seq<IpAddr>>,
)
    ensures
        ({
            let o = host_observation(tcp, tcp6, flow_key, resolved);
            let nothing = Seen { retransmissions: None, reset: None };
            let four = if crate::text::lines_of(tcp).len() == 0 {
                nothing
            } else {
                seen_lines(nothing, crate::text::lines_of(tcp).skip(1), false, flow_key, resolved)
            };
            let both = if crate::text::lines_of(tcp6).len() == 0 {
                four
            } else {
                seen_lines(four, crate::text::lines_of(tcp6).skip(1), true, flow_key, resolved)
            };
            &&& o.retransmissions == both.retransmissions
            &&& o.reset_or_timeout == both.reset
            &&& o.connect_latency_us is None
            &&& o.rtt_us is None
            &&& o.rtt_var_us is None
            &&& o.throughput_bps is None
            &&& o.dns_ok is None
            &&& o.mtu_symptom is None
        }),
{
}

} // verus!
