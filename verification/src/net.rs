//! Network addresses as plain numbers, and their canonical text.
use vstd::prelude::*;
use vstd::string::*;

use crate::text::{decimal_of, hexadecimal_of};

verus! {

/// An IP address: the 32 or 128 bits of its octets in network order.
#[derive(Clone, Copy, Debug, PartialEq, Eq, Structural)]
pub enum IpAddr {
    V4(u32),
    V6(u128),
}

/// An IP address and a port.
#[derive(Clone, Copy, Debug, PartialEq, Eq, Structural)]
pub struct SocketAddr {
    pub ip: IpAddr,
    pub port: u16,
}

/// The number that bytes in network order stand for.
pub open spec fn be_value(s: Seq<u8>) -> nat
    decreases s.len(),
{
    if s.len() == 0 {
        0
    } else {
        be_value(s.drop_last()) * 256 + s.last() as nat
    }
}

/// 256 to the power of `n`.
pub open spec fn pow256(n: nat) -> nat
    decreases n,
{
    if n == 0 { 1 } else { 256 * pow256((n - 1) as nat) }
}

/// A number of `n` bytes is less than 256 to the power of `n`.
pub proof fn be_value_bound(s: Seq<u8>)
    ensures
        be_value(s) < pow256(s.len()),
    decreases s.len(),
{
    if s.len() > 0 {
        be_value_bound(s.drop_last());
        let v = be_value(s.drop_last());
        let p = pow256((s.len() - 1) as nat);
        assert(v * 256 + 255 < 256 * p) by (nonlinear_arith)
            requires
                v + 1 <= p,
        ;
    }
}

proof fn pow256_grows(a: nat, b: nat)
    requires
        a <= b,
    ensures
        pow256(a) <= pow256(b),
        1 <= pow256(a),
    decreases b,
{
    if a < b {
        pow256_grows(a, (b - 1) as nat);
    } else if a > 0 {
        pow256_grows((a - 1) as nat, (b - 1) as nat);
    }
}

/// Reads up to sixteen bytes in network order.
pub fn be_number(s: &[u8]) -> (r: u128)
    requires
        s.len() <= 16,
    ensures
        r == be_value(s@),
{
    let mut value: u128 = 0;
    let mut i: usize = 0;
    while i < s.len()
        invariant
            i <= s.len() <= 16,
            value == be_value(s@.take(i as int)),
        decreases s.len() - i,
    {
        proof {
            let t = s@.take(i as int + 1);
            assert(t.drop_last() =~= s@.take(i as int));
            be_value_bound(t);
            pow256_grows(t.len(), 16);
            assert(pow256(16) == 0x1_0000_0000_0000_0000_0000_0000_0000_0000nat) by {
                reveal_with_fuel(pow256, 17);
            }
        }
        value = value * 256 + s[i] as u128;
        i += 1;
    }
    assert(s@.take(i as int) =~= s@);
    value
}

/// The address with these four octets.
pub open spec fn v4_of(a: u8, b: u8, c: u8, d: u8) -> IpAddr {
    IpAddr::V4((a * 0x100_0000 + b * 0x1_0000 + c * 0x100 + d) as u32)
}

/// The address with these four octets.
pub fn ipv4(a: u8, b: u8, c: u8, d: u8) -> (r: IpAddr)
    ensures
        r == v4_of(a, b, c, d),
{
    IpAddr::V4(a as u32 * 0x100_0000 + b as u32 * 0x1_0000 + c as u32 * 0x100 + d as u32)
}

/// The dotted text of an IPv4 address.
pub open spec fn v4_text(bits: u32) -> Seq<char> {
    crate::text::decimal((bits / 0x100_0000) as nat) + "."@ + crate::text::decimal(((bits / 0x1_0000) % 256) as nat)
        + "."@ + crate::text::decimal(((bits / 0x100) % 256) as nat) + "."@ + crate::text::decimal((bits % 256) as nat)
}

/// The `i`-th sixteen-bit group of an IPv6 address.
pub open spec fn group(bits: u128, i: int) -> u16 {
    ((bits >> ((112 - 16 * i) as u32)) & 0xffffu128) as u16
}

/// The eight groups of an IPv6 address.
pub open spec fn groups(bits: u128) -> Seq<u16> {
    Seq::new(8, |i: int| group(bits, i))
}

/// The number of zero groups in a row from place `i` on.
pub open spec fn zeros_from(g: Seq<u16>, i: int) -> nat
    decreases g.len() - i,
{
    if i < 0 || i >= g.len() || g[i] != 0 { 0 } else { 1 + zeros_from(g, i + 1) }
}

/// The first longest run of zero groups that starts before place `n`, as its
/// start and its length.
pub open spec fn longest_zeros(g: Seq<u16>, n: int) -> (int, nat)
    decreases n,
{
    if n <= 0 {
        (0, 0)
    } else {
        let best = longest_zeros(g, n - 1);
        if zeros_from(g, n - 1) > best.1 { (n - 1, zeros_from(g, n - 1)) } else { best }
    }
}

/// Groups in hexadecimal with colons between them.
pub open spec fn colon_hex(g: Seq<u16>) -> Seq<char>
    decreases g.len(),
{
    if g.len() == 0 {
        Seq::empty()
    } else if g.len() == 1 {
        crate::text::hexadecimal(g[0] as nat)
    } else {
        colon_hex(g.drop_last()) + ":"@ + crate::text::hexadecimal(g.last() as nat)
    }
}

/// The canonical text of an IPv6 address: lower-case groups, the first longest
/// run of two or more zero groups written as two colons, and the last 32 bits
/// of an IPv4-mapped address dotted.
pub open spec fn v6_text(bits: u128) -> Seq<char> {
    if bits / 0x1_0000_0000 == 0xffff {
        "::ffff:"@ + v4_text((bits % 0x1_0000_0000) as u32)
    } else {
        let g = groups(bits);
        let run = longest_zeros(g, 8);
        if run.1 > 1 {
            colon_hex(g.take(run.0)) + "::"@ + colon_hex(g.skip(run.0 + run.1))
        } else {
            colon_hex(g)
        }
    }
}

/// The canonical text of an address.
pub open spec fn ip_text(ip: IpAddr) -> Seq<char> {
    match ip {
        IpAddr::V4(bits) => v4_text(bits),
        IpAddr::V6(bits) => v6_text(bits),
    }
}

fn v4_string(bits: u32) -> (r: String)
    ensures
        r@ == v4_text(bits),
{
    let mut s = decimal_of((bits / 0x100_0000) as u64);
    s.append(".");
    s.append(decimal_of(((bits / 0x1_0000) % 256) as u64).as_str());
    s.append(".");
    s.append(decimal_of(((bits / 0x100) % 256) as u64).as_str());
    s.append(".");
    s.append(decimal_of((bits % 256) as u64).as_str());
    s
}

fn zero_run(g: &Vec<u16>, from: usize) -> (r: usize)
    requires
        g.len() == 8,
        from <= 8,
    ensures
        r == zeros_from(g@, from as int),
        from + r <= 8,
{
    let mut i: usize = from;
    while i < g.len() && g[i] == 0
        invariant
            from <= i <= g.len(),
            g.len() == 8,
            zeros_from(g@, from as int) == (i - from) + zeros_from(g@, i as int),
        decreases g.len() - i,
    {
        i += 1;
    }
    i - from
}

fn colon_hex_string(g: &[u16]) -> (r: String)
    ensures
        r@ == colon_hex(g@),
{
    let mut s = String::new();
    let mut i: usize = 0;
    while i < g.len()
        invariant
            i <= g.len(),
            s@ == colon_hex(g@.take(i as int)),
        decreases g.len() - i,
    {
        if i > 0 {
            s.append(":");
        }
        s.append(hexadecimal_of(g[i] as u64).as_str());
        proof {
            let t = g@.take(i as int + 1);
            assert(t.drop_last() =~= g@.take(i as int));
            if i == 0 {
                assert(colon_hex(g@.take(0)) =~= Seq::<char>::empty());
                assert(Seq::<char>::empty() + crate::text::hexadecimal(t[0] as nat) =~= crate::text::hexadecimal(t[0] as nat));
            }
        }
        i += 1;
    }
    assert(g@.take(i as int) =~= g@);
    s
}

fn v6_string(bits: u128) -> (r: String)
    ensures
        r@ == v6_text(bits),
{
    if bits / 0x1_0000_0000 == 0xffff {
        let mut s = String::new();
        s.append("::ffff:");
        s.append(v4_string((bits % 0x1_0000_0000) as u32).as_str());
        assert(Seq::<char>::empty() + "::ffff:"@ =~= "::ffff:"@);
        return s;
    }
    let mut g: Vec<u16> = Vec::new();
    let mut i: u32 = 0;
    while i < 8
        invariant
            i <= 8,
            g@ == groups(bits).take(i as int),
        decreases 8 - i,
    {
        let shift: u32 = 112 - 16 * i;
        g.push(((bits >> shift) & 0xffffu128) as u16);
        i += 1;
        assert(g@ =~= groups(bits).take(i as int));
    }
    assert(g@ =~= groups(bits));
    let mut start: usize = 0;
    let mut len: usize = 0;
    let mut n: usize = 0;
    while n < 8
        invariant
            n <= 8,
            g.len() == 8,
            start + len <= 8,
            longest_zeros(g@, n as int) == (start as int, len as nat),
        decreases 8 - n,
    {
        let z = zero_run(&g, n);
        if z > len {
            start = n;
            len = z;
        }
        n += 1;
    }
    if len > 1 {
        let mut s = colon_hex_string(vstd::slice::slice_subrange(&g, 0, start));
        assert(g@.subrange(0, start as int) =~= g@.take(start as int));
        assert(g@.subrange(start + len, 8) =~= g@.skip(start + len));
        s.append("::");
        s.append(colon_hex_string(vstd::slice::slice_subrange(&g, start + len, 8)).as_str());
        s
    } else {
        colon_hex_string(&g)
    }
}

impl IpAddr {
    /// The canonical text of the address.
    pub fn to_text(&self) -> (r: String)
        ensures
            r@ == ip_text(*self),
    {
        match *self {
            IpAddr::V4(bits) => v4_string(bits),
            IpAddr::V6(bits) => v6_string(bits),
        }
    }

    pub fn is_ipv6(&self) -> (r: bool)
        ensures
            r == (*self is V6),
    {
        match *self {
            IpAddr::V4(_) => false,
            IpAddr::V6(_) => true,
        }
    }
}

/// The same list of addresses, owned separately.
pub fn clone_ips(v: &Vec<IpAddr>) -> (r: Vec<IpAddr>)
    ensures
        r@ == v@,
{
    let mut out: Vec<IpAddr> = Vec::new();
    let mut i: usize = 0;
    while i < v.len()
        invariant
            i <= v.len(),
            out@ == v@.take(i as int),
        decreases v.len() - i,
    {
        out.push(v[i]);
        assert(v@.take(i as int).push(v@[i as int]) =~= v@.take(i as int + 1));
        i += 1;
    }
    assert(v@.take(i as int) =~= v@);
    out
}

/// An IPv4 address is written as its four bytes in decimal, the highest first,
/// with dots between them.
pub proof fn ipv4_is_written_byte_by_byte(a: u8, b: u8, c: u8, d: u8)
    ensures
        v4_of(a, b, c, d) == IpAddr::V4((a * 16777216 + b * 65536 + c * 256 + d) as u32),
        ip_text(v4_of(a, b, c, d)) == crate::text::decimal(a as nat) + "."@ + crate::text::decimal(b as nat) + "."@
            + crate::text::decimal(c as nat) + "."@ + crate::text::decimal(d as nat),
{
    let n = a * 16777216 + b * 65536 + c * 256 + d;
    assert(0 <= n <= u32::MAX);
    let bits = n as u32;
    assert(bits / 0x100_0000 == a);
    assert(bits / 0x1_0000 == a * 256 + b);
    assert((a * 256 + b) % 256 == b);
    assert(bits / 0x100 == a * 65536 + b * 256 + c);
    assert((a * 65536 + b * 256 + c) % 256 == c);
    assert(bits % 256 == d);
}

/// An IPv6 address has eight groups of sixteen bits, the highest first.
pub proof fn ipv6_has_eight_groups(bits: u128)
    ensures
        groups(bits).len() == 8,
        groups(bits)[0] == (bits / 0x1_0000_0000_0000_0000_0000_0000_0000) % 65536,
        groups(bits)[1] == (bits / 0x1_0000_0000_0000_0000_0000_0000) % 65536,
        groups(bits)[2] == (bits / 0x1_0000_0000_0000_0000_0000) % 65536,
        groups(bits)[3] == (bits / 0x1_0000_0000_0000_0000) % 65536,
        groups(bits)[4] == (bits / 0x1_0000_0000_0000) % 65536,
        groups(bits)[5] == (bits / 0x1_0000_0000) % 65536,
        groups(bits)[6] == (bits / 0x1_0000) % 65536,
        groups(bits)[7] == bits % 65536,
{
    assert((bits >> 112u32) & 0xffff == (bits / 0x1_0000_0000_0000_0000_0000_0000_0000) % 65536) by (bit_vector);
    assert((bits >> 96u32) & 0xffff == (bits / 0x1_0000_0000_0000_0000_0000_0000) % 65536) by (bit_vector);
    assert((bits >> 80u32) & 0xffff == (bits / 0x1_0000_0000_0000_0000_0000) % 65536) by (bit_vector);
    assert((bits >> 64u32) & 0xffff == (bits / 0x1_0000_0000_0000_0000) % 65536) by (bit_vector);
    assert((bits >> 48u32) & 0xffff == (bits / 0x1_0000_0000_0000) % 65536) by (bit_vector);
    assert((bits >> 32u32) & 0xffff == (bits / 0x1_0000_0000) % 65536) by (bit_vector);
    assert((bits >> 16u32) & 0xffff == (bits / 0x1_0000) % 65536) by (bit_vector);
    assert((bits >> 0u32) & 0xffff == bits % 65536) by (bit_vector);
}

/// A run of zeros counts every zero up to the next group that is none, or the
/// end.
pub proof fn runs_end_at_the_next_group(g: Seq<u16>, i: int)
    requires
        0 <= i <= g.len(),
    ensures
        i + zeros_from(g, i) <= g.len(),
        forall|k: int| i <= k < i + zeros_from(g, i) ==> #[trigger] g[k] == 0,
        i + zeros_from(g, i) < g.len() ==> g[i + zeros_from(g, i)] != 0,
    decreases g.len() - i,
{
    if i < g.len() && g[i] == 0 {
        runs_end_at_the_next_group(g, i + 1);
    }
}

/// The longest run of zeros is taken, and the first of several that are equally
/// long.
pub proof fn the_first_longest_run_is_taken(g: Seq<u16>, n: int)
    requires
        0 <= n <= g.len(),
    ensures
        forall|k: int| 0 <= k < n ==> #[trigger] zeros_from(g, k) <= longest_zeros(g, n).1,
        longest_zeros(g, n).1 > 0 ==> 0 <= longest_zeros(g, n).0 < n && zeros_from(g, longest_zeros(g, n).0)
            == longest_zeros(g, n).1,
        forall|k: int| 0 <= k < longest_zeros(g, n).0 ==> #[trigger] zeros_from(g, k) < longest_zeros(g, n).1,
    decreases n,
{
    if n > 0 {
        the_first_longest_run_is_taken(g, n - 1);
    }
}

/// Groups are written in hexadecimal with colons between them.
pub proof fn groups_are_written_one_by_one(g: Seq<u16>, x: u16)
    ensures
        g.len() == 0 ==> colon_hex(g).len() == 0,
        colon_hex(seq![x]) == crate::text::hexadecimal(x as nat),
        g.len() > 0 ==> colon_hex(g.push(x)) == colon_hex(g) + ":"@ + crate::text::hexadecimal(x as nat),
{
    assert(g.push(x).drop_last() =~= g);
}

/// The longest run of two zeros or more is left out between two colons; an
/// address that stands for an IPv4 address is written with it.
pub proof fn ipv6_is_written_short(bits: u128)
    ensures
        ({
            let g = groups(bits);
            let run = longest_zeros(g, 8);
            let mapped = bits / 0x1_0000_0000 == 0xffff;
            &&& mapped ==> ip_text(IpAddr::V6(bits)) == "::ffff:"@ + ip_text(
                IpAddr::V4((bits % 0x1_0000_0000) as u32),
            )
            &&& !mapped && run.1 >= 2 ==> ip_text(IpAddr::V6(bits)) == colon_hex(g.take(run.0)) + "::"@ + colon_hex(
                g.skip(run.0 + run.1),
            )
            &&& !mapped && run.1 < 2 ==> ip_text(IpAddr::V6(bits)) == colon_hex(g)
        }),
{
}

/// Bytes in network order say a number, the first byte the highest.
pub proof fn network_order_puts_the_highest_first(s: Seq<u8>, x: u8)
    ensures
        be_value(Seq::<u8>::empty()) == 0,
        be_value(s.push(x)) == 256 * be_value(s) + x,
{
    assert(s.push(x).drop_last() =~= s);
}

} // verus!
