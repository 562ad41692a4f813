//! Which packets a rule is about.
use vstd::prelude::*;

use crate::net::IpAddr;
use crate::policy::error::PolicyError;

verus! {

/// How deep matchers may be nested.
pub const MAX_MATCHER_DEPTH: usize = 16;

/// What is known of a packet.
#[derive(Debug, Clone, Copy, PartialEq, Eq, Structural)]
pub struct PacketContext {
    pub src_ip: IpAddr,
    pub dst_ip: IpAddr,
    pub src_port: u16,
    pub dst_port: u16,
    pub protocol: u8,
    pub domain_hash: Option<u32>,
    pub interface: Option<u32>,
}

/// Which packets a rule is about.
#[derive(Debug)]
pub enum Matcher {
    Any,
    Nothing,
    DomainSuffix { suffix: u32 },
    DomainExact { hash: u32 },
    IpRange { base: IpAddr, mask: u8 },
    Port { port: u16 },
    PortRange { start: u16, end: u16 },
    Protocol { proto: u8 },
    Interface { id: u32 },
    All(Vec<Matcher>),
    AnyOf(Vec<Matcher>),
    Not(Box<Matcher>),
}

/// Two to the power of `n`.
pub open spec fn two_to(n: nat) -> nat
    decreases n,
{
    if n == 0 { 1 } else { 2 * two_to((n - 1) as nat) }
}

/// Whether an address has the first `mask` bits of another of the same family.
pub open spec fn in_range(base: IpAddr, mask: u8, ip: IpAddr) -> bool {
    match (base, ip) {
        (IpAddr::V4(b), IpAddr::V4(a)) => if mask >= 32 {
            a == b
        } else {
            b as nat / two_to((32 - mask) as nat) == a as nat / two_to((32 - mask) as nat)
        },
        (IpAddr::V6(b), IpAddr::V6(a)) => if mask >= 128 {
            a == b
        } else {
            b as nat / two_to((128 - mask) as nat) == a as nat / two_to((128 - mask) as nat)
        },
        _ => false,
    }
}

/// Whether a matcher without others in it is about a packet.
pub open spec fn simple(m: Matcher, ctx: PacketContext) -> bool {
    match m {
        Matcher::Any => true,
        Matcher::DomainSuffix { suffix } => ctx.domain_hash == Some(suffix),
        Matcher::DomainExact { hash } => ctx.domain_hash == Some(hash),
        Matcher::IpRange { base, mask } => in_range(base, mask, ctx.dst_ip),
        Matcher::Port { port } => ctx.dst_port == port,
        Matcher::PortRange { start, end } => start <= ctx.dst_port <= end,
        Matcher::Protocol { proto } => ctx.protocol == proto,
        Matcher::Interface { id } => ctx.interface == Some(id),
        _ => false,
    }
}

/// Whether a matcher at some depth is about a packet. One that is nested too
/// deep is about none.
pub open spec fn holds(m: Matcher, ctx: PacketContext, depth: nat) -> bool
    decreases m,
{
    if depth > MAX_MATCHER_DEPTH {
        false
    } else {
        match m {
            Matcher::All(v) => all_hold(v@, ctx, depth + 1),
            Matcher::AnyOf(v) => any_holds(v@, ctx, depth + 1),
            Matcher::Not(inner) => !holds(*inner, ctx, depth + 1),
            _ => simple(m, ctx),
        }
    }
}

pub open spec fn all_hold(v: Seq<Matcher>, ctx: PacketContext, depth: nat) -> bool
    decreases v,
{
    if v.len() == 0 {
        true
    } else {
        holds(v[v.len() - 1], ctx, depth) && all_hold(v.subrange(0, v.len() - 1), ctx, depth)
    }
}

pub open spec fn any_holds(v: Seq<Matcher>, ctx: PacketContext, depth: nat) -> bool
    decreases v,
{
    if v.len() == 0 {
        false
    } else {
        holds(v[v.len() - 1], ctx, depth) || any_holds(v.subrange(0, v.len() - 1), ctx, depth)
    }
}

/// How deep a matcher is nested.
pub open spec fn depth_of(m: Matcher) -> nat
    decreases m,
{
    match m {
        Matcher::All(v) => 1 + deepest(v@),
        Matcher::AnyOf(v) => 1 + deepest(v@),
        Matcher::Not(inner) => 1 + depth_of(*inner),
        _ => 1,
    }
}

pub open spec fn deepest(v: Seq<Matcher>) -> nat
    decreases v,
{
    if v.len() == 0 {
        0
    } else {
        let front = deepest(v.subrange(0, v.len() - 1));
        let last = depth_of(v[v.len() - 1]);
        if last > front { last } else { front }
    }
}

fn power_of_two(n: u8) -> (r: u128)
    requires
        n < 128,
    ensures
        r == two_to(n as nat),
        r > 0,
{
    let mut p: u128 = 1;
    let mut i: u8 = 0;
    while i < n
        invariant
            i <= n,
            n < 128,
            p == two_to(i as nat),
            p > 0,
        decreases n - i,
    {
        proof {
            two_to_is_small(i as nat);
        }
        p = p * 2;
        i += 1;
    }
    p
}

proof fn two_to_is_small(n: nat)
    requires
        n < 127,
    ensures
        two_to(n) <= 0x4000_0000_0000_0000_0000_0000_0000_0000,
{
    two_to_grows(n, 126);
    large_powers();
}

proof fn two_to_adds(a: nat, b: nat)
    ensures
        two_to(a + b) == two_to(a) * two_to(b),
    decreases a,
{
    let x = two_to(b);
    if a > 0 {
        let y = two_to((a - 1) as nat);
        two_to_adds((a - 1) as nat, b);
        assert((a - 1) as nat + b == (a + b - 1) as nat);
        assert(two_to(a) == 2 * y);
        assert(two_to(a + b) == 2 * (y * x));
        assert(2 * (y * x) == (2 * y) * x) by (nonlinear_arith);
    } else {
        assert(1 * x == x) by (nonlinear_arith);
    }
}

proof fn large_powers()
    ensures
        two_to(32) == 0x1_0000_0000,
        two_to(126) == 0x4000_0000_0000_0000_0000_0000_0000_0000,
        two_to(128) == 0x1_0000_0000_0000_0000_0000_0000_0000_0000,
{
    assert(two_to(32) == 0x1_0000_0000) by {
        reveal_with_fuel(two_to, 33);
    }
    two_to_adds(32, 32);
    assert(two_to(64) == 0x1_0000_0000_0000_0000);
    two_to_adds(64, 64);
    assert(two_to(128) == 4 * two_to(126)) by {
        reveal_with_fuel(two_to, 3);
    }
}

proof fn two_to_grows(a: nat, b: nat)
    requires
        a <= b,
    ensures
        two_to(a) <= two_to(b),
    decreases b,
{
    if a < b {
        two_to_grows(a, (b - 1) as nat);
    }
}

/// Whether an address has the first `mask` bits of another of the same family.
pub fn ip_range_matches(base: IpAddr, mask: u8, dst: IpAddr) -> (r: bool)
    ensures
        r == in_range(base, mask, dst),
{
    match (base, dst) {
        (IpAddr::V4(b), IpAddr::V4(a)) => {
            if mask >= 32 {
                a == b
            } else {
                let p = power_of_two(32 - mask);
                b as u128 / p == a as u128 / p
            }
        },
        (IpAddr::V6(b), IpAddr::V6(a)) => {
            if mask >= 128 {
                a == b
            } else if mask == 0 {
                proof {
                    everything_below(b);
                    everything_below(a);
                }
                true
            } else {
                let p = power_of_two(128 - mask);
                b / p == a / p
            }
        },
        _ => false,
    }
}

proof fn everything_below(a: u128)
    ensures
        a as nat / two_to(128) == 0,
{
    large_powers();
    assert(a as nat / 0x1_0000_0000_0000_0000_0000_0000_0000_0000nat == 0);
}

impl Matcher {
    /// Whether the matcher is about a packet.
    pub fn matches(&self, ctx: &PacketContext) -> (r: bool)
        ensures
            r == holds(*self, *ctx, 0),
    {
        self.matches_inner(ctx, 0)
    }

    fn matches_inner(&self, ctx: &PacketContext, depth: usize) -> (r: bool)
        ensures
            r == holds(*self, *ctx, depth as nat),
        decreases *self,
    {
        if depth > MAX_MATCHER_DEPTH {
            return false;
        }
        match self {
            Matcher::Any => true,
            Matcher::Nothing => false,
            Matcher::DomainSuffix { suffix } => ctx.domain_hash == Some(*suffix),
            Matcher::DomainExact { hash } => ctx.domain_hash == Some(*hash),
            Matcher::IpRange { base, mask } => ip_range_matches(*base, *mask, ctx.dst_ip),
            Matcher::Port { port } => ctx.dst_port == *port,
            Matcher::PortRange { start, end } => ctx.dst_port >= *start && ctx.dst_port <= *end,
            Matcher::Protocol { proto } => ctx.protocol == *proto,
            Matcher::Interface { id } => ctx.interface == Some(*id),
            Matcher::All(v) => Matcher::all_match(v, ctx, depth + 1),
            Matcher::AnyOf(v) => Matcher::any_match(v, ctx, depth + 1),
            Matcher::Not(inner) => !inner.matches_inner(ctx, depth + 1),
        }
    }

    fn all_match(v: &Vec<Matcher>, ctx: &PacketContext, depth: usize) -> (r: bool)
        ensures
            r == all_hold(v@, *ctx, depth as nat),
        decreases v@,
    {
        let mut i: usize = 0;
        assert(v@.subrange(0, 0) =~= Seq::<Matcher>::empty());
        while i < v.len()
            invariant
                i <= v@.len(),
                all_hold(v@.subrange(0, i as int), *ctx, depth as nat),
            decreases v.len() - i,
        {
            let ghost part = v@.subrange(0, i as int + 1);
            assert(part.subrange(0, i as int) =~= v@.subrange(0, i as int));
            assert(part[i as int] == v@[i as int]);
            if !v[i].matches_inner(ctx, depth) {
                proof {
                    one_fails(v@, i as int, *ctx, depth as nat);
                }
                return false;
            }
            i += 1;
        }
        assert(v@.subrange(0, i as int) =~= v@);
        true
    }

    fn any_match(v: &Vec<Matcher>, ctx: &PacketContext, depth: usize) -> (r: bool)
        ensures
            r == any_holds(v@, *ctx, depth as nat),
        decreases v@,
    {
        let mut i: usize = 0;
        assert(v@.subrange(0, 0) =~= Seq::<Matcher>::empty());
        while i < v.len()
            invariant
                i <= v@.len(),
                !any_holds(v@.subrange(0, i as int), *ctx, depth as nat),
            decreases v.len() - i,
        {
            let ghost part = v@.subrange(0, i as int + 1);
            assert(part.subrange(0, i as int) =~= v@.subrange(0, i as int));
            assert(part[i as int] == v@[i as int]);
            if v[i].matches_inner(ctx, depth) {
                proof {
                    one_holds(v@, i as int, *ctx, depth as nat);
                }
                return true;
            }
            i += 1;
        }
        assert(v@.subrange(0, i as int) =~= v@);
        false
    }

    /// How deep the matcher is nested, as far as it can be counted.
    pub fn depth(&self) -> (r: usize)
        ensures
            r == if depth_of(*self) <= usize::MAX { depth_of(*self) } else { usize::MAX as nat },
        decreases *self,
    {
        match self {
            Matcher::All(v) | Matcher::AnyOf(v) => Matcher::deepest_of(v).saturating_add(1),
            Matcher::Not(inner) => inner.depth().saturating_add(1),
            _ => 1,
        }
    }

    fn deepest_of(v: &Vec<Matcher>) -> (r: usize)
        ensures
            r == if deepest(v@) <= usize::MAX { deepest(v@) } else { usize::MAX as nat },
        decreases v@,
    {
        let mut most: usize = 0;
        let mut i: usize = 0;
        assert(v@.subrange(0, 0) =~= Seq::<Matcher>::empty());
        while i < v.len()
            invariant
                i <= v@.len(),
                most == if deepest(v@.subrange(0, i as int)) <= usize::MAX {
                    deepest(v@.subrange(0, i as int))
                } else {
                    usize::MAX as nat
                },
            decreases v.len() - i,
        {
            let ghost part = v@.subrange(0, i as int + 1);
            assert(part.subrange(0, i as int) =~= v@.subrange(0, i as int));
            assert(part[i as int] == v@[i as int]);
            let d = v[i].depth();
            if d > most {
                most = d;
            }
            i += 1;
        }
        assert(v@.subrange(0, i as int) =~= v@);
        most
    }

    /// Whether the matcher is not nested too deep.
    pub fn validate(&self) -> (r: Result<(), PolicyError>)
        ensures
            r is Ok <==> depth_of(*self) <= MAX_MATCHER_DEPTH,
            r matches Err(e) ==> (e matches PolicyError::MatcherTooDeep { depth, max } && max == MAX_MATCHER_DEPTH
                && depth == if depth_of(*self) <= usize::MAX { depth_of(*self) } else { usize::MAX as nat }),
    {
        let depth = self.depth();
        if depth > MAX_MATCHER_DEPTH {
            Err(PolicyError::MatcherTooDeep { depth, max: MAX_MATCHER_DEPTH })
        } else {
            Ok(())
        }
    }
}

proof fn one_fails(v: Seq<Matcher>, i: int, ctx: PacketContext, depth: nat)
    requires
        0 <= i < v.len(),
        !holds(v[i], ctx, depth),
    ensures
        !all_hold(v, ctx, depth),
    decreases v.len(),
{
    if i < v.len() - 1 {
        one_fails(v.subrange(0, v.len() - 1), i, ctx, depth);
    }
}

proof fn one_holds(v: Seq<Matcher>, i: int, ctx: PacketContext, depth: nat)
    requires
        0 <= i < v.len(),
        holds(v[i], ctx, depth),
    ensures
        any_holds(v, ctx, depth),
    decreases v.len(),
{
    if i < v.len() - 1 {
        one_holds(v.subrange(0, v.len() - 1), i, ctx, depth);
    }
}

/// Whether a matcher is about a packet, however deep it is nested.
pub open spec fn meaning(m: Matcher, ctx: PacketContext) -> bool
    decreases m,
{
    match m {
        Matcher::All(v) => all_mean(v@, ctx),
        Matcher::AnyOf(v) => any_means(v@, ctx),
        Matcher::Not(inner) => !meaning(*inner, ctx),
        _ => simple(m, ctx),
    }
}

pub open spec fn all_mean(v: Seq<Matcher>, ctx: PacketContext) -> bool
    decreases v,
{
    if v.len() == 0 {
        true
    } else {
        meaning(v[v.len() - 1], ctx) && all_mean(v.subrange(0, v.len() - 1), ctx)
    }
}

pub open spec fn any_means(v: Seq<Matcher>, ctx: PacketContext) -> bool
    decreases v,
{
    if v.len() == 0 {
        false
    } else {
        meaning(v[v.len() - 1], ctx) || any_means(v.subrange(0, v.len() - 1), ctx)
    }
}

/// A matcher that is not nested too deep, counted from where it stands, means
/// what it says: the bound on nesting plays no part.
pub proof fn shallow_matchers_mean_what_they_say(m: Matcher, ctx: PacketContext, depth: nat)
    requires
        depth + depth_of(m) <= MAX_MATCHER_DEPTH + 1,
    ensures
        holds(m, ctx, depth) == meaning(m, ctx),
    decreases m,
{
    match m {
        Matcher::All(v) => {
            shallow_lists_mean_what_they_say(v@, ctx, depth + 1);
        },
        Matcher::AnyOf(v) => {
            shallow_lists_mean_what_they_say(v@, ctx, depth + 1);
        },
        Matcher::Not(inner) => {
            shallow_matchers_mean_what_they_say(*inner, ctx, depth + 1);
        },
        _ => {},
    }
}

proof fn shallow_lists_mean_what_they_say(v: Seq<Matcher>, ctx: PacketContext, depth: nat)
    requires
        depth + deepest(v) <= MAX_MATCHER_DEPTH + 1,
    ensures
        all_hold(v, ctx, depth) == all_mean(v, ctx),
        any_holds(v, ctx, depth) == any_means(v, ctx),
    decreases v,
{
    if v.len() > 0 {
        shallow_matchers_mean_what_they_say(v[v.len() - 1], ctx, depth);
        shallow_lists_mean_what_they_say(v.subrange(0, v.len() - 1), ctx, depth);
    }
}

/// A matcher that is valid means what it says.
pub proof fn valid_matchers_mean_what_they_say(m: Matcher, ctx: PacketContext)
    requires
        depth_of(m) <= MAX_MATCHER_DEPTH,
    ensures
        holds(m, ctx, 0) == meaning(m, ctx),
{
    shallow_matchers_mean_what_they_say(m, ctx, 0);
}

/// What is negated twice says the same, as long as the bound on nesting is not
/// reached.
pub proof fn double_negation_is_identity(m: Matcher, ctx: PacketContext)
    requires
        depth_of(m) + 2 <= MAX_MATCHER_DEPTH + 1,
    ensures
        holds(Matcher::Not(Box::new(Matcher::Not(Box::new(m)))), ctx, 0) == holds(m, ctx, 0),
{
    shallow_matchers_mean_what_they_say(m, ctx, 2);
    shallow_matchers_mean_what_they_say(m, ctx, 0);
    reveal_with_fuel(holds, 3);
}

/// `Any` is about every packet, and so is a list of which all have to hold and
/// that is empty. `Nothing` is about none, nor is an empty list of which one has
/// to hold. A port is matched exactly.
pub proof fn plain_matchers(all: Vec<Matcher>, port: u16, ctx: PacketContext)
    requires
        all@.len() == 0,
    ensures
        holds(Matcher::Any, ctx, 0),
        !holds(Matcher::Nothing, ctx, 0),
        holds(Matcher::All(all), ctx, 0),
        !holds(Matcher::AnyOf(all), ctx, 0),
        holds(Matcher::Port { port }, ctx, 0) == (ctx.dst_port == port),
{
    assert(all_hold(all@, ctx, 1));
    assert(!any_holds(all@, ctx, 1));
}

/// An address is in a range of its own, in no range of another family, and
/// without a prefix in every range of its own family.
pub proof fn ranges(ip: IpAddr, base: IpAddr, mask: u8)
    ensures
        in_range(ip, mask, ip),
        (ip is V4) != (base is V4) ==> !in_range(base, mask, ip),
        (ip is V4) == (base is V4) ==> in_range(base, 0, ip),
        in_range(base, mask, ip) == in_range(ip, mask, base),
{
    match (base, ip) {
        (IpAddr::V6(b), IpAddr::V6(a)) => {
            everything_below(a);
            everything_below(b);
        },
        (IpAddr::V4(b), IpAddr::V4(a)) => {
            large_powers();
            assert(a as nat / 0x1_0000_0000nat == 0);
            assert(b as nat / 0x1_0000_0000nat == 0);
        },
        _ => {},
    }
}

proof fn all_hold_means_each(v: Seq<Matcher>, ctx: PacketContext, depth: nat)
    ensures
        all_hold(v, ctx, depth) <==> forall|i: int| 0 <= i < v.len() ==> holds(#[trigger] v[i], ctx, depth),
        any_holds(v, ctx, depth) <==> exists|i: int| 0 <= i < v.len() && holds(#[trigger] v[i], ctx, depth),
    decreases v.len(),
{
    if v.len() > 0 {
        let front = v.subrange(0, v.len() - 1);
        all_hold_means_each(front, ctx, depth);
        assert forall|i: int| 0 <= i < front.len() implies #[trigger] front[i] == v[i] by {}
        if all_hold(v, ctx, depth) {
            assert forall|i: int| 0 <= i < v.len() implies holds(#[trigger] v[i], ctx, depth) by {
                if i < front.len() {
                    assert(holds(front[i], ctx, depth));
                }
            }
        }
        if forall|i: int| 0 <= i < v.len() ==> holds(#[trigger] v[i], ctx, depth) {
            assert forall|i: int| 0 <= i < front.len() implies holds(#[trigger] front[i], ctx, depth) by {
                assert(holds(v[i], ctx, depth));
            }
            assert(holds(v[v.len() - 1], ctx, depth));
        }
        if any_holds(front, ctx, depth) {
            let i = choose|i: int| 0 <= i < front.len() && holds(#[trigger] front[i], ctx, depth);
            assert(holds(v[i], ctx, depth));
        }
        if exists|i: int| 0 <= i < v.len() && holds(#[trigger] v[i], ctx, depth) {
            let i = choose|i: int| 0 <= i < v.len() && holds(#[trigger] v[i], ctx, depth);
            if i < front.len() {
                assert(holds(front[i], ctx, depth));
            }
        }
    }
}

/// A conjunction holds where each of its parts does, a disjunction where one of
/// them does, and a negation where its part does not.
pub proof fn compound_matchers(v: Vec<Matcher>, inner: Box<Matcher>, ctx: PacketContext)
    ensures
        holds(Matcher::All(v), ctx, 0) <==> forall|i: int| 0 <= i < v@.len() ==> holds(#[trigger] v@[i], ctx, 1),
        holds(Matcher::AnyOf(v), ctx, 0) <==> exists|i: int| 0 <= i < v@.len() && holds(#[trigger] v@[i], ctx, 1),
        holds(Matcher::Not(inner), ctx, 0) <==> !holds(*inner, ctx, 1),
{
    all_hold_means_each(v@, ctx, 1);
}

/// What a matcher without parts asks of a packet, wherever it stands: the hash
/// of its domain, its destination address, its destination port, its protocol
/// or its interface. The source plays no part.
pub proof fn leaf_matchers(ctx: PacketContext, depth: nat)
    requires
        depth <= 16,
    ensures
        holds(Matcher::Any, ctx, depth),
        !holds(Matcher::Nothing, ctx, depth),
        forall|h: u32| #[trigger]
            holds(Matcher::DomainSuffix { suffix: h }, ctx, depth) <==> ctx.domain_hash == Some(h),
        forall|h: u32| #[trigger]
            holds(Matcher::DomainExact { hash: h }, ctx, depth) <==> ctx.domain_hash == Some(h),
        forall|p: u16| #[trigger] holds(Matcher::Port { port: p }, ctx, depth) <==> ctx.dst_port == p,
        forall|a: u16, b: u16| #[trigger]
            holds(Matcher::PortRange { start: a, end: b }, ctx, depth) <==> a <= ctx.dst_port && ctx.dst_port <= b,
        forall|p: u8| #[trigger] holds(Matcher::Protocol { proto: p }, ctx, depth) <==> ctx.protocol == p,
        forall|n: u32| #[trigger] holds(Matcher::Interface { id: n }, ctx, depth) <==> ctx.interface == Some(n),
        forall|base: IpAddr, mask: u8| #[trigger]
            holds(Matcher::IpRange { base, mask }, ctx, depth) <==> in_range(base, mask, ctx.dst_ip),
{
}

proof fn powers_agree(n: nat)
    ensures
        two_to(n) == vstd::arithmetic::power2::pow2(n),
    decreases n,
{
    if n > 0 {
        powers_agree((n - 1) as nat);
        vstd::arithmetic::power2::lemma_pow2_unfold(n);
    } else {
        vstd::arithmetic::power2::lemma2_to64();
    }
}

/// An address lies in a range of its own family exactly where it agrees with
/// the base in the leading bits that the mask counts.
pub proof fn ranges_are_leading_bits(a: u32, b: u32, c: u128, d: u128, mask: u8)
    ensures
        mask < 32 ==> (in_range(IpAddr::V4(b), mask, IpAddr::V4(a)) <==> a as nat
            / vstd::arithmetic::power2::pow2((32 - mask) as nat) == b as nat / vstd::arithmetic::power2::pow2(
            (32 - mask) as nat,
        )),
        mask >= 32 ==> (in_range(IpAddr::V4(b), mask, IpAddr::V4(a)) <==> a == b),
        mask < 128 ==> (in_range(IpAddr::V6(d), mask, IpAddr::V6(c)) <==> c as nat
            / vstd::arithmetic::power2::pow2((128 - mask) as nat) == d as nat / vstd::arithmetic::power2::pow2(
            (128 - mask) as nat,
        )),
        mask >= 128 ==> (in_range(IpAddr::V6(d), mask, IpAddr::V6(c)) <==> c == d),
        !in_range(IpAddr::V4(b), mask, IpAddr::V6(c)),
        !in_range(IpAddr::V6(d), mask, IpAddr::V4(a)),
{
    if mask < 32 {
        powers_agree((32 - mask) as nat);
    }
    if mask < 128 {
        powers_agree((128 - mask) as nat);
    }
}

proof fn deepest_is_reached(v: Seq<Matcher>)
    ensures
        forall|i: int| 0 <= i < v.len() ==> depth_of(#[trigger] v[i]) <= deepest(v),
        v.len() == 0 ==> deepest(v) == 0,
        v.len() > 0 ==> exists|i: int| 0 <= i < v.len() && depth_of(#[trigger] v[i]) == deepest(v),
    decreases v.len(),
{
    if v.len() > 0 {
        let front = v.subrange(0, v.len() - 1);
        deepest_is_reached(front);
        assert forall|i: int| 0 <= i < v.len() implies depth_of(#[trigger] v[i]) <= deepest(v) by {
            if i < front.len() {
                assert(front[i] == v[i]);
            }
        }
        let last = v[v.len() - 1];
        if depth_of(last) > deepest(front) || front.len() == 0 {
            assert(front.len() == 0 ==> depth_of(last) >= 1);
            assert(depth_of(v[v.len() - 1]) == deepest(v));
        } else {
            let i = choose|i: int| 0 <= i < front.len() && depth_of(#[trigger] front[i]) == deepest(front);
            assert(v[i] == front[i]);
        }
    }
}

/// A matcher is one level deeper than the deepest of its parts; sixteen levels
/// are allowed.
pub proof fn depths_count_levels(v: Vec<Matcher>, inner: Box<Matcher>)
    ensures
        depth_of(Matcher::Not(inner)) == 1 + depth_of(*inner),
        depth_of(Matcher::All(v)) == depth_of(Matcher::AnyOf(v)),
        v@.len() == 0 ==> depth_of(Matcher::All(v)) == 1,
        forall|i: int| 0 <= i < v@.len() ==> depth_of(Matcher::All(v)) >= 1 + depth_of(#[trigger] v@[i]),
        v@.len() > 0 ==> exists|i: int|
            0 <= i < v@.len() && depth_of(Matcher::All(v)) == 1 + depth_of(#[trigger] v@[i]),
        forall|p: u16| #[trigger] depth_of(Matcher::Port { port: p }) == 1,
        MAX_MATCHER_DEPTH == 16,
{
    deepest_is_reached(v@);
}

} // verus!
