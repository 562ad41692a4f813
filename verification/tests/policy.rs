use balansir_daemon::model::{Action, DesiredRule, FlowCriteria};
use balansir_daemon::net::{ipv4, IpAddr};
use balansir_daemon::policy::compiler::PolicyCompiler;
use balansir_daemon::policy::error::PolicyError;
use balansir_daemon::policy::fast_match::{DomainMatcher, PortMatcher};
use balansir_daemon::policy::matcher::{ip_range_matches, Matcher, PacketContext};
use balansir_daemon::policy::rules::{
    hash_domain, parse_range, ActionToml, MatcherToml, PolicyFile, PolicyRuleToml,
};

const ANY: IpAddr = IpAddr::V4(0);

#[test]
fn no_flow_compiles_to_no_matcher() {
    let rule = DesiredRule { id: 7, action: Action::Block, priority: 100, flow: None };
    let req = PolicyCompiler::compile(&rule);
    assert_eq!(req.action, Action::Block);
    assert_eq!(req.src_ip, ANY);
    assert_eq!(req.dst_ip, ANY);
    assert_eq!(req.src_port, 0);
    assert_eq!(req.dst_port, 0);
    assert_eq!(req.protocol, 0);
    assert_eq!(req.trace.policy_id, 7);
    assert_eq!(req.trace.step_count(), 0);
}

#[test]
fn flow_criteria_compile_to_concrete_fields() {
    let rule = DesiredRule {
        id: 9,
        action: Action::Allow,
        priority: 10,
        flow: Some(FlowCriteria {
            src_ip: Some(ipv4(192, 168, 1, 10)),
            dst_ip: Some(ipv4(203, 0, 113, 5)),
            src_port: Some(40000),
            dst_port: Some(443),
            protocol: Some(6),
            dst_domain: None,
        }),
    };
    let req = PolicyCompiler::compile(&rule);
    assert_eq!(req.src_ip, ipv4(192, 168, 1, 10));
    assert_eq!(req.dst_ip, ipv4(203, 0, 113, 5));
    assert_eq!(req.src_port, 40000);
    assert_eq!(req.dst_port, 443);
    assert_eq!(req.protocol, 6);
    assert_eq!(req.trace.policy_id, 9);
}

#[test]
fn partial_flow_leaves_absent_fields_as_no_matcher() {
    let rule = DesiredRule {
        id: 1,
        action: Action::Reject,
        priority: 1,
        flow: Some(FlowCriteria { dst_port: Some(443), ..FlowCriteria::default() }),
    };
    let req = PolicyCompiler::compile(&rule);
    assert_eq!(req.dst_port, 443);
    assert_eq!(req.src_port, 0);
    assert_eq!(req.src_ip, ANY);
    assert_eq!(req.dst_ip, ANY);
    assert_eq!(req.protocol, 0);
}

#[test]
fn test_domain_matcher_exact() {
    let mut matcher = DomainMatcher::new();
    matcher.add_exact(12345, 1);
    assert_eq!(matcher.matches(12345), Some(1));
    assert_eq!(matcher.matches(99999), None);
}

#[test]
fn test_domain_matcher_stats() {
    let mut matcher = DomainMatcher::new();
    matcher.add_exact(1, 1);
    matcher.add_exact(2, 2);
    matcher.add_suffix(3, 3);
    let stats = matcher.stats();
    assert_eq!(stats.exact_count, 2);
    assert_eq!(stats.suffix_count, 1);
    assert_eq!(stats.total_rules, 3);
}

#[test]
fn test_port_matcher() {
    let mut matcher = PortMatcher::new();
    matcher.add_port(80, 1);
    matcher.add_port(443, 2);
    matcher.add_port(8080, 3);
    assert_eq!(matcher.matches(80), Some(1));
    assert_eq!(matcher.matches(443), Some(2));
    assert_eq!(matcher.matches(8080), Some(3));
    assert_eq!(matcher.matches(9999), None);
    assert_eq!(matcher.stats().total_ports, 3);
}

fn packet(src: IpAddr, dst: IpAddr, dst_port: u16) -> PacketContext {
    PacketContext { src_ip: src, dst_ip: dst, src_port: 12345, dst_port, protocol: 6, domain_hash: None, interface: None }
}

fn web() -> PacketContext {
    packet(ipv4(192, 168, 1, 1), ipv4(142, 250, 80, 46), 443)
}

#[test]
fn test_matcher_any() {
    assert!(Matcher::Any.matches(&web()));
}

#[test]
fn test_matcher_ip_range_v4() {
    let matcher = Matcher::IpRange { base: ipv4(192, 168, 1, 0), mask: 24 };
    let ctx_ok = packet(ipv4(192, 168, 1, 1), ipv4(192, 168, 1, 200), 443);
    let ctx_miss = packet(ipv4(192, 168, 1, 1), ipv4(192, 168, 2, 1), 443);
    assert!(matcher.matches(&ctx_ok));
    assert!(!matcher.matches(&ctx_miss));
}

#[test]
fn test_matcher_ip_range_v6() {
    let base = 0x2001_0db8_0000_0000_0000_0000_0000_0000u128;
    let matcher = Matcher::IpRange { base: IpAddr::V6(base), mask: 64 };
    let ctx_ok = packet(ipv4(192, 168, 1, 1), IpAddr::V6(base + 1), 443);
    let ctx_miss = packet(ipv4(192, 168, 1, 1), IpAddr::V6(0x2001_0db9_0000_0000_0000_0000_0000_0001u128), 443);
    assert!(matcher.matches(&ctx_ok));
    assert!(!matcher.matches(&ctx_miss));
    // Family mismatch never matches: an IPv4 base cannot match an IPv6 dst.
    let v4_base = Matcher::IpRange { base: ipv4(192, 168, 1, 0), mask: 24 };
    assert!(!v4_base.matches(&ctx_ok));
}

#[test]
fn test_matcher_port() {
    assert!(Matcher::Port { port: 443 }.matches(&web()));
}

#[test]
fn test_matcher_port_range() {
    let matcher = Matcher::PortRange { start: 443, end: 444 };
    assert!(matcher.matches(&web()));
    assert!(!matcher.matches(&packet(ipv4(192, 168, 1, 1), ipv4(142, 250, 80, 46), 80)));
}

#[test]
fn test_matcher_all() {
    let matcher = Matcher::All(vec![Matcher::Protocol { proto: 6 }, Matcher::Port { port: 443 }]);
    assert!(matcher.matches(&web()));
}

#[test]
fn test_matcher_not() {
    assert!(Matcher::Not(Box::new(Matcher::Port { port: 80 })).matches(&web()));
}

/// Packets of many shapes.
fn packets() -> Vec<PacketContext> {
    let mut out = Vec::new();
    let mut seed = 0x9E37_79B9u64;
    for k in 0..200u32 {
        seed ^= seed << 13;
        seed ^= seed >> 7;
        seed ^= seed << 17;
        out.push(PacketContext {
            src_ip: IpAddr::V4(seed as u32),
            dst_ip: IpAddr::V4((seed >> 32) as u32),
            src_port: (seed >> 3) as u16,
            dst_port: (seed >> 19) as u16,
            protocol: (seed >> 35) as u8,
            domain_hash: if k % 2 == 0 { None } else { Some(k) },
            interface: if k % 3 == 0 { None } else { Some(k) },
        });
    }
    out
}

#[test]
fn double_negation_is_identity() {
    for ctx in packets() {
        for port in [0, 80, ctx.dst_port] {
            let matcher = Matcher::Not(Box::new(Matcher::Not(Box::new(Matcher::Port { port }))));
            let direct = Matcher::Port { port };
            assert_eq!(matcher.matches(&ctx), direct.matches(&ctx));
        }
    }
}

#[test]
fn any_always_matches() {
    assert!(packets().iter().all(|ctx| Matcher::Any.matches(ctx)));
}

#[test]
fn none_never_matches() {
    assert!(packets().iter().all(|ctx| !Matcher::Nothing.matches(ctx)));
}

#[test]
fn all_empty_matches() {
    assert!(packets().iter().all(|ctx| Matcher::All(vec![]).matches(ctx)));
}

#[test]
fn any_of_empty_not_match() {
    assert!(packets().iter().all(|ctx| !Matcher::AnyOf(vec![]).matches(ctx)));
}

#[test]
fn port_matcher_exact() {
    for ctx in packets() {
        for port in [0, 80, ctx.dst_port] {
            assert_eq!(Matcher::Port { port }.matches(&ctx), port == ctx.dst_port);
        }
    }
}

fn nested(n: usize) -> Matcher {
    let mut matcher = Matcher::Port { port: 80 };
    for _ in 0..n {
        matcher = Matcher::Not(Box::new(matcher));
    }
    matcher
}

#[test]
fn test_matcher_depth_limit() {
    // Create deeply nested matcher (should fail validation)
    let matcher = nested(20);
    assert!(matcher.depth() > 16);
    assert!(matcher.validate().is_err());
    assert!(nested(3).validate().is_ok());
}

#[test]
fn test_matcher_recursion_stops() {
    // Should not panic due to depth limit; the result depends on parity of
    // Not nesting.
    let _result = nested(20).matches(&packet(ANY, ANY, 80));
}

#[test]
fn an_empty_mask_takes_the_whole_family() {
    assert!(ip_range_matches(ipv4(10, 0, 0, 0), 0, ipv4(203, 0, 113, 5)));
    assert!(!ip_range_matches(ipv4(10, 0, 0, 0), 0, IpAddr::V6(1)));
    assert!(ip_range_matches(ipv4(10, 0, 0, 1), 32, ipv4(10, 0, 0, 1)));
    assert!(!ip_range_matches(ipv4(10, 0, 0, 1), 32, ipv4(10, 0, 0, 2)));
}

fn rule(matcher: MatcherToml, action: ActionToml) -> PolicyRuleToml {
    PolicyRuleToml { name: "youtube-hysteria".to_string(), priority: 100, enabled: true, matcher, action }
}

#[test]
fn test_policy_file_parse() {
    let policy = PolicyFile {
        rules: vec![rule(
            MatcherToml::DomainSuffix { suffix: ".youtube.com".to_string() },
            ActionToml::Forward { driver: "hysteria-primary".to_string() },
        )],
    };
    assert_eq!(policy.rules.len(), 1);
    assert_eq!(policy.rules[0].name, "youtube-hysteria");
    let rules = policy.to_rules();
    assert_eq!(rules[0].id, 1);
    assert_eq!(rules[0].name, "youtube-hysteria");
    match rules[0].matcher {
        Matcher::DomainSuffix { suffix } => assert_eq!(suffix, hash_domain(".youtube.com")),
        ref other => panic!("unexpected: {:?}", other),
    }
}

#[test]
fn names_hash_apart() {
    assert_eq!(hash_domain("example.com"), hash_domain("example.com"));
    assert_ne!(hash_domain("example.com"), hash_domain("example.org"));
}

#[test]
fn ranges_are_read() {
    assert_eq!(parse_range("192.168.1.0/24"), Some((ipv4(192, 168, 1, 0), 24)));
    assert_eq!(parse_range("nonsense"), None);
    assert!(!rule(MatcherToml::IpRange { cidr: "nonsense".to_string() }, ActionToml::Block).is_readable());
    assert!(rule(MatcherToml::IpRange { cidr: "10.0.0.0/8".to_string() }, ActionToml::Block).is_readable());
}

#[test]
fn errors_say_what_is_wrong() {
    let e = PolicyError::MatcherTooDeep { depth: 21, max: 16 };
    assert!(e.message().contains("21") && e.message().contains("16"));
    let errors = vec![
        PolicyError::Io { path: "p".to_string(), reason: "r1".to_string() }.message(),
        PolicyError::Parse { path: "p".to_string(), reason: "r2".to_string() }.message(),
        PolicyError::InvalidCidr { cidr: "c".to_string(), reason: "r3".to_string() }.message(),
        PolicyError::UnknownAction("a4".to_string()).message(),
        PolicyError::UnknownDriver("d5".to_string()).message(),
        PolicyError::Validation { field: "f".to_string(), reason: "r6".to_string() }.message(),
    ];
    for (text, part) in errors.iter().zip(["r1", "r2", "r3", "a4", "d5", "r6"]) {
        assert!(text.contains(part), "{}", text);
    }
}
