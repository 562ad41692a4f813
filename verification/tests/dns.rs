use balansir_daemon::dns::{
    classify_domain, greeting_accepted, next_upstream, nxdomain_response, parse_socks5_addr, relay_address, socks5_associate,
    socks5_greeting, unwrap_datagram, wrap_datagram, DnsCache, DnsForwarderConfig, DnsForwarderDriver, DomainDecision,
    Forwarder, QueryStep, RelayStep, SocksError,
};
use balansir_daemon::dns_filter::{
    build_nxdomain, build_servfail, parse_a_aaaa, DnsClassification, DnsFilterConfig, DnsFilterDriver,
    DnsFilterState, DomainPolicy, FilterStep,
};
use balansir_daemon::dns_plane::{
    ingest, normalize_domain, observe_response, parse_answers, query_name, DnsError, MAX_TTL_SECS, MIN_TTL_SECS,
};
use balansir_daemon::model::{Action, DesiredRule, DriverId, FlowCriteria, HealthStatus};
use balansir_daemon::net::{ipv4, IpAddr, SocketAddr};
use balansir_daemon::reconciliation::dns_flow::{derived_rule_id, DnsRegistry, FlowCompiler};

const TYPE_A: u16 = 1;
const TYPE_CNAME: u16 = 5;
const TYPE_AAAA: u16 = 28;

struct Msg {
    buf: Vec<u8>,
}

impl Msg {
    fn with_header(qr: bool, tc: bool, rcode: u8, qd: u16, an: u16) -> Self {
        let mut flags: u16 = 0;
        if qr {
            flags |= 0x8000;
        }
        if tc {
            flags |= 0x0200;
        }
        flags |= u16::from(rcode);
        let mut buf = Vec::new();
        buf.extend_from_slice(&0x1234u16.to_be_bytes());
        buf.extend_from_slice(&flags.to_be_bytes());
        buf.extend_from_slice(&qd.to_be_bytes());
        buf.extend_from_slice(&an.to_be_bytes());
        buf.extend_from_slice(&0u16.to_be_bytes()); // NSCOUNT
        buf.extend_from_slice(&0u16.to_be_bytes()); // ARCOUNT
        Self { buf }
    }

    fn question(mut self, name: &[&str]) -> Self {
        for label in name {
            self.buf.push(label.len() as u8);
            self.buf.extend_from_slice(label.as_bytes());
        }
        self.buf.push(0);
        self.buf.extend_from_slice(&1u16.to_be_bytes()); // QTYPE A
        self.buf.extend_from_slice(&1u16.to_be_bytes()); // QCLASS IN
        self
    }

    fn answer(mut self, name: &[&str], rtype: u16, ttl: u32, rdata: &[u8]) -> Self {
        for label in name {
            self.buf.push(label.len() as u8);
            self.buf.extend_from_slice(label.as_bytes());
        }
        self.buf.push(0);
        self.buf.extend_from_slice(&rtype.to_be_bytes());
        self.buf.extend_from_slice(&1u16.to_be_bytes()); // CLASS IN
        self.buf.extend_from_slice(&ttl.to_be_bytes());
        self.buf.extend_from_slice(&(rdata.len() as u16).to_be_bytes());
        self.buf.extend_from_slice(rdata);
        self
    }

    fn cname(self, name: &[&str], target: &[&str]) -> Self {
        let mut rdata = Vec::new();
        for label in target {
            rdata.push(label.len() as u8);
            rdata.extend_from_slice(label.as_bytes());
        }
        rdata.push(0);
        self.answer(name, TYPE_CNAME, 300, &rdata)
    }

    fn build(self) -> Vec<u8> {
        self.buf
    }
}

fn query(name: &[&str]) -> Vec<u8> {
    Msg::with_header(false, false, 0, 1, 0).question(name).build()
}

#[test]
fn query_name_extraction() {
    let q = query(&["api", "example", "com"]);
    assert_eq!(query_name(&q).as_deref(), Some("api.example.com"));
}

#[test]
fn query_name_rejects_response_and_empty() {
    let resp = Msg::with_header(true, false, 0, 0, 0).build();
    assert!(query_name(&resp).is_none());
    assert!(query_name(b"short").is_none());
}

#[test]
fn direct_a_answer_observed() {
    let resp = Msg::with_header(true, false, 0, 1, 1)
        .question(&["example", "com"])
        .answer(&["example", "com"], TYPE_A, 120, &[203, 0, 113, 5])
        .build();
    let obs = observe_response("example.com", &resp).expect("observed");
    assert_eq!(obs.domain, "example.com");
    assert_eq!(obs.ips, vec![ipv4(203, 0, 113, 5)]);
    assert_eq!(obs.ttl_secs, 120);
}

#[test]
fn cname_chain_resolves_to_canonical_addresses() {
    let resp = Msg::with_header(true, false, 0, 1, 3)
        .question(&["www", "example", "com"])
        .cname(&["www", "example", "com"], &["edge", "example", "com"])
        .answer(&["edge", "example", "com"], TYPE_A, 300, &[198, 51, 100, 7])
        .answer(&["edge", "example", "com"], TYPE_AAAA, 300, &[0u8; 16])
        .build();
    let obs = observe_response("www.example.com", &resp).expect("observed");
    assert_eq!(obs.domain, "www.example.com");
    assert!(obs.ips.contains(&ipv4(198, 51, 100, 7)));
    assert!(obs.ips.iter().any(|ip| ip.is_ipv6()));
}

#[test]
fn compression_pointer_is_followed() {
    // Question encodes the name at offset 12; an answer reuses it via a
    // pointer, proving the parser follows compression.
    let mut resp = Msg::with_header(true, false, 0, 1, 1).question(&["example", "com"]).build();
    // Answer with a pointer to offset 12 (start of the question name).
    resp.push(0xC0);
    resp.push(12);
    resp.extend_from_slice(&TYPE_A.to_be_bytes());
    resp.extend_from_slice(&1u16.to_be_bytes());
    resp.extend_from_slice(&300u32.to_be_bytes());
    resp.extend_from_slice(&4u16.to_be_bytes());
    resp.extend_from_slice(&[192, 0, 2, 9]);
    let obs = observe_response("example.com", &resp).expect("observed");
    assert!(obs.ips.contains(&ipv4(192, 0, 2, 9)));
}

#[test]
fn truncated_response_is_not_observed() {
    let resp = Msg::with_header(true, true, 0, 1, 1).question(&["example", "com"]).build();
    assert!(observe_response("example.com", &resp).is_none());
}

#[test]
fn error_rcodes_are_not_observed() {
    for rcode in [1, 2, 3, 5] {
        // NXDOMAIN(3), SERVFAIL(2), REFUSED(5) …
        let resp = Msg::with_header(true, false, rcode, 1, 0).question(&["example", "com"]).build();
        assert!(observe_response("example.com", &resp).is_none(), "rcode {} must not be recorded", rcode);
    }
}

#[test]
fn ttl_is_clamped() {
    // TTL 1s is below the floor; TTL 999999 is above the cap.
    let low = Msg::with_header(true, false, 0, 1, 1)
        .question(&["example", "com"])
        .answer(&["example", "com"], TYPE_A, 1, &[203, 0, 113, 1])
        .build();
    assert_eq!(observe_response("example.com", &low).unwrap().ttl_secs, MIN_TTL_SECS);
    let high = Msg::with_header(true, false, 0, 1, 1)
        .question(&["example", "com"])
        .answer(&["example", "com"], TYPE_A, 999_999, &[203, 0, 113, 2])
        .build();
    assert_eq!(observe_response("example.com", &high).unwrap().ttl_secs, MAX_TTL_SECS);
}

/// A response body whose first answer owner is exactly `name_bytes` followed
/// by a minimal A record.
fn owner_with_a_record(name_bytes: &[u8]) -> Vec<u8> {
    let mut buf = Msg::with_header(true, false, 0, 0, 1).build();
    buf.extend_from_slice(name_bytes);
    buf.extend_from_slice(&TYPE_A.to_be_bytes());
    buf.extend_from_slice(&1u16.to_be_bytes());
    buf.extend_from_slice(&300u32.to_be_bytes());
    buf.extend_from_slice(&4u16.to_be_bytes());
    buf.extend_from_slice(&[203, 0, 113, 5]);
    buf
}

#[test]
fn pointer_loop_is_rejected() {
    // Name: label "a", then a pointer back to its own offset (12).
    let body = owner_with_a_record(&[1, b'a', 0xC0, 12]);
    assert!(parse_answers(&body).is_err(), "self-pointer must be rejected");
}

#[test]
fn out_of_range_pointer_is_rejected() {
    let body = owner_with_a_record(&[0xC0, 0xFF]);
    assert!(parse_answers(&body).is_err());
}

#[test]
fn oversized_label_is_rejected() {
    let mut name = vec![70u8]; // label length > 63
    name.extend_from_slice(&[b'a'; 70]);
    name.push(0);
    let body = owner_with_a_record(&name);
    assert!(parse_answers(&body).is_err());
}

#[test]
fn truncated_record_is_rejected() {
    let mut resp = Msg::with_header(true, false, 0, 0, 1).build();
    resp.push(1);
    resp.push(b'a');
    resp.push(0);
    resp.extend_from_slice(&TYPE_A.to_be_bytes());
    resp.extend_from_slice(&1u16.to_be_bytes());
    resp.extend_from_slice(&300u32.to_be_bytes());
    resp.extend_from_slice(&20u16.to_be_bytes()); // claims 20 bytes, has 0
    let r = parse_answers(&resp);
    assert!(r.is_err());
}

#[test]
fn each_fault_of_a_message_has_its_name() {
    assert!(matches!(parse_answers(b"short"), Err(DnsError::TooShort)));
    let q = query(&["a", "example"]);
    assert!(matches!(parse_answers(&q), Err(DnsError::NotAResponse)));
    let mut many = Msg::with_header(true, false, 0, 0, 0xFFFF).build();
    for _ in 0..3000 {
        many.extend_from_slice(&[1, b'a', 0, 0, 1, 0, 1, 0, 0, 0, 9, 0, 0]);
    }
    assert!(matches!(parse_answers(&many), Err(DnsError::TooManyRecords)));
    let mut chain = Vec::new();
    for k in 0..70u8 {
        chain.extend_from_slice(&[0xC0, 14 + 2 * k]);
    }
    assert!(matches!(parse_answers(&owner_with_a_record(&chain)), Err(DnsError::PointerLoop)));
    let mut long = Vec::new();
    for _ in 0..5 {
        long.push(63u8);
        long.extend_from_slice(&[b'a'; 63]);
    }
    long.push(0);
    assert!(matches!(parse_answers(&owner_with_a_record(&long)), Err(DnsError::NameTooLong)));
    assert!(matches!(parse_answers(&owner_with_a_record(&[0x80, 0])), Err(DnsError::BadLabel)));
    assert!(matches!(parse_answers(&owner_with_a_record(&[0xC0, 0xFF])), Err(DnsError::PointerOutOfRange)));
}

#[test]
fn normalize_domain_accepts_and_rejects() {
    assert_eq!(normalize_domain("Example.COM.").as_deref(), Some("example.com"));
    assert_eq!(normalize_domain("a-b.example").as_deref(), Some("a-b.example"));
    assert_eq!(normalize_domain("a..b"), None);
    assert_eq!(normalize_domain(""), None);
    assert_eq!(normalize_domain("sp ace.example"), None);
    assert_eq!(normalize_domain("x".repeat(300).as_str()), None);
    assert_eq!(normalize_domain("semi;colon.example"), None);
}

#[test]
fn ingest_populates_shared_registry() {
    let mut registry = DnsRegistry::new();
    let q = query(&["api", "example", "com"]);
    let resp = Msg::with_header(true, false, 0, 1, 2)
        .question(&["api", "example", "com"])
        .cname(&["api", "example", "com"], &["edge", "example", "com"])
        .answer(&["edge", "example", "com"], TYPE_A, 300, &[203, 0, 113, 9])
        .build();
    assert!(ingest(&mut registry, &q, &resp, 0), "observation must be recorded");
    let ips = registry.resolve("api.example.com", 0).expect("resolved");
    assert!(ips.contains(&ipv4(203, 0, 113, 9)));
}

#[test]
fn ingest_ignores_error_and_garbage() {
    let mut registry = DnsRegistry::new();
    let q = query(&["api", "example", "com"]);
    let nxdomain = Msg::with_header(true, false, 3, 1, 0).question(&["api", "example", "com"]).build();
    assert!(!ingest(&mut registry, &q, &nxdomain, 0));
    assert!(registry.resolve("api.example.com", 0).is_none());
    assert!(!ingest(&mut registry, b"junk", b"junk", 0));
}

#[test]
fn hostile_inputs_never_panic() {
    let mut registry = DnsRegistry::new();
    let q = query(&["hostile", "example", "com"]);
    let mut seed = 0x9E37_79B9u64;
    for n in 0..512usize {
        // Deterministic pseudo-random bytes of varying lengths.
        let len = (n * 7) % 200;
        let mut bytes = Vec::with_capacity(len);
        for _ in 0..len {
            seed ^= seed << 13;
            seed ^= seed >> 7;
            seed ^= seed << 17;
            bytes.push(seed as u8);
        }
        let _ = query_name(&bytes);
        let _ = observe_response("hostile.example.com", &bytes);
        let _ = ingest(&mut registry, &q, &bytes, 0);
        let _ = DnsFilterState::extract_domain(&bytes);
        let _ = parse_a_aaaa(&bytes);
        let _ = build_nxdomain(&bytes);
    }
    // Structured hostile packets: valid header, garbage questions/answers.
    for _ in 0..64 {
        let mut msg = Msg::with_header(true, false, 0, 0xFFFF, 0xFFFF).build();
        msg.extend_from_slice(&[0xC0, 0x00, 0xC0, 0x0C, 0xFF, 0x00]);
        let _ = parse_answers(&msg);
        let _ = observe_response("hostile.example.com", &msg);
    }
}

#[test]
fn registry_ttl_expiry_is_honored() {
    let mut registry = DnsRegistry::new();
    registry.insert_with_ttl("ttl.example.com", vec![ipv4(203, 0, 113, 1)], 1, 1000);
    // Insertion is observed immediately…
    assert!(registry.resolve("ttl.example.com", 1000).is_some());
    // …and the expired entry is no longer resolvable (removed on read).
    assert!(registry.resolve("ttl.example.com", 1005).is_none());
}

fn rule(id: u32, domain: Option<&str>) -> DesiredRule {
    DesiredRule {
        id,
        action: Action::Block,
        priority: 100,
        flow: domain.map(|d| FlowCriteria { dst_domain: Some(d.to_string()), ..FlowCriteria::default() }),
    }
}

#[test]
fn domain_rule_compiles_to_one_rule_per_ip() {
    let mut registry = DnsRegistry::new();
    registry.insert("api.example.com", vec![ipv4(203, 0, 113, 5), ipv4(203, 0, 113, 6)]);
    let mut compiler = FlowCompiler::new(registry);
    let out = compiler.compile_rule(&rule(7, Some("api.example.com")), 0);
    assert_eq!(out.len(), 2);
    let ips: Vec<String> = out.iter().map(|r| r.flow.as_ref().unwrap().dst_ip.unwrap().to_text()).collect();
    assert!(ips.contains(&"203.0.113.5".to_string()));
    assert!(ips.contains(&"203.0.113.6".to_string()));
    // Derived ids are stable and distinct, and no rule still carries the
    // domain (the executor must never see a domain).
    assert!(out[0].id != 7 && out[1].id != 7 && out[0].id != out[1].id);
    assert!(out.iter().all(|r| r.flow.as_ref().unwrap().dst_domain.is_none()));
    assert_eq!(out[0].id, derived_rule_id(7, &ipv4(203, 0, 113, 5)));
}

#[test]
fn domain_rule_is_deterministic() {
    let mut registry = DnsRegistry::new();
    registry.insert("x.example.com", vec![ipv4(192, 0, 2, 1)]);
    let mut compiler = FlowCompiler::new(registry);
    let a = compiler.compile_rule(&rule(3, Some("x.example.com")), 0);
    let b = compiler.compile_rule(&rule(3, Some("x.example.com")), 0);
    assert_eq!(format!("{:?}", a), format!("{:?}", b));
}

#[test]
fn no_domain_rule_passes_through() {
    let mut compiler = FlowCompiler::new(DnsRegistry::new());
    let plain = rule(5, None);
    assert_eq!(format!("{:?}", compiler.compile_rule(&plain, 0)), format!("{:?}", vec![plain]));
    // And an unresolved domain compiles to nothing (not enforced).
    assert!(compiler.compile_rule(&rule(6, Some("missing.example.com")), 0).is_empty());
}

#[test]
fn names_are_looked_up_without_regard_to_case() {
    let mut registry = DnsRegistry::new();
    registry.insert("API.Example.com", vec![ipv4(192, 0, 2, 1)]);
    assert!(registry.resolve("api.example.COM", 0).is_some());
}

fn at(port: u16) -> SocketAddr {
    SocketAddr { ip: ipv4(127, 0, 0, 1), port }
}

fn forwarder(config: DnsForwarderConfig) -> Forwarder {
    Forwarder::new(&config, true)
}

const PLAIN: &[u8] = b"\x12\x34\x01\x00\x00\x01\x00\x00\x00\x00\x00\x00";

/// One query, asked of upstreams that answer with the given results in turn.
fn ask(f: &mut Forwarder, q: &[u8], registry: &mut DnsRegistry, answer: Option<Vec<u8>>, asked: &mut usize) -> Option<Vec<u8>> {
    match f.on_query(q, 0) {
        QueryStep::Ignore => None,
        QueryStep::Answer(a) => Some(a),
        QueryStep::Ask(_) => {
            *asked += 1;
            f.on_answer(q, answer, registry, 0)
        }
    }
}

#[test]
fn forwards_query_to_upstream() {
    let mut registry = DnsRegistry::new();
    let mut hits = 0;
    let mut f = forwarder(DnsForwarderConfig { upstreams: vec![at(5353)], ..DnsForwarderConfig::default() });
    let resp = ask(&mut f, PLAIN, &mut registry, Some(vec![0xAB, 0xCD]), &mut hits);
    assert_eq!(resp, Some(vec![0xAB, 0xCD]));
    assert_eq!(hits, 1);
    let mut driver = DnsForwarderDriver::new(DriverId::DnsForwarder, DnsForwarderConfig::default());
    driver.started(Some(at(53)));
    assert!(driver.running);
    driver.stopped();
    assert!(!driver.running);
}

#[test]
fn fails_over_to_healthy_upstream() {
    let mut f = forwarder(DnsForwarderConfig { upstreams: vec![at(1), at(2)], ..DnsForwarderConfig::default() });
    let order = match f.on_query(b"query", 0) {
        QueryStep::Ask(order) => order,
        other => panic!("unexpected: {:?}", other),
    };
    // Every upstream is tried, the second where the first does not answer.
    assert_eq!(order.len(), 2);
    assert!(order.contains(&at(1)) && order.contains(&at(2)));
    let mut registry = DnsRegistry::new();
    assert_eq!(f.on_answer(b"query", Some(vec![0xAB, 0xCD]), &mut registry, 0), Some(vec![0xAB, 0xCD]));
}

#[test]
fn cache_serves_repeat_query_without_upstream() {
    let mut registry = DnsRegistry::new();
    let mut hits = 0;
    let mut f =
        forwarder(DnsForwarderConfig { upstreams: vec![at(5353)], cache_size: 100, ..DnsForwarderConfig::default() });
    let first = ask(&mut f, PLAIN, &mut registry, Some(vec![0xAB, 0xCD]), &mut hits);
    assert_eq!(first, Some(vec![0xAB, 0xCD]));
    let second = ask(&mut f, PLAIN, &mut registry, Some(vec![0xAB, 0xCD]), &mut hits);
    assert_eq!(second, Some(vec![0xAB, 0xCD]));
    // Only the first query reached the upstream; the second hit the cache.
    assert_eq!(hits, 1);
}

#[test]
fn forwarded_responses_feed_the_policy_registry() {
    let q = query(&["obs", "example", "com"]);
    let mut r = q.clone();
    r[2..4].copy_from_slice(&0x8180u16.to_be_bytes()); // QR|RD|RA
    r[6..8].copy_from_slice(&1u16.to_be_bytes()); // ANCOUNT=1
    r.extend_from_slice(&[0xC0, 0x0C]); // pointer to question name
    r.extend_from_slice(&1u16.to_be_bytes()); // TYPE A
    r.extend_from_slice(&1u16.to_be_bytes()); // CLASS IN
    r.extend_from_slice(&300u32.to_be_bytes()); // TTL
    r.extend_from_slice(&4u16.to_be_bytes()); // RDLENGTH
    r.extend_from_slice(&[203, 0, 113, 42]); // 203.0.113.42
    let mut registry = DnsRegistry::new();
    let mut hits = 0;
    let mut f =
        forwarder(DnsForwarderConfig { upstreams: vec![at(5353)], cache_size: 0, ..DnsForwarderConfig::default() });
    assert!(ask(&mut f, &q, &mut registry, Some(r), &mut hits).is_some());
    // The observation must reach the shared registry (policy plane).
    let ips = registry.resolve("obs.example.com", 0).expect("registry populated from forwarded response");
    assert!(ips.contains(&ipv4(203, 0, 113, 42)));
}

#[test]
fn cache_respects_zero_capacity() {
    let mut cache = DnsCache::new();
    cache.put(b"q".to_vec(), b"r".to_vec(), 0, 0);
    assert!(cache.get(b"q", 0).is_none());
    cache.put(b"q".to_vec(), b"r".to_vec(), 1, 0);
    assert_eq!(cache.get(b"q", 0), Some(b"r".to_vec()));
}

fn words(v: &[&str]) -> Vec<String> {
    v.iter().map(|s| s.to_string()).collect()
}

#[test]
fn classify_block_exact_and_subdomains() {
    let (block, allow) = (words(&["ads.example.com"]), words(&[]));
    assert_eq!(classify_domain("ads.example.com", &block, &allow), DomainDecision::Block);
    assert_eq!(classify_domain("x.ads.example.com", &block, &allow), DomainDecision::Block);
    assert_eq!(classify_domain("example.com", &block, &allow), DomainDecision::Pass);
}

#[test]
fn classify_allowlist_overrides_blocklist() {
    let (block, allow) = (words(&["example.com"]), words(&["safe.example.com"]));
    assert_eq!(classify_domain("example.com", &block, &allow), DomainDecision::Block);
    assert_eq!(classify_domain("safe.example.com", &block, &allow), DomainDecision::Pass);
    assert_eq!(classify_domain("deep.safe.example.com", &block, &allow), DomainDecision::Pass);
}

#[test]
fn classify_unmatched_passes() {
    let (block, allow) = (words(&[]), words(&[]));
    assert_eq!(classify_domain("youtube.com", &block, &allow), DomainDecision::Pass);
}

#[test]
fn nxdomain_echoes_id_and_rcode() {
    let resp = nxdomain_response(PLAIN);
    assert_eq!(resp[0], 0x12);
    assert_eq!(resp[1], 0x34);
    assert_eq!(resp[2] & 0x80, 0x80); // QR=1
    assert_eq!(resp[3] & 0x0f, 0x03); // NXDOMAIN
    assert_eq!(&resp[6..8], &[0, 0]); // ANCOUNT=0
}

fn query_with_id(id: u16, name: &[u8]) -> Vec<u8> {
    let mut v = Vec::new();
    v.extend_from_slice(&id.to_be_bytes());
    v.extend_from_slice(&0x0100u16.to_be_bytes());
    v.extend_from_slice(&1u16.to_be_bytes());
    v.extend_from_slice(&[0, 0, 0, 0, 0, 0]);
    v.extend_from_slice(name);
    v.extend_from_slice(&1u16.to_be_bytes());
    v.extend_from_slice(&1u16.to_be_bytes());
    v
}

#[test]
fn blocked_domain_answered_locally_without_upstream() {
    let mut registry = DnsRegistry::new();
    let mut hits = 0;
    let mut f = forwarder(DnsForwarderConfig {
        upstreams: vec![at(5353)],
        blocklist: vec!["ads.example.com".into()],
        ..DnsForwarderConfig::default()
    });
    let q = query_with_id(0xABCD, b"\x03ads\x07example\x03com\x00");
    let resp = ask(&mut f, &q, &mut registry, Some(vec![0xAB, 0xCD]), &mut hits).expect("response");
    assert_eq!(resp[0], 0xAB);
    assert_eq!(resp[1], 0xCD);
    assert_eq!(resp[3] & 0x0f, 0x03); // NXDOMAIN
    // Never touched the upstream, never polluted the policy registry.
    assert_eq!(hits, 0);
    assert!(registry.resolve("ads.example.com", 0).is_none());
}

#[test]
fn allowlist_unblocks_a_subdomain() {
    let mut registry = DnsRegistry::new();
    let mut hits = 0;
    let mut f = forwarder(DnsForwarderConfig {
        upstreams: vec![at(5353)],
        blocklist: vec!["example.com".into()],
        allowlist: vec!["safe.example.com".into()],
        ..DnsForwarderConfig::default()
    });
    let q = query_with_id(0x1111, b"\x04safe\x07example\x03com\x00");
    let resp = ask(&mut f, &q, &mut registry, Some(vec![0xAB, 0xCD]), &mut hits).expect("response");
    // Forwarded upstream (opaque mock answer), not a local NXDOMAIN.
    assert_eq!(resp, vec![0xAB, 0xCD]);
    assert_eq!(hits, 1);
}

#[test]
fn test_dns_forwarder_config() {
    let config = DnsForwarderConfig::default();
    assert_eq!(config.listen, at(53));
    assert_eq!(config.upstreams.len(), 2);
    assert_eq!(config.cache_size, 10000);
}

#[test]
fn test_dns_forwarder_driver() {
    let config = DnsForwarderConfig::default();
    let driver = DnsForwarderDriver::new(DriverId::DnsForwarder, config);
    assert_eq!(driver.id(), DriverId::DnsForwarder);
    assert_eq!(driver.name(), "DNS Forwarder");
    assert!(driver.capabilities().dns);
}

#[test]
fn upstreams_take_turns() {
    let mut f = forwarder(DnsForwarderConfig { upstreams: vec![at(1), at(2)], cache_size: 0, ..DnsForwarderConfig::default() });
    let mut registry = DnsRegistry::new();
    let mut first = |f: &mut Forwarder| match f.on_query(PLAIN, 0) {
        QueryStep::Ask(order) => {
            f.on_answer(PLAIN, None, &mut registry, 0);
            order[0]
        }
        other => panic!("unexpected: {:?}", other),
    };
    let a = first(&mut f);
    let b = first(&mut f);
    assert!(a != b);
    assert_eq!(first(&mut f), a);
}

#[test]
fn a_relay_is_made_for_each_proxy() {
    let mut f = forwarder(DnsForwarderConfig { upstreams: vec![at(1)], ..DnsForwarderConfig::default() });
    assert!(matches!(f.on_proxy(None), RelayStep::Keep));
    assert!(matches!(f.on_proxy(Some(at(1080))), RelayStep::Connect(a) if a == at(1080)));
    assert!(matches!(f.on_proxy(Some(at(1080))), RelayStep::Keep));
    assert!(matches!(f.on_proxy(None), RelayStep::Direct));
}

#[test]
fn socks_messages() {
    assert_eq!(socks5_greeting(), vec![5, 1, 0]);
    assert_eq!(socks5_associate()[..3], [5, 3, 0]);
    assert!(greeting_accepted(&[5, 0]).is_ok());
    assert!(matches!(greeting_accepted(&[5, 0xFF]), Err(SocksError::HandshakeFailed)));
    assert_eq!(parse_socks5_addr(&[1, 10, 0, 0, 1, 0x04, 0x38]).ok(), Some(SocketAddr { ip: ipv4(10, 0, 0, 1), port: 1080 }));
    let mut v6 = vec![4u8];
    v6.extend_from_slice(&[0; 15]);
    v6.extend_from_slice(&[1, 0x00, 0x35]);
    assert_eq!(parse_socks5_addr(&v6).ok(), Some(SocketAddr { ip: IpAddr::V6(1), port: 53 }));
    assert!(matches!(parse_socks5_addr(&[]), Err(SocksError::EmptyAddress)));
    assert!(matches!(parse_socks5_addr(&[1, 10]), Err(SocksError::ShortIpv4)));
    assert!(matches!(parse_socks5_addr(&[4, 10]), Err(SocksError::ShortIpv6)));
    assert!(matches!(parse_socks5_addr(&[3, 10]), Err(SocksError::UnsupportedAddress)));
    assert!(matches!(relay_address(&[5, 1, 0, 1]), Err(SocksError::AssociateFailed)));
    assert_eq!(relay_address(&[5, 0, 0, 1, 10, 0, 0, 1, 0x04, 0x38]).ok(), Some(SocketAddr { ip: ipv4(10, 0, 0, 1), port: 1080 }));
}

#[test]
fn what_is_wrapped_comes_out() {
    for upstream in [at(53), SocketAddr { ip: IpAddr::V6(1), port: 53 }] {
        let packet = wrap_datagram(b"query", upstream);
        assert_eq!(unwrap_datagram(&packet).ok(), Some(b"query".to_vec()));
    }
    assert!(matches!(unwrap_datagram(&[0, 0]), Err(SocksError::ShortPacket)));
    assert!(unwrap_datagram(&[1, 0, 0, 1, 0, 0, 0, 0, 0, 0, 7]).is_err());
    assert!(unwrap_datagram(&[0, 0, 0, 9, 0, 0, 0, 0, 0, 0, 7]).is_err());
}

fn filter(config: DnsFilterConfig) -> DnsFilterState {
    DnsFilterState::new(&config)
}

#[test]
fn a_policy_comes_before_the_lists() {
    let state = filter(DnsFilterConfig {
        blocklist: words(&["ads.example.com"]),
        allowlist: words(&["ok.ads.example.com"]),
        domain_policies: vec![DomainPolicy {
            domain: "video.example.com".to_string(),
            classification: DnsClassification::B4,
            ip_override: Some(ipv4(192, 0, 2, 1)),
            ttl: None,
        }],
        ..DnsFilterConfig::default()
    });
    assert_eq!(state.classify("video.example.com"), (DnsClassification::B4, Some(ipv4(192, 0, 2, 1))));
    assert_eq!(state.classify("ADS.example.com").0, DnsClassification::Block);
    assert_eq!(state.classify("ok.ads.example.com").0, DnsClassification::Direct);
    assert_eq!(state.classify("other.example").0, DnsClassification::Direct);
}

#[test]
fn names_are_lowered_beyond_ascii() {
    let state = filter(DnsFilterConfig { blocklist: words(&["реклама.example"]), ..DnsFilterConfig::default() });
    assert_eq!(state.classify("РЕКЛАМА.example").0, DnsClassification::Block);
}

#[test]
fn a_blocked_name_is_refused_by_the_filter() {
    let mut state = filter(DnsFilterConfig { blocklist: words(&["ads.example.com"]), ..DnsFilterConfig::default() });
    let q = query_with_id(0x2222, b"\x03ads\x07example\x03com\x00");
    match state.on_query(&q, 0) {
        FilterStep::Answer(a) => {
            assert_eq!(a, build_nxdomain(&q));
            assert_eq!(&a[..2], &[0x22, 0x22]);
            assert_eq!(a[3] & 0x0f, 3);
        }
        other => panic!("unexpected: {:?}", other),
    }
    assert_eq!(build_servfail(&q)[3] & 0x0f, 2);
    assert_eq!(DnsFilterState::extract_domain(&q).as_deref(), Some("ads.example.com"));
}

#[test]
fn the_filter_caches_what_it_was_told() {
    let mut state = filter(DnsFilterConfig { upstreams: vec![at(53)], ..DnsFilterConfig::default() });
    let mut registry = DnsRegistry::new();
    let q = query_with_id(0x2222, b"\x03www\x07example\x03com\x00");
    assert!(matches!(state.on_query(&q, 0), FilterStep::Ask(_)));
    let reply = vec![0x22, 0x22, 0x81, 0x80];
    assert_eq!(state.on_reply(&q, Some((0, reply.clone())), &mut registry, false, 0), reply);
    assert!(matches!(state.on_query(&q, 1), FilterStep::Answer(a) if a == reply));
    assert_eq!(state.on_reply(b"\x01\x02\x01\x00\x00\x00\x00\x00\x00\x00\x00\x00", None, &mut registry, false, 0)[3] & 0x0f, 2);
}

#[test]
fn addresses_are_read_from_answers() {
    let resp = Msg::with_header(true, false, 0, 1, 1)
        .question(&["example", "com"])
        .answer(&["example", "com"], TYPE_A, 120, &[203, 0, 113, 5])
        .build();
    assert_eq!(parse_a_aaaa(&resp), Some(vec![ipv4(203, 0, 113, 5)]));
}

#[test]
fn the_filter_driver_is_healthy_while_it_runs() {
    let mut driver = DnsFilterDriver::new(9);
    assert!(driver.health_check() != HealthStatus::Healthy);
    driver.started(at(53));
    assert_eq!(driver.local_addr(), Some(at(53)));
    assert_eq!(driver.health_check(), HealthStatus::Healthy);
    driver.stopped();
    assert!(driver.health_check() != HealthStatus::Healthy);
}

#[test]
fn upstreams_are_asked_in_order_until_one_answers() {
    let asked = |answers: &[bool]| -> Vec<usize> {
        let mut order = Vec::new();
        let mut at = Some(0);
        while let Some(i) = at {
            order.push(i);
            at = next_upstream(i, answers.len(), answers[i]);
        }
        order
    };
    assert_eq!(asked(&[true, true]), vec![0]);
    assert_eq!(asked(&[false, true, true]), vec![0, 1]);
    assert_eq!(asked(&[false, false, false]), vec![0, 1, 2]);
    assert_eq!(next_upstream(0, 0, false), None);
    assert_eq!(next_upstream(usize::MAX, usize::MAX, false), None);
}
