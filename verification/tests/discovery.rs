use balansir_daemon::b4_discovery::{
    build_candidate_sets, B4Discovery, CandidateStatus, ConnectivityProbe, DiscoveryManager, TcpTlsProbe, TrialStep,
    Verdict,
};
use balansir_daemon::b4_dpi::{DpiInner, DpiManager, DpiOp, DpiStats, DpiStep};

/// A probe that always finds the same quality.
struct FakeProbe {
    quality: f64,
    calls: u32,
}

impl ConnectivityProbe for FakeProbe {
    fn probe(&mut self, _host: &str) -> u64 {
        self.calls += 1;
        self.quality.to_bits()
    }
    fn works(&self, quality: u64) -> bool {
        !(f64::from_bits(quality) < 0.5)
    }
    fn beats(&self, quality: u64, rival: u64, threshold: u64) -> bool {
        f64::from_bits(quality) > f64::from_bits(rival) * (1.0 + f64::from_bits(threshold) / 100.0)
    }
    fn shown(&self, quality: u64) -> String {
        format!("{:.2}", f64::from_bits(quality))
    }
}

fn fake(quality: f64) -> FakeProbe {
    FakeProbe { quality, calls: 0 }
}

#[test]
fn discovers_and_selects_first_working_candidate() {
    let mut d = B4Discovery::new();
    let mut probe = fake(0.95);
    d.observe_blocked("youtube.com");
    let selected = d.discover("youtube.com", 2000, &mut probe);
    assert!(selected.is_some());
    assert_eq!(d.active_for("youtube.com"), selected);
    assert_eq!(d.state()[0].last_event.as_deref(), Some("selected mss (quality 0.95)"));
}

#[test]
fn blocked_domain_gets_no_strategy() {
    let mut d = B4Discovery::new();
    let mut probe = fake(0.0);
    d.observe_blocked("example.com");
    let selected = d.discover("example.com", 2000, &mut probe);
    assert!(selected.is_none());
    let state = d.state();
    assert_eq!(state[0].candidates[0].status, CandidateStatus::Measured);
    assert_eq!(state[0].candidates[0].rejected_reason.as_deref(), Some("connectivity probe failed"));
    assert_eq!(state[0].last_event.as_deref(), Some("candidate mss rejected (quality 0.00)"));
}

#[test]
fn discovery_is_bounded_by_budget() {
    let mut d = B4Discovery::new();
    let mut probe = fake(0.95);
    d.config.max_candidates_per_domain = 2;
    d.observe_blocked("x.com");
    let first = d.discover("x.com", 100, &mut probe);
    assert!(first.is_some());
    // Second candidate better → switches.
    let _ = d.discover("x.com", 200, &mut probe);
    assert!(d.active_for("x.com").is_some());
}

#[test]
fn a_used_up_budget_ends_the_search() {
    let mut d = B4Discovery::new();
    let mut probe = fake(0.0);
    d.config.max_candidates_per_domain = 2;
    for k in 0..10 {
        assert!(d.discover("x.com", k, &mut probe).is_none());
    }
    assert_eq!(probe.calls, 2);
}

#[test]
fn failing_passes_climb_the_ladder() {
    let ladder = ["mss", "pastseq", "combo", "combo+quic"];
    let mut d = B4Discovery::new();
    let mut probe = fake(0.0);
    for k in 0..7 {
        assert!(d.discover("x.com", 1000 * k as i64, &mut probe).is_none());
        let tried = if k < 4 { k + 1 } else { 4 };
        assert_eq!(probe.calls as usize, tried);
        let state = d.state();
        assert!(state[0].active.is_none());
        for (i, c) in state[0].candidates.iter().enumerate() {
            assert_eq!(c.name, ladder[i]);
            if i < tried {
                assert_eq!(c.status, CandidateStatus::Measured);
                assert_eq!(c.rejected_reason.as_deref(), Some("connectivity probe failed"));
            } else {
                assert_eq!(c.status, CandidateStatus::Untried);
            }
        }
    }
    assert!(d.active_sets().is_empty());
}

#[test]
fn sets_in_use_are_those_of_the_ladder() {
    let mut d = B4Discovery::new();
    assert_eq!(d.discover("a.com", 0, &mut fake(0.0)), None);
    assert_eq!(d.discover("a.com", 1, &mut fake(0.9)).as_deref(), Some("pastseq"));
    assert_eq!(d.discover("b.com", 1, &mut fake(0.9)).as_deref(), Some("mss"));
    let used = d.active_sets();
    let ladder = build_candidate_sets();
    assert_eq!(used.len(), 2);
    for (set, rung) in used.iter().zip(ladder.iter()) {
        assert_eq!(format!("{set:?}"), format!("{rung:?}"));
    }
}

#[test]
fn fresh_strategy_is_not_reprobed() {
    let mut d = B4Discovery::new();
    let mut probe = fake(0.9);
    d.observe_blocked("youtube.com");
    let selected = d.discover("youtube.com", 1000, &mut probe).unwrap();
    // Same TTL window → reuse, no new probe call.
    let again = d.discover("youtube.com", 2000, &mut probe).unwrap();
    assert_eq!(selected, again);
    assert_eq!(probe.calls, 1);
}

#[test]
fn a_stale_strategy_is_tried_against_the_next() {
    let mut d = B4Discovery::new();
    assert_eq!(d.discover("x.com", 0, &mut fake(0.6)).as_deref(), Some("mss"));
    let later = 86_400_000 + 1;
    // Better by less than the threshold: the old one stays.
    assert_eq!(d.discover("x.com", later, &mut fake(0.7)).as_deref(), Some("mss"));
    assert_eq!(d.state()[0].last_event.as_deref(), Some("candidate pastseq measured 0.70, below threshold"));
    assert_eq!(d.discover("x.com", later, &mut fake(0.9)).as_deref(), Some("combo"));
}

#[test]
fn a_strategy_stays_in_use_where_nothing_is_due() {
    let mut d = B4Discovery::new();
    assert_eq!(d.discover("x.com", 0, &mut fake(0.9)).as_deref(), Some("mss"));
    // Past the time for which it is fresh the others are measured, and none is better.
    let later = 86_400_000 + 1;
    for _ in 0..3 {
        assert_eq!(d.discover("x.com", later, &mut fake(0.7)).as_deref(), Some("mss"));
    }
    let mut probe = fake(0.7);
    assert_eq!(d.discover("x.com", later, &mut probe).as_deref(), Some("mss"));
    assert_eq!(probe.calls, 0);
}

#[test]
fn candidate_ladder_is_ordered_and_bounded() {
    let sets = build_candidate_sets();
    assert_eq!(sets.len(), 4);
    assert_eq!(sets[0].name, "mss");
    assert_eq!(sets[3].name, "combo+quic");
    assert!(sets[3].wants_udp());
    assert!(!sets[0].wants_udp());
}

#[test]
fn no_more_trials_than_allowed_at_a_time() {
    let mut d = B4Discovery::new();
    for k in 0..4 {
        let domain = format!("d{}.example", k);
        assert!(matches!(d.begin(&domain, 0), TrialStep::Try { .. }));
    }
    assert!(matches!(d.begin("one.more.example", 0), TrialStep::Settled(None)));
    let verdict =
        Verdict { quality_bits: 1.0f64.to_bits(), quality_text: "1.00".to_string(), passed: true, better: false };
    assert_eq!(d.finish("d0.example", 0, 5, &verdict).as_deref(), Some("mss"));
    assert!(matches!(d.begin("one.more.example", 0), TrialStep::Try { .. }));
}

#[test]
fn domains_are_listed_in_order() {
    let mut d = B4Discovery::new();
    for domain in ["b.example", "a.example", "c.example"] {
        d.observe_blocked(domain);
    }
    assert_eq!(d.domains(), vec!["a.example", "b.example", "c.example"]);
    assert!(d.active_sets().is_empty());
    d.discover("b.example", 0, &mut fake(1.0));
    let names: Vec<String> = d.active_sets().into_iter().map(|s| s.name).collect();
    assert_eq!(names, vec!["mss"]);
}

#[test]
fn a_search_that_is_off_does_nothing() {
    let mut m = DiscoveryManager::new();
    assert!(m.is_enabled());
    m.set_enabled(false);
    assert!(matches!(m.on_blocked("x.com", 0), TrialStep::Settled(None)));
    assert!(m.snapshot().domains.is_empty());
    m.set_enabled(true);
    assert!(matches!(m.on_blocked("x.com", 0), TrialStep::Try { index: 0, .. }));
    assert_eq!(m.snapshot().domains[0].domain, "x.com");
    assert!(m.active_for("x.com").is_none());
}

#[test]
fn a_probe_waits_three_seconds() {
    let p = TcpTlsProbe::new(443);
    assert_eq!(p.port, 443);
    assert_eq!(p.timeout_secs, 3);
}

fn dpi(executor: bool) -> DpiManager {
    DpiManager::new_with_executor(
        DpiInner {
            queue_num: 7,
            ports: vec![443, 8443],
            profiles: vec!["video".to_string()],
            config_path: Some("/etc/dpi.toml".to_string()),
        },
        executor,
    )
}

fn counted(dead: bool) -> DpiStats {
    DpiStats { packets_seen: 10, tls_packets: 5, mutated: 3, accepted: 9, dropped: 1, errors: 2, dead }
}

#[test]
fn an_engine_is_started_once() {
    let mut m = dpi(true);
    assert_eq!(m.start(), Ok(true));
    match m.run(Ok(())) {
        Ok(Some(DpiOp::InstallQueue { queue_num, ports })) => {
            assert_eq!(queue_num, 7);
            assert_eq!(ports, vec![443, 8443]);
        }
        other => panic!("unexpected: {:?}", other),
    }
    m.started(&Some(Ok(2)));
    assert!(m.is_enabled());
    assert_eq!(m.start(), Err("DPI engine already running".to_string()));
    assert!(matches!(m.set_enabled(false), Ok(DpiStep::Stop(Some(DpiOp::RemoveQueue)))));
    m.stopped(&Some(Err("EPERM".to_string())));
    assert!(!m.is_enabled());
    assert_eq!(m.last_error.as_deref(), Some("queue rule removal: EPERM"));
}

#[test]
fn an_engine_that_cannot_run_stays_off() {
    let m = dpi(true);
    assert!(matches!(m.run(Err("bind".to_string())), Err(e) if e == "bind"));
    assert!(!m.is_enabled());
    let mut alone = dpi(false);
    assert!(matches!(alone.run(Ok(())), Ok(None)));
    alone.started(&None);
    assert!(alone.stop().is_none());
    let mut failing = dpi(true);
    failing.started(&Some(Err("nft".to_string())));
    assert_eq!(failing.last_error.as_deref(), Some("queue rule install: nft"));
    assert!(failing.is_enabled());
}

#[test]
fn the_status_shows_the_engine() {
    let mut m = dpi(true);
    m.started(&None);
    let _ = m.notify_blocked("x.com", 0);
    let st = m.status(&counted(true));
    assert!(st.enabled && st.engine_dead);
    assert_eq!((st.queue_num, st.packets_seen, st.errors, st.queue_rules), (7, 10, 2, 0));
    assert_eq!(st.ports, vec![443, 8443]);
    assert_eq!(st.profiles, vec!["video"]);
    assert_eq!(st.discovery.domains[0].candidates[0].status, "trying");
    let off = DpiManager::default().status(&counted(true));
    assert_eq!((off.queue_num, off.packets_seen, off.engine_dead), (0, 0, false));
    assert_eq!(off.ports, vec![443]);
    assert!(off.config_path.is_none());
}
