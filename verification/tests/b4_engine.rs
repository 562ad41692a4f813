use balansir_daemon::b4_engine::classify::{classify, B4Class};
use balansir_daemon::b4_engine::config::{B4EngineToml, B4FlowToml, B4Toml};
use balansir_daemon::b4_engine::controller::{B4Controller, ControlStep, MtuChange, PathMtu, PathMtuReconciler};
use balansir_daemon::b4_engine::host::{host_stack_observe, remote_ip_str, CompositeObserver};
use balansir_daemon::b4_engine::observe::{B4Observation, B4Observer, NoopObserver};
use balansir_daemon::b4_engine::policy::{B4Capability, B4FailSemantic, B4FlowRule, B4Policy, B4Profile};
use balansir_daemon::b4_engine::state::{B4Decision, B4Engine, B4EngineConfig, B4Event, B4State};
use balansir_daemon::b4_manager::{drift_between, sample_for, B4Manager, B4ManagerHandle};
use balansir_daemon::events::SubsystemEvent;
use balansir_daemon::model::{Action, DesiredRule, FlowCriteria};
use balansir_daemon::net::ipv4;
use balansir_daemon::reconciliation::dns_flow::{DnsRegistry, FlowCompiler};
use balansir_daemon::snapshot::PathHealthView;
use balansir_daemon::text_map::TextMap;

fn observed() -> B4Observation {
    B4Observation::default()
}

#[test]
fn unknown_when_no_signals() {
    assert_eq!(classify(&B4Observation::default()), B4Class::Unknown);
}

#[test]
fn direct_when_healthy() {
    let obs = B4Observation { rtt_us: Some(20_000), connect_latency_us: Some(30_000), ..observed() };
    assert_eq!(classify(&obs), B4Class::Direct);
}

#[test]
fn reset_or_timeout_is_interfered() {
    let obs = B4Observation { reset_or_timeout: Some(true), ..observed() };
    assert_eq!(classify(&obs), B4Class::Interfered);
}

#[test]
fn dns_failure_is_interfered() {
    let obs = B4Observation { dns_ok: Some(false), ..observed() };
    assert_eq!(classify(&obs), B4Class::Interfered);
}

#[test]
fn heavy_retransmissions_are_degraded() {
    let obs = B4Observation { retransmissions: Some(7), ..observed() };
    assert_eq!(classify(&obs), B4Class::Degraded);
}

#[test]
fn mtu_symptom_is_interfered() {
    let obs = B4Observation { mtu_symptom: Some(true), ..observed() };
    assert_eq!(classify(&obs), B4Class::Interfered);
}

#[test]
fn unknown_observation_has_no_signals() {
    assert!(!B4Observation::default().any_signal());
}

fn flow_toml(domain: &str, capabilities: Vec<&str>, fail: &str) -> B4FlowToml {
    B4FlowToml {
        domain: domain.to_string(),
        capabilities: capabilities.iter().map(|c| c.to_string()).collect(),
        fail: fail.to_string(),
        allow_direct: true,
        allow_tunnel: false,
    }
}

#[test]
fn parses_engine_and_flows() {
    let cfg = B4Toml {
        engine: B4EngineToml { enabled: true, max_attempts: 5 },
        flows: vec![flow_toml("example.com", vec!["mtu", "dns_path"], "SAFE")],
    };
    assert!(cfg.engine.enabled);
    assert_eq!(cfg.engine.max_attempts, 5);
    let policy = cfg.policy().unwrap();
    assert_eq!(policy.flows.len(), 1);
    let p = policy.profile_for("example.com");
    assert_eq!(p.fail, B4FailSemantic::Safe);
    assert!(p.allow_direct);
    assert!(!p.allow_tunnel);
    assert_eq!(cfg.engine_config().max_attempts, 5);
}

#[test]
fn defaults_are_sane() {
    let cfg = B4Toml::default();
    assert!(cfg.engine.enabled);
    assert_eq!(cfg.engine.max_attempts, 3);
    assert!(cfg.policy().unwrap().flows.is_empty());
}

#[test]
fn unknown_capability_is_rejected() {
    let cfg = B4Toml { engine: B4EngineToml::default(), flows: vec![flow_toml("x.com", vec!["magic"], "STRICT")] };
    assert!(cfg.policy().is_err());
}

#[test]
fn default_profile_is_strict_direct_only() {
    let p = B4Profile::default();
    assert_eq!(p.fail, B4FailSemantic::Strict);
    assert!(p.allow_direct);
    assert!(!p.allow_tunnel);
    assert!(p.capabilities.is_empty());
}

#[test]
fn profile_matches_domain_and_subdomains() {
    let policy = B4Policy {
        flows: vec![B4FlowRule {
            domain: "example.com".into(),
            profile: B4Profile {
                capabilities: vec![B4Capability::Mtu, B4Capability::DnsPath],
                fail: B4FailSemantic::Safe,
                allow_direct: true,
                allow_tunnel: false,
            },
        }],
    };
    assert_eq!(policy.profile_for("example.com").fail, B4FailSemantic::Safe);
    assert_eq!(
        policy.profile_for("video.example.com").capabilities,
        vec![B4Capability::Mtu, B4Capability::DnsPath]
    );
    // Unknown domain -> strict default, no capabilities.
    let unknown = policy.profile_for("other.net");
    assert_eq!(unknown.fail, B4FailSemantic::Strict);
    assert!(unknown.capabilities.is_empty());
}

fn policy_with(profile: B4Profile) -> B4Policy {
    B4Policy { flows: vec![B4FlowRule { domain: "example.com".into(), profile }] }
}

fn mtu_profile() -> B4Profile {
    B4Profile { capabilities: vec![B4Capability::Mtu], ..B4Profile::default() }
}

#[test]
fn healthy_flow_is_recovered() {
    let obs = B4Observation { rtt_us: Some(20_000), ..observed() };
    let mut engine = B4Engine::new(policy_with(B4Profile::default()));
    let (decision, _) = engine.evaluate("example.com", &obs);
    assert_eq!(decision, B4Decision::Recovered);
    assert_eq!(engine.state_of("example.com"), B4State::Recovered);
}

#[test]
fn mtu_symptom_triggers_mtu_adaptation() {
    let obs = B4Observation { mtu_symptom: Some(true), ..observed() };
    let mut engine = B4Engine::new(policy_with(mtu_profile()));
    let (decision, _) = engine.evaluate("example.com", &obs);
    assert!(matches!(decision, B4Decision::AdaptMtu { mtu } if mtu == 1480));
    assert_eq!(engine.state_of("example.com"), B4State::Monitoring);
}

#[test]
fn blocked_strict_flow_fails_rather_than_bypass() {
    let obs = B4Observation { reset_or_timeout: Some(true), ..observed() };
    let mut engine = B4Engine::new(policy_with(B4Profile::default()));
    let (decision, _) = engine.evaluate("blocked.example.com", &obs);
    assert_eq!(decision, B4Decision::FailStrict);
    assert_eq!(engine.state_of("blocked.example.com"), B4State::StrictFail);
}

#[test]
fn safe_flow_with_direct_allowed_uses_restricted_fallback() {
    let obs = B4Observation { reset_or_timeout: Some(true), ..observed() };
    let policy = policy_with(B4Profile { fail: B4FailSemantic::Safe, allow_direct: true, ..B4Profile::default() });
    let mut engine = B4Engine::new(policy);
    let (decision, _) = engine.evaluate("safe.example.com", &obs);
    assert_eq!(decision, B4Decision::UseFallback);
    assert_eq!(engine.state_of("safe.example.com"), B4State::Fallback);
}

#[test]
fn disabled_engine_only_classifies() {
    let obs = B4Observation { mtu_symptom: Some(true), ..observed() };
    let mut engine = B4Engine::with_config(
        policy_with(mtu_profile()),
        B4EngineConfig { enabled: false, ..B4EngineConfig::default() },
    );
    let (decision, events) = engine.evaluate("example.com", &obs);
    assert_eq!(decision, B4Decision::Noop);
    assert!(events.iter().all(|e| matches!(e, B4Event::Classified { .. })));
}

struct MtuSymptomObserver;

impl B4Observer for MtuSymptomObserver {
    fn observe(&mut self, flow: &str) -> B4Observation {
        if flow.contains("example") {
            B4Observation { mtu_symptom: Some(true), ..observed() }
        } else {
            B4Observation { rtt_us: Some(10_000), ..observed() }
        }
    }
}

/// The sizes that an executor was told, by path.
fn carry_out(step: &ControlStep, flow: &str, held: &mut Vec<PathMtu>) {
    match step {
        ControlStep::SetMtu { mtu } => {
            held.retain(|p| p.path != flow);
            held.push(PathMtu { path: flow.to_string(), mtu: *mtu });
        }
        ControlStep::RestoreMtu => held.retain(|p| p.path != flow),
        ControlStep::Nothing => {}
    }
}

fn run(controller: &mut B4Controller, flow: &str, held: &mut Vec<PathMtu>) {
    let obs = MtuSymptomObserver.observe(flow);
    let (step, _) = controller.run_for(flow, &obs);
    carry_out(&step, flow, held);
    match step {
        ControlStep::SetMtu { mtu } => controller.set_done(flow, mtu, true),
        ControlStep::RestoreMtu => controller.restore_done(flow, true),
        ControlStep::Nothing => {}
    }
}

#[test]
fn each_path_is_changed_once() {
    let entry = |path: &str, mtu: u16| PathMtu { path: path.into(), mtu };
    let intended = vec![entry("a", 1400), entry("b", 1300), entry("a", 1380)];
    let reported = vec![entry("c", 1200), entry("b", 1300), entry("c", 1200)];
    let (changes, after) = PathMtuReconciler::reconcile(&intended, &reported);
    assert_eq!(changes.len(), 2);
    assert!(matches!(&changes[0], MtuChange::Apply { path, mtu: 1380 } if path == "a"));
    assert!(matches!(&changes[1], MtuChange::Restore { path } if path == "c"));
    assert_eq!(after.len(), 2);
}

fn converge(intended: &Vec<PathMtu>, held: &mut Vec<PathMtu>) {
    let (changes, _) = PathMtuReconciler::reconcile(intended, held);
    for change in &changes {
        match change {
            MtuChange::Apply { path, mtu } => {
                held.retain(|p| &p.path != path);
                held.push(PathMtu { path: path.clone(), mtu: *mtu });
            }
            MtuChange::Restore { path } => held.retain(|p| &p.path != path),
        }
    }
}

#[test]
fn controller_applies_mtu_and_records_intent() {
    let mut held = Vec::new();
    let mut controller = B4Controller::new(policy_with(mtu_profile()), B4EngineConfig::default());
    run(&mut controller, "example.com", &mut held);
    let intended = controller.intended_path_mtu();
    assert_eq!(intended.len(), 1);
    assert_eq!(intended[0].path, "example.com");
    assert!(intended[0].mtu < 1500);
    // Executor reflects the applied change.
    assert_eq!(held.len(), 1);
}

#[test]
fn recovery_rolls_back_applied_mtu() {
    let mut held = Vec::new();
    let mut controller = B4Controller::new(policy_with(mtu_profile()), B4EngineConfig::default());
    run(&mut controller, "example.com", &mut held);
    assert_eq!(held.len(), 1);
    run(&mut controller, "example.com", &mut held);
    run(&mut controller, "other.example", &mut held);
    converge(&vec![], &mut held);
    assert!(held.is_empty());
}

#[test]
fn a_healthy_flow_gives_its_size_back() {
    let mut controller = B4Controller::new(policy_with(mtu_profile()), B4EngineConfig::default());
    let (step, _) = controller.run_for("example.com", &B4Observation { mtu_symptom: Some(true), ..observed() });
    assert!(matches!(step, ControlStep::SetMtu { mtu: 1480 }));
    controller.set_done("example.com", 1480, true);
    let (step, _) = controller.run_for("example.com", &B4Observation { rtt_us: Some(10_000), ..observed() });
    assert!(matches!(step, ControlStep::RestoreMtu));
    controller.restore_done("example.com", true);
    assert!(controller.intended_path_mtu().is_empty());
}

#[test]
fn reconciler_removes_drift_and_applies_intent() {
    // Drift: executor has a path the daemon does not want.
    let mut held = vec![PathMtu { path: "stale.example".into(), mtu: 1200 }];
    // Intent: a path the executor must have.
    let intended = vec![PathMtu { path: "needed.example".into(), mtu: 1400 }];
    converge(&intended, &mut held);
    assert_eq!(held.len(), 1);
    assert_eq!(held[0].path, "needed.example");
    assert_eq!(held[0].mtu, 1400);
}

#[test]
fn controller_uses_observer_directly() {
    // Sanity: controller + NoopObserver produces no adaptation.
    let mut controller = B4Controller::new(B4Policy::default(), B4EngineConfig::default());
    let obs = NoopObserver.observe("unknown.example");
    let (step, _) = controller.run_for("unknown.example", &obs);
    assert!(matches!(step, ControlStep::Nothing));
    assert!(controller.intended_path_mtu().is_empty());
}

#[test]
fn composite_observes_dns_status() {
    let mut registry = DnsRegistry::new();
    registry.insert("api.example.com", vec![ipv4(203, 0, 113, 5)]);
    let mut observer = CompositeObserver::new(Some(registry));
    let obs = observer.observe("api.example.com", "", "", 0);
    assert_eq!(obs.dns_ok, Some(true));

    let mut no_dns = CompositeObserver::new(Some(DnsRegistry::new()));
    let obs2 = no_dns.observe("missing.example.com", "", "", 0);
    assert_eq!(obs2.dns_ok, Some(false));
}

fn observed_dns(registry: DnsRegistry) -> (Option<bool>, DnsRegistry) {
    let mut observer = CompositeObserver::new(Some(registry));
    let seen = observer.observe("api.example.com", "", "", 0);
    (seen.dns_ok, observer.dns.take().unwrap())
}

#[test]
fn shared_registry_is_single_observation_truth() {
    let rule = DesiredRule {
        id: 7,
        action: Action::Block,
        priority: 100,
        flow: Some(FlowCriteria { dst_domain: Some("api.example.com".to_string()), ..FlowCriteria::default() }),
    };
    // There is one registry: it is lent to the compiler and to the observer in turn.
    let mut compiler = FlowCompiler::new(DnsRegistry::new());
    assert!(compiler.compile_rule(&rule, 0).is_empty(), "unresolved domain before observation");
    let (before, mut registry) = observed_dns(compiler.registry);
    assert_eq!(before, Some(false));

    registry.insert("api.example.com", vec![ipv4(203, 0, 113, 5), ipv4(203, 0, 113, 6)]);
    let mut compiler = FlowCompiler::new(registry);
    let compiled = compiler.compile_rule(&rule, 0);
    assert_eq!(compiled.len(), 2);
    let (after, mut registry) = observed_dns(compiler.registry);
    assert_eq!(after, Some(true));

    registry.remove("api.example.com");
    let mut compiler = FlowCompiler::new(registry);
    assert!(compiler.compile_rule(&rule, 0).is_empty());
    let (removed, _) = observed_dns(compiler.registry);
    assert_eq!(removed, Some(false));
}

#[test]
fn proc_net_remote_decodes_ipv4() {
    // 0100007F = 127.0.0.1 little-endian.
    assert_eq!(remote_ip_str("0100007F:1F90", false), Some(ipv4(127, 0, 0, 1)));
    // 02C6A8C0 LE -> bytes 0xC0 0xA8 0xC6 0x02 -> 192.168.198.2.
    let ip = remote_ip_str("02C6A8C0:01BB", false).unwrap();
    assert_eq!(ip.to_text(), "192.168.198.2");
}

#[test]
fn retransmissions_are_read_from_the_kernel_table() {
    let table = "  sl  local_address rem_address   st tx_queue rx_queue tr tm->when retrnsmt   uid\n   0: 0100007F:0016 05710CCB:01BB 01 00000000:00000000 00:00000000 00000007     0        0 1 1\n";
    let seen = host_stack_observe("203.12.113.5", &Some(vec![ipv4(203, 12, 113, 5)]), table, "");
    assert_eq!(seen.retransmissions, Some(7));
}

#[test]
fn drift_detection() {
    let empty: Vec<PathMtu> = vec![];
    assert!(!drift_between(&empty, &empty));
    let i = vec![PathMtu { path: "a.example".into(), mtu: 1400 }];
    assert!(drift_between(&i, &empty));
    let r = vec![PathMtu { path: "a.example".into(), mtu: 1400 }];
    assert!(!drift_between(&i, &r));
}

#[test]
fn paused_handle_toggles() {
    let mut handle = B4ManagerHandle { paused: false };
    assert!(!handle.is_paused());
    handle.set_paused(true);
    assert!(handle.is_paused());
}

#[test]
fn a_handle_pauses_its_manager() {
    let toml = B4Toml { engine: B4EngineToml::default(), flows: vec![flow_toml("example.com", vec!["mtu"], "STRICT")] };
    let mut manager = B4Manager::from_toml("/etc/b4.toml", &toml).unwrap();
    assert!(!manager.is_paused());
    manager.handle().set_paused(true);
    assert!(manager.is_paused());
    assert!(manager.handle().is_paused());
    assert!(manager.cycle_flows().is_empty());
    manager.handle().set_paused(false);
    assert!(!manager.is_paused());
    assert_eq!(manager.cycle_flows(), vec!["example.com".to_string()]);
}

#[test]
fn decisions_stay_within_policy() {
    let toml = B4Toml {
        engine: B4EngineToml { enabled: true, max_attempts: 100 },
        flows: vec![flow_toml("example.com", vec!["mtu"], "STRICT")],
    };
    let mut engine = B4Engine::with_config(toml.policy().unwrap(), toml.engine_config());
    let symptom = B4Observation { mtu_symptom: Some(true), ..observed() };
    let mut last = 0;
    for k in 0..20 {
        match engine.evaluate("example.com", &symptom).0 {
            B4Decision::AdaptMtu { mtu } => {
                assert!((1280..=1480).contains(&mtu));
                assert_eq!(mtu, if k < 11 { 1480 - 20 * k } else { 1280 });
                last = mtu;
            }
            other => panic!("{other:?}"),
        }
    }
    assert_eq!(last, 1280);
    // Another DNS path is nothing that this flow may use, nor is a fallback.
    let dns = B4Observation { dns_ok: Some(false), ..observed() };
    assert_eq!(engine.evaluate("example.com", &dns).0, B4Decision::FailStrict);
    // A flow without a rule may use nothing.
    assert_eq!(engine.evaluate("other.example", &symptom).0, B4Decision::FailStrict);
    assert_eq!(engine.evaluate("other.example", &observed()).0, B4Decision::Noop);
}

#[test]
fn observation_maps_to_unified_path_sample() {
    // A reset marks the path unreachable.
    let s = sample_for(&B4Observation { reset_or_timeout: Some(true), ..observed() });
    assert!(!s.reachable);
    // Heavy retransmits with a normal RTT become degraded evidence without
    // inventing latency/loss numbers.
    let s = sample_for(&B4Observation { rtt_us: Some(120_000), retransmissions: Some(4), ..observed() });
    assert!(s.reachable);
    assert!(s.degraded_evidence);
    assert_eq!(s.latency_us, Some(120_000));
    // DNS failure marks the path unreachable too.
    let s = sample_for(&B4Observation { dns_ok: Some(false), ..observed() });
    assert!(!s.reachable);
}

fn b4_toml() -> B4Toml {
    B4Toml { engine: B4EngineToml::default(), flows: vec![flow_toml("example.com", vec!["mtu"], "STRICT")] }
}

#[test]
fn the_manager_shows_its_flows() {
    let mut manager = B4Manager::from_toml("/etc/b4.toml", &b4_toml()).unwrap();
    let obs = B4Observation { mtu_symptom: Some(true), ..observed() };
    let (step, events) = manager.run_flow("example.com", &obs);
    assert!(matches!(step, ControlStep::SetMtu { mtu: 1480 }));
    assert!(events.iter().any(|e| matches!(e, SubsystemEvent::B4Adapted { .. })));
    manager.controller.set_done("example.com", 1480, true);
    let paths: TextMap<PathHealthView> = TextMap::new();
    let shown = manager.observe_snapshot(vec![], &paths);
    assert_eq!(shown.flows.len(), 1);
    assert_eq!(shown.flows[0].flow, "example.com");
    assert_eq!(shown.intended_mtu.len(), 1);
    assert!(shown.drift);
    assert_eq!(shown.config_path.as_deref(), Some("/etc/b4.toml"));
}

#[test]
fn a_flow_that_cannot_be_read_is_refused() {
    let bad = B4Toml { engine: B4EngineToml::default(), flows: vec![flow_toml("x.com", vec!["magic"], "STRICT")] };
    assert!(B4Manager::from_toml("/etc/b4.toml", &bad).is_err());
}

#[test]
fn the_size_of_packets_has_a_floor() {
    let mut engine = B4Engine::new(policy_with(mtu_profile()));
    let obs = B4Observation { mtu_symptom: Some(true), ..observed() };
    for _ in 0..50 {
        let (decision, _) = engine.evaluate("example.com", &obs);
        if let B4Decision::AdaptMtu { mtu } = decision {
            assert!(mtu >= 1280 && mtu < 1500);
        }
    }
}
