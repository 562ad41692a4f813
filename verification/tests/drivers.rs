use std::collections::HashSet;

use balansir_daemon::b4::{B4Config, B4Driver, B4Mode, B4Strategy};
use balansir_daemon::driver::config::{DriverConfig, DriverConfigFile, DriverConfigRegistry, DriverEntry};
use balansir_daemon::driver::dummy::DummyDriver;
use balansir_daemon::driver::factory::ConfiguredFactory;
use balansir_daemon::driver::health::{health_tier_of, tier_counts, HealthTier, TierTracker};
use balansir_daemon::driver::lifecycle::{
    DriverIntent, DriverLifecycleEvent, DriverLifecycleManager, DriverLifecycleState, DriverOutcome,
};
use balansir_daemon::model::{DriverError, DriverId, HealthStatus};

#[test]
fn test_dummy_driver() {
    let mut driver = DummyDriver::new("dummy-1", "Test Dummy");
    assert_eq!(driver.id(), "dummy-1");
    assert_eq!(driver.name(), "Test Dummy");
    driver.start();
    assert_eq!(driver.health_check(), HealthStatus::Healthy);
    driver.stop();
    assert_eq!(driver.health_check(), HealthStatus::Unhealthy { reason: 1 });
}

fn b4(mode: B4Mode, ports: Vec<u16>, strategies: Vec<B4Strategy>, upstream: Option<&str>) -> B4Config {
    B4Config { mode, ports, strategies, upstream: upstream.map(|s| s.to_string()) }
}

#[test]
fn registry_roundtrips_typed_b4_config() {
    let config = DriverConfig::B4(b4(
        B4Mode::Proxy,
        vec![443],
        vec![B4Strategy::TtlDisorientation],
        Some("127.0.0.1:8080"),
    ));
    let mut registry = DriverConfigRegistry::new();
    registry.insert(DriverId::B4, config);
    match registry.get(DriverId::B4).unwrap() {
        DriverConfig::B4(c) => {
            assert!(matches!(c.mode, B4Mode::Proxy));
            assert_eq!(c.ports, vec![443]);
        }
        _ => panic!("expected B4 config"),
    }
}

#[test]
fn registry_from_toml_resolves_driver_names() {
    let file = DriverConfigFile {
        drivers: vec![DriverEntry {
            id: "b4".to_string(),
            config: DriverConfig::B4(b4(B4Mode::Proxy, vec![443], vec![], Some("127.0.0.1:8080"))),
        }],
    };
    let registry = DriverConfigRegistry::from_file_config(file).unwrap();
    assert_eq!(registry.len(), 1);
    assert!(registry.get(DriverId::B4).is_some());
}

#[test]
fn an_unknown_driver_name_is_an_error() {
    let file = DriverConfigFile {
        drivers: vec![DriverEntry {
            id: "warp".to_string(),
            config: DriverConfig::B4(b4(B4Mode::Proxy, vec![443], vec![], None)),
        }],
    };
    match DriverConfigRegistry::from_file_config(file) {
        Err(DriverError::ConfigInvalid(e)) => assert!(e.contains("warp")),
        Err(e) => panic!("unexpected: {:?}", e),
        Ok(_) => panic!("an unknown driver was taken"),
    }
}

#[test]
fn driver_config_is_independent_of_lifecycle() {
    let config = DriverConfig::B4(b4(B4Mode::Transparent, vec![80], vec![], None));
    let driver = B4Driver::new(
        DriverId::B4,
        match &config {
            DriverConfig::B4(c) => c.duplicate(),
            _ => unreachable!(),
        },
    );
    assert!(!driver.running);
    assert!(matches!(config, DriverConfig::B4(_)));
}

fn b4_config() -> DriverConfig {
    DriverConfig::B4(b4(B4Mode::Transparent, vec![80, 443], vec![B4Strategy::TtlDisorientation], None))
}

#[test]
fn factory_constructs_b4_driver_from_config() {
    let mut registry = DriverConfigRegistry::new();
    registry.insert(DriverId::B4, b4_config());
    let factory = ConfiguredFactory::new(registry);
    let driver = match factory.build(DriverId::B4) {
        Ok(d) => d,
        Err(e) => panic!("B4 must construct, got: {:?}", e),
    };
    assert_eq!(driver.id(), DriverId::B4);
    assert_eq!(driver.name(), "B4");
    assert!(driver.capabilities().packet_processor);
}

#[test]
fn factory_without_config_fails_honestly() {
    let factory = ConfiguredFactory::empty();
    let err = match factory.build(DriverId::B4) {
        Err(e) => e,
        Ok(_) => panic!("empty factory must not construct a driver"),
    };
    assert!(matches!(err, DriverError::ConfigInvalid(_)));
}

/// A manager with mechanisms that can be made to fail.
struct Toy {
    m: DriverLifecycleManager,
    fail: HashSet<(u32, u64)>,
    builds: usize,
}

impl Toy {
    fn new() -> Self {
        Toy { m: DriverLifecycleManager::new(), fail: HashSet::new(), builds: 0 }
    }

    fn reconcile(&mut self, intents: Vec<DriverIntent>) -> Vec<DriverLifecycleEvent> {
        let mut round = self.m.begin(&intents);
        for intent in &intents {
            let mut started = false;
            if self.m.needs_start(intent) {
                self.builds += 1;
                let number = match intent.id {
                    DriverId::Custom(n) => n,
                    _ => 0,
                };
                started = !self.fail.contains(&(number, intent.fingerprint));
            }
            self.m.stage(&mut round, intent, started);
        }
        self.m.commit(round).0
    }

    fn state(&self, id: u32) -> DriverLifecycleState {
        self.m.state(c(id))
    }
}

fn d(id: u32, fp: u64) -> DriverIntent {
    DriverIntent::start(DriverId::Custom(id), fp)
}

fn c(id: u32) -> DriverId {
    DriverId::Custom(id)
}

fn failed(events: &[DriverLifecycleEvent]) -> bool {
    events.iter().any(|e| matches!(e.outcome, DriverOutcome::Failed { .. }))
}

fn all_unchanged(events: &[DriverLifecycleEvent]) -> bool {
    events.iter().all(|e| matches!(e.outcome, DriverOutcome::Unchanged))
}

#[test]
fn unchanged_is_true_noop() {
    let mut m = Toy::new();
    let e1 = m.reconcile(vec![d(7, 11)]);
    assert!(e1.iter().any(|e| matches!(e.outcome, DriverOutcome::Added)));
    assert_eq!(m.state(7), DriverLifecycleState::Active);
    assert_eq!(m.builds, 1);
    let e2 = m.reconcile(vec![d(7, 11)]);
    assert!(all_unchanged(&e2));
    assert_eq!(m.builds, 1);
    assert_eq!(m.state(7), DriverLifecycleState::Active);
}

#[test]
fn idempotent_reconcile_is_side_effect_free() {
    let mut m = Toy::new();
    m.reconcile(vec![d(1, 1), d(2, 2), d(3, 1)]);
    assert_eq!(m.builds, 3);
    let events = m.reconcile(vec![d(1, 1), d(2, 2), d(3, 1)]);
    assert_eq!(events.len(), 3);
    assert!(all_unchanged(&events));
    assert_eq!(m.builds, 3);
}

#[test]
fn failed_new_driver_stays_tracked() {
    let mut m = Toy::new();
    m.fail.insert((10, 99));
    let events = m.reconcile(vec![d(10, 99)]);
    assert!(failed(&events));
    assert_eq!(m.state(10), DriverLifecycleState::Failed);
}

#[test]
fn reload_failed_replacement_keeps_old_then_retry_succeeds() {
    let mut m = Toy::new();
    // A (9) drives traffic.
    m.reconcile(vec![d(9, 1)]);
    assert_eq!(m.state(9), DriverLifecycleState::Active);
    // Reload: desired B (10) with a broken config → build fails.
    m.fail.insert((10, 99));
    let events = m.reconcile(vec![d(10, 99)]);
    assert!(failed(&events));
    assert_eq!(m.state(9), DriverLifecycleState::Active, "A stays active");
    assert_eq!(m.state(10), DriverLifecycleState::Failed, "B tracked as Failed");
    // Fix the config, retry the *same* reload: B active, A gone.
    m.fail.remove(&(10, 10));
    let events = m.reconcile(vec![d(10, 10)]);
    assert!(events.iter().any(|e| matches!(e.outcome, DriverOutcome::Added)));
    assert_eq!(m.state(10), DriverLifecycleState::Active);
    assert_eq!(m.state(9), DriverLifecycleState::Absent, "A is gone");
}

#[test]
fn unrelated_failure_does_not_evict_healthy() {
    let mut m = Toy::new();
    m.fail.insert((40, 1));
    m.reconcile(vec![d(30, 1)]);
    assert_eq!(m.state(30), DriverLifecycleState::Active);
    let events = m.reconcile(vec![d(30, 1), d(40, 1)]);
    assert!(failed(&events));
    assert_eq!(m.state(30), DriverLifecycleState::Active, "healthy stays");
    assert_eq!(m.state(40), DriverLifecycleState::Failed);
}

#[test]
fn recovery_restores_failed_without_desired() {
    let mut m = Toy::new();
    m.reconcile(vec![d(5, 42)]);
    assert_eq!(m.state(5), DriverLifecycleState::Active);
    m.m.report_health(c(5), HealthStatus::Unhealthy { reason: 7 });
    assert_eq!(m.state(5), DriverLifecycleState::Failed);
    assert_eq!(m.m.recovery(c(5)), Some(42));
    assert!(m.m.recover(c(5), true));
    assert_eq!(m.state(5), DriverLifecycleState::Active);
    // Recovery failure: stays Failed (not removed).
    let mut m2 = Toy::new();
    m2.fail.insert((6, 1));
    m2.reconcile(vec![d(6, 1)]);
    assert_eq!(m2.state(6), DriverLifecycleState::Failed);
    assert!(!m2.m.recover(c(6), false));
    assert_eq!(m2.state(6), DriverLifecycleState::Failed);
}

#[test]
fn explicit_remove_is_distinct_from_failure() {
    let mut m = Toy::new();
    m.reconcile(vec![d(8, 1)]);
    assert_eq!(m.state(8), DriverLifecycleState::Active);
    let events = m.reconcile(vec![DriverIntent::stop(c(8))]);
    assert!(events.iter().any(|e| matches!(e.outcome, DriverOutcome::Removed)));
    assert_eq!(m.state(8), DriverLifecycleState::Absent);
}

#[test]
fn state_machine_rejects_illegal_edges() {
    assert!(!DriverLifecycleState::Absent.transition(DriverLifecycleState::Stopping));
    assert!(!DriverLifecycleState::Initializing.transition(DriverLifecycleState::Absent));
    assert!(!DriverLifecycleState::Active.transition(DriverLifecycleState::Initializing));
    assert!(!DriverLifecycleState::Absent.transition(DriverLifecycleState::Recovering));
    assert!(DriverLifecycleState::Active.transition(DriverLifecycleState::Replacing));
    assert!(DriverLifecycleState::Active.transition(DriverLifecycleState::Failed));
    assert!(DriverLifecycleState::Failed.transition(DriverLifecycleState::Recovering));
    assert!(DriverLifecycleState::Recovering.transition(DriverLifecycleState::Active));
    assert!(DriverLifecycleState::Recovering.transition(DriverLifecycleState::Failed));
}

#[test]
fn configured_b4_driver_fails_truthfully_in_lifecycle() {
    let mut registry = DriverConfigRegistry::new();
    registry.insert(DriverId::B4, b4_config());
    let factory = ConfiguredFactory::new(registry);
    // Construction succeeds (config present) but the start fails.
    assert!(factory.build(DriverId::B4).is_ok());
    let mut m = DriverLifecycleManager::new();
    let (events, _) = m.reconcile(&vec![DriverIntent::start(DriverId::B4, 5)], &vec![false]);
    assert!(failed(&events));
    assert_eq!(m.state(DriverId::B4), DriverLifecycleState::Failed);
    // Failure is not removal: the driver stays tracked.
    assert!(m.snapshot().iter().any(|(id, _, _)| *id == DriverId::B4));
}

#[test]
fn tier_mapping_is_total_and_deterministic() {
    assert_eq!(health_tier_of(DriverLifecycleState::Active), HealthTier::Healthy);
    assert_eq!(health_tier_of(DriverLifecycleState::Degraded), HealthTier::Degraded);
    assert_eq!(health_tier_of(DriverLifecycleState::Initializing), HealthTier::Failing);
    assert_eq!(health_tier_of(DriverLifecycleState::Replacing), HealthTier::Failing);
    assert_eq!(health_tier_of(DriverLifecycleState::Recovering), HealthTier::Failing);
    assert_eq!(health_tier_of(DriverLifecycleState::Failed), HealthTier::Failing);
    assert_eq!(health_tier_of(DriverLifecycleState::Absent), HealthTier::Disabled);
    assert_eq!(health_tier_of(DriverLifecycleState::Stopping), HealthTier::Disabled);
}

#[test]
fn tracker_emits_only_on_change() {
    let mut m = Toy::new();
    let mut tracker = TierTracker::default();
    // No drivers → no changes.
    assert!(tracker.reconcile(&m.m).is_empty());
    // Start driver 1 → tier Healthy (Active), one change.
    m.reconcile(vec![d(1, 1)]);
    assert_eq!(tracker.reconcile(&m.m), vec![(c(1), HealthTier::Healthy)]);
    assert_eq!(tier_counts(&m.m), [1, 0, 0, 0]);
    // Idempotent re-reconcile (same fingerprint) → no change.
    m.reconcile(vec![d(1, 1)]);
    assert!(tracker.reconcile(&m.m).is_empty());
    // Health degrades → tier Degraded, one change.
    m.m.report_health(c(1), HealthStatus::Degraded { reason: 7 });
    assert_eq!(tracker.reconcile(&m.m), vec![(c(1), HealthTier::Degraded)]);
    // Stop → tier Disabled, change, tracker entry dropped after.
    m.reconcile(vec![DriverIntent::stop(c(1))]);
    assert_eq!(tracker.reconcile(&m.m), vec![(c(1), HealthTier::Disabled)]);
    assert!(tracker.reconcile(&m.m).is_empty());
    assert_eq!(HealthTier::Healthy.as_u8(), 0);
    assert_eq!(HealthTier::Disabled.as_u8(), 3);
}

#[test]
fn tier_counts_aggregates_snapshot() {
    assert_eq!(tier_counts(&DriverLifecycleManager::new()), [0, 0, 0, 0]);
}

#[test]
fn drivers_are_known_by_name() {
    for name in ["wireguard", "amneziawg", "xray", "hysteria", "b4", "dns"] {
        assert!(DriverId::from_name(name).is_some(), "{}", name);
    }
    assert!(DriverId::from_name("warp").is_none());
}

#[test]
fn every_step_that_is_told_is_one_that_may_be_taken() {
    let mut m = DriverLifecycleManager::new();
    let mut told: Vec<DriverLifecycleEvent> = Vec::new();
    told.extend(m.reconcile(&vec![d(1, 1)], &vec![true]).0);
    m.report_health(c(1), HealthStatus::Degraded { reason: 1 });
    assert_eq!(m.state(c(1)), DriverLifecycleState::Degraded);
    // A degraded driver that is replaced recovers before it is active again.
    let (events, _) = m.reconcile(&vec![d(1, 2)], &vec![true]);
    assert_eq!(m.state(c(1)), DriverLifecycleState::Active);
    let last = events.last().unwrap();
    assert_eq!((last.from, last.to), (DriverLifecycleState::Recovering, DriverLifecycleState::Active));
    told.extend(events);
    told.extend(m.reconcile(&vec![d(1, 3)], &vec![false]).0);
    told.extend(m.reconcile(&vec![d(2, 1)], &vec![false]).0);
    told.extend(m.reconcile(&vec![d(2, 1)], &vec![true]).0);
    told.extend(m.reconcile(&vec![DriverIntent::stop(c(2))], &vec![false]).0);
    assert!(told.len() >= 6);
    assert!(told.iter().all(|e| e.from.transition(e.to)));
}

#[test]
fn a_repeated_round_tells_of_each_driver_as_it_is() {
    let mut m = DriverLifecycleManager::new();
    let intents = vec![d(1, 1), d(2, 2)];
    m.reconcile(&intents, &vec![true, true]);
    let (events, stop) = m.reconcile(&intents, &vec![false, false]);
    assert!(stop.is_empty());
    assert!(all_unchanged(&events));
    let told: Vec<_> = events.iter().map(|e| (e.driver, e.from, e.to)).collect();
    let active = DriverLifecycleState::Active;
    assert_eq!(told, vec![(c(1), active, active), (c(2), active, active)]);
}

#[test]
fn strategies_are_written_into_the_configuration_file() {
    let strategies = vec![B4Strategy::TtlDisorientation, B4Strategy::FakePacket { seq_offset: 7 }];
    let text = B4Driver::new(DriverId::B4, b4(B4Mode::Proxy, vec![443], strategies, None)).generate_config();
    assert!(text.contains("{{\"type\": \"ttl_disorientation\"}}, {\"type\": \"fake_packet\", \"seq_offset\": 7}"));
}
