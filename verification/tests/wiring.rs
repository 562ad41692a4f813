use balansir_daemon::b4_engine::config::{B4EngineToml, B4FlowToml, B4Toml};
use balansir_daemon::b4_engine::controller::{B4Controller, ControlStep, PathMtu};
use balansir_daemon::b4_engine::host::{CompositeObserver, HostStackObserver};
use balansir_daemon::b4_engine::observe::{B4Observation, B4Observer, NoopObserver};
use balansir_daemon::b4_engine::policy::{B4Capability, B4FailSemantic, B4FlowRule, B4Policy, B4Profile};
use balansir_daemon::b4_engine::state::{B4Decision, B4Engine, B4EngineConfig, B4State};
use balansir_daemon::b4_manager::B4Manager;
use balansir_daemon::dns::{DnsForwarderConfig, DnsForwarderDriver, RelayStep};
use balansir_daemon::driver::dummy::DummyDriver;
use balansir_daemon::driver::lifecycle::DriverLifecycleState;
use balansir_daemon::events::SubsystemEvent;
use balansir_daemon::model::{DriverId, HealthStatus};
use balansir_daemon::net::{ipv4, SocketAddr};
use balansir_daemon::policy::fast_match::DomainMatcher;
use balansir_daemon::reconciliation::dns_flow::DnsRegistry;
use balansir_daemon::subsystems::{ControlImpl, SubsystemManager, TailscaleResult, XraySupport};

fn policy(domain: &str) -> B4Policy {
    B4Policy {
        flows: vec![B4FlowRule {
            domain: domain.into(),
            profile: B4Profile {
                capabilities: vec![B4Capability::Mtu],
                fail: B4FailSemantic::Strict,
                allow_direct: true,
                allow_tunnel: false,
            },
        }],
    }
}

#[test]
fn a_controller_that_may_not_change_sizes_changes_none() {
    let mut controller = B4Controller::new(policy("example.com"), B4EngineConfig::default());
    let decision = B4Decision::AdaptMtu { mtu: 1300 };
    controller.set_mtu_enabled(true);
    assert!(controller.mtu_enabled());
    assert_eq!(controller.execute("example.com", &decision), ControlStep::SetMtu { mtu: 1300 });
    controller.set_mtu_enabled(false);
    assert!(!controller.mtu_enabled());
    assert_eq!(controller.execute("example.com", &decision), ControlStep::Nothing);
}

#[test]
fn an_observer_that_knows_nothing_changes_nothing() {
    let mut engine = B4Engine::new(policy("example.com"));
    assert_eq!(engine.tracked_flows(), 0);
    let (decision, _) = engine.observe_and_evaluate(&mut NoopObserver, "example.com");
    assert_eq!(decision, B4Decision::Noop);
    assert_eq!(engine.tracked_flows(), 1);
    engine.mark_adapting("example.com");
    assert_eq!(engine.state_of("example.com"), B4State::Adapting);
    engine.mark_adapting("other.example");
    assert_eq!(engine.tracked_flows(), 1);
}

#[test]
fn observers_keep_what_they_read() {
    let mut host = HostStackObserver { tcp: String::new(), tcp6: String::new() };
    assert!(!host.observe("example.com").any_signal());

    let mut registry = DnsRegistry::new();
    registry.insert("example.com", vec![ipv4(203, 0, 113, 5)]);
    let mut both = CompositeObserver::new(Some(registry));
    assert_eq!(both.observe("example.com", "", "", 0).dns_ok, Some(true));
    let mut registry = both.dns.take().unwrap();
    assert_eq!(registry.resolve("example.com", 0), Some(vec![ipv4(203, 0, 113, 5)]));

    let mut alone = CompositeObserver::new(None);
    assert_eq!(alone.observe("example.com", "", "", 0).dns_ok, None);
    assert!(alone.dns.is_none());
}

#[test]
fn a_paused_manager_runs_no_flow() {
    let toml = B4Toml {
        engine: B4EngineToml::default(),
        flows: vec![B4FlowToml {
            domain: "example.com".into(),
            capabilities: vec!["mtu".into()],
            fail: "STRICT".into(),
            allow_direct: true,
            allow_tunnel: false,
        }],
    };
    let mut manager = B4Manager::from_toml("/etc/b4.toml", &toml).unwrap();
    assert_eq!(manager.cycle_flows(), vec!["example.com".to_string()]);
    manager.handle().set_paused(true);
    assert!(manager.cycle_flows().is_empty());

    assert!(manager.ownership_checked(&vec![]).is_none());
    assert!(manager.last_error.is_none());
    let after = vec![PathMtu { path: "example.com".into(), mtu: 1400 }];
    match manager.ownership_checked(&after) {
        Some(SubsystemEvent::B4Drift { detail }) => {
            assert_eq!(detail, "B4 MTU ownership drift: 1 path(s) differ from intent")
        }
        other => panic!("{other:?}"),
    }
    assert_eq!(manager.last_error.as_deref(), Some("B4 MTU ownership drift: 1 path(s) differ from intent"));
    assert!(!B4Observation::default().any_signal());
}

#[test]
fn a_forwarder_starts_once_and_tells_its_health() {
    let config = DnsForwarderConfig {
        listen: SocketAddr { ip: ipv4(127, 0, 0, 1), port: 5300 },
        upstreams: vec![],
        ..DnsForwarderConfig::default()
    };
    let mut driver = DnsForwarderDriver::new(DriverId::DnsForwarder, config);
    assert_eq!(driver.health_from(false, Some("127.0.0.1:5300")), HealthStatus::Unhealthy { reason: 1 });

    let proxy = SocketAddr { ip: ipv4(127, 0, 0, 1), port: 10808 };
    driver.set_vpn_proxy(Some(proxy));
    assert_eq!(driver.vpn_proxy, Some(proxy));
    let mut forwarder = driver.plan_start().unwrap();
    assert_eq!(forwarder.upstreams, vec![SocketAddr { ip: ipv4(1, 1, 1, 1), port: 53 }]);
    assert_eq!(forwarder.on_proxy(driver.vpn_proxy), RelayStep::Connect(proxy));
    assert_eq!(forwarder.on_proxy(driver.vpn_proxy), RelayStep::Keep);
    assert_eq!(forwarder.on_proxy(None), RelayStep::Direct);

    driver.started(Some(SocketAddr { ip: ipv4(127, 0, 0, 1), port: 5300 }));
    assert!(driver.plan_start().is_none());
    assert_eq!(driver.health_from(true, Some("127.0.0.1:5300")), HealthStatus::Unhealthy { reason: 2 });
    assert_eq!(driver.health_from(false, Some("UNCONN 127.0.0.1:5300")), HealthStatus::Healthy);
    assert_eq!(driver.health_from(false, Some("UNCONN 127.0.0.1:53")), HealthStatus::Degraded { reason: 1 });
    assert_eq!(driver.health_from(false, None), HealthStatus::Degraded { reason: 1 });
}

#[test]
fn a_restarted_driver_is_healthy() {
    let mut driver = DummyDriver::new("1", "dummy");
    driver.stop();
    assert_eq!(driver.health_check(), HealthStatus::Unhealthy { reason: 1 });
    driver.restart();
    assert_eq!(driver.health_check(), HealthStatus::Healthy);
}

#[test]
fn only_started_drivers_have_a_handle() {
    assert!(DriverLifecycleState::Active.has_handle());
    assert!(DriverLifecycleState::Initializing.has_handle());
    assert!(DriverLifecycleState::Replacing.has_handle());
    assert!(!DriverLifecycleState::Absent.has_handle());
    assert!(!DriverLifecycleState::Failed.has_handle());
}

#[test]
fn a_matcher_is_built_from_rules() {
    let matcher = DomainMatcher::from_rules(&[(1, true, 10), (2, false, 20)]);
    assert_eq!(matcher.matches(1), Some(10));
    assert_eq!(matcher.matches(2), Some(20));
    assert_eq!(matcher.matches(3), None);
    let stats = matcher.stats();
    assert_eq!((stats.exact_count, stats.suffix_count, stats.total_rules), (1, 1, 2));
}

#[test]
fn a_reconnect_is_told_where_it_was_answered() {
    let mut manager = SubsystemManager::new(XraySupport::NotCompiled);
    manager.set_interface_filter("eth0".into());
    assert_eq!(manager.interface_filter, "eth0");
    let control = ControlImpl::new(manager);
    let mut events = Vec::new();
    assert!(control.tailscale_reconnect(Err("down".into()), &mut events).is_err());
    assert!(events.is_empty());
    let answer = TailscaleResult { ok: true, detail: "done".into() };
    assert!(control.tailscale_reconnect(Ok(answer), &mut events).is_ok());
    assert!(matches!(events.as_slice(), [SubsystemEvent::TailscaleReconnected]));
}
