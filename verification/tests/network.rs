use balansir_daemon::gateway::{GatewayManager, GatewayStep};
use balansir_daemon::interface::{InterfaceInfo, InterfaceRole};
use balansir_daemon::net::{ipv4, IpAddr};
use balansir_daemon::network_config::{
    assign_roles, auto_assign_roles, cidr_address, default_lan_subnet, default_route_interface, is_ethernet_like, parse_cidr,
    learn_lan_peer_mac, resolve_roles, validate_mac, IfaceMatcher, NetworkConfig, NetworkConfigFile, RoleResolveError,
};
use balansir_daemon::path_decision::{decide, short};
use balansir_daemon::snapshot::{B4FlowView, B4Snapshot, PathHealthView, ProfileHealth, ProfileState, VpnSnapshot};

fn iface(name: &str, kind: Option<&str>) -> InterfaceInfo {
    InterfaceInfo { name: name.into(), kind: kind.map(|k| k.into()), ..InterfaceInfo::default() }
}

fn up(name: &str) -> InterfaceInfo {
    InterfaceInfo { link_up: true, ..iface(name, Some("ether")) }
}

fn subnet() -> Option<IpAddr> {
    Some(ipv4(192, 168, 3, 0))
}

fn validate(cfg: &NetworkConfig, interfaces: Vec<InterfaceInfo>) -> Result<(), String> {
    cfg.validate(&interfaces, None, subnet())
}

fn named(wan: Option<&str>, lan: Option<&str>) -> NetworkConfig {
    NetworkConfig {
        wan_interface: wan.map(|s| s.to_string()),
        lan_interface: lan.map(|s| s.to_string()),
        ..NetworkConfig::default()
    }
}

#[test]
fn no_roles_is_valid_and_disables_gateway() {
    let cfg = NetworkConfig::default();
    assert!(validate(&cfg, vec![iface("eth0", Some("ether"))]).is_ok());
    assert!(!cfg.cloning_enabled() || cfg.wan_interface.is_none());
}

#[test]
fn partial_roles_are_rejected() {
    let cfg = named(Some("eth1"), None);
    let err = validate(&cfg, vec![iface("eth1", Some("ether"))]).unwrap_err();
    assert!(
        err.contains("incomplete gateway roles") && err.contains("lan=None"),
        "error must name the gap: {}",
        err
    );
    // A name is quoted.
    assert!(err.contains("wan=Some(\"eth1\")"), "{}", err);
}

#[test]
fn same_role_is_rejected() {
    let cfg = named(Some("eth0"), Some("eth0"));
    assert!(validate(&cfg, vec![iface("eth0", Some("ether"))]).is_err());
}

#[test]
fn missing_interface_is_rejected() {
    let cfg = named(Some("wan0"), Some("eth0"));
    let err = validate(&cfg, vec![iface("eth0", Some("ether"))]).unwrap_err();
    assert!(err.contains("wan0"), "error must name the missing iface: {}", err);
}

#[test]
fn virtual_kind_is_rejected() {
    let cfg = named(Some("eth1"), Some("br0"));
    assert!(validate(&cfg, vec![iface("eth1", Some("ether")), iface("br0", Some("bridge"))]).is_err());
}

#[test]
fn invalid_explicit_mac_is_rejected() {
    let cfg = NetworkConfig { wan_mac: Some("not-a-mac".into()), ..named(Some("eth1"), Some("eth0")) };
    assert!(validate(&cfg, vec![iface("eth1", Some("ether")), iface("eth0", Some("ether"))]).is_err());
}

#[test]
fn a_subnet_that_cannot_be_read_is_rejected() {
    let cfg = named(Some("eth1"), Some("eth0"));
    let ports = vec![iface("eth1", Some("ether")), iface("eth0", Some("ether"))];
    assert!(cfg.validate(&ports, None, None).unwrap_err().contains("invalid lan_subnet"));
    assert!(cfg.validate(&ports, None, subnet()).is_ok());
    assert_eq!(default_lan_subnet(), "192.168.3.0/24");
    assert_eq!(cidr_address("192.168.3.0/24"), "192.168.3.0");
}

#[test]
fn a_prefix_that_is_too_long_is_rejected() {
    let ports = vec![iface("eth1", Some("ether")), iface("eth0", Some("ether"))];
    let with = |cidr: &str| NetworkConfig { lan_subnet: cidr.into(), ..named(Some("eth1"), Some("eth0")) };
    let err = with("192.168.3.0/99").validate(&ports, None, subnet()).unwrap_err();
    assert!(err.contains("invalid lan_subnet 192.168.3.0/99"));
    for bad in ["192.168.3.0/33", "192.168.3.0/", "192.168.3.0/x"] {
        assert!(with(bad).validate(&ports, None, subnet()).is_err());
    }
    for good in ["192.168.3.0/0", "192.168.3.0/32", " 192.168.3.0/24 ", "192.168.3.0"] {
        assert!(with(good).validate(&ports, None, subnet()).is_ok());
    }
    let v6 = Some(IpAddr::V6(1));
    assert_eq!(parse_cidr("::1/128", v6), v6);
    assert_eq!(parse_cidr("::1/129", v6), None);
    assert_eq!(parse_cidr("::1/64", None), None);
}

#[test]
fn case_and_dashes_do_not_matter_in_an_address() {
    for text in ["0A-bB-Cc-1d-2E-3f", "0a:bb:cc:1d:2e:3f", "0A:BB-CC:1D-2E:3F", "a:bb:cc:1d:2e:3f"] {
        assert_eq!(validate_mac(text), Some("0a:bb:cc:1d:2e:3f".into()));
    }
    for text in ["0B-bB-Cc-1d-2E-3f", "0b:bb:cc:1d:2e:3f"] {
        assert_eq!(validate_mac(text), None);
    }
}

#[test]
fn env_overrides_merge_onto_file() {
    let mut cfg = NetworkConfig {
        wan_interface: Some("eth1".into()),
        wan_mac: Some("aa:bb:cc:dd:ee:ff".into()),
        ..NetworkConfig::default()
    };
    assert_eq!(cfg.wan_interface.as_deref(), Some("eth1"));
    assert_eq!(cfg.wan_mac.as_deref(), Some("aa:bb:cc:dd:ee:ff"));
    assert!(cfg.cloning_enabled());
    cfg.merge_env(Some("eth9"), None, None);
    assert_eq!(cfg.wan_interface.as_deref(), Some("eth9"));
    assert_eq!(cfg.wan_mac.as_deref(), Some("aa:bb:cc:dd:ee:ff"));
}

#[test]
fn mac_validation_matches_executor_contract() {
    assert_eq!(validate_mac("AA:BB:CC:DD:EE:FF"), Some("aa:bb:cc:dd:ee:ff".into()));
    assert_eq!(validate_mac("aa-bb-cc-dd-ee-ff"), Some("aa:bb:cc:dd:ee:ff".into()));
    assert_eq!(validate_mac("zz:bb:cc:dd:ee:ff"), None);
    assert_eq!(validate_mac("aa:bb:cc:dd:ee"), None);
    assert_eq!(validate_mac("01:bb:cc:dd:ee:ff"), None, "multicast rejected");
    // What it gives it takes.
    assert_eq!(validate_mac("aa:bb:cc:dd:ee:ff"), Some("aa:bb:cc:dd:ee:ff".into()));
}

#[test]
fn toml_parses_roles() {
    let file = NetworkConfigFile {
        network: NetworkConfig { wan_mac: Some("90:98:38:52:AE:79".into()), ..named(Some("eth1"), Some("eth0")) },
    };
    assert_eq!(file.network.wan_interface.as_deref(), Some("eth1"));
    assert_eq!(file.network.lan_interface.as_deref(), Some("eth0"));
    assert_eq!(file.network.wan_mac.as_deref(), Some("90:98:38:52:AE:79"));
    assert!(file.network.cloning_enabled());
}

#[test]
fn auto_detect_requires_two_physical_ports() {
    assert_eq!(auto_assign_roles(&vec![iface("eth0", Some("ether"))], None), None);
}

#[test]
fn auto_detect_uses_default_route_owner() {
    // Both up, no default-route owner → the carrier path would be ambiguous
    // (2 up) → fail closed.
    assert_eq!(auto_assign_roles(&vec![up("eth0"), up("eth1")], None), None);
    assert_eq!(
        auto_assign_roles(&vec![up("eth0"), up("eth1")], Some("eth1")),
        Some(("eth1".to_string(), "eth0".to_string()))
    );
}

#[test]
fn a_default_route_names_the_wan_only_where_it_is_a_port_with_a_link() {
    let ports = || vec![up("eth0"), InterfaceInfo { link_up: false, ..up("eth1") }];
    let wan_first = Some(("eth0".to_string(), "eth1".to_string()));
    assert_eq!(auto_assign_roles(&ports(), Some("eth0")), wan_first);
    // A route through something else says nothing: the one port with a link is it.
    assert_eq!(auto_assign_roles(&ports(), Some("wwan0")), wan_first);
    assert_eq!(auto_assign_roles(&ports(), Some("eth1")), wan_first);
}

#[test]
fn auto_detect_single_up_port_is_wan() {
    // Exactly one UP Ethernet port → it is WAN by elimination.
    let roles = auto_assign_roles(&vec![up("eth0"), iface("eth1", Some("ether"))], None).unwrap();
    assert_eq!(roles, ("eth0".to_string(), "eth1".to_string()));
}

#[test]
fn auto_detect_ignores_bridge_and_loopback() {
    let list = vec![up("eth0"), iface("eth1", Some("ether")), iface("br0", Some("bridge"))];
    let roles = auto_assign_roles(&list, None).unwrap();
    assert_eq!(roles, ("eth0".to_string(), "eth1".to_string()));
}

#[test]
fn assign_roles_uses_auto_detection_when_no_config() {
    let mut list = vec![up("eth0"), iface("eth1", Some("ether"))];
    assign_roles(&mut list, &NetworkConfig::default(), None);
    assert_eq!(list[0].role, InterfaceRole::Wan);
    assert_eq!(list[1].role, InterfaceRole::Lan);
}

#[test]
fn explicit_config_beats_auto_detection() {
    let mut list = vec![up("eth0"), iface("eth1", Some("ether"))];
    assign_roles(&mut list, &named(Some("eth1"), Some("eth0")), None);
    assert_eq!(list[0].role, InterfaceRole::Lan);
    assert_eq!(list[1].role, InterfaceRole::Wan);
}

fn usb_iface(name: &str, mac: &str, driver: &str, vid: &str, pid: &str) -> InterfaceInfo {
    InterfaceInfo {
        mac: Some(mac.into()),
        driver: Some(driver.into()),
        usb: true,
        bus: Some("usb".into()),
        vendor_id: Some(vid.into()),
        product_id: Some(pid.into()),
        ..iface(name, Some("ether"))
    }
}

fn onboard_iface(name: &str, mac: &str) -> InterfaceInfo {
    usb_iface(name, mac, "smsc95xx", "0424", "ec00")
}

#[test]
fn identity_matchers_survive_interface_renaming() {
    // Physical reality: Realtek WAN, onboard LAN.
    let realtek = |name: &str| usb_iface(name, "00:e0:4c:68:02:24", "r8152", "0bda", "8156");
    let onboard = |name: &str| onboard_iface(name, "b8:27:eb:8a:4e:ba");
    let cfg = NetworkConfig {
        wan_match: Some(IfaceMatcher { usb: Some("0bda:8156".into()), ..IfaceMatcher::default() }),
        lan_match: Some(IfaceMatcher { mac: Some("b8:27:eb:8a:4e:ba".into()), ..IfaceMatcher::default() }),
        ..NetworkConfig::default()
    };
    let (wan, lan) = resolve_roles(&cfg, &vec![realtek("eth0"), onboard("eth1")], None).unwrap();
    assert_eq!((wan.as_str(), lan.as_str()), ("eth0", "eth1"));
    // Kernel enumerates in reverse order after reboot.
    let (wan, lan) = resolve_roles(&cfg, &vec![onboard("eth3"), realtek("eth7")], None).unwrap();
    assert_eq!((wan.as_str(), lan.as_str()), ("eth7", "eth3"));
    // The adapters have each other's names.
    let (wan, lan) = resolve_roles(&cfg, &vec![onboard("eth0"), realtek("eth1")], None).unwrap();
    assert_eq!(wan, "eth1", "Realtek matched by USB id, not by name");
    assert_eq!(lan, "eth0", "onboard matched by MAC, not by name");
}

#[test]
fn ambiguous_matcher_fails_closed() {
    // Two identical RTL8156 adapters: a driver-only matcher cannot tell them
    // apart and MUST refuse rather than guess.
    let a = usb_iface("eth0", "00:e0:4c:68:02:24", "r8152", "0bda", "8156");
    let b = usb_iface("eth1", "00:e0:4c:68:02:25", "r8152", "0bda", "8156");
    let matcher = IfaceMatcher { driver: Some("r8152".into()), ..IfaceMatcher::default() };
    match matcher.resolve(&vec![a, b]) {
        Err(RoleResolveError::Ambiguous { candidates }) => assert_eq!(candidates.len(), 2),
        other => panic!("expected Ambiguous, got {:?}", other),
    }
}

#[test]
fn missing_matcher_names_the_gap() {
    let matcher = IfaceMatcher { usb: Some("0bda:8156".into()), ..IfaceMatcher::default() };
    match matcher.resolve(&vec![onboard_iface("eth0", "b8:27:eb:8a:4e:ba")]) {
        Err(RoleResolveError::NoMatch { reason }) => assert!(reason.contains("usb=0bda:8156"), "{}", reason),
        other => panic!("expected NoMatch, got {:?}", other),
    }
}

#[test]
fn mac_matcher_matches_permanent_mac_after_cloning() {
    // The current MAC was cloned to the router's; the factory MAC still
    // identifies the adapter.
    let cloned = InterfaceInfo {
        hardware_mac: Some("00:e0:4c:68:02:24".into()), // factory
        ..usb_iface("eth5", "90:98:38:52:ae:79", "r8152", "0bda", "8156")
    };
    let m = IfaceMatcher { mac: Some("00:e0:4c:68:02:24".into()), ..IfaceMatcher::default() };
    assert_eq!(m.resolve(&vec![cloned]).unwrap(), "eth5");
}

#[test]
fn virtual_interfaces_never_auto_selected() {
    // tailscale0 / lo / tun must never become WAN or LAN via auto-detect.
    let ts = InterfaceInfo { link_up: true, ipv4: vec!["100.122.153.80".into()], ..iface("tailscale0", Some("tun")) };
    let lo = InterfaceInfo { link_up: true, ipv4: vec!["127.0.0.1".into()], ..iface("lo", Some("loopback")) };
    let list = vec![ts, lo, iface("eth0", Some("ether"))];
    assert!(auto_assign_roles(&list, None).is_none(), "virtual interfaces must not take gateway roles");
    assert!(!is_ethernet_like(&list[0]));
}

#[test]
fn the_default_route_is_read_from_the_kernel_table() {
    let table = "Iface\tDestination\tGateway \tFlags\tRefCnt\tUse\tMetric\tMask\neth0\t0000A8C0\t00000000\t0001\t0\t0\t0\t00FFFFFF\neth1\t00000000\t0100A8C0\t0003\t0\t0\t0\t00000000\n";
    assert_eq!(default_route_interface(table).as_deref(), Some("eth1"));
    assert_eq!(default_route_interface("Iface\tDestination\n"), None);
}

const NEIGHBOURS: &str = "IP address       HW type     Flags       HW address            Mask     Device\n192.168.3.1      0x1         0x2         90:98:38:52:ae:79     *        eth0\n";

#[test]
fn the_peer_behind_the_lan_is_learned() {
    assert_eq!(learn_lan_peer_mac(NEIGHBOURS, "eth0").as_deref(), Some("90:98:38:52:ae:79"));
    assert_eq!(learn_lan_peer_mac(NEIGHBOURS, "eth1"), None);
}

fn steps(v: &Vec<GatewayStep>) -> Vec<String> {
    v.iter().map(|s| format!("{:?}", s)).collect()
}

#[test]
fn a_gateway_asks_for_its_steps_in_order() {
    let mut m = GatewayManager::new(named(Some("eth1"), Some("eth0")), Some("192.168.3.1/24".to_string()));
    let asked = m.reconcile(NEIGHBOURS).unwrap();
    assert_eq!(
        steps(&asked),
        vec![
            "SetIp { interface: \"eth0\", address: \"192.168.3.1/24\" }",
            "SetMac { interface: \"eth1\", mac: \"90:98:38:52:ae:79\" }",
            "EnableNat { interface: \"eth1\", subnet: \"192.168.3.0/24\" }",
            "EnableForwarding",
            "MgmtFirewall { lan: \"eth0\", wan: \"eth1\" }",
        ]
    );
    let s = m.state();
    assert!(s.enabled && s.cloning_active && !s.nat_active && !s.firewall_active);
    assert_eq!(s.wan_mac.as_deref(), Some("90:98:38:52:ae:79"));
    m.applied(true, false);
    assert!(m.state().nat_active && !m.state().firewall_active);
}

#[test]
fn a_gateway_without_roles_is_off() {
    let mut m = GatewayManager::new(NetworkConfig::default(), None);
    assert!(m.reconcile("").unwrap().is_empty());
    assert!(!m.state().enabled);
    let mut wan_only = GatewayManager::new(named(Some("eth1"), None), None);
    assert_eq!(wan_only.reconcile("").err().as_deref(), Some("lan_interface required"));
    let mut lan_only = GatewayManager::new(named(None, Some("eth0")), None);
    assert_eq!(lan_only.reconcile("").err().as_deref(), Some("wan_interface required"));
    let off = NetworkConfig { clone_mac: Some(false), ..named(Some("eth1"), Some("eth0")) };
    let mut plain = GatewayManager::new(off, None);
    assert_eq!(plain.reconcile(NEIGHBOURS).unwrap().len(), 3);
}

#[test]
fn a_gateway_keeps_a_configuration_that_holds() {
    let mut m = GatewayManager::new(NetworkConfig::default(), None);
    let ports = vec![iface("eth1", Some("ether")), iface("eth0", Some("ether"))];
    assert!(m.load_config(named(Some("eth1"), Some("none0")), &ports, None, subnet()).is_err());
    assert!(m.config.wan_interface.is_none());
    assert!(m.load_config(named(Some("eth1"), Some("eth0")), &ports, None, subnet()).is_ok());
    assert_eq!(m.config.wan_interface.as_deref(), Some("eth1"));
}

fn b4() -> B4Snapshot {
    B4Snapshot { enabled: false, ..B4Snapshot::default() }
}

fn vpn_empty() -> VpnSnapshot {
    VpnSnapshot::default()
}

fn vpn_with_active(id: &str) -> VpnSnapshot {
    VpnSnapshot {
        enabled: true,
        paused: false,
        profiles: vec![ProfileHealth { profile_id: id.to_string(), state: ProfileState::Healthy, weight: 100 }],
        active: Some(id.to_string()),
    }
}

fn vpn_with_failed_profiles() -> VpnSnapshot {
    VpnSnapshot {
        enabled: true,
        paused: false,
        profiles: vec![ProfileHealth { profile_id: "x".into(), state: ProfileState::Failed, weight: 0 }],
        active: None,
    }
}

fn flow(state: &str) -> B4FlowView {
    B4FlowView {
        flow: "example.com".into(),
        path: PathHealthView { state: state.into() },
        ..B4FlowView::default()
    }
}

#[test]
fn healthy_direct_is_direct() {
    let d = decide(&b4(), &vpn_empty(), false);
    assert_eq!(d.overall, "Direct");
    assert_eq!(d.active_candidate, "direct");
    assert!(d.reason.contains("healthy"));
}

#[test]
fn vpn_active_takes_priority() {
    let d = decide(&b4(), &vpn_with_active("abc123def"), true);
    assert_eq!(d.overall, "VPN active");
    assert_eq!(d.active_candidate, "vpn");
    assert_eq!(d.vpn_active.as_deref(), Some("abc123def"));
    assert!(d.dpi_active);
}

#[test]
fn vpn_pool_degraded_but_direct() {
    let d = decide(&b4(), &vpn_with_failed_profiles(), false);
    assert_eq!(d.overall, "VPN degraded (direct)");
    assert_eq!(d.active_candidate, "direct");
}

#[test]
fn vpn_paused_is_direct() {
    let mut v = vpn_with_active("abc");
    v.paused = true;
    let d = decide(&b4(), &v, false);
    assert_eq!(d.overall, "Direct");
    assert!(d.reason.contains("paused"));
}

#[test]
fn b4_adapting_shows_up() {
    let mut b = b4();
    b.enabled = true;
    b.mtu_enabled = true;
    let d = decide(&b, &vpn_empty(), false);
    assert_eq!(d.overall, "B4 adapting");
    assert_eq!(d.active_candidate, "b4");
    assert!(d.b4_active);
}

#[test]
fn no_path_only_when_everything_dead() {
    // The direct state comes from the flows (empty → healthy), so that there
    // is always a path here.
    let mut b = b4();
    b.enabled = false;
    let mut v = vpn_empty();
    v.profiles = Vec::new();
    let d = decide(&b, &v, false);
    assert_ne!(d.overall, "No path");
    assert_eq!(d.overall, "Direct");
}

#[test]
fn direct_failing_with_vpn_uses_vpn() {
    // B4 reports a failing direct path; a VPN is active → VPN wins.
    let mut b = b4();
    b.enabled = true;
    b.flows = vec![flow("failing")];
    let d = decide(&b, &vpn_with_active("vpn1"), false);
    assert_eq!(d.overall, "VPN active");
    assert_eq!(d.direct_state, "failing");
    assert!(d.b4_ineffective);
}

#[test]
fn b4_ineffective_shows_degraded_direct() {
    let mut b = b4();
    b.enabled = true;
    b.flows = vec![flow("degraded")];
    let d = decide(&b, &vpn_empty(), false);
    assert!(d.b4_ineffective);
    assert_eq!(d.overall, "B4 adapting");
}

#[test]
fn long_names_are_shortened() {
    assert_eq!(short("abc"), "abc");
    assert_eq!(short("0123456789abc"), "0123456789…");
}
