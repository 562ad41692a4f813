use balansir_daemon::b4_dpi::DpiManager;
use balansir_daemon::b4_manager::B4ManagerHandle;
use balansir_daemon::cli::{
    fingerprint_text, http_body, http_request, identify, jbool, jstr, jstr_opt, listed_interfaces, network_header,
    network_row, parse_command, reply_error, show_fingerprint, status_fingerprint, Command,
};
use balansir_daemon::control::IpcMessage;
use balansir_daemon::events::SubsystemEvent;
use balansir_daemon::interface::{InterfaceInfo, InterfaceRole};
use balansir_daemon::interface_probe::{
    iperf3_args, iperf3_result, no_target, parse_iperf3_bps, no_connection, NativeProbe, ProbeTarget, PROBE_MAX_BYTES,
};
use balansir_daemon::mptcp_manager::{MptcpEndpoint, MptcpManager, MptcpOp, MptcpResult, MptcpSubflow};
use balansir_daemon::network_config::NetworkConfig;
use balansir_daemon::qos::{
    drift, q_matches_config, qos_result_to_result, AppliedQdisc, QdiscKind, QosCapabilities, QosConfig, QosDirection,
    QosManager, QosOp, QosResult,
};
use balansir_daemon::reconciliation::executor_client::MsgType;
use balansir_daemon::server::{api_bind, api_enabled};
use balansir_daemon::snapshot::{B4Snapshot, VpnSnapshot};
use balansir_daemon::subsystems::{
    ControlImpl, Growth, InterfaceResult, SubsystemManager, TailscaleStatus, XrayProfile, XraySupport,
};

fn qos_config(interface: &str, kind: QdiscKind, bandwidth_bps: Option<u64>) -> QosConfig {
    QosConfig {
        interface: interface.into(),
        direction: QosDirection::Egress,
        kind,
        bandwidth_bps,
        latency_target_ms: None,
        overhead_bytes: None,
        ecn: true,
        wash: false,
        memory_limit_bytes: None,
        classes: vec![],
        comment: String::new(),
    }
}

fn fq_codel_config(interface: &str) -> QosConfig {
    qos_config(interface, QdiscKind::FqCodel, None)
}

fn qdisc(interface: &str, kind: &str, bandwidth_bps: Option<u64>) -> AppliedQdisc {
    AppliedQdisc {
        interface: interface.into(),
        index: 1,
        handle: "b51:0".into(),
        parent: "ffff:fff1".into(),
        kind: Some(kind.into()),
        our_identity: true,
        bandwidth_bps,
        stats: None,
    }
}

fn caps() -> QosCapabilities {
    QosCapabilities { cake: false, fq_codel: true, ingress: true }
}

/// What the executor does with requests.
#[derive(Clone, Copy, PartialEq)]
enum Executor {
    Works,
    Fails,
    SaysNo,
}

/// One pass over shaping against what the kernel holds, as interface and kind.
fn pass(m: &mut QosManager, held: &mut Vec<(String, String)>, executor: Executor) -> Result<Vec<SubsystemEvent>, String> {
    let listed = |held: &Vec<(String, String)>| -> Vec<AppliedQdisc> {
        held.iter().map(|(i, k)| qdisc(i, k, None)).collect()
    };
    let mut events = Vec::new();
    let begun = m.begin(Ok(listed(held)), Ok(caps()), &mut events)?;
    let mut answers = Vec::new();
    for op in &begun.ops {
        let (name, interface) = match op {
            QosOp::Apply(c) => ("apply", c.interface.clone()),
            QosOp::Remove { interface } => ("remove", interface.clone()),
        };
        answers.push(match executor {
            Executor::Works => {
                held.retain(|(i, _)| *i != interface);
                if let QosOp::Apply(c) = op {
                    held.push((interface.clone(), c.kind.as_str().to_string()));
                }
                Ok(QosResult { op: name.into(), interface, ok: true, detail: "done".into() })
            }
            Executor::Fails => Err(format!("{} {}: netlink EPERM", name, interface)),
            Executor::SaysNo => Ok(QosResult { op: name.into(), interface, ok: false, detail: "netlink EPERM".into() }),
        });
    }
    m.finish(begun, &answers, Ok(listed(held)), &mut events);
    Ok(events)
}

#[test]
fn soft_apply_failure_ok_false_is_not_swallowed() {
    let mut m = QosManager::new();
    m.set_qos_intent(vec![fq_codel_config("eth0")]);
    pass(&mut m, &mut vec![], Executor::SaysNo).unwrap();
    assert!(m.snapshot.drift, "drift must be true when apply reports ok=false");
    let err = m.snapshot.last_error.clone().expect("last_error must be set");
    assert!(err.contains("EPERM"), "actionable error expected: {}", err);
}

#[test]
fn qos_intent_is_applied_and_drift_converges() {
    let mut m = QosManager::new();
    let mut held = vec![];
    m.set_qos_intent(vec![fq_codel_config("eth0")]);
    let events = pass(&mut m, &mut held, Executor::Works).unwrap();
    assert!(!m.snapshot.applied.is_empty(), "qdisc should be applied");
    assert_eq!(m.snapshot.applied[0].kind.as_deref(), Some("fq_codel"));
    assert!(!m.snapshot.drift, "no drift after successful apply");
    assert!(matches!(&events[..], [SubsystemEvent::QosApplied { interface, .. }] if interface == "eth0"));
    // Where nothing drifted nothing is asked for.
    assert!(pass(&mut m, &mut held, Executor::Works).unwrap().is_empty());
}

#[test]
fn apply_failure_surfaces_last_error_and_drift() {
    let mut m = QosManager::new();
    m.set_qos_intent(vec![fq_codel_config("eth0")]);
    pass(&mut m, &mut vec![], Executor::Fails).unwrap();
    assert!(m.snapshot.drift, "drift must be true when apply fails");
    let err = m.snapshot.last_error.clone().expect("last_error must be set");
    assert!(err.contains("apply"), "error should name the op: {}", err);
    assert_eq!(err, "apply fq_codel on eth0: apply eth0: netlink EPERM");
}

#[test]
fn unsupported_qdisc_kind_is_rejected() {
    let mut m = QosManager::new();
    m.set_qos_intent(vec![qos_config("eth0", QdiscKind::Cake, None)]);
    pass(&mut m, &mut vec![], Executor::Works).unwrap_err();
    let err = m.snapshot.last_error.clone().expect("last_error must be set");
    assert!(err.contains("not supported"), "unexpected: {}", err);
    assert!(m.snapshot.drift);
}

#[test]
fn orphan_qdiscs_are_removed() {
    let mut m = QosManager::new();
    let mut held = vec![("eth1".to_string(), "fq_codel".to_string())];
    let events = pass(&mut m, &mut held, Executor::Works).unwrap();
    assert!(m.snapshot.applied.is_empty(), "orphan qdisc must be removed: {:?}", m.snapshot.applied);
    assert!(matches!(&events[..], [SubsystemEvent::QosRemoved { interface }] if interface == "eth1"));
}

#[test]
fn shaping_that_cannot_be_observed_is_an_error() {
    let mut m = QosManager::new();
    let mut events = Vec::new();
    assert_eq!(m.begin(Err("a".to_string()), Err("b".to_string()), &mut events).err().as_deref(), Some("a"));
    assert_eq!(m.begin(Ok(vec![]), Err("b".to_string()), &mut events).err().as_deref(), Some("b"));
    assert_eq!(m.snapshot.last_error.as_deref(), Some("b"));
    assert!(m.snapshot.drift && events.is_empty());
}

#[test]
fn nothing_is_wanted_of_a_removed_interface() {
    let mut m = QosManager::new();
    m.set_qos_intent(vec![fq_codel_config("eth0"), fq_codel_config("eth1")]);
    m.remove_qos("eth0");
    assert_eq!(m.intent.len(), 1);
    assert_eq!(m.intent[0].interface, "eth1");
}

#[test]
fn qos_bandwidth_drift_detected() {
    let make_cfg = |bps: Option<u64>| qos_config("eth0", QdiscKind::Cake, bps);
    let make_applied = |bps: Option<u64>| qdisc("eth0", "cake", bps);
    // Exact match: no drift.
    assert!(q_matches_config(&make_applied(Some(20_000_000)), &make_cfg(Some(20_000_000))));
    // Kernel enforces a different rate than desired.
    assert!(!q_matches_config(&make_applied(Some(10_000_000)), &make_cfg(Some(20_000_000))));
    // Rate-cap requested but kernel reports none (stale executor): drift.
    assert!(!q_matches_config(&make_applied(None), &make_cfg(Some(20_000_000))));
    // No rate requested: kind/identity match is enough.
    assert!(q_matches_config(&make_applied(None), &make_cfg(None)));
    // Wrong interface/identity never matches.
    assert!(!q_matches_config(&qdisc("eth1", "cake", Some(20_000_000)), &make_cfg(Some(20_000_000))));
    let foreign = AppliedQdisc { our_identity: false, ..make_applied(Some(20_000_000)) };
    assert!(!q_matches_config(&foreign, &make_cfg(Some(20_000_000))));
    // fq_codel without a reported rate still matches (no rate requested).
    assert!(q_matches_config(&qdisc("eth0", "fq_codel", None), &fq_codel_config("eth0")));
    assert!(drift(&vec![make_cfg(Some(20_000_000))], &vec![make_applied(None)]));
    assert!(!drift(&vec![], &vec![foreign]));
}

#[test]
fn an_answer_that_says_no_is_an_error() {
    let no = QosResult { op: "apply".into(), interface: "eth0".into(), ok: false, detail: "EPERM".into() };
    assert_eq!(qos_result_to_result(&no), Err("apply: EPERM".to_string()));
    let yes = QosResult { op: "apply".into(), interface: "eth0".into(), ok: true, detail: "fine".into() };
    assert_eq!(qos_result_to_result(&yes), Ok(()));
}

fn info(name: &str, rx_bytes: u64) -> InterfaceInfo {
    InterfaceInfo {
        name: name.into(),
        kind: Some("ether".into()),
        link_up: name == "eth0",
        rx_bytes,
        tx_bytes: 5,
        ..InterfaceInfo::default()
    }
}

#[test]
fn interfaces_are_taken_over_with_roles_and_rates() {
    let mut m = SubsystemManager::new(XraySupport::NotCompiled);
    let mut events = Vec::new();
    let cfg = NetworkConfig::default();
    assert!(m.refresh_interfaces(Ok(vec![info("eth1", 10), info("eth0", 20)]), Some(&cfg), None, 1000, &mut events));
    assert_eq!(m.interfaces[1].role, InterfaceRole::Wan);
    assert_eq!(m.interface_rates[0].interface, "eth0");
    assert!(m.interface_rates[0].rx.is_none());
    assert!(m.refresh_interfaces(Ok(vec![info("eth1", 30), info("eth0", 20)]), None, None, 3000, &mut events));
    assert_eq!(m.interface_rates[1].rx, Some(Growth { from: 10, to: 30, over_ms: 2000 }));
    assert!(events.is_empty());
    assert!(!m.refresh_interfaces(Err("gone".to_string()), None, None, 4000, &mut events));
    assert_eq!(m.interfaces.len(), 2);
    assert!(matches!(&events[..], [SubsystemEvent::InterfaceError { detail }] if detail == "interface refresh: gone"));
}

fn tail(state: &str) -> TailscaleStatus {
    TailscaleStatus { installed: true, backend_state: state.into(), self_online: false }
}

#[test]
fn only_news_of_the_mesh_is_told() {
    let mut m = SubsystemManager::new(XraySupport::NotCompiled);
    let mut events = Vec::new();
    assert!(m.refresh_tailscale(Ok(tail("Running")), &mut events));
    assert!(m.refresh_tailscale(Ok(tail("Running")), &mut events));
    assert!(matches!(&events[..], [SubsystemEvent::TailscaleStatusChanged { state }] if state == "Running"));
    assert!(m.refresh_tailscale(Ok(tail("")), &mut events));
    assert!(matches!(&events[1], SubsystemEvent::TailscaleStatusChanged { state } if state == "Unknown"));
    assert!(!m.refresh_tailscale(Err("socket".to_string()), &mut events));
    assert!(m.tailscale.status.is_some());
    assert_eq!(m.tailscale.error.as_deref(), Some("socket"));
    m.finish_refresh(true, false, None, &B4Snapshot::default(), &VpnSnapshot::default());
    assert!(m.executor_unreachable);
    assert_eq!(m.path_decision.as_ref().unwrap().overall, "Direct");
    assert!(!m.path_decision.as_ref().unwrap().dpi_active);
}

#[test]
fn what_is_not_there_cannot_be_asked() {
    let mut c = ControlImpl::new(SubsystemManager::new(XraySupport::NotConfigured));
    let mut events = Vec::new();
    assert!(c.b4_set_paused(None, true, &mut events).unwrap_err().contains("BALANSIR_B4_CONFIG"));
    assert!(!c.b4_is_paused(None));
    assert!(c.require_xray().unwrap_err().contains("BALANSIR_XRAY_CONFIG"));
    assert!(c.require_vpn().unwrap_err().contains("BALANSIR_VPN_CONFIG"));
    assert_eq!(c.require_wifi().unwrap_err(), "Wi-Fi manager not attached");
    assert_eq!(c.mptcp_set_enabled(true).unwrap_err(), "MPTCP manager not attached");
    assert_eq!(c.mptcp_set_endpoints(vec![]).unwrap_err(), "MPTCP manager not attached");
    assert!(c.b4_notify_discovery("x.com", 0).unwrap_err().contains("BALANSIR_DPI_CONFIG"));
    assert!(events.is_empty());
    let old = ControlImpl::new(SubsystemManager::new(XraySupport::NotCompiled));
    assert_eq!(old.require_xray().unwrap_err(), "Xray support not compiled into this daemon");
}

#[test]
fn what_is_there_does_as_it_is_asked() {
    let mut manager = SubsystemManager::new(XraySupport::Attached);
    manager.mptcp = Some(MptcpManager::new());
    manager.dpi = Some(DpiManager::default());
    manager.vpn = true;
    manager.wifi = true;
    let mut c = ControlImpl::new(manager);
    let mut events = Vec::new();
    let mut handle = B4ManagerHandle { paused: false };
    assert!(c.b4_set_paused(Some(&mut handle), true, &mut events).is_ok());
    assert!(c.b4_is_paused(Some(&handle)));
    assert!(handle.is_paused());
    assert!(matches!(&events[0], SubsystemEvent::B4StateChanged { flow, state } if flow == "*" && state == "Paused"));
    assert!(c.require_vpn().is_ok() && c.require_wifi().is_ok());
    let profiles = vec![
        XrayProfile { name: "a".to_string(), enabled: true },
        XrayProfile { name: "b".to_string(), enabled: false },
        XrayProfile { name: "c".to_string(), enabled: true },
    ];
    assert_eq!(c.xray_rotation(&profiles), Ok(vec!["a".to_string(), "c".to_string()]));
    assert!(matches!(c.mptcp_set_enabled(true), Ok(MptcpOp::SetEnabled { enabled: true })));
    assert!(c.b4_notify_discovery("x.com", 0).is_ok());
    assert!(c.manager.stop_dpi().is_none());
    let answer = InterfaceResult {
        ok: true,
        detail: "ok".into(),
        hardware_mac: None,
        current_mac: Some("00:11:22:33:44:55".into()),
        previous_mac: None,
    };
    assert!(c.set_mac("eth0", "00:11:22:33:44:55", Ok(answer), &mut events).is_ok());
    assert!(matches!(&events[1], SubsystemEvent::InterfaceMacChanged { mac, .. } if mac == "00:11:22:33:44:55"));
    assert!(c.restore_mac("eth0", Err("EPERM".to_string()), &mut events).is_err());
    assert_eq!(events.len(), 2);
}

fn mptcp_status(enabled: bool) -> MptcpResult {
    MptcpResult {
        ok: true,
        detail: "ok".into(),
        enabled: Some(enabled),
        endpoints: vec![MptcpEndpoint {
            address: "192.168.1.5".into(),
            iface: "eth0".into(),
            local_id: 1,
            flags: vec!["signal".into()],
        }],
        subflows: vec![MptcpSubflow {
            local: "192.168.1.5:1".into(),
            remote: "10.0.0.1:443".into(),
            state: "ESTABLISHED".into(),
            backup: false,
            rx_bytes: 1,
            tx_bytes: 1,
        }],
    }
}

#[test]
fn refresh_populates_snapshot() {
    let mut manager = MptcpManager::new();
    manager.refresh(Ok(mptcp_status(true)));
    let snap = &manager.snapshot;
    assert!(snap.enabled);
    assert_eq!(snap.endpoints.len(), 1);
    assert_eq!(snap.endpoints[0].address, "192.168.1.5");
    assert_eq!(snap.subflows.len(), 1);
    assert_eq!(snap.subflows[0].state, "ESTABLISHED");
    assert_eq!(snap.flow_health[0].1, "established");
    assert_eq!(snap.flow_health[0].0, "0");
    assert_eq!(snap.throughput_mbps[0], ("10.0.0.1:443".to_string(), 0));
    manager.refresh(Err("gone".to_string()));
    assert!(manager.is_enabled());
    assert_eq!(manager.snapshot.last_error.as_deref(), Some("gone"));
}

#[test]
fn set_enabled_persists_intent() {
    let mut manager = MptcpManager::new();
    assert!(matches!(manager.set_enabled(true), MptcpOp::SetEnabled { enabled: true }));
    assert!(manager.want_enabled);
}

#[test]
fn the_last_answer_is_reported() {
    let mut manager = MptcpManager::new();
    assert_eq!(manager.endpoints_answered(vec![]).detail, "endpoints converged");
    let ops = manager.set_endpoints(vec![("10.0.0.1".into(), "eth0".into()), ("10.0.0.2".into(), String::new())]);
    assert!(matches!(&ops[1], MptcpOp::AddEndpoint { address, interface: None } if address == "10.0.0.2"));
    let r = manager.endpoints_answered(vec![Ok(mptcp_status(true)), Err("EPERM".to_string())]);
    assert!(!r.ok);
    assert_eq!(r.detail, "add endpoint 10.0.0.2: EPERM");
    assert_eq!(r.endpoints.len(), 1);
}

#[test]
fn parses_iperf3_json() {
    let json = r#"{"end":{"sum_received":{"bits_per_second":2250000000}}}"#;
    assert_eq!(parse_iperf3_bps(json).map(|bps| bps as f64 / 1_000_000.0), Some(2250.0));
}

#[test]
fn parses_iperf3_json_missing_fields_is_none() {
    assert_eq!(parse_iperf3_bps("{}"), None);
    assert_eq!(parse_iperf3_bps("not json"), None);
    assert_eq!(parse_iperf3_bps(r#"{"end":{"sum_received":{"bits_per_second":"fast"}}}"#), None);
}

#[test]
fn a_probe_is_bounded() {
    let target = ProbeTarget { host: "probe.example".to_string(), port: 5201 };
    assert_eq!(
        iperf3_args(&target),
        vec!["-c", "probe.example", "-p", "5201", "-t", "6", "-f", "m", "--json"]
    );
    let report = br#"{"end":{"sum_received":{"bits_per_second":8000000}}}"#.to_vec();
    let good = iperf3_result(true, 6_000_000_000, &report).unwrap();
    assert_eq!((good.bits, good.over_ns, good.method), (8_000_000, 1_000_000_000, "iperf3"));
    assert!(iperf3_result(false, 1, &report).is_none());
    assert!(iperf3_result(true, 8_000_000_001, &report).is_none());
    let mut p = NativeProbe::new();
    assert!(p.on_read(100, 0));
    assert!(!p.on_read(100, 6));
    assert!(!p.on_read(0, 0));
    let r = p.result(2_000_000_000, "2.0");
    assert_eq!((r.bits, r.over_ns), (1600, 2_000_000_000));
    assert_eq!(r.detail, "downloaded 0 MiB in 2.0s");
    assert_eq!(NativeProbe::new().result(5, "0.0").bits, 0);
    let mut full = NativeProbe { total: PROBE_MAX_BYTES - 1 };
    assert!(!full.on_read(1, 0));
    assert_eq!(no_target().method, "none");
    assert_eq!(no_connection("refused").detail, "TCP connect failed: refused");
}

#[test]
fn the_configuration_says_where_to_listen() {
    let text = |s: &str| Some(s.to_string());
    assert_eq!(api_bind(&None, &None), "127.0.0.1:8080");
    assert_eq!(api_bind(&None, &text("0.0.0.0:1")), "0.0.0.0:1");
    assert_eq!(api_bind(&text("[api]\nbind = \" 10.0.0.1:9 \"\n"), &text("0.0.0.0:1")), "10.0.0.1:9");
    assert_eq!(api_bind(&text("[api]\nenabled = false\nbind = \"10.0.0.1:9\"\n"), &None), "");
    assert_eq!(api_bind(&text("[api]\nbind = \"  \"\n"), &text("0.0.0.0:1")), "0.0.0.0:1");
    assert_eq!(api_bind(&text("not = [toml"), &None), "127.0.0.1:8080");
    assert!(api_enabled("127.0.0.1:8080"));
    assert!(!api_enabled("  "));
}

fn args(v: &[&str]) -> Vec<String> {
    v.iter().map(|s| s.to_string()).collect()
}

#[test]
fn commands_are_understood() {
    assert!(matches!(parse_command(&args(&["status"])), Some(Command::Status)));
    assert!(matches!(parse_command(&args(&["reload", "x.toml"])), Some(Command::Reload(p)) if p == "x.toml"));
    assert!(parse_command(&args(&["reload"])).is_none());
    assert!(parse_command(&args(&[])).is_none());
    assert!(parse_command(&args(&["dance"])).is_none());
}

#[test]
fn fingerprints_are_shown_in_hexadecimal() {
    assert_eq!(fingerprint_text(0xDEAD_BEEF), "0x00000000deadbeef");
    assert_eq!(fingerprint_text(0), "0x0000000000000000");
    assert_eq!(fingerprint_text(u64::MAX), "0xffffffffffffffff");
    let payload = postcard::to_allocvec(&Some(0xABCu64)).unwrap();
    assert_eq!(status_fingerprint(&payload), "config fingerprint: 0x0000000000000abc");
    assert_eq!(status_fingerprint(&vec![0]), "config fingerprint: none");
    assert_eq!(status_fingerprint(&vec![]), "config fingerprint: <malformed>");
    let data = IpcMessage::response_data(1, payload);
    assert_eq!(show_fingerprint(&data), Ok("0x0000000000000abc".to_string()));
    let error = IpcMessage::response_error(1, "denied");
    assert_eq!(show_fingerprint(&error), Err("error: denied".to_string()));
    assert_eq!(reply_error(&error).as_deref(), Some("error: denied"));
    assert_eq!(data.msg_type, MsgType::ResponseData);
    assert_eq!(reply_error(&data), None);
}

#[test]
fn pages_are_asked_for_and_read() {
    assert_eq!(
        http_request("127.0.0.1:8080", "/interfaces"),
        "GET /interfaces HTTP/1.0\r\nHost: 127.0.0.1:8080\r\nConnection: close\r\n\r\n"
    );
    assert_eq!(http_body(&b"HTTP/1.0 200 OK\r\nA: b\r\n\r\n[1]\r\n\r\n2".to_vec()).as_deref(), Some("[1]\r\n\r\n2"));
    assert_eq!(http_body(&b"HTTP/1.0 200 OK\r\n".to_vec()), None);
}

#[test]
fn interfaces_are_shown_in_a_table() {
    let body = r#"[{"name":"eth0","link_up":true,"role":"wan","driver":"r8152","mac":"00:e0:4c:68:02:24","vendor_id":"0bda","product_id":"8156","ipv4":["10.0.0.2",3,"10.0.0.3"],"speed_mbps":1000,"duplex":"full"}]"#;
    let list = listed_interfaces(body).unwrap();
    assert_eq!(list.len(), 1);
    let item = list[0].as_str();
    assert_eq!(jstr(item, "name"), "eth0");
    assert_eq!(jstr(item, "ipv4"), "10.0.0.2,,10.0.0.3");
    assert_eq!(jstr(item, "speed_mbps"), "1000");
    assert_eq!(jstr(item, "missing"), "-");
    assert!(jbool(item, "link_up"));
    assert!(!jbool(item, "name"));
    assert_eq!(jstr_opt(item, "duplex").as_deref(), Some("full"));
    assert_eq!(jstr_opt(item, "speed_mbps"), None);
    assert_eq!(
        network_row(item),
        format!(
            "{:<12} {:<5} {:<6} {:<14} {:<17} {:<22} {}",
            "eth0", "UP", "wan", "r8152", "00:e0:4c:68:02:24", "0bda:8156", "10.0.0.2,,10.0.0.3"
        )
    );
    assert!(network_header().starts_with("NAME         LINK "));
    let shown = identify(item);
    assert!(shown.starts_with("interface eth0\n  role:       wan\n"));
    assert!(shown.contains("  link:       UP speed=Some(1000)Mbps duplex=Some(\"full\")\n"));
    assert_eq!(listed_interfaces("{}").unwrap_err(), "error: unexpected /interfaces payload");
    assert!(listed_interfaces("nonsense").unwrap_err().starts_with("api /interfaces: "));
}
