use balansir_daemon::amneziawg::{
    command_result, module_loaded, AmneziaWGConfig, AmneziaWGDriver, AmneziaWGPeer, ObfuscationConfig,
};
use balansir_daemon::b4::{B4Config, B4Driver, B4Mode, B4Strategy};
use balansir_daemon::hysteria::{BandwidthConfig, Hysteria2Config, Hysteria2Driver, ObfsConfig, TlsConfig};
use balansir_daemon::model::{DriverError, DriverId, HealthStatus};
use balansir_daemon::secrets::{remove_secret, secret_path, write_secret, RemovalStep, RUNTIME_DIR, SECRET_MODE};

fn awg_config() -> AmneziaWGConfig {
    AmneziaWGConfig {
        interface: "awg0".to_string(),
        private_key: Some("test-key".to_string()),
        listen_port: Some(48243),
        address: Some("10.0.0.1/24".to_string()),
        peers: vec![AmneziaWGPeer {
            public_key: "peer-key".to_string(),
            endpoint: Some("vpn.example.com:48243".to_string()),
            allowed_ips: vec!["0.0.0.0/0".to_string()],
            persistent_keepalive: Some(25),
        }],
        obfuscation: ObfuscationConfig::default(),
    }
}

#[test]
fn test_amneziawg_config() {
    let driver = AmneziaWGDriver::new(DriverId::B4, awg_config());
    assert_eq!(driver.id(), DriverId::B4);
    assert_eq!(driver.name(), "AmneziaWG");
    assert!(driver.capabilities().tunnel);
}

#[test]
fn test_obfuscation_config() {
    let config = ObfuscationConfig::default();
    assert_eq!(config.jc, 3);
    assert_eq!(config.jmin, 10);
    assert_eq!(config.jmax, 50);
}

#[test]
fn awg_commands_name_the_interface() {
    let driver = AmneziaWGDriver::new(DriverId::AmneziaWG, awg_config());
    let commands = driver.start_commands();
    assert!(!commands.is_empty());
    assert!(commands.iter().all(|c| c.iter().any(|w| w == "awg0")));
    assert!(driver.stop_command().iter().any(|w| w == "awg0"));
}

#[test]
fn awg_health_follows_its_interface() {
    let mut driver = AmneziaWGDriver::new(DriverId::AmneziaWG, awg_config());
    let down = driver.health_check(true);
    driver.started();
    assert_eq!(driver.health_check(true), HealthStatus::Healthy);
    assert!(driver.health_check(false) != HealthStatus::Healthy);
    driver.stopped();
    assert_eq!(driver.health_check(true), down);
}

#[test]
fn a_missing_module_is_an_error() {
    assert!(module_loaded("amneziawg 16384 0\n").is_ok());
    assert!(module_loaded("nf_tables 1 0\n").is_err());
}

#[test]
fn a_failing_command_tells_why() {
    assert!(command_result(true, "").is_ok());
    match command_result(false, "no such device") {
        Err(DriverError::InterfaceError(e)) => assert!(e.contains("no such device")),
        other => panic!("unexpected: {:?}", other),
    }
}

fn b4_config(second: B4Strategy) -> B4Config {
    B4Config {
        mode: B4Mode::Transparent,
        ports: vec![80, 443],
        strategies: vec![B4Strategy::Fragmentation { strategy: "tcp".to_string() }, second],
        upstream: None,
    }
}

#[test]
fn test_b4_config() {
    let driver = B4Driver::new(DriverId::Custom(4), b4_config(B4Strategy::TtlDisorientation));
    assert_eq!(driver.id(), DriverId::Custom(4));
    assert_eq!(driver.name(), "B4");
    assert!(driver.capabilities().packet_processor);
}

#[test]
fn test_b4_config_generation() {
    let driver = B4Driver::new(DriverId::Custom(4), b4_config(B4Strategy::FakePacket { seq_offset: 100 }));
    let config_str = driver.generate_config();
    assert!(config_str.contains("transparent"));
    assert!(config_str.contains("80"));
    assert!(config_str.contains("443"));
    assert!(config_str.contains("fragmentation"));
}

#[test]
fn b4_files_bear_the_number() {
    let driver = B4Driver::new(DriverId::B4, b4_config(B4Strategy::TtlDisorientation));
    assert_eq!(driver.config_file(4), "/tmp/balansir-b4-4.json");
}

fn hysteria_config(tls: Option<TlsConfig>) -> Hysteria2Config {
    Hysteria2Config {
        server: "proxy.example.com:443".to_string(),
        password: "test-password".to_string(),
        obfs: Some(ObfsConfig { mode: "salamander".to_string(), password: "obfs-password".to_string() }),
        bandwidth: BandwidthConfig { up_mbps: Some(50), down_mbps: Some(100) },
        up_proxy: None,
        down_proxy: None,
        tls,
    }
}

#[test]
fn test_hysteria2_config() {
    let tls = TlsConfig { sni: Some("example.com".to_string()), insecure: false, ca_path: None };
    let driver = Hysteria2Driver::new(DriverId::Hysteria, hysteria_config(Some(tls)));
    assert_eq!(driver.id(), DriverId::Hysteria);
    assert_eq!(driver.name(), "Hysteria2");
    assert!(driver.capabilities().proxy);
}

#[test]
fn test_hysteria2_config_generation() {
    let driver = Hysteria2Driver::new(DriverId::Hysteria, hysteria_config(None));
    let config_str = driver.generate_config();
    assert!(config_str.contains("proxy.example.com"));
    assert!(config_str.contains("test-password"));
    assert!(config_str.contains("salamander"));
}

#[test]
fn hysteria_configuration_is_kept_with_the_secrets() {
    let driver = Hysteria2Driver::new(DriverId::Hysteria, hysteria_config(None));
    assert!(driver.config_file(3).starts_with(RUNTIME_DIR));
}

#[test]
fn test_secret_path_layout() {
    let p = secret_path("abc-123", "xray");
    assert!(p.starts_with(RUNTIME_DIR));
    assert_eq!(p.rsplit('/').next().unwrap(), "xray-abc-123.json");
}

#[test]
fn test_write_wipes_and_removes() {
    let file = write_secret("abc-123", "xray", b"hunter2");
    assert_eq!(file.mode & 0o777, 0o600);
    assert_eq!(file.mode, SECRET_MODE);
    assert_eq!(file.contents, b"hunter2".to_vec());
    let steps = remove_secret(Some(7));
    assert_eq!(steps.len(), 3);
    match &steps[0] {
        RemovalStep::Overwrite(bytes) => assert_eq!(bytes, &vec![0u8; 7]),
        RemovalStep::Delete => panic!("deleted before it was wiped"),
    }
    assert!(matches!(&steps[1], RemovalStep::Overwrite(bytes) if bytes.is_empty()));
    assert!(matches!(steps[2], RemovalStep::Delete));
    assert_eq!(remove_secret(None).len(), 1);
}
