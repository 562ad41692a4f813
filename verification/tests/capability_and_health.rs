use balansir_daemon::capability::{cpu_count, detect, features_for, tier_for, total_ram_mb};
use balansir_daemon::health::{PathHealthTracker, PathState};
use balansir_daemon::l2_probe::{
    build_client_hello, connect_result, probe_address, read_result, ConnectOutcome, L2Result, ReadOutcome,
};

#[test]
fn tier_thresholds() {
    assert_eq!(tier_for(512), "Minimal");
    assert_eq!(tier_for(1024), "Standard");
    assert_eq!(tier_for(8192), "Performance");
    assert_eq!(tier_for(0), "Unknown");
}

#[test]
fn minimal_limits_expectations() {
    let f = features_for("Minimal");
    let xray = f.iter().find(|x| x.name == "Xray transport").unwrap();
    assert!(xray.available && xray.limited);
    let ml = f.iter().find(|x| x.name == "ML / BTP").unwrap();
    assert!(!ml.available);
    assert!(ml.reason.as_deref().unwrap().contains("Minimal"));
    // Core features never lie.
    assert!(f.iter().find(|x| x.name == "Policy engine").unwrap().available);
}

#[test]
fn performance_is_full() {
    let f = features_for("Performance");
    assert!(f.iter().find(|x| x.name == "Advanced telemetry").unwrap().available);
    assert!(f.iter().find(|x| x.name == "Xray transport").unwrap().available);
}

#[test]
fn cpu_count_parses_range() {
    // The parser handles both "0-3" and "0" shapes.
    assert_eq!(cpu_count("0-3"), 4);
    assert_eq!(cpu_count("0"), 1);
    assert!(cpu_count("") >= 1);
    assert!(cpu_count("3-0") >= 1);
}

#[test]
fn detect_never_panics() {
    let profile = detect(None, None);
    assert!(profile.cores >= 1);
    assert!(matches!(profile.tier.as_str(), "Minimal" | "Standard" | "Performance" | "Unknown"));
    assert!(!profile.features.is_empty());
    let known = detect(Some("MemTotal:        8388608 kB\n"), Some("0-3\n"));
    assert_eq!(known.ram_mb, 8192);
    assert_eq!(known.cores, 4);
    assert_eq!(known.tier, "Performance");
}

#[test]
fn memory_is_read_in_mebibytes() {
    assert_eq!(total_ram_mb("MemTotal:        1048576 kB\nMemFree: 1 kB\n"), 1024);
    assert_eq!(total_ram_mb("MemFree: 1 kB\n"), 0);
}

#[test]
fn healthy_requires_recover_after_good_from_unknown() {
    let mut t = PathHealthTracker::new("direct", 16, 3, 3, 0);
    assert_eq!(t.observe(true, 1), PathState::Unknown);
    assert_eq!(t.observe(true, 2), PathState::Unknown);
    assert_eq!(t.observe(true, 3), PathState::Healthy);
}

#[test]
fn degrades_after_n_bad_and_recovers_after_m_good() {
    let mut t = PathHealthTracker::new("direct", 16, 3, 3, 0);
    for _ in 0..3 {
        let _ = t.observe(true, 1);
    }
    assert_eq!(t.state(), PathState::Healthy);
    // One blip: Degrading, not Degraded.
    assert_eq!(t.observe(false, 2), PathState::Degrading);
    assert_eq!(t.observe(false, 3), PathState::Degrading);
    assert_eq!(t.observe(false, 4), PathState::Degraded);
    // Recovery needs 3 good samples.
    assert_eq!(t.observe(true, 5), PathState::Recovering);
    assert_eq!(t.observe(true, 6), PathState::Recovering);
    assert_eq!(t.observe(true, 7), PathState::Healthy);
}

#[test]
fn degraded_snaps_back_on_bad_during_recovery() {
    let mut t = PathHealthTracker::new("xray", 16, 2, 2, 0);
    for _ in 0..2 {
        let _ = t.observe(true, 1);
    }
    assert_eq!(t.state(), PathState::Healthy);
    for _ in 0..2 {
        let _ = t.observe(false, 2);
    }
    assert_eq!(t.state(), PathState::Degraded);
    assert_eq!(t.observe(true, 3), PathState::Recovering);
    // Bad sample during recovery -> back to Degraded.
    assert_eq!(t.observe(false, 4), PathState::Degraded);
}

#[test]
fn a_blip_on_the_way_back_from_a_blip_is_no_degradation() {
    let mut t = PathHealthTracker::new("direct", 16, 3, 3, 0);
    for _ in 0..3 {
        let _ = t.observe(true, 1);
    }
    assert_eq!(t.observe(false, 2), PathState::Degrading);
    assert_eq!(t.observe(true, 3), PathState::Recovering);
    assert_eq!(t.observe(false, 4), PathState::Degrading);
    assert_eq!(t.observe(false, 5), PathState::Degrading);
    assert_eq!(t.observe(false, 6), PathState::Degraded);
}

#[test]
fn a_threshold_of_one_is_met_by_one_sample() {
    let mut d = PathHealthTracker::new("d", 16, 1, 1, 0);
    assert_eq!(d.state(), PathState::Unknown);
    assert_eq!(d.observe(false, 1), PathState::Degraded);
    assert_eq!(d.state(), PathState::Degraded);
    assert_eq!(d.observe(true, 2), PathState::Healthy);
    assert_eq!(d.state(), PathState::Healthy);
    assert_eq!(d.observe(false, 3), PathState::Degraded);
}

#[test]
fn states_tell_of_the_samples() {
    let pattern = [true, false, true, true, false, false, true, false, true, true, true, false];
    let mut t = PathHealthTracker::new("b4", 16, 2, 2, 0);
    for (i, ok) in pattern.iter().enumerate() {
        let state = t.observe(*ok, i as u64);
        let fine = matches!(state, PathState::Unknown | PathState::Healthy | PathState::Recovering);
        assert_eq!(*ok, fine);
        if state == PathState::Healthy {
            assert!(pattern[i - 1] && pattern[i]);
        }
        if state == PathState::Unknown {
            assert!(pattern[..=i].iter().all(|b| *b));
        }
        assert_eq!(t.state(), state);
    }
}

#[test]
fn report_carries_samples_and_reason() {
    let mut t = PathHealthTracker::new("b4", 8, 2, 2, 0);
    for _ in 0..2 {
        let _ = t.observe(true, 1);
    }
    for _ in 0..2 {
        let _ = t.observe(false, 9);
    }
    let r = t.report();
    assert_eq!(r.state, PathState::Degraded);
    assert!(r.reason.contains("failed"));
    assert_eq!(r.samples.len(), 4);
    assert_eq!(r.window, 8);
}

#[test]
fn only_the_window_is_kept() {
    let mut t = PathHealthTracker::new("b4", 2, 2, 2, 0);
    for _ in 0..5 {
        let _ = t.observe(true, 1);
    }
    assert_eq!(t.report().samples, vec![true, true]);
}

#[test]
fn client_hello_has_valid_structure() {
    let hello = build_client_hello("example.com");
    // TLS record header
    assert_eq!(hello[0], 0x16); // handshake
    assert_eq!(hello[1], 0x03); // version major
    assert!(hello[3] != 0 || hello[4] != 0); // non-zero length
    // Handshake type
    assert_eq!(hello[5], 0x01); // client_hello
}

#[test]
fn client_hello_contains_sni() {
    let hello = build_client_hello("test.example.org");
    let text = String::from_utf8_lossy(&hello);
    assert!(text.contains("test.example.org"));
}

#[test]
fn client_hello_length_is_consistent() {
    for sni in ["a.io", "medium.example.com", "very.long.domain.name.for.testing.example.org"] {
        let hello = build_client_hello(sni);
        // Extract record length from bytes 3..5
        let rec_len = u16::from_be_bytes([hello[3], hello[4]]) as usize + 5; // +5 for record header
        assert_eq!(hello.len(), rec_len, "record length mismatch for sni={}", sni);
    }
}

#[test]
fn every_length_in_a_client_hello_is_right() {
    for sni in ["", "a.io", "medium.example.com"] {
        let hello = build_client_hello(sni);
        let number = |at: usize| hello[at] as usize * 256 + hello[at + 1] as usize;
        assert_eq!(number(3), hello.len() - 5);
        assert_eq!(hello[6] as usize * 65536 + number(7), hello.len() - 9);
        assert_eq!(number(58), hello.len() - 60);
        let mut at = 60;
        let mut found = Vec::new();
        while at < hello.len() {
            let n = number(at + 2);
            found.push((number(at), hello[at + 4..at + 4 + n].to_vec()));
            at += 4 + n;
        }
        assert_eq!(at, hello.len());
        assert_eq!(found.len(), 2);
        assert_eq!(found[0].0, 0);
        assert_eq!(&found[0].1[5..], sni.as_bytes());
        assert_eq!(found[1], (0x2b, vec![2, 3, 4]));
        assert_eq!(&hello[hello.len() - 7..], [0x00, 0x2b, 0x00, 0x03, 0x02, 0x03, 0x04]);
    }
}

#[test]
fn probe_outcomes_are_told_apart() {
    assert_eq!(probe_address("203.0.113.5", 443), "203.0.113.5:443");
    assert!(connect_result(ConnectOutcome::Connected).is_none());
    assert!(matches!(connect_result(ConnectOutcome::TimedOut), Some(L2Result::Timeout)));
    assert!(matches!(connect_result(ConnectOutcome::Refused), Some(L2Result::Reset)));
    assert!(matches!(read_result(&ReadOutcome::Data(vec![])), L2Result::ImmediateEof));
    assert!(matches!(read_result(&ReadOutcome::Reset), L2Result::Reset));
    assert!(matches!(read_result(&ReadOutcome::TimedOut), L2Result::Timeout));
    assert!(matches!(read_result(&ReadOutcome::Data(vec![0x16, 0x03, 0x03, 0, 2, 2, 0])), L2Result::Alive));
    assert!(matches!(read_result(&ReadOutcome::Data(vec![0x15, 0x03, 0x03, 0, 2, 2, 40])), L2Result::TlsFailure(_)));
}
