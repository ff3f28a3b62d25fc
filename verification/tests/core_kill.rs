use portify::scan::{ProcessInfo, Protocol, SocketState};
use portify::{other_ports_held_by, KillOutcome, KillStatus, PortEntry};

fn outcome_with(name: &str, ports: Vec<u16>) -> KillOutcome {
    KillOutcome {
        pid: 19064,
        process_name: name.to_string(),
        port: Some(6379),
        status: KillStatus::Killed,
        detail: String::new(),
        collateral_ports: ports,
    }
}

#[test]
fn no_warning_when_the_process_only_holds_the_one_port() {
    assert!(outcome_with("node", Vec::new()).collateral_warning().is_none());
}

#[test]
fn warns_about_a_single_extra_port() {
    let warning = outcome_with("node", vec![3001]).collateral_warning().unwrap();
    assert!(warning.contains("also held port 3001"), "{warning}");
}

#[test]
fn warns_and_truncates_for_a_relay_holding_everything() {
    let ports: Vec<u16> = (4510..=4566).collect();
    let warning = outcome_with("wslrelay.exe", ports.clone())
        .collateral_warning()
        .unwrap();
    assert!(warning.contains("wslrelay.exe"), "{warning}");
    assert!(warning.contains(&ports.len().to_string()), "{warning}");
    assert!(warning.contains("4510"), "{warning}");
    assert!(warning.contains('…'), "long lists are truncated: {warning}");
}

#[test]
fn other_ports_excludes_the_target_and_other_pids() {
    let entry = |port: u16, pid: u32| PortEntry {
        port,
        protocol: Protocol::Tcp,
        state: SocketState::Listen,
        local_address: format!("0.0.0.0:{port}"),
        remote_address: None,
        pid: Some(pid),
        process: Some(ProcessInfo {
            pid,
            name: "wslrelay.exe".into(),
            description: Some("WSL port forward"),
            exe: None,
            command: None,
            memory_bytes: None,
            started_at: None,
        }),
        service: None,
        owner_hidden: false,
    };

    let entries = vec![
        entry(6379, 19064),
        entry(4510, 19064),
        entry(4511, 19064),
        entry(3000, 999),
    ];

    assert_eq!(other_ports_held_by(&entries, 19064, 6379), vec![4510, 4511]);
    assert!(other_ports_held_by(&entries, 999, 3000).is_empty());
}

#[test]
fn success_statuses() {
    assert!(KillStatus::Killed.is_success());
    assert!(KillStatus::Escalated.is_success());
    assert!(!KillStatus::PermissionDenied.is_success());
    assert!(!KillStatus::Refused.is_success());
}
