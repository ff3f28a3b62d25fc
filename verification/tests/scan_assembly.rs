use portify::scan::{
    best_process_name, format_addr, process_info_from, Endpoint, RawSocket, SocketDetail,
    TcpStateKind,
};
use portify::{
    assemble_entries, format_bytes, group_by_port, PortEntry, PortGroup, ProcessInfo, Protocol,
    ScanOptions, SocketState,
};

/// The size formatting as floating point does it: divide by 1024 while the
/// value is at least 1024 (up to GB), one decimal.
fn reference_size(bytes: u64) -> String {
    let units = ["B", "KB", "MB", "GB"];
    let mut value = bytes as f64;
    let mut unit = 0;
    while value >= 1024.0 && unit < units.len() - 1 {
        value /= 1024.0;
        unit += 1;
    }
    if unit == 0 {
        format!("{} {}", bytes, units[unit])
    } else {
        format!("{value:.1} {}", units[unit])
    }
}

#[test]
fn sizes_match_floating_point_formatting() {
    let mut samples: Vec<u64> = vec![
        0,
        1,
        1023,
        1024,
        1025,
        1075,
        1076,
        1126,
        1127,
        1536,
        10 * 1024 - 1,
        1_048_575,
        1_048_576,
        1_073_741_823,
        1_073_741_824,
        5 * 1024 * 1024 * 1024 + 52_428_800,
        1 << 53,
        (1 << 53) + 1,
        (1 << 60) + 12_345,
        u64::MAX,
        u64::MAX - 1,
    ];
    // Values around every rounding boundary of the first decimal.
    for k in 0..400u64 {
        let base = k * 1024 / 20;
        samples.push(1024 + base);
        samples.push(1024 * 1024 + base * 1024 + 512);
        samples.push(1024 * 1024 * 1024 + base * 1024 * 1024 - 1);
    }
    let mut seed: u64 = 0x9E37_79B9_7F4A_7C15;
    for _ in 0..5000 {
        seed ^= seed << 13;
        seed ^= seed >> 7;
        seed ^= seed << 17;
        samples.push(seed >> (seed % 64));
    }
    for bytes in samples {
        assert_eq!(format_bytes(bytes), reference_size(bytes), "bytes = {bytes}");
    }
}

#[test]
fn sizes_have_exact_spellings() {
    assert_eq!(format_bytes(0), "0 B");
    assert_eq!(format_bytes(1023), "1023 B");
    assert_eq!(format_bytes(1536), "1.5 KB");
    assert_eq!(format_bytes(1_073_741_824), "1.0 GB");
    assert_eq!(format_bytes(u64::MAX), "17179869184.0 GB");
}

#[test]
fn addresses_bracket_ipv6() {
    assert_eq!(format_addr("127.0.0.1", false, 8080), "127.0.0.1:8080");
    assert_eq!(format_addr("::1", true, 5353), "[::1]:5353");
}

#[test]
fn tcp_states_are_normalised() {
    assert_eq!(SocketState::from_tcp(TcpStateKind::Listen), SocketState::Listen);
    assert_eq!(SocketState::from_tcp(TcpStateKind::FinWait2), SocketState::FinWait);
    assert_eq!(SocketState::from_tcp(TcpStateKind::LastAck), SocketState::Closing);
    assert_eq!(SocketState::from_tcp(TcpStateKind::DeleteTcb), SocketState::Closed);
    assert_eq!(SocketState::from_tcp(TcpStateKind::Unknown), SocketState::Unknown);
    assert_eq!(SocketState::SynReceived.as_str(), "SYN_RECV");
    assert_eq!(SocketState::TimeWait.as_str(), "TIME_WAIT");
    assert_eq!(Protocol::Udp.as_str(), "UDP");
}

#[test]
fn the_executable_name_beats_the_thread_name() {
    assert_eq!(best_process_name(Some("python3".into()), "MainThread".into()), "python3");
    assert_eq!(best_process_name(Some(String::new()), "sshd".into()), "sshd");
    assert_eq!(best_process_name(None, "kthreadd".into()), "kthreadd");
}

#[test]
fn memory_and_start_time_are_absent_rather_than_zero() {
    let info = process_info_from(
        4,
        Some("C:\\Windows\\System32\\svchost.exe".into()),
        Some("svchost.exe".into()),
        "svchost.exe".into(),
        vec![],
        0,
        0,
        true,
    );
    assert_eq!(info.memory_bytes, None);
    assert_eq!(info.started_at, None);
    assert_eq!(info.command, None, "an empty command line is no command line");
    assert_eq!(info.description, Some("Windows service host"));
    assert_eq!(info.exe.as_deref(), Some("C:\\Windows\\System32\\svchost.exe"));
}

#[test]
fn details_are_only_kept_when_asked_for() {
    let args = vec!["node".to_string(), "server.js".to_string()];
    let detailed = process_info_from(
        42,
        Some("/usr/bin/node".into()),
        Some("node".into()),
        "node".into(),
        args.clone(),
        4096,
        17,
        true,
    );
    assert_eq!(detailed.command.as_deref(), Some("node server.js"));
    assert_eq!(detailed.memory_bytes, Some(4096));
    assert_eq!(detailed.started_at, Some(17));
    assert_eq!(detailed.description, Some("Node.js"));
    let plain =
        process_info_from(42, Some("/usr/bin/node".into()), Some("node".into()), "node".into(), args, 4096, 17, false);
    assert_eq!(plain.exe, None);
    assert_eq!(plain.command, None);
    assert_eq!(plain.name, "node");
}

fn endpoint(ip: &str, is_v6: bool, port: u16) -> Endpoint {
    Endpoint { ip: ip.to_string(), is_v6, port }
}

fn table() -> (Vec<RawSocket>, Vec<ProcessInfo>) {
    let sockets = vec![
        RawSocket {
            detail: SocketDetail::Tcp {
                local: endpoint("127.0.0.1", false, 3000),
                remote: endpoint("127.0.0.1", false, 51000),
                state: TcpStateKind::Established,
            },
            associated_pids: vec![42],
        },
        RawSocket {
            detail: SocketDetail::Tcp {
                local: endpoint("0.0.0.0", false, 3000),
                remote: endpoint("0.0.0.0", false, 0),
                state: TcpStateKind::Listen,
            },
            associated_pids: vec![42, 43],
        },
        RawSocket { detail: SocketDetail::Udp { local: endpoint("0.0.0.0", false, 54995) }, associated_pids: vec![] },
        RawSocket { detail: SocketDetail::Udp { local: endpoint("::1", true, 5353) }, associated_pids: vec![99] },
        RawSocket {
            detail: SocketDetail::Tcp {
                local: endpoint("::", true, 22),
                remote: endpoint("::", true, 0),
                state: TcpStateKind::Listen,
            },
            associated_pids: vec![],
        },
    ];
    let processes = vec![ProcessInfo {
        pid: 42,
        name: "node".to_string(),
        exe: None,
        command: None,
        description: Some("Node.js"),
        memory_bytes: None,
        started_at: None,
    }];
    (sockets, processes)
}

#[test]
fn the_default_scan_lists_serving_sockets_in_port_order() {
    let (sockets, processes) = table();
    let entries = assemble_entries(&ScanOptions::default(), &sockets, &processes);
    let summary: Vec<(u16, Protocol, &str, Option<u32>, bool)> = entries
        .iter()
        .map(|e| (e.port, e.protocol, e.local_address.as_str(), e.pid, e.owner_hidden))
        .collect();
    assert_eq!(
        summary,
        vec![
            (22, Protocol::Tcp, "[::]:22", None, true),
            (3000, Protocol::Tcp, "0.0.0.0:3000", Some(42), false),
            (5353, Protocol::Udp, "[::1]:5353", Some(99), true),
        ]
    );
    assert_eq!(entries[0].service, Some("SSH"));
    assert_eq!(entries[1].process.as_ref().map(|p| p.name.as_str()), Some("node"));
    assert_eq!(entries[1].remote_address, None, "a listener has no peer");
    assert_eq!(entries[2].state, SocketState::Bound);
    assert_eq!(entries[2].process_name(), "(hidden)");
}

#[test]
fn everything_keeps_connections_and_ephemeral_sockets() {
    let (sockets, processes) = table();
    let entries = assemble_entries(&ScanOptions::everything(), &sockets, &processes);
    assert_eq!(entries.len(), 5);
    let ports: Vec<(u16, &str)> = entries.iter().map(|e| (e.port, e.local_address.as_str())).collect();
    assert_eq!(
        ports,
        vec![(22, "[::]:22"), (3000, "0.0.0.0:3000"), (3000, "127.0.0.1:3000"), (5353, "[::1]:5353"), (54995, "0.0.0.0:54995")]
    );
    assert_eq!(entries[2].state, SocketState::Established);
    assert_eq!(entries[2].remote_address.as_deref(), Some("127.0.0.1:51000"));
    assert!(entries[4].owner_hidden);

    let groups = group_by_port(&entries);
    assert_eq!(groups.len(), 4);
    assert_eq!((groups[1].sockets, groups[1].connections), (1, 1));
    let total: usize = groups.iter().map(|g| g.sockets + g.connections).sum();
    assert_eq!(total, entries.len(), "every socket is counted in exactly one row");
}

#[test]
fn naming_ports_without_all_reveals_ephemeral_udp_only() {
    let (sockets, processes) = table();
    let options = ScanOptions { include_ephemeral_udp: true, ..ScanOptions::default() };
    let entries = assemble_entries(&options, &sockets, &processes);
    assert!(entries.iter().any(|e| e.port == 54995));
    assert!(entries.iter().all(|e| e.state.is_serving()));
}

#[test]
fn a_row_label_counts_the_extra_processes() {
    let process = |pid: u32, name: &str| ProcessInfo {
        pid,
        name: name.to_string(),
        exe: None,
        command: None,
        description: None,
        memory_bytes: None,
        started_at: None,
    };
    let mut group = PortGroup {
        port: 80,
        protocol: Protocol::Tcp,
        service: Some("HTTP"),
        processes: vec![],
        addresses: vec![],
        sockets: 1,
        connections: 0,
        owner_hidden: false,
    };
    assert_eq!(group.process_label(), "(system)");
    group.owner_hidden = true;
    assert_eq!(group.process_label(), "(hidden)");
    group.processes = vec![process(1, "nginx"), process(2, "nginx"), process(3, "nginx")];
    assert_eq!(group.process_label(), "nginx (+2 more)");
    assert_eq!(group.primary_pid(), Some(1));
}

#[test]
fn a_socket_without_an_owner_says_why() {
    let entry = PortEntry {
        port: 1,
        protocol: Protocol::Tcp,
        state: SocketState::Listen,
        local_address: "0.0.0.0:1".to_string(),
        remote_address: None,
        pid: None,
        process: None,
        service: None,
        owner_hidden: false,
    };
    assert_eq!(entry.process_name(), "(system)");
}
