use portify::scan::{is_ephemeral_udp, EPHEMERAL_PORT_START};
use portify::{
    format_bytes, group_by_port, service_for_port, PortEntry, ProcessInfo, Protocol, ScanOptions,
    SocketState,
};

fn entry(port: u16, protocol: Protocol, state: SocketState, addr: &str) -> PortEntry {
    PortEntry {
        port,
        protocol,
        state,
        local_address: addr.to_string(),
        remote_address: None,
        pid: Some(42),
        process: Some(ProcessInfo {
            pid: 42,
            name: "node".into(),
            description: None,
            exe: None,
            command: None,
            memory_bytes: None,
            started_at: None,
        }),
        service: service_for_port(port),
        owner_hidden: false,
    }
}

#[test]
fn ephemeral_udp_is_recognised_but_ephemeral_tcp_is_not() {
    assert!(is_ephemeral_udp(Protocol::Udp, 54995));
    assert!(is_ephemeral_udp(Protocol::Udp, EPHEMERAL_PORT_START));
    assert!(!is_ephemeral_udp(Protocol::Udp, EPHEMERAL_PORT_START - 1));
    assert!(!is_ephemeral_udp(Protocol::Udp, 5353), "mDNS is a service");
    assert!(!is_ephemeral_udp(Protocol::Tcp, 49664), "RPC listener");
}

#[test]
fn everything_stops_hiding_ephemeral_sockets() {
    assert!(!ScanOptions::default().include_ephemeral_udp);
    assert!(ScanOptions::everything().include_ephemeral_udp);
    assert!(!ScanOptions::everything().only_serving);
}

#[test]
fn grouping_collapses_one_port_bound_to_many_addresses() {
    let entries = vec![
        entry(3000, Protocol::Tcp, SocketState::Listen, "0.0.0.0:3000"),
        entry(3000, Protocol::Tcp, SocketState::Listen, "[::]:3000"),
        entry(3000, Protocol::Tcp, SocketState::Established, "127.0.0.1:3000"),
    ];

    let groups = group_by_port(&entries);
    assert_eq!(groups.len(), 1, "one port, one row");

    let group = &groups[0];
    assert_eq!(group.sockets, 2);
    assert_eq!(group.connections, 1);
    assert_eq!(group.addresses.len(), 2);
    assert_eq!(group.processes.len(), 1, "same PID must not repeat");
    assert_eq!(group.primary_pid(), Some(42));
}

#[test]
fn tcp_and_udp_on_the_same_port_stay_separate() {
    let entries = vec![
        entry(53, Protocol::Tcp, SocketState::Listen, "127.0.0.1:53"),
        entry(53, Protocol::Udp, SocketState::Bound, "127.0.0.1:53"),
    ];
    assert_eq!(group_by_port(&entries).len(), 2);
}

#[test]
fn udp_is_reported_as_bound_and_counts_as_serving() {
    assert!(SocketState::Bound.is_serving());
    assert!(SocketState::Listen.is_serving());
    assert!(!SocketState::Established.is_serving());
    assert!(!SocketState::TimeWait.is_serving());
}

#[test]
fn formats_sizes() {
    assert_eq!(format_bytes(512), "512 B");
    assert_eq!(format_bytes(2048), "2.0 KB");
    assert_eq!(format_bytes(5 * 1024 * 1024), "5.0 MB");
}
