use portify::filter::Filters;
use portify::{PortEntry, ProcessInfo, Protocol, SocketState};

fn entry(port: u16, proto: Protocol, name: &str, command: Option<&str>) -> PortEntry {
    PortEntry {
        port,
        protocol: proto,
        state: SocketState::Listen,
        local_address: format!("0.0.0.0:{port}"),
        remote_address: None,
        pid: Some(1000 + port as u32),
        process: Some(ProcessInfo {
            pid: 1000 + port as u32,
            name: name.to_string(),
            description: None,
            exe: Some(format!("/usr/bin/{name}")),
            command: command.map(str::to_string),
            memory_bytes: None,
            started_at: None,
        }),
        service: None,
        owner_hidden: false,
    }
}

fn fixture() -> Vec<PortEntry> {
    vec![
        entry(3000, Protocol::Tcp, "node", Some("node server.js")),
        entry(3000, Protocol::Udp, "node", Some("node server.js")),
        entry(5432, Protocol::Tcp, "postgres", Some("postgres -D /data")),
        entry(8080, Protocol::Tcp, "java", Some("java -jar app.jar")),
    ]
}

#[test]
fn no_filters_keeps_everything() {
    let filters = Filters::default();
    assert!(filters.is_empty());
    assert_eq!(filters.apply(fixture()).len(), 4);
}

#[test]
fn port_and_text_filters_compose_instead_of_overriding() {
    let filters = Filters {
        ports: vec![3000],
        text: Some("postgres".into()),
        proto: None,
    };
    assert!(
        filters.apply(fixture()).is_empty(),
        "port 3000 is not postgres, so the intersection is empty"
    );
}

#[test]
fn port_and_proto_compose() {
    let filters = Filters {
        ports: vec![3000],
        text: None,
        proto: Some(Protocol::Udp),
    };
    let result = filters.apply(fixture());
    assert_eq!(result.len(), 1);
    assert_eq!(result[0].protocol, Protocol::Udp);
}

#[test]
fn all_three_filters_compose() {
    let filters = Filters {
        ports: vec![3000],
        text: Some("server.js".into()),
        proto: Some(Protocol::Tcp),
    };
    let result = filters.apply(fixture());
    assert_eq!(result.len(), 1);
    assert_eq!(result[0].port, 3000);
    assert_eq!(result[0].protocol, Protocol::Tcp);
}

#[test]
fn text_matches_name_exe_and_command_case_insensitively() {
    let by_name = Filters {
        text: Some("POSTGRES".into()),
        ..Default::default()
    };
    assert_eq!(by_name.apply(fixture()).len(), 1);

    let by_command = Filters {
        text: Some("app.jar".into()),
        ..Default::default()
    };
    assert_eq!(by_command.apply(fixture()).len(), 1);

    let by_exe = Filters {
        text: Some("/usr/bin/java".into()),
        ..Default::default()
    };
    assert_eq!(by_exe.apply(fixture()).len(), 1);
}

#[test]
fn multiple_ports_are_a_union_within_the_port_filter() {
    let filters = Filters {
        ports: vec![3000, 8080],
        ..Default::default()
    };
    assert_eq!(filters.apply(fixture()).len(), 3);
}

#[test]
fn describes_the_active_filters() {
    let filters = Filters {
        ports: vec![3000],
        text: Some("node".into()),
        proto: Some(Protocol::Tcp),
    };
    let described = filters.describe();
    assert!(described.contains("3000"));
    assert!(described.contains("TCP"));
    assert!(described.contains("node"));
}
