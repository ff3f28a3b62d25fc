use portify::render;
use portify::render::{
    choose_width, collateral_line, print_empty, print_entries, print_groups, print_info,
    print_kill_outcome, print_kill_plan, print_summary, print_watch_header, tone, Align, Table,
    Tone, DEFAULT_WIDTH, MIN_WIDTH,
};
use portify::{
    KillOutcome, KillStatus, Platform, PortEntry, PortGroup, ProcessInfo, Protocol, SocketState,
    SystemSummary,
};

fn muted(text: &str) -> String {
    format!("\x1b[2m{text}\x1b[0m")
}

fn strong(text: &str) -> String {
    format!("\x1b[1m{text}\x1b[0m")
}

fn node(pid: u32) -> ProcessInfo {
    ProcessInfo {
        pid,
        name: "node".to_string(),
        exe: Some("/usr/bin/node".to_string()),
        command: Some("node  server.js\n--port 3000".to_string()),
        description: Some("Node.js"),
        memory_bytes: Some(5 * 1024 * 1024),
        started_at: Some(1_700_000_000),
    }
}

fn dev_server_group() -> PortGroup {
    PortGroup {
        port: 3000,
        protocol: Protocol::Tcp,
        service: Some("Dev server (Node/Rails/Grafana)"),
        processes: vec![node(42)],
        addresses: vec!["0.0.0.0:3000".to_string()],
        sockets: 2,
        connections: 1,
        owner_hidden: false,
    }
}

#[test]
fn terminal_width_falls_back_when_columns_is_nonsense() {
    assert!(choose_width(Some(3), Some(10)) >= 40);
    assert!(choose_width(Some(0), None) >= 40);
    assert!(choose_width(None, None) >= 40);
}

#[test]
fn an_explicit_width_wins_over_the_reported_one() {
    assert_eq!(choose_width(Some(80), Some(200)), 80);
    assert_eq!(choose_width(Some(39), Some(100)), 100);
    assert_eq!(choose_width(None, Some(39)), DEFAULT_WIDTH);
    assert_eq!(choose_width(Some(MIN_WIDTH), None), MIN_WIDTH);
}

#[test]
fn tones_wrap_text_in_the_terminal_escape_codes() {
    assert_eq!(tone("x", Tone::Strong), "\x1b[1mx\x1b[0m");
    assert_eq!(tone("x", Tone::Normal), "x");
    assert_eq!(tone("x", Tone::Muted), "\x1b[2mx\x1b[0m");
    assert_eq!(tone("x", Tone::Good), "\x1b[32mx\x1b[39m");
    assert_eq!(tone("x", Tone::Warn), "\x1b[33mx\x1b[39m");
    assert_eq!(tone("x", Tone::Bad), "\x1b[31mx\x1b[39m");
}

#[test]
fn a_port_row_shows_every_column_that_carries_information() {
    let lines = print_groups(&[dev_server_group()], false, 120);
    assert_eq!(lines.len(), 2);
    assert_eq!(
        lines[0],
        muted(&format!(
            "PORT  PROTO  PROCESS  PID  MEMORY  CONNS  SERVICE{}",
            " ".repeat(24)
        ))
    );
    assert_eq!(
        lines[1],
        format!(
            "{}  {}  node     {}  {}  {}  {}",
            strong("3000"),
            muted("TCP  "),
            muted(" 42"),
            muted("5.0 MB"),
            muted("    1"),
            muted("Dev server (Node/Rails/Grafana)")
        )
    );
}

#[test]
fn the_wide_view_adds_the_command_on_one_line() {
    let lines = print_groups(&[dev_server_group()], true, 200);
    assert!(lines[0].contains("COMMAND"));
    assert!(lines[1].ends_with(&muted("node server.js --port 3000")), "{}", lines[1]);
}

#[test]
fn an_empty_listing_prints_no_table() {
    assert!(print_groups(&[], false, 120).is_empty());
    assert!(print_entries(&[], true, 120).is_empty());
}

#[test]
fn flexible_columns_give_way_on_a_narrow_terminal() {
    let mut table = Table::new(vec![
        render::column("port", Align::Right, Tone::Strong, false, false),
        render::column("process", Align::Left, Tone::Normal, true, false),
    ]);
    table.push(vec!["3000".to_string(), "x".repeat(50)]);
    let lines = table.render(40);
    assert_eq!(lines[0], muted(&format!("PORT  PROCESS{}", " ".repeat(27))));
    assert_eq!(lines[1], format!("{}  {}…", strong("3000"), "x".repeat(33)));
}

#[test]
fn a_raw_row_shows_the_socket() {
    let entry = PortEntry {
        port: 53,
        protocol: Protocol::Udp,
        state: SocketState::Bound,
        local_address: "127.0.0.1:53".to_string(),
        remote_address: None,
        pid: Some(7),
        process: Some(ProcessInfo {
            pid: 7,
            name: "dnsmasq".to_string(),
            exe: None,
            command: None,
            description: None,
            memory_bytes: None,
            started_at: None,
        }),
        service: Some("DNS"),
        owner_hidden: false,
    };
    let lines = print_entries(&[entry], false, 120);
    assert_eq!(lines[0], muted("PORT  PROTO  STATE  PROCESS  PID  LOCAL ADDRESS"));
    assert_eq!(
        lines[1],
        format!(
            "{}  {}  BOUND  dnsmasq  {}  {}",
            strong("  53"),
            muted("UDP  "),
            muted("  7"),
            muted("127.0.0.1:53 ")
        )
    );
}

#[test]
fn the_footer_counts_ports_and_warns_about_hidden_owners() {
    assert_eq!(
        print_summary(3, 0, 12, false, Platform::Unix),
        vec![String::new(), muted("3 ports  ·  12 ms")]
    );
    assert_eq!(
        print_summary(1, 2, 7, false, Platform::Windows),
        vec![
            String::new(),
            muted("1 port  ·  7 ms"),
            "\x1b[33m2 socket(s) owned by another user — re-open your terminal with \"Run as Administrator\" to see them\x1b[39m".to_string(),
        ]
    );
    assert_eq!(print_summary(1, 2, 7, true, Platform::Unix).len(), 2);
}

#[test]
fn nothing_found_names_what_was_searched_for() {
    assert_eq!(print_empty("ports in use"), muted("No ports in use found."));
}

#[test]
fn collateral_lines_warn_before_the_kill() {
    assert_eq!(
        collateral_line(&[3001]),
        "⚠ this process also holds port 3001, which goes down with it"
    );
    assert_eq!(
        collateral_line(&[4000, 4001]),
        "⚠ this process also holds ports 4000, 4001 — all of them go down with it"
    );
    let many: Vec<u16> = (4510..=4566).collect();
    assert_eq!(
        collateral_line(&many),
        "⚠ this process also holds 57 other ports (4510, 4511, 4512, 4513, 4514, 4515, …) — killing it drops all of them"
    );
}

#[test]
fn the_kill_plan_shows_the_process_its_command_and_what_else_dies() {
    let lines = print_kill_plan(&[(3000, dev_server_group())], &[(3000, vec![4000, 4001])]);
    assert_eq!(
        lines,
        vec![
            strong("About to terminate:"),
            format!("  {} {}  node  {}", strong("port 3000"), muted("TCP"), muted("(PID 42)")),
            format!("      {}", muted("node server.js --port 3000")),
            "      \x1b[33m⚠ this process also holds ports 4000, 4001 — all of them go down with it\x1b[39m"
                .to_string(),
        ]
    );
}

#[test]
fn kill_outcomes_get_a_mark_and_the_collateral_note() {
    let killed = KillOutcome {
        pid: 4242,
        process_name: "node".to_string(),
        port: Some(3000),
        status: KillStatus::Killed,
        detail: "port 3000 freed: node (PID 4242) terminated".to_string(),
        collateral_ports: vec![3001],
    };
    assert_eq!(
        print_kill_outcome(&killed),
        vec![
            "\x1b[32m✔\x1b[39m port 3000 freed: node (PID 4242) terminated".to_string(),
            "  \x1b[33mnode also held port 3001, which went down with it\x1b[39m".to_string(),
        ]
    );
    let refused = KillOutcome {
        status: KillStatus::Refused,
        detail: "PID 0 is not a killable process".to_string(),
        ..killed.clone()
    };
    assert_eq!(
        print_kill_outcome(&refused),
        vec!["\x1b[33m!\x1b[39m PID 0 is not a killable process".to_string()]
    );
    let denied = KillOutcome { status: KillStatus::PermissionDenied, detail: "no".into(), ..killed.clone() };
    assert_eq!(print_kill_outcome(&denied), vec!["\x1b[31m✖\x1b[39m no".to_string()]);
    let missing = KillOutcome { status: KillStatus::NotFound, detail: "gone".into(), ..killed };
    assert_eq!(print_kill_outcome(&missing), vec![format!("{} gone", muted("·"))]);
}

#[test]
fn info_lines_are_aligned_on_the_longest_label() {
    let summary = SystemSummary {
        os: "Linux".to_string(),
        os_version: String::new(),
        kernel_version: "6.1".to_string(),
        arch: "x86_64".to_string(),
        hostname: "box".to_string(),
        elevated: false,
        portify_version: "0.1.0".to_string(),
    };
    assert_eq!(
        print_info(&summary, Platform::Unix),
        vec![
            format!("{}  0.1.0", muted("portify   ")),
            format!("{}  Linux", muted("os        ")),
            format!("{}  6.1", muted("kernel    ")),
            format!("{}  x86_64", muted("arch      ")),
            format!("{}  box", muted("host      ")),
            format!(
                "{}  standard user — re-run with sudo to reach other users' processes",
                muted("privileges")
            ),
        ]
    );
    let elevated = SystemSummary { elevated: true, ..summary };
    assert_eq!(
        print_info(&elevated, Platform::Windows)[5],
        format!("{}  elevated — every process is visible and killable", muted("privileges"))
    );
}

#[test]
fn the_watch_header_says_when_it_is_not_elevated() {
    assert_eq!(
        print_watch_header(2, false),
        vec![
            muted("portify watch  ·  every 2s  ·  Ctrl+C to stop  ·  not elevated"),
            String::new()
        ]
    );
    assert_eq!(
        print_watch_header(5, true),
        vec![muted("portify watch  ·  every 5s  ·  Ctrl+C to stop"), String::new()]
    );
}

#[test]
fn an_empty_table_of_elidable_columns_prints_nothing() {
    let table = Table::new(vec![render::column("memory", Align::Right, Tone::Muted, false, true)]);
    assert!(table.render(80).is_empty());
}
