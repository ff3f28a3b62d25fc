use portify::cli::{
    build_kill_plan, count_hidden, is_yes, kill_request_is_empty, list_exit_code, protocol_choice,
    KillArgs, ListArgs, ProtoArg,
};
use portify::desktop::{
    effectively_focused, invalid_shortcut_message, settings_from, shortcut_request, toggle_hides,
    unregistered_shortcut_message, Settings, BLUR_GRACE_MS, DEFAULT_SHORTCUT,
};
use portify::filter::Filters;
use portify::text::{
    contains_str, decimal_string, join_strings, to_ascii_lowercase, to_lowercase, trim_str,
};
use portify::{
    elevation_hint, is_privileged_port, ExitCode, Platform, PortEntry, ProcessInfo, Protocol,
    SocketState,
};

fn entry(port: u16, protocol: Protocol, pid: Option<u32>) -> PortEntry {
    PortEntry {
        port,
        protocol,
        state: SocketState::Listen,
        local_address: format!("0.0.0.0:{port}"),
        remote_address: None,
        pid,
        process: pid.map(|pid| ProcessInfo {
            pid,
            name: "Redis-Server".to_string(),
            exe: Some("/usr/bin/redis-server".to_string()),
            command: None,
            description: Some("Redis"),
            memory_bytes: None,
            started_at: None,
        }),
        service: None,
        owner_hidden: pid.is_none(),
    }
}

#[test]
fn elevation_check_does_not_panic() {
    assert!(!elevation_hint(Platform::Unix).is_empty());
    assert!(!elevation_hint(Platform::Windows).is_empty());
    assert_eq!(elevation_hint(Platform::Unix), "re-run with sudo");
    assert_eq!(
        elevation_hint(Platform::Windows),
        "re-open your terminal with \"Run as Administrator\""
    );
}

#[test]
fn only_a_yes_confirms_a_kill() {
    assert!(is_yes("y\n"));
    assert!(is_yes("  YES  "));
    assert!(is_yes("Yes"));
    assert!(!is_yes(""));
    assert!(!is_yes("yeah"));
    assert!(!is_yes("n"));
}

#[test]
fn an_empty_listing_is_only_an_error_when_something_was_asked_for() {
    assert_eq!(list_exit_code(true, false, false), ExitCode::Success);
    assert_eq!(list_exit_code(false, false, true), ExitCode::Success);
    assert_eq!(list_exit_code(false, false, false), ExitCode::NotFound);
    assert_eq!(list_exit_code(false, true, true), ExitCode::NotFound, "json reports an empty scan");
}

#[test]
fn exit_codes_have_their_numbers() {
    assert_eq!(ExitCode::Success.code(), 0);
    assert_eq!(ExitCode::NotFound.code(), 2);
    assert_eq!(ExitCode::PermissionDenied.code(), 3);
    assert_eq!(ExitCode::InvalidInput.code(), 4);
    assert_eq!(ExitCode::Internal.code(), 5);
    assert_eq!(i32::from(ExitCode::InvalidInput), 4);
}

#[test]
fn a_kill_needs_a_port_or_a_pid() {
    let args = KillArgs { ports: vec![], pid: vec![], yes: false, force: false, proto: None };
    assert!(kill_request_is_empty(&args));
    assert!(!kill_request_is_empty(&KillArgs { pid: vec![12], ..args.clone() }));
    assert!(!kill_request_is_empty(&KillArgs { ports: vec![3000], ..args }));
}

#[test]
fn protocol_flags_select_a_protocol() {
    assert_eq!(protocol_choice(Some(ProtoArg::Tcp)), Some(Protocol::Tcp));
    assert_eq!(protocol_choice(Some(ProtoArg::Udp)), Some(Protocol::Udp));
    assert_eq!(protocol_choice(None), None);
    assert_eq!(Protocol::from(ProtoArg::Udp), Protocol::Udp);
}

#[test]
fn bare_ports_are_a_plain_listing() {
    let args = ListArgs::with_ports(vec![3000, 8080]);
    assert_eq!(args.ports, vec![3000, 8080]);
    assert!(args.filter.is_none() && !args.all && args.proto.is_none() && !args.raw && !args.wide);
}

#[test]
fn hidden_owners_are_counted() {
    let entries = vec![entry(1, Protocol::Tcp, None), entry(2, Protocol::Tcp, Some(5)), entry(3, Protocol::Udp, None)];
    assert_eq!(count_hidden(&entries), 2);
    assert_eq!(count_hidden(&[]), 0);
}

#[test]
fn the_kill_prompt_lists_the_requested_ports_and_their_collateral() {
    let entries = vec![
        entry(6379, Protocol::Tcp, Some(19064)),
        entry(6379, Protocol::Udp, Some(19064)),
        entry(4510, Protocol::Tcp, Some(19064)),
        entry(9999, Protocol::Tcp, None),
    ];
    let (plan, collateral) = build_kill_plan(&entries, &vec![6379, 9999], Some(Protocol::Tcp));
    assert_eq!(plan.len(), 2);
    assert_eq!((plan[0].0, plan[0].1.protocol), (6379, Protocol::Tcp));
    assert_eq!(plan[1].0, 9999);
    assert_eq!(collateral, vec![(6379, vec![4510]), (9999, vec![])]);
}

#[test]
fn filters_are_described_in_nothing_found_messages() {
    assert_eq!(Filters::default().describe(), "ports in use");
    let filters = Filters {
        ports: vec![3000, 8080],
        text: Some("node".to_string()),
        proto: Some(Protocol::Udp),
    };
    assert_eq!(filters.describe(), "ports in use (port 3000, 8080, UDP, matching \"node\")");
}

#[test]
fn text_filters_ignore_case_across_name_and_path() {
    let filters = Filters { ports: vec![], text: Some("REDIS".to_string()), proto: None };
    let kept = filters.apply(vec![entry(6379, Protocol::Tcp, Some(1)), entry(1, Protocol::Tcp, None)]);
    assert_eq!(kept.len(), 1);
    assert_eq!(kept[0].port, 6379);
    let hidden = Filters { ports: vec![], text: Some("hidden".to_string()), proto: None };
    assert_eq!(hidden.apply(vec![entry(1, Protocol::Tcp, None)]).len(), 1, "the label is searched too");
}

#[test]
fn settings_fall_back_to_defaults_and_are_clamped() {
    let defaults = settings_from(None);
    assert_eq!(defaults, Settings::default());
    assert_eq!(defaults.shortcut, DEFAULT_SHORTCUT);
    let parsed = Settings { refresh_interval_secs: 86_400, notifications: false, ..Settings::default() };
    let loaded = settings_from(Some(parsed));
    assert_eq!(loaded.refresh_interval_secs, 3600);
    assert!(!loaded.notifications);
    assert_eq!(loaded.clone().sanitised(), loaded, "sanitising twice changes nothing");
    let fine = Settings { refresh_interval_secs: 0, ..Settings::default() };
    assert_eq!(fine.clone().sanitised(), fine);
}

#[test]
fn a_click_right_after_the_blur_still_counts_as_focused() {
    assert!(effectively_focused(true, None));
    assert!(effectively_focused(false, Some(0)));
    assert!(effectively_focused(false, Some(BLUR_GRACE_MS - 1)));
    assert!(!effectively_focused(false, Some(BLUR_GRACE_MS)));
    assert!(!effectively_focused(false, None));
    assert!(toggle_hides(true, true));
    assert!(!toggle_hides(true, false), "a buried window is raised, not hidden");
    assert!(!toggle_hides(false, true));
}

#[test]
fn a_blank_hotkey_disables_the_shortcut() {
    assert_eq!(shortcut_request("   "), None);
    assert_eq!(shortcut_request(""), None);
    assert_eq!(shortcut_request(" CmdOrCtrl+Alt+K ").as_deref(), Some("CmdOrCtrl+Alt+K"));
}

#[test]
fn privileged_ports_are_below_1024() {
    assert!(is_privileged_port(1023));
    assert!(!is_privileged_port(1024));
}

#[test]
fn text_helpers_behave_like_std() {
    assert_eq!(decimal_string(0), "0");
    assert_eq!(decimal_string(u128::MAX), u128::MAX.to_string());
    assert_eq!(decimal_string(4_294_000_000), "4294000000");
    assert_eq!(join_strings(&vec![], ", "), "");
    assert_eq!(join_strings(&vec!["a".to_string(), "b".to_string(), "c".to_string()], ", "), "a, b, c");
    assert_eq!(trim_str("\t padded \n"), "padded");
    assert_eq!(trim_str("\u{3000}wide\u{a0}"), "wide");
    assert_eq!(to_lowercase("ÀÉÎ Straße"), "ÀÉÎ Straße".to_lowercase());
    assert_eq!(to_ascii_lowercase("SvcHost.EXE"), "svchost.exe");
    assert!(contains_str("node server.js", "server"));
    assert!(contains_str("abc", ""));
    assert!(!contains_str("abc", "abcd"));
}

#[test]
fn shortcut_failures_say_what_to_do() {
    assert_eq!(
        invalid_shortcut_message("Ctrl+"),
        "\"Ctrl+\" is not a valid shortcut. Combine modifiers with one key, like Ctrl+Alt+P."
    );
    assert_eq!(
        unregistered_shortcut_message("Ctrl+Alt+P", "already registered"),
        "could not register \"Ctrl+Alt+P\": already registered. Another application may already own it."
    );
}

#[test]
fn the_worst_of_two_batches_decides_the_exit_code() {
    let outcome = |status: portify::KillStatus| portify::KillOutcome {
        pid: 1,
        process_name: "x".into(),
        port: None,
        status,
        detail: String::new(),
        collateral_ports: Vec::new(),
    };
    let first = vec![outcome(portify::KillStatus::NotFound), outcome(portify::KillStatus::Killed)];
    let second = vec![outcome(portify::KillStatus::Refused)];
    let both: Vec<_> = first.iter().chain(second.iter()).cloned().collect();
    assert_eq!(portify::cli::worst_exit_code(&first), ExitCode::NotFound);
    assert_eq!(portify::cli::worst_exit_code(&second), ExitCode::InvalidInput);
    assert_eq!(portify::cli::worst_exit_code(&both), ExitCode::InvalidInput);
}

#[test]
fn describing_a_normalised_name_gives_the_same_answer() {
    for name in ["  SvcHost.EXE ", "NODE", "\tunknown-thing\n", ""] {
        let normalised = name.trim().to_ascii_lowercase();
        assert_eq!(portify::describe_process(&normalised), portify::describe_process(name), "{name:?}");
    }
}

#[test]
fn a_row_is_hidden_only_when_a_socket_owner_is() {
    let rows = portify::group_by_port(&[entry(80, Protocol::Tcp, Some(1)), entry(80, Protocol::Tcp, None)]);
    assert_eq!(rows.len(), 1);
    assert!(rows[0].owner_hidden);
    let visible = portify::group_by_port(&[entry(80, Protocol::Tcp, Some(1)), entry(80, Protocol::Tcp, Some(1))]);
    assert!(!visible[0].owner_hidden);
    assert_eq!(visible[0].processes.len(), 1);
    assert_eq!(visible[0].addresses, vec!["0.0.0.0:80".to_string()]);
}

#[test]
fn a_listing_reports_what_it_found_or_what_it_looked_for() {
    use_list_report();
}

fn use_list_report() {
    let (lines, code) = portify::cli::list_report(&[], &Filters::default(), false, false, 3, true, Platform::Unix, 120);
    assert_eq!(lines, vec!["\x1b[2mNo ports in use found.\x1b[0m".to_string()]);
    assert_eq!(code, ExitCode::Success);
    let asked = Filters { ports: vec![39998], text: None, proto: None };
    let (lines, code) = portify::cli::list_report(&[], &asked, false, false, 3, true, Platform::Unix, 120);
    assert_eq!(lines, vec!["\x1b[2mNo ports in use (port 39998) found.\x1b[0m".to_string()]);
    assert_eq!(code, ExitCode::NotFound);
    let entries = vec![entry(6379, Protocol::Tcp, Some(1)), entry(6379, Protocol::Udp, None)];
    let (lines, code) = portify::cli::list_report(&entries, &Filters::default(), false, false, 4, false, Platform::Unix, 120);
    assert_eq!(code, ExitCode::Success);
    assert_eq!(lines.len(), 3 + 3, "header, two rows, blank, footer, hidden warning");
    assert_eq!(lines[4], "\x1b[2m2 ports  ·  4 ms\x1b[0m");
    let (raw, _) = portify::cli::list_report(&entries, &Filters::default(), true, false, 4, true, Platform::Unix, 120);
    assert_eq!(raw.len(), 3 + 2);
    assert!(raw[0].contains("STATE"));
}
