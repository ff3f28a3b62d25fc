use portify::services::services;
use portify::{describe_process, is_privileged_port, service_for_port};

#[test]
fn table_is_sorted_so_binary_search_is_valid() {
    let table = services();
    for pair in table.windows(2) {
        assert!(
            pair[0].0 < pair[1].0,
            "SERVICES must be strictly sorted by port; {} >= {}",
            pair[0].0,
            pair[1].0
        );
    }
}

#[test]
fn looks_up_known_and_unknown_ports() {
    assert_eq!(service_for_port(5432), Some("PostgreSQL"));
    assert_eq!(service_for_port(5173), Some("Vite dev server"));
    assert_eq!(service_for_port(54321), None);
}

#[test]
fn describes_the_processes_that_flood_a_windows_listing() {
    assert_eq!(describe_process("svchost.exe"), Some("Windows service host"));
    assert_eq!(describe_process("wslrelay.exe"), Some("WSL port forward"));
    assert_eq!(describe_process("System"), Some("Windows kernel"));
}

#[test]
fn process_lookup_ignores_case() {
    assert_eq!(describe_process("SVCHOST.EXE"), describe_process("svchost.exe"));
    assert_eq!(describe_process("  node  "), Some("Node.js"));
}

#[test]
fn unknown_and_empty_names_describe_nothing() {
    assert_eq!(describe_process("my-own-server.exe"), None);
    assert_eq!(describe_process(""), None);
    assert_eq!(describe_process("   "), None);
}

#[test]
fn process_identity_and_port_convention_are_separate_answers() {
    assert_eq!(service_for_port(6379), Some("Redis"));
    assert_eq!(describe_process("wslrelay.exe"), Some("WSL port forward"));
}

#[test]
fn privileged_ports() {
    assert!(is_privileged_port(80));
    assert!(!is_privileged_port(3000));
}
