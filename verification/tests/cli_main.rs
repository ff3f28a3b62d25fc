use portify::cli::{scan_options, worst_exit_code};
use portify::{ExitCode, KillOutcome, KillStatus};

#[test]
fn scan_options_track_the_all_flag() {
    assert!(scan_options(false, false).only_serving);
    assert!(!scan_options(true, false).only_serving);
}

#[test]
fn naming_a_port_reveals_sockets_the_browse_view_hides() {
    assert!(!scan_options(false, false).include_ephemeral_udp);
    assert!(scan_options(false, true).include_ephemeral_udp);
    assert!(scan_options(true, false).include_ephemeral_udp);
}

fn outcome(status: KillStatus) -> KillOutcome {
    KillOutcome {
        pid: 1,
        process_name: "x".into(),
        port: None,
        status,
        detail: String::new(),
        collateral_ports: Vec::new(),
    }
}

#[test]
fn exit_code_is_success_when_everything_died() {
    let outcomes = vec![outcome(KillStatus::Killed), outcome(KillStatus::Escalated)];
    assert_eq!(worst_exit_code(&outcomes), ExitCode::Success);
}

#[test]
fn exit_code_reports_the_worst_outcome() {
    let outcomes = vec![
        outcome(KillStatus::Killed),
        outcome(KillStatus::NotFound),
        outcome(KillStatus::PermissionDenied),
    ];
    assert_eq!(worst_exit_code(&outcomes), ExitCode::PermissionDenied);
}

#[test]
fn not_found_alone_is_exit_two() {
    assert_eq!(worst_exit_code(&[outcome(KillStatus::NotFound)]), ExitCode::NotFound);
}

#[test]
fn empty_outcomes_are_success() {
    assert_eq!(worst_exit_code(&[]), ExitCode::Success);
}

#[test]
fn a_refused_kill_is_bad_input_not_a_malfunction() {
    assert_eq!(worst_exit_code(&[outcome(KillStatus::Refused)]), ExitCode::InvalidInput);
}

#[test]
fn a_survivor_is_an_internal_failure() {
    assert_eq!(worst_exit_code(&[outcome(KillStatus::Survived)]), ExitCode::Internal);
}
