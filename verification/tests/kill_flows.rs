use portify::kill::{
    permission_hint, refuse_reason, scan_failure_outcome, KillPhase, KillTarget, Signal,
    FORCE_TIMEOUT_MS, GRACE_PERIOD_MS,
};
use portify::scan::{ProcessInfo, Protocol, SocketState};
use portify::{
    plan_port_kill, Error, KillAction, KillEvent, KillMode, KillOutcome, KillProcess, KillStatus,
    Platform, PortEntry, PortKillPlan,
};

fn finished(action: KillAction) -> KillOutcome {
    match action {
        KillAction::Finish(outcome) => outcome,
        other => panic!("expected the attempt to be over, got {other:?}"),
    }
}

fn started(pid: u32, mode: KillMode, port: Option<u16>) -> KillProcess {
    let (attempt, action) = KillProcess::start(pid, mode, port, Some(777), Platform::Unix);
    assert!(matches!(action, KillAction::LookUp));
    attempt
}

#[test]
fn refuses_to_kill_itself() {
    let current = sysinfo::get_current_pid().unwrap().as_u32();
    let (attempt, action) =
        KillProcess::start(current, KillMode::Graceful, None, Some(current), Platform::Unix);
    let outcome = finished(action);
    assert_eq!(attempt.phase, KillPhase::Done);
    assert_eq!(outcome.status, KillStatus::Refused);
    assert!(outcome.detail.contains("itself"), "{}", outcome.detail);
}

#[test]
fn refuses_pid_zero() {
    let (_, action) = KillProcess::start(0, KillMode::Force, None, Some(777), Platform::Unix);
    assert_eq!(finished(action).status, KillStatus::Refused);
}

#[test]
fn refuses_init() {
    let (_, action) = KillProcess::start(1, KillMode::Force, None, Some(777), Platform::Unix);
    let outcome = finished(action);
    assert_eq!(outcome.status, KillStatus::Refused);
}

#[test]
fn missing_pid_is_reported_not_panicked() {
    let attempt = started(4_294_000_000, KillMode::Graceful, None);
    let (_, action) = attempt.step(KillEvent::Missing);
    let outcome = finished(action);
    assert_eq!(outcome.status, KillStatus::NotFound);
    assert_eq!(
        outcome.detail,
        "no process with PID 4294000000 (it may have already exited)"
    );
}

#[test]
fn killing_a_free_port_reports_not_found() {
    let outcome = match plan_port_kill(&[], 1, None) {
        PortKillPlan::Nothing(outcome) => outcome,
        PortKillPlan::Targets(_) => panic!("nothing holds port 1"),
    };
    assert_eq!(outcome.status, KillStatus::NotFound);
    assert!(outcome.detail.contains("nothing is holding"));
    assert_eq!(outcome.detail, "nothing is holding port 1");
    assert_eq!(outcome.port, Some(1));
    assert_eq!(outcome.pid, 0);
}

#[test]
fn the_system_process_is_refused_on_windows_only() {
    assert_eq!(
        refuse_reason(4, None, Platform::Windows).as_deref(),
        Some("refusing to kill PID 4 (Windows System process)")
    );
    assert_eq!(refuse_reason(4, None, Platform::Unix), None);
    assert_eq!(refuse_reason(1, None, Platform::Windows), None);
    assert_eq!(
        refuse_reason(1, None, Platform::Unix).as_deref(),
        Some("refusing to kill PID 1 (init) — it would take the system down")
    );
    assert_eq!(
        refuse_reason(0, Some(0), Platform::Other).as_deref(),
        Some("PID 0 is not a killable process")
    );
    assert_eq!(refuse_reason(4242, None, Platform::Other), None);
}

#[test]
fn a_graceful_kill_that_works_frees_the_port() {
    let attempt = started(4242, KillMode::Graceful, Some(3000));
    let (attempt, action) = attempt.step(KillEvent::Found("node".to_string()));
    assert!(matches!(action, KillAction::Send(Signal::Term)));
    let (attempt, action) = attempt.step(KillEvent::Delivered(true));
    assert!(matches!(action, KillAction::WaitGone(ms) if ms == GRACE_PERIOD_MS));
    let (attempt, action) = attempt.step(KillEvent::Gone(true));
    assert_eq!(attempt.phase, KillPhase::Done);
    let outcome = finished(action);
    assert_eq!(outcome.status, KillStatus::Killed);
    assert_eq!(outcome.process_name, "node");
    assert_eq!(outcome.port, Some(3000));
    assert_eq!(outcome.detail, "port 3000 freed: node (PID 4242) terminated");
    assert!(outcome.collateral_ports.is_empty());
}

#[test]
fn a_kill_by_pid_names_the_process() {
    let attempt = started(4242, KillMode::Force, None);
    let (attempt, action) = attempt.step(KillEvent::Found("redis-server".to_string()));
    assert!(matches!(action, KillAction::Send(Signal::Kill)));
    let (attempt, action) = attempt.step(KillEvent::Delivered(true));
    assert!(matches!(action, KillAction::WaitGone(ms) if ms == FORCE_TIMEOUT_MS));
    let (_, action) = attempt.step(KillEvent::Gone(true));
    let outcome = finished(action);
    assert_eq!(outcome.status, KillStatus::Killed);
    assert_eq!(outcome.detail, "redis-server (PID 4242) terminated");
}

#[test]
fn a_process_ignoring_sigterm_is_escalated() {
    let attempt = started(99, KillMode::Graceful, Some(8080));
    let (attempt, _) = attempt.step(KillEvent::Found("java".to_string()));
    let (attempt, _) = attempt.step(KillEvent::Delivered(true));
    let (attempt, action) = attempt.step(KillEvent::Gone(false));
    assert!(matches!(action, KillAction::Recheck));
    let (attempt, action) = attempt.step(KillEvent::Found("java".to_string()));
    assert!(matches!(action, KillAction::Send(Signal::Kill)));
    let (attempt, action) = attempt.step(KillEvent::Delivered(true));
    assert!(matches!(action, KillAction::WaitGone(ms) if ms == FORCE_TIMEOUT_MS));
    let (_, action) = attempt.step(KillEvent::Gone(true));
    let outcome = finished(action);
    assert_eq!(outcome.status, KillStatus::Escalated);
    assert!(outcome.status.is_success());
    assert_eq!(outcome.detail, "java (PID 99) ignored SIGTERM and was force-killed");
}

#[test]
fn a_process_that_exits_during_the_recheck_counts_as_killed() {
    let attempt = started(99, KillMode::Graceful, Some(8080));
    let (attempt, _) = attempt.step(KillEvent::Found("java".to_string()));
    let (attempt, _) = attempt.step(KillEvent::Delivered(true));
    let (attempt, _) = attempt.step(KillEvent::Gone(false));
    let (_, action) = attempt.step(KillEvent::Missing);
    let outcome = finished(action);
    assert_eq!(outcome.status, KillStatus::Killed);
    assert_eq!(outcome.detail, "java (PID 99) terminated");
}

#[test]
fn a_survivor_of_a_forced_kill_is_reported() {
    let attempt = started(55, KillMode::Force, None);
    let (attempt, _) = attempt.step(KillEvent::Found("stubborn".to_string()));
    let (attempt, _) = attempt.step(KillEvent::Delivered(true));
    let (_, action) = attempt.step(KillEvent::Gone(false));
    let outcome = finished(action);
    assert_eq!(outcome.status, KillStatus::Survived);
    assert_eq!(outcome.detail, "stubborn (PID 55) is still running after a force kill");
}

#[test]
fn a_survivor_after_escalation_is_reported() {
    let attempt = started(55, KillMode::Graceful, None);
    let (attempt, _) = attempt.step(KillEvent::Found("stubborn".to_string()));
    let (attempt, _) = attempt.step(KillEvent::Delivered(true));
    let (attempt, _) = attempt.step(KillEvent::Gone(false));
    let (attempt, _) = attempt.step(KillEvent::Found("stubborn".to_string()));
    let (attempt, _) = attempt.step(KillEvent::Delivered(true));
    let (_, action) = attempt.step(KillEvent::Gone(false));
    assert_eq!(finished(action).status, KillStatus::Survived);
}

#[test]
fn an_undelivered_signal_is_a_permission_problem() {
    let attempt = started(321, KillMode::Graceful, Some(443));
    let (attempt, _) = attempt.step(KillEvent::Found("nginx".to_string()));
    let (_, action) = attempt.step(KillEvent::Delivered(false));
    let outcome = finished(action);
    assert_eq!(outcome.status, KillStatus::PermissionDenied);
    assert_eq!(outcome.process_name, "nginx");
    assert_eq!(
        outcome.detail,
        "access denied killing the process on port 443 (PID 321); re-run with sudo"
    );
}

#[test]
fn permission_hints_name_the_platform_remedy() {
    assert_eq!(
        permission_hint(12, None, Platform::Windows),
        "access denied killing PID 12; run Portify as Administrator"
    );
    assert_eq!(
        permission_hint(12, Some(80), Platform::Unix),
        "access denied killing the process on port 80 (PID 12); re-run with sudo"
    );
}

fn socket(port: u16, protocol: Protocol, pid: Option<u32>) -> PortEntry {
    PortEntry {
        port,
        protocol,
        state: SocketState::Listen,
        local_address: format!("0.0.0.0:{port}"),
        remote_address: None,
        pid,
        process: pid.map(|pid| ProcessInfo {
            pid,
            name: format!("proc{pid}"),
            exe: None,
            command: None,
            description: None,
            memory_bytes: None,
            started_at: None,
        }),
        service: None,
        owner_hidden: pid.is_none(),
    }
}

fn targets(plan: PortKillPlan) -> Vec<KillTarget> {
    match plan {
        PortKillPlan::Targets(targets) => targets,
        PortKillPlan::Nothing(outcome) => panic!("expected targets, got {outcome:?}"),
    }
}

#[test]
fn a_port_plan_targets_each_owner_once_with_its_other_ports() {
    let entries = vec![
        socket(3000, Protocol::Tcp, Some(10)),
        socket(3000, Protocol::Tcp, Some(10)),
        socket(3000, Protocol::Udp, Some(20)),
        socket(4000, Protocol::Tcp, Some(10)),
        socket(5000, Protocol::Tcp, Some(20)),
        socket(3001, Protocol::Tcp, Some(30)),
    ];
    let all = targets(plan_port_kill(&entries, 3000, None));
    assert_eq!(all.len(), 2);
    assert_eq!(all[0].pid, 10);
    assert_eq!(all[0].collateral, vec![4000]);
    assert_eq!(all[1].pid, 20);
    assert_eq!(all[1].collateral, vec![5000]);

    let udp_only = targets(plan_port_kill(&entries, 3000, Some(Protocol::Udp)));
    assert_eq!(udp_only.len(), 1);
    assert_eq!(udp_only[0].pid, 20);
}

#[test]
fn a_port_with_only_a_hidden_owner_needs_elevation() {
    let entries = vec![socket(6379, Protocol::Tcp, None), socket(22, Protocol::Tcp, Some(1))];
    match plan_port_kill(&entries, 6379, None) {
        PortKillPlan::Nothing(outcome) => {
            assert_eq!(outcome.status, KillStatus::PermissionDenied);
            assert_eq!(
                outcome.detail,
                "port 6379 is in use but the owning process is hidden; re-run elevated to see and kill it"
            );
        }
        PortKillPlan::Targets(_) => panic!("the owner is hidden"),
    }
    // A visible owner next to a hidden one is still a target.
    let mixed = vec![socket(6379, Protocol::Tcp, None), socket(6379, Protocol::Udp, Some(8))];
    assert_eq!(targets(plan_port_kill(&mixed, 6379, None))[0].pid, 8);
}

#[test]
fn an_unreadable_socket_table_is_reported_against_the_port() {
    let error = Error::SocketTable("permission denied".to_string());
    let outcome = scan_failure_outcome(8080, &error);
    assert_eq!(outcome.status, KillStatus::NotFound);
    assert_eq!(outcome.port, Some(8080));
    assert_eq!(
        outcome.detail,
        "could not read the socket table: could not read the system socket table: permission denied"
    );
}

#[test]
fn collateral_warnings_read_naturally() {
    let outcome = |name: &str, ports: Vec<u16>| KillOutcome {
        pid: 1,
        process_name: name.to_string(),
        port: Some(80),
        status: KillStatus::Killed,
        detail: String::new(),
        collateral_ports: ports,
    };
    assert_eq!(
        outcome("node", vec![3001]).collateral_warning().unwrap(),
        "node also held port 3001, which went down with it"
    );
    assert_eq!(
        outcome("", vec![1, 2]).collateral_warning().unwrap(),
        "this process also held ports 1, 2 — those went down with it"
    );
    assert_eq!(
        outcome("relay", vec![1, 2, 3, 4, 5, 6, 7]).collateral_warning().unwrap(),
        "relay also held 7 other ports (1, 2, 3, 4, 5, 6, …) — those went down with it"
    );
}

#[test]
fn a_kill_by_port_scans_for_whatever_is_on_it() {
    let options = portify::kill::port_kill_options();
    assert!(options.include_tcp && options.include_udp && options.include_ipv4 && options.include_ipv6);
    assert!(options.only_serving);
    assert!(options.include_ephemeral_udp);
    assert!(!options.with_details);
}
