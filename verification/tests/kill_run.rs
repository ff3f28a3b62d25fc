use portify::cli::{KillArgs, KillRun, KillRunAction, KillRunEvent, KillRunPhase, ProtoArg};
use portify::{ExitCode, KillMode, KillOutcome, KillStatus, PortEntry, ProcessInfo, Protocol, SocketState};

fn request(ports: Vec<u16>, pids: Vec<u32>, yes: bool) -> KillArgs {
    KillArgs { ports, pid: pids, yes, force: false, proto: None }
}

fn listener(port: u16, pid: u32) -> PortEntry {
    PortEntry {
        port,
        protocol: Protocol::Tcp,
        state: SocketState::Listen,
        local_address: format!("127.0.0.1:{port}"),
        remote_address: None,
        pid: Some(pid),
        process: Some(ProcessInfo {
            pid,
            name: "powershell.exe".to_string(),
            exe: None,
            command: None,
            description: None,
            memory_bytes: None,
            started_at: None,
        }),
        service: None,
        owner_hidden: false,
    }
}

fn outcome(status: KillStatus, detail: &str) -> KillOutcome {
    KillOutcome {
        pid: 4242,
        process_name: "powershell.exe".to_string(),
        port: Some(39999),
        status,
        detail: detail.to_string(),
        collateral_ports: Vec::new(),
    }
}

#[test]
fn an_empty_kill_request_is_bad_input() {
    let (run, action) = KillRun::start(request(vec![], vec![], false), false);
    assert_eq!(run.phase, KillRunPhase::Done);
    match action {
        KillRunAction::Fail(code, message) => {
            assert_eq!(code, ExitCode::InvalidInput);
            assert_eq!(
                message,
                "nothing to kill: pass a port (portify kill 3000) or a PID (portify kill --pid 12841)"
            );
        }
        other => panic!("expected a failure, got {other:?}"),
    }
}

#[test]
fn a_kill_shows_the_plan_and_asks_first() {
    let (run, action) = KillRun::start(request(vec![39999], vec![], false), false);
    let options = match action {
        KillRunAction::Preview(options) => options,
        other => panic!("expected a preview, got {other:?}"),
    };
    assert!(options.include_ephemeral_udp && options.only_serving);
    let (run, action) = run.step(KillRunEvent::Previewed(Some(vec![listener(39999, 4242)])));
    assert_eq!(run.phase, KillRunPhase::Prompting);
    match action {
        KillRunAction::Prompt(lines) => {
            assert_eq!(lines.len(), 2);
            assert!(lines[0].contains("About to terminate:"));
            assert!(lines[1].contains("port 39999") && lines[1].contains("(PID 4242)"), "{}", lines[1]);
        }
        other => panic!("expected a prompt, got {other:?}"),
    }
}

#[test]
fn answering_no_cancels_without_killing() {
    let (run, _) = KillRun::start(request(vec![39999], vec![], false), false);
    let (run, _) = run.step(KillRunEvent::Previewed(Some(vec![listener(39999, 4242)])));
    let (run, action) = run.step(KillRunEvent::Answered("n\n".to_string()));
    assert_eq!(run.phase, KillRunPhase::Done);
    match action {
        KillRunAction::Finish(lines, code) => {
            assert_eq!(lines, vec!["Cancelled.".to_string()]);
            assert_eq!(code, ExitCode::Success);
        }
        other => panic!("expected the run to end, got {other:?}"),
    }
}

#[test]
fn answering_yes_kills_what_was_asked_for_and_the_outcome_decides() {
    let args = KillArgs { ports: vec![39999], pid: vec![7], yes: false, force: true, proto: Some(ProtoArg::Tcp) };
    let (run, _) = KillRun::start(args, false);
    let (run, action) = run.step(KillRunEvent::Previewed(Some(vec![listener(39999, 4242)])));
    match action {
        KillRunAction::Prompt(lines) => assert_eq!(lines.last().unwrap(), "  PID [7]"),
        other => panic!("expected a prompt, got {other:?}"),
    }
    let (run, action) = run.step(KillRunEvent::Answered(" Y \n".to_string()));
    match action {
        KillRunAction::Kill { ports, pids, proto, mode } => {
            assert_eq!(ports, vec![39999]);
            assert_eq!(pids, vec![7]);
            assert_eq!(proto, Some(Protocol::Tcp));
            assert_eq!(mode, KillMode::Force);
        }
        other => panic!("expected the kill, got {other:?}"),
    }
    let freed = outcome(KillStatus::Killed, "port 39999 freed: powershell.exe (PID 4242) terminated");
    let (_, action) = run.step(KillRunEvent::Killed(vec![freed, outcome(KillStatus::NotFound, "gone")]));
    match action {
        KillRunAction::Finish(lines, code) => {
            assert_eq!(code, ExitCode::NotFound);
            assert_eq!(
                lines,
                vec![
                    "\x1b[32m✔\x1b[39m port 39999 freed: powershell.exe (PID 4242) terminated".to_string(),
                    "\x1b[2m·\x1b[0m gone".to_string(),
                ]
            );
        }
        other => panic!("expected the run to end, got {other:?}"),
    }
}

#[test]
fn no_terminal_means_no_kill() {
    let (run, _) = KillRun::start(request(vec![39999], vec![], false), false);
    let (run, _) = run.step(KillRunEvent::Previewed(Some(vec![listener(39999, 4242)])));
    let (_, action) = run.step(KillRunEvent::NoTerminal);
    match action {
        KillRunAction::Fail(code, message) => {
            assert_eq!(code, ExitCode::InvalidInput);
            assert_eq!(
                message,
                "refusing to kill without confirmation while stdin is not a terminal; pass --yes"
            );
        }
        other => panic!("expected a failure, got {other:?}"),
    }
}

#[test]
fn nothing_on_the_port_ends_with_not_found() {
    let (run, _) = KillRun::start(request(vec![39999], vec![], false), false);
    let (_, action) = run.step(KillRunEvent::Previewed(Some(vec![listener(3000, 1)])));
    match action {
        KillRunAction::Finish(lines, code) => {
            assert_eq!(code, ExitCode::NotFound);
            assert_eq!(lines, vec!["\x1b[2m·\x1b[0m nothing is holding port 39999".to_string()]);
            assert!(lines[0].contains("nothing is holding port 39999"));
        }
        other => panic!("expected the run to end, got {other:?}"),
    }
    let (run, _) = KillRun::start(request(vec![39999, 40000], vec![], false), false);
    let (_, action) = run.step(KillRunEvent::Previewed(Some(vec![])));
    match action {
        KillRunAction::Finish(lines, code) => {
            assert_eq!(code, ExitCode::NotFound);
            assert_eq!(
                lines,
                vec![
                    "\x1b[2m·\x1b[0m nothing is holding port 39999".to_string(),
                    "\x1b[2m·\x1b[0m nothing is holding port 40000".to_string(),
                ]
            );
        }
        other => panic!("expected the run to end, got {other:?}"),
    }
    // A failed scan with pids named still asks about the pids.
    let (run, _) = KillRun::start(request(vec![39999], vec![12841], false), false);
    let (_, action) = run.step(KillRunEvent::Previewed(None));
    match action {
        KillRunAction::Prompt(lines) => assert_eq!(lines, vec!["  PID [12841]".to_string()]),
        other => panic!("expected a prompt, got {other:?}"),
    }
}

#[test]
fn yes_and_json_kill_at_once() {
    let (_, action) = KillRun::start(request(vec![39999], vec![], true), false);
    assert!(matches!(action, KillRunAction::Kill { .. }));
    let (run, action) = KillRun::start(request(vec![], vec![5, 6], false), true);
    assert!(matches!(action, KillRunAction::Kill { .. }));
    let (_, action) = run.step(KillRunEvent::Killed(vec![outcome(KillStatus::Refused, "no")]));
    match action {
        KillRunAction::Finish(lines, code) => {
            assert!(lines.is_empty(), "JSON output is written by the caller");
            assert_eq!(code, ExitCode::InvalidInput);
        }
        other => panic!("expected the run to end, got {other:?}"),
    }
}

#[test]
fn only_pids_skip_the_scan() {
    let (run, action) = KillRun::start(request(vec![], vec![1, 22], false), false);
    assert_eq!(run.phase, KillRunPhase::Prompting);
    match action {
        KillRunAction::Prompt(lines) => assert_eq!(lines, vec!["  PID [1, 22]".to_string()]),
        other => panic!("expected a prompt, got {other:?}"),
    }
}
