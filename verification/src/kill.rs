//! Terminating whatever is holding a port.
//!
//! Killing is the destructive half of the tool, so the rules are explicit:
//!
//! * A failed kill is a reported outcome, never a panic or an error.
//! * Portify refuses to kill itself, PID 0, and the OS init/System process.
//! * Graceful first (SIGTERM), escalating to SIGKILL only when asked or when
//!   the process ignores the polite request.
//!
//! The decisions live here as a step function from state and event to the
//! next state and action; whoever owns the process table performs the
//! actions and reports back what happened.

use std::collections::BTreeSet;

use vstd::prelude::*;
use vstd::std_specs::cmp::OrdSpec;
use vstd::std_specs::iter::IteratorSpec;

use crate::error::{error_text, Error};
use crate::scan::{entry_views, PortEntry, PortEntryView, Protocol, ScanOptions};
use crate::system::Platform;
use crate::text::{decimal, decimal_string, join, join_strings, owned, push_decimal, push_str, views};

verus! {

/// How hard to try.
#[derive(Debug, Clone, Copy, PartialEq, Eq, Structural)]
pub enum KillMode {
    /// SIGTERM, escalating to SIGKILL if the process is still alive after the
    /// grace period.
    Graceful,
    /// Straight to SIGKILL.
    Force,
}

impl Default for KillMode {
    fn default() -> (r: Self)
        ensures
            r == KillMode::Graceful,
    {
        KillMode::Graceful
    }
}

/// What happened.
#[derive(Debug, Clone, Copy, PartialEq, Eq, Structural)]
pub enum KillStatus {
    /// The process is gone, confirmed by re-reading the process table.
    Killed,
    /// Escalated to SIGKILL because the process ignored SIGTERM.
    Escalated,
    /// No such PID.
    NotFound,
    /// The OS said no.
    PermissionDenied,
    /// The signal was delivered but the process was still alive at timeout.
    Survived,
    /// Refused by Portify's own safety rules.
    Refused,
}

pub open spec fn success(s: KillStatus) -> bool {
    s == KillStatus::Killed || s == KillStatus::Escalated
}

impl KillStatus {
    pub fn is_success(self) -> (r: bool)
        ensures
            r == success(self),
    {
        match self {
            KillStatus::Killed | KillStatus::Escalated => true,
            _ => false,
        }
    }
}

/// Result of one kill attempt.
#[derive(Debug, Clone)]
pub struct KillOutcome {
    pub pid: u32,
    pub process_name: String,
    /// Set when the kill was requested by port rather than by PID.
    pub port: Option<u16>,
    pub status: KillStatus,
    /// Human-readable explanation, safe to show verbatim in a UI.
    pub detail: String,
    /// Other ports the same process was holding, which go down with it.
    pub collateral_ports: Vec<u16>,
}

pub struct KillOutcomeView {
    pub pid: u32,
    pub process_name: Seq<char>,
    pub port: Option<u16>,
    pub status: KillStatus,
    pub detail: Seq<char>,
    pub collateral_ports: Seq<u16>,
}

impl View for KillOutcome {
    type V = KillOutcomeView;

    open spec fn view(&self) -> KillOutcomeView {
        KillOutcomeView {
            pid: self.pid,
            process_name: self.process_name@,
            port: self.port,
            status: self.status,
            detail: self.detail@,
            collateral_ports: self.collateral_ports@,
        }
    }
}

/// The decimal texts of some ports.
pub open spec fn port_texts(ports: Seq<u16>) -> Seq<Seq<char>> {
    ports.map_values(|p: u16| decimal(p as nat))
}

/// `ports` written out as `a, b, c`.
pub open spec fn port_list(ports: Seq<u16>) -> Seq<char> {
    join(port_texts(ports), ", "@)
}

/// At most the first six of `ports`.
pub open spec fn preview(ports: Seq<u16>) -> Seq<u16> {
    if ports.len() > 6 {
        ports.take(6)
    } else {
        ports
    }
}

/// The note about other ports that went down with a process.
pub open spec fn collateral_note(name: Seq<char>, ports: Seq<u16>) -> Option<Seq<char>> {
    let count = ports.len();
    let listed = port_list(preview(ports));
    let who = if name.len() == 0 {
        "this process"@
    } else {
        name
    };
    if count == 0 {
        None
    } else if count > 6 {
        Some(
            who + " also held "@ + decimal(count) + " other ports ("@ + listed
                + ", …) — those went down with it"@,
        )
    } else if count == 1 {
        Some(who + " also held port "@ + listed + ", which went down with it"@)
    } else {
        Some(who + " also held ports "@ + listed + " — those went down with it"@)
    }
}

/// `ports` written out as `a, b, c`.
pub fn port_list_text(ports: &[u16]) -> (r: String)
    ensures
        r@ == port_list(ports@),
{
    let mut texts: Vec<String> = Vec::new();
    let mut i: usize = 0;
    while i < ports.len()
        invariant
            i <= ports@.len(),
            texts@.len() == i,
            views(texts@) == port_texts(ports@.subrange(0, i as int)),
        decreases ports.len() - i,
    {
        let ghost before = texts@;
        let t = decimal_string(ports[i] as u128);
        texts.push(t);
        i = i + 1;
        proof {
            let a = views(texts@);
            let b = port_texts(ports@.subrange(0, i as int));
            assert(a.len() == b.len());
            assert forall|k: int| 0 <= k < a.len() implies a[k] == b[k] by {
                if k < i - 1 {
                    assert(texts@[k] == before[k]);
                    assert(views(before)[k] == port_texts(ports@.subrange(0, i - 1))[k]);
                }
            }
            assert(a =~= b);
        }
    }
    assert(ports@.subrange(0, ports@.len() as int) =~= ports@);
    join_strings(&texts, ", ")
}

impl KillOutcome {
    /// One-line note about what else went down with this process, if
    /// anything. Past tense: by the time anyone reads it the other ports are
    /// already gone.
    pub fn collateral_warning(&self) -> (r: Option<String>)
        ensures
            match r {
                Some(s) => collateral_note(self.process_name@, self.collateral_ports@) == Some(
                    s@,
                ),
                None => collateral_note(self.process_name@, self.collateral_ports@).is_none(),
            },
    {
        let count = self.collateral_ports.len();
        if count == 0 {
            return None;
        }
        let shown = if count > 6 {
            6
        } else {
            count
        };
        let mut first: Vec<u16> = Vec::new();
        let mut i: usize = 0;
        while i < shown
            invariant
                shown <= self.collateral_ports@.len(),
                i <= shown,
                first@ == self.collateral_ports@.subrange(0, i as int),
            decreases shown - i,
        {
            first.push(self.collateral_ports[i]);
            i = i + 1;
            assert(first@ =~= self.collateral_ports@.subrange(0, i as int));
        }
        assert(first@ =~= preview(self.collateral_ports@));
        let listed = port_list_text(first.as_slice());
        let mut s = if self.process_name.as_str().unicode_len() == 0 {
            owned("this process")
        } else {
            self.process_name.clone()
        };
        if count > 6 {
            push_str(&mut s, " also held ");
            push_decimal(&mut s, count as u128);
            push_str(&mut s, " other ports (");
            push_str(&mut s, listed.as_str());
            push_str(&mut s, ", …) — those went down with it");
        } else if count == 1 {
            push_str(&mut s, " also held port ");
            push_str(&mut s, listed.as_str());
            push_str(&mut s, ", which went down with it");
        } else {
            push_str(&mut s, " also held ports ");
            push_str(&mut s, listed.as_str());
            push_str(&mut s, " — those went down with it");
        }
        assert(collateral_note(self.process_name@, self.collateral_ports@) == Some(s@));
        Some(s)
    }
}

// ---------------------------------------------------------------------------
// Ports that go down together
// ---------------------------------------------------------------------------

/// `ports` lists, ascending and without repeats, exactly the ports other than
/// `port` that `pid` holds in `es`.
pub open spec fn is_other_ports(es: Seq<PortEntryView>, pid: u32, port: u16, ports: Seq<u16>) -> bool {
    &&& forall|i: int, j: int| 0 <= i < j < ports.len() ==> #[trigger] ports[i] < #[trigger] ports[j]
    &&& forall|q: u16|
        ports.contains(q) <==> (q != port && exists|k: int|
            0 <= k < es.len() && (#[trigger] es[k]).pid == Some(pid) && es[k].port == q)
}

/// Ports held by `pid` other than `port`, read from an existing scan.
///
/// Exposed so a UI can warn before killing, using the listing it already
/// has, rather than discovering the damage from the result.
/// Ports are ordered as numbers, which is what a set of ports is kept in.
proof fn lemma_ports_are_ordered()
    ensures
        vstd::laws_cmp::obeys_cmp::<u16>(),
{
    broadcast use vstd::laws_cmp::group_laws_cmp;

}

/// A set of ports hands its ports out in ascending order.
proof fn lemma_keys_ascending(keys: Seq<&u16>)
    requires
        vstd::std_specs::btree::increasing_seq(keys),
    ensures
        forall|i: int, j: int| 0 <= i < j < keys.len() ==> *keys[i] < *keys[j],
{
    broadcast use vstd::std_specs::btree::group_btree_axioms;
    broadcast use vstd::laws_cmp::group_laws_cmp;

    assert(vstd::laws_cmp::obeys_cmp::<u16>());
    assert(vstd::laws_cmp::obeys_cmp::<&u16>());
    vstd::std_specs::btree::axiom_increasing_seq_meaning::<&u16>(keys);
    assert forall|i: int, j: int| 0 <= i < j < keys.len() implies *keys[i] < *keys[j] by {
        assert(OrdSpec::cmp_spec(&keys[i], &keys[j]) is Less);
    }
}

pub fn other_ports_held_by(entries: &[PortEntry], pid: u32, port: u16) -> (r: Vec<u16>)
    ensures
        is_other_ports(entry_views(entries@), pid, port, r@),
{
    broadcast use vstd::std_specs::btree::group_btree_axioms;

    proof {
        lemma_ports_are_ordered();
    }
    let ghost all = entry_views(entries@);
    let mut held: BTreeSet<u16> = BTreeSet::new();
    let mut n: usize = 0;
    while n < entries.len()
        invariant
            n <= entries@.len(),
            all == entry_views(entries@),
            forall|q: u16|
                held@.contains(q) <==> (q != port && exists|k: int|
                    0 <= k < n && (#[trigger] all[k]).pid == Some(pid) && all[k].port == q),
        decreases entries.len() - n,
    {
        let e = &entries[n];
        assert(all[n as int] == e@);
        if e.pid == Some(pid) && e.port != port {
            held.insert(e.port);
        }
        n = n + 1;
    }
    let mut ports: Vec<u16> = Vec::new();
    let ghost keys = vstd::std_specs::btree::spec_btree_keys_iter(&held).remaining();
    for p in it: held.iter()
        invariant
            it.seq() == keys,
            ports@.len() == it.index(),
            forall|i: int| 0 <= i < it.index() ==> ports@[i] == *keys[i],
    {
        ports.push(*p);
    }
    proof {
        assert(ports@.len() == keys.len());
        lemma_keys_ascending(keys);
        assert(ports@ =~= keys.unref());
        assert(ports@.to_set() == held@);
        assert forall|q: u16| ports@.contains(q) <==> held@.contains(q) by {
            assert(ports@.to_set().contains(q) == ports@.contains(q));
        }
    }
    ports
}

// ---------------------------------------------------------------------------
// Safety rules and messages
// ---------------------------------------------------------------------------

/// Portify's own safety rules: the reason a kill must not even be attempted.
pub open spec fn refusal(pid: u32, current_pid: Option<u32>, platform: Platform) -> Option<Seq<char>> {
    if pid == 0 {
        Some("PID 0 is not a killable process"@)
    } else if current_pid == Some(pid) {
        Some("refusing to kill Portify itself"@)
    } else if platform == Platform::Unix && pid == 1 {
        Some("refusing to kill PID 1 (init) — it would take the system down"@)
    } else if platform == Platform::Windows && pid == 4 {
        Some("refusing to kill PID 4 (Windows System process)"@)
    } else {
        None
    }
}

/// Returns the reason a kill of `pid` must not be attempted, if any.
/// `current_pid` is this process's own pid, when it is known.
pub fn refuse_reason(pid: u32, current_pid: Option<u32>, platform: Platform) -> (r: Option<String>)
    ensures
        match r {
            Some(s) => refusal(pid, current_pid, platform) == Some(s@),
            None => refusal(pid, current_pid, platform).is_none(),
        },
{
    if pid == 0 {
        return Some(owned("PID 0 is not a killable process"));
    }
    if current_pid == Some(pid) {
        return Some(owned("refusing to kill Portify itself"));
    }
    if platform == Platform::Unix && pid == 1 {
        return Some(owned("refusing to kill PID 1 (init) — it would take the system down"));
    }
    if platform == Platform::Windows && pid == 4 {
        return Some(owned("refusing to kill PID 4 (Windows System process)"));
    }
    None
}

pub open spec fn permission_text(pid: u32, port: Option<u16>, platform: Platform) -> Seq<char> {
    let subject = match port {
        Some(p) => "the process on port "@ + decimal(p as nat) + " (PID "@ + decimal(pid as nat)
            + ")"@,
        None => "PID "@ + decimal(pid as nat),
    };
    if platform == Platform::Windows {
        "access denied killing "@ + subject + "; run Portify as Administrator"@
    } else {
        "access denied killing "@ + subject + "; re-run with sudo"@
    }
}

/// What to tell the user when the OS refused to deliver a signal.
pub fn permission_hint(pid: u32, port: Option<u16>, platform: Platform) -> (r: String)
    ensures
        r@ == permission_text(pid, port, platform),
{
    let mut s = owned("access denied killing ");
    match port {
        Some(p) => {
            push_str(&mut s, "the process on port ");
            push_decimal(&mut s, p as u128);
            push_str(&mut s, " (PID ");
            push_decimal(&mut s, pid as u128);
            push_str(&mut s, ")");
        },
        None => {
            push_str(&mut s, "PID ");
            push_decimal(&mut s, pid as u128);
        },
    }
    if platform == Platform::Windows {
        push_str(&mut s, "; run Portify as Administrator");
    } else {
        push_str(&mut s, "; re-run with sudo");
    }
    assert(s@ =~= permission_text(pid, port, platform));
    s
}

// ---------------------------------------------------------------------------
// Killing one process: the decisions
// ---------------------------------------------------------------------------

/// Which signal to deliver. Where the platform has no such signal, the
/// process is terminated by the platform's own means instead.
#[derive(Debug, Clone, Copy, PartialEq, Eq, Structural)]
pub enum Signal {
    Term,
    Kill,
}

/// How long to wait for a graceful exit before escalating, in milliseconds.
pub const GRACE_PERIOD_MS: u64 = 1500;
/// How long to wait after SIGKILL before declaring a survivor, in milliseconds.
pub const FORCE_TIMEOUT_MS: u64 = 1000;
/// How often to re-check whether the process is gone, in milliseconds.
pub const POLL_INTERVAL_MS: u64 = 50;

/// Where a kill attempt stands.
#[derive(Debug, Clone, Copy, PartialEq, Eq, Structural)]
pub enum KillPhase {
    /// Waiting to hear whether the process exists.
    LookingUp,
    /// Waiting to hear whether the first signal was delivered.
    Signalling,
    /// Waiting to hear whether the process went away after the first signal.
    Waiting,
    /// The process ignored SIGTERM; waiting to hear whether it still exists.
    Rechecking,
    /// Waiting to hear whether SIGKILL was delivered.
    Forcing,
    /// Waiting to hear whether the process went away after SIGKILL.
    ForceWaiting,
    /// The attempt is over.
    Done,
}

/// What the process table said in answer to the last action.
#[derive(Debug, Clone)]
pub enum KillEvent {
    /// The process exists; this is the name it is listed under.
    Found(String),
    /// No process has the pid.
    Missing,
    /// Whether the OS accepted the signal.
    Delivered(bool),
    /// Whether the process is gone (or a zombie) before the timeout.
    Gone(bool),
}

/// What to do next.
#[derive(Debug, Clone)]
pub enum KillAction {
    /// Read the process table for the pid, executable name included.
    LookUp,
    /// Deliver a signal to the pid.
    Send(Signal),
    /// Poll the process table until the pid is gone or the time is up.
    WaitGone(u64),
    /// Read the process table for the pid again.
    Recheck,
    /// Stop; this is the outcome.
    Finish(KillOutcome),
}

/// One kill attempt in progress.
#[derive(Debug, Clone)]
pub struct KillProcess {
    pub pid: u32,
    pub mode: KillMode,
    pub port: Option<u16>,
    pub platform: Platform,
    /// The name the process was found under, once known.
    pub name: String,
    pub phase: KillPhase,
}

/// How far along an attempt is; every step moves it further or ends it.
pub open spec fn phase_rank(p: KillPhase) -> int {
    match p {
        KillPhase::LookingUp => 0,
        KillPhase::Signalling => 1,
        KillPhase::Waiting => 2,
        KillPhase::Rechecking => 3,
        KillPhase::Forcing => 4,
        KillPhase::ForceWaiting => 5,
        KillPhase::Done => 6,
    }
}

/// Only a graceful attempt ever gets past waiting for its first signal to
/// work: a forced one ends there.
pub open spec fn coherent(k: KillProcess) -> bool {
    (k.phase == KillPhase::Rechecking || k.phase == KillPhase::Forcing || k.phase
        == KillPhase::ForceWaiting) ==> k.mode == KillMode::Graceful
}

pub open spec fn first_signal(mode: KillMode) -> Signal {
    if mode == KillMode::Force {
        Signal::Kill
    } else {
        Signal::Term
    }
}

pub open spec fn first_wait(mode: KillMode) -> u64 {
    if mode == KillMode::Graceful {
        GRACE_PERIOD_MS
    } else {
        FORCE_TIMEOUT_MS
    }
}

pub open spec fn terminated_text(name: Seq<char>, pid: u32, port: Option<u16>) -> Seq<char> {
    match port {
        Some(p) => "port "@ + decimal(p as nat) + " freed: "@ + name + " (PID "@ + decimal(pid as nat)
            + ") terminated"@,
        None => name + " (PID "@ + decimal(pid as nat) + ") terminated"@,
    }
}

pub open spec fn gone_after_recheck_text(name: Seq<char>, pid: u32) -> Seq<char> {
    name + " (PID "@ + decimal(pid as nat) + ") terminated"@
}

pub open spec fn escalated_text(name: Seq<char>, pid: u32) -> Seq<char> {
    name + " (PID "@ + decimal(pid as nat) + ") ignored SIGTERM and was force-killed"@
}

pub open spec fn survived_text(name: Seq<char>, pid: u32) -> Seq<char> {
    name + " (PID "@ + decimal(pid as nat) + ") is still running after a force kill"@
}

pub open spec fn missing_text(pid: u32) -> Seq<char> {
    "no process with PID "@ + decimal(pid as nat) + " (it may have already exited)"@
}

/// `o` reports `status` for the attempt `k`, under `name`, with `detail`.
pub open spec fn reports(o: KillOutcome, k: KillProcess, status: KillStatus, name: Seq<char>, detail: Seq<char>) -> bool {
    &&& o.pid == k.pid
    &&& o.port == k.port
    &&& o.status == status
    &&& o.process_name@ == name
    &&& o.detail@ == detail
    &&& o.collateral_ports@.len() == 0
}

/// `ev` is an answer to the question the phase is waiting on.
pub open spec fn answers(phase: KillPhase, ev: KillEvent) -> bool {
    match phase {
        KillPhase::LookingUp | KillPhase::Rechecking => ev is Found || ev is Missing,
        KillPhase::Signalling | KillPhase::Forcing => ev is Delivered,
        KillPhase::Waiting | KillPhase::ForceWaiting => ev is Gone,
        KillPhase::Done => false,
    }
}

/// The step ended the attempt `k` with an outcome reporting `status`.
pub open spec fn finished(r: (KillProcess, KillAction), k: KillProcess, status: KillStatus, name: Seq<char>, detail: Seq<char>) -> bool {
    &&& r.0.phase == KillPhase::Done
    &&& (r.1 matches KillAction::Finish(o) && reports(o, k, status, name, detail))
}

fn outcome(k: &KillProcess, status: KillStatus, name: String, detail: String) -> (o: KillOutcome)
    ensures
        reports(o, *k, status, name@, detail@),
{
    KillOutcome { pid: k.pid, process_name: name, port: k.port, status, detail, collateral_ports: Vec::new() }
}

fn pid_phrase(name: &String, pid: u32, tail: &str) -> (r: String)
    ensures
        r@ == name@ + " (PID "@ + decimal(pid as nat) + tail@,
{
    let mut s = name.clone();
    push_str(&mut s, " (PID ");
    push_decimal(&mut s, pid as u128);
    push_str(&mut s, tail);
    s
}

impl KillProcess {
    /// Begin killing `pid`. Portify's safety rules are checked before anything
    /// else: a refused pid is never looked up or signalled.
    pub fn start(pid: u32, mode: KillMode, port: Option<u16>, current_pid: Option<u32>, platform: Platform) -> (r: (KillProcess, KillAction))
        ensures
            r.0.pid == pid && r.0.mode == mode && r.0.port == port && r.0.platform == platform,
            match refusal(pid, current_pid, platform) {
                Some(reason) => finished(r, r.0, KillStatus::Refused, Seq::empty(), reason),
                None => r.0.phase == KillPhase::LookingUp && r.1 is LookUp,
            },
            coherent(r.0),
    {
        let k = KillProcess { pid, mode, port, platform, name: String::new(), phase: KillPhase::LookingUp };
        match refuse_reason(pid, current_pid, platform) {
            Some(reason) => {
                let k = KillProcess { phase: KillPhase::Done, ..k };
                let o = outcome(&k, KillStatus::Refused, String::new(), reason);
                (k, KillAction::Finish(o))
            },
            None => (k, KillAction::LookUp),
        }
    }

    /// Advance the attempt with the answer to the last action.
    ///
    /// A graceful kill sends SIGTERM and waits the grace period; a process
    /// still there afterwards is looked up again and, if it still exists,
    /// sent SIGKILL. A forced kill sends SIGKILL and waits the force
    /// timeout. An undelivered signal ends in `PermissionDenied`; a process
    /// still alive after SIGKILL ends in `Survived`.
    pub fn step(self, ev: KillEvent) -> (r: (KillProcess, KillAction))
        requires
            answers(self.phase, ev),
        ensures
            r.0.pid == self.pid && r.0.mode == self.mode && r.0.port == self.port && r.0.platform
                == self.platform,
            match (self.phase, ev) {
                (KillPhase::LookingUp, KillEvent::Missing) => finished(r, self, KillStatus::NotFound, Seq::empty(), missing_text(self.pid)),
                (KillPhase::LookingUp, KillEvent::Found(name)) => r.0.phase == KillPhase::Signalling
                    && r.0.name@ == name@ && r.1 == KillAction::Send(first_signal(self.mode)),
                (KillPhase::Signalling, KillEvent::Delivered(false)) | (KillPhase::Forcing, KillEvent::Delivered(false)) =>
                    finished(r, self,
                        KillStatus::PermissionDenied,
                        self.name@,
                        permission_text(self.pid, self.port, self.platform),
                    ),
                (KillPhase::Signalling, KillEvent::Delivered(true)) => r.0.phase == KillPhase::Waiting
                    && r.0.name@ == self.name@ && r.1 == KillAction::WaitGone(first_wait(self.mode)),
                (KillPhase::Waiting, KillEvent::Gone(true)) => finished(r, self, KillStatus::Killed, self.name@, terminated_text(self.name@, self.pid, self.port)),
                (KillPhase::Waiting, KillEvent::Gone(false)) => if self.mode == KillMode::Graceful {
                    r.0.phase == KillPhase::Rechecking && r.0.name@ == self.name@ && r.1 is Recheck
                } else {
                    finished(r, self,
                        KillStatus::Survived,
                        self.name@,
                        survived_text(self.name@, self.pid),
                    )
                },
                (KillPhase::Rechecking, KillEvent::Missing) => finished(r, self, KillStatus::Killed, self.name@, gone_after_recheck_text(self.name@, self.pid)),
                (KillPhase::Rechecking, KillEvent::Found(_)) => r.0.phase == KillPhase::Forcing
                    && r.0.name@ == self.name@ && r.1 == KillAction::Send(Signal::Kill),
                (KillPhase::Forcing, KillEvent::Delivered(true)) => r.0.phase == KillPhase::ForceWaiting
                    && r.0.name@ == self.name@ && r.1 == KillAction::WaitGone(FORCE_TIMEOUT_MS),
                (KillPhase::ForceWaiting, KillEvent::Gone(true)) => finished(r, self, KillStatus::Escalated, self.name@, escalated_text(self.name@, self.pid)),
                (KillPhase::ForceWaiting, KillEvent::Gone(false)) => finished(r, self, KillStatus::Survived, self.name@, survived_text(self.name@, self.pid)),
                _ => false,
            },
            // Every step moves the attempt further, so it ends within six steps.
            phase_rank(r.0.phase) > phase_rank(self.phase),
            (r.0.phase == KillPhase::Done) == (r.1 is Finish),
            // Success is only reported once the process table no longer lists the pid.
            (r.1 matches KillAction::Finish(o) && success(o.status)) ==> (ev == KillEvent::Gone(true) || (
            self.phase == KillPhase::Rechecking && ev is Missing)),
            // Only a graceful attempt escalates, and a forced one never sends SIGTERM.
            coherent(self) ==> coherent(r.0),
            coherent(self) && (r.1 matches KillAction::Finish(o) && o.status == KillStatus::Escalated)
                ==> self.mode == KillMode::Graceful,
            r.1 == KillAction::Send(Signal::Term) ==> self.mode == KillMode::Graceful,
    {
        let KillProcess { pid, mode, port, platform, name, phase } = self;
        let k = KillProcess { pid, mode, port, platform, name: String::new(), phase: KillPhase::Done };
        match (phase, ev) {
            (KillPhase::LookingUp, KillEvent::Missing) => {
                let mut detail = owned("no process with PID ");
                push_decimal(&mut detail, pid as u128);
                push_str(&mut detail, " (it may have already exited)");
                let o = outcome(&k, KillStatus::NotFound, String::new(), detail);
                (k, KillAction::Finish(o))
            },
            (KillPhase::LookingUp, KillEvent::Found(found)) => {
                let signal = if mode == KillMode::Force {
                    Signal::Kill
                } else {
                    Signal::Term
                };
                (KillProcess { name: found, phase: KillPhase::Signalling, ..k }, KillAction::Send(signal))
            },
            (KillPhase::Signalling, KillEvent::Delivered(false)) | (KillPhase::Forcing, KillEvent::Delivered(false)) => {
                let detail = permission_hint(pid, port, platform);
                let o = outcome(&k, KillStatus::PermissionDenied, name, detail);
                (k, KillAction::Finish(o))
            },
            (KillPhase::Signalling, KillEvent::Delivered(true)) => {
                let wait = if mode == KillMode::Graceful {
                    GRACE_PERIOD_MS
                } else {
                    FORCE_TIMEOUT_MS
                };
                (KillProcess { name, phase: KillPhase::Waiting, ..k }, KillAction::WaitGone(wait))
            },
            (KillPhase::Waiting, KillEvent::Gone(true)) => {
                let detail = match port {
                    Some(p) => {
                        let mut d = owned("port ");
                        push_decimal(&mut d, p as u128);
                        push_str(&mut d, " freed: ");
                        push_str(&mut d, name.as_str());
                        push_str(&mut d, " (PID ");
                        push_decimal(&mut d, pid as u128);
                        push_str(&mut d, ") terminated");
                        d
                    },
                    None => pid_phrase(&name, pid, ") terminated"),
                };
                let o = outcome(&k, KillStatus::Killed, name, detail);
                (k, KillAction::Finish(o))
            },
            (KillPhase::Waiting, KillEvent::Gone(false)) => {
                if mode == KillMode::Graceful {
                    (KillProcess { name, phase: KillPhase::Rechecking, ..k }, KillAction::Recheck)
                } else {
                    let detail = pid_phrase(&name, pid, ") is still running after a force kill");
                    let o = outcome(&k, KillStatus::Survived, name, detail);
                    (k, KillAction::Finish(o))
                }
            },
            (KillPhase::Rechecking, KillEvent::Missing) => {
                let detail = pid_phrase(&name, pid, ") terminated");
                let o = outcome(&k, KillStatus::Killed, name, detail);
                (k, KillAction::Finish(o))
            },
            (KillPhase::Rechecking, KillEvent::Found(_)) => {
                (KillProcess { name, phase: KillPhase::Forcing, ..k }, KillAction::Send(Signal::Kill))
            },
            (KillPhase::Forcing, KillEvent::Delivered(true)) => {
                (KillProcess { name, phase: KillPhase::ForceWaiting, ..k }, KillAction::WaitGone(FORCE_TIMEOUT_MS))
            },
            (KillPhase::ForceWaiting, KillEvent::Gone(true)) => {
                let detail = pid_phrase(&name, pid, ") ignored SIGTERM and was force-killed");
                let o = outcome(&k, KillStatus::Escalated, name, detail);
                (k, KillAction::Finish(o))
            },
            (KillPhase::ForceWaiting, KillEvent::Gone(false)) => {
                let detail = pid_phrase(&name, pid, ") is still running after a force kill");
                let o = outcome(&k, KillStatus::Survived, name, detail);
                (k, KillAction::Finish(o))
            },
            _ => {
                proof {
                    assert(false);
                }
                (k, KillAction::LookUp)
            },
        }
    }
}

/// A zombie has released its ports and is only waiting to be reaped, which
/// is as good as gone.
pub fn counts_as_gone(present: bool, zombie: bool) -> (r: bool)
    ensures
        r == (!present || zombie),
{
    !present || zombie
}

// ---------------------------------------------------------------------------
// Killing by port: the plan
// ---------------------------------------------------------------------------

/// One process to kill for a port, with the other ports it also holds.
#[derive(Debug, Clone)]
pub struct KillTarget {
    pub pid: u32,
    /// Ports other than the requested one held by the same pid, ascending.
    pub collateral: Vec<u16>,
}

/// What killing a port comes down to, decided from a scan.
#[derive(Debug, Clone)]
pub enum PortKillPlan {
    /// Nothing can be killed; this is the outcome to report.
    Nothing(KillOutcome),
    /// Kill these pids, in this order.
    Targets(Vec<KillTarget>),
}

/// The socket is on the requested port (and protocol, when one is given).
pub open spec fn on_port(e: PortEntryView, port: u16, protocol: Option<Protocol>) -> bool {
    e.port == port && match protocol {
        Some(p) => e.protocol == p,
        None => true,
    }
}

/// The distinct pids owning sockets on the port, in scan order.
pub open spec fn port_owners(es: Seq<PortEntryView>, port: u16, protocol: Option<Protocol>) -> Seq<u32>
    decreases es.len(),
{
    if es.len() == 0 {
        Seq::empty()
    } else {
        let prev = port_owners(es.drop_last(), port, protocol);
        let e = es.last();
        if on_port(e, port, protocol) && e.pid.is_some() && !prev.contains(e.pid.unwrap()) {
            prev.push(e.pid.unwrap())
        } else {
            prev
        }
    }
}

/// Some socket on the port has an owner the OS would not name.
pub open spec fn hidden_owner_on(es: Seq<PortEntryView>, port: u16, protocol: Option<Protocol>) -> bool {
    exists|k: int| 0 <= k < es.len() && on_port(#[trigger] es[k], port, protocol) && es[k].pid.is_none()
}

pub open spec fn hidden_text(port: u16) -> Seq<char> {
    "port "@ + decimal(port as nat)
        + " is in use but the owning process is hidden; re-run elevated to see and kill it"@
}

pub open spec fn free_text(port: u16) -> Seq<char> {
    "nothing is holding port "@ + decimal(port as nat)
}

/// An outcome about a port that involved no process.
pub open spec fn port_report(o: KillOutcome, port: u16, status: KillStatus, detail: Seq<char>) -> bool {
    &&& o.pid == 0
    &&& o.process_name@.len() == 0
    &&& o.port == Some(port)
    &&& o.status == status
    &&& o.detail@ == detail
    &&& o.collateral_ports@.len() == 0
}

/// The plan for killing whatever holds `port`: every distinct pid on it, in
/// scan order, each with the other ports it holds; or, when no pid can be
/// named, `PermissionDenied` if some owner is hidden and `NotFound` if the
/// port is free.
pub open spec fn is_port_plan(es: Seq<PortEntryView>, port: u16, protocol: Option<Protocol>, plan: PortKillPlan) -> bool {
    let owners = port_owners(es, port, protocol);
    if owners.len() == 0 {
        plan matches PortKillPlan::Nothing(o) && if hidden_owner_on(es, port, protocol) {
            port_report(o, port, KillStatus::PermissionDenied, hidden_text(port))
        } else {
            port_report(o, port, KillStatus::NotFound, free_text(port))
        }
    } else {
        plan matches PortKillPlan::Targets(ts) && ts@.len() == owners.len() && forall|i: int|
            0 <= i < owners.len() ==> (#[trigger] ts@[i]).pid == owners[i] && is_other_ports(
                es,
                owners[i],
                port,
                ts@[i].collateral@,
            )
    }
}

fn contains_u32(v: &Vec<u32>, x: u32) -> (r: bool)
    ensures
        r == v@.contains(x),
{
    let mut i: usize = 0;
    while i < v.len()
        invariant
            i <= v.len(),
            forall|k: int| 0 <= k < i ==> v@[k] != x,
        decreases v.len() - i,
    {
        if v[i] == x {
            return true;
        }
        i = i + 1;
    }
    false
}

/// The scan behind a kill by port. Naming a port means "whatever is on
/// it", so ephemeral UDP sockets are included; command lines are not needed.
pub fn port_kill_options() -> (r: ScanOptions)
    ensures
        r.include_tcp && r.include_udp && r.include_ipv4 && r.include_ipv6,
        r.only_serving,
        r.include_ephemeral_udp,
        !r.with_details,
{
    ScanOptions {
        include_tcp: true,
        include_udp: true,
        include_ipv4: true,
        include_ipv6: true,
        only_serving: true,
        include_ephemeral_udp: true,
        with_details: false,
    }
}

/// Decide what killing `port` means, from a scan of the whole machine.
pub fn plan_port_kill(entries: &[PortEntry], port: u16, protocol: Option<Protocol>) -> (r: PortKillPlan)
    ensures
        is_port_plan(entry_views(entries@), port, protocol, r),
{
    let ghost all = entry_views(entries@);
    let mut pids: Vec<u32> = Vec::new();
    let mut hidden = false;
    let mut n: usize = 0;
    while n < entries.len()
        invariant
            n <= entries@.len(),
            all == entry_views(entries@),
            pids@ == port_owners(all.subrange(0, n as int), port, protocol),
            hidden == hidden_owner_on(all.subrange(0, n as int), port, protocol),
        decreases entries.len() - n,
    {
        let ghost pre = all.subrange(0, n as int);
        let ghost pre2 = all.subrange(0, n + 1);
        assert(pre2.drop_last() =~= pre);
        assert(pre2.last() == entries@[n as int]@);
        let e = &entries[n];
        let matches = e.port == port && match protocol {
            Some(p) => e.protocol == p,
            None => true,
        };
        if matches {
            match e.pid {
                Some(pid) => {
                    if !contains_u32(&pids, pid) {
                        pids.push(pid);
                    }
                },
                None => {
                    hidden = true;
                },
            }
        }
        proof {
            assert forall|k: int| 0 <= k < pre.len() implies pre2[k] == pre[k] by {}
            if hidden_owner_on(pre, port, protocol) {
                let k = choose|k: int| 0 <= k < pre.len() && on_port(#[trigger] pre[k], port, protocol) && pre[k].pid.is_none();
                assert(pre2[k] == pre[k]);
            }
            if hidden_owner_on(pre2, port, protocol) {
                let k = choose|k: int| 0 <= k < pre2.len() && on_port(#[trigger] pre2[k], port, protocol) && pre2[k].pid.is_none();
                if k < n {
                    assert(pre2[k] == pre[k]);
                } else {
                    assert(pre2[k] == e@);
                }
            }
            if matches && e.pid.is_none() {
                assert(pre2[n as int] == e@);
            }
        }
        n = n + 1;
    }
    assert(all.subrange(0, entries@.len() as int) =~= all);
    if pids.len() == 0 {
        let o = if hidden {
            let mut d = owned("port ");
            push_decimal(&mut d, port as u128);
            push_str(&mut d, " is in use but the owning process is hidden; re-run elevated to see and kill it");
            KillOutcome { pid: 0, process_name: String::new(), port: Some(port), status: KillStatus::PermissionDenied, detail: d, collateral_ports: Vec::new() }
        } else {
            let mut d = owned("nothing is holding port ");
            push_decimal(&mut d, port as u128);
            KillOutcome { pid: 0, process_name: String::new(), port: Some(port), status: KillStatus::NotFound, detail: d, collateral_ports: Vec::new() }
        };
        return PortKillPlan::Nothing(o);
    }
    let mut targets: Vec<KillTarget> = Vec::new();
    let mut i: usize = 0;
    while i < pids.len()
        invariant
            i <= pids@.len(),
            pids@ == port_owners(all, port, protocol),
            all == entry_views(entries@),
            targets@.len() == i,
            forall|j: int|
                0 <= j < i ==> (#[trigger] targets@[j]).pid == pids@[j] && is_other_ports(
                    all,
                    pids@[j],
                    port,
                    targets@[j].collateral@,
                ),
        decreases pids.len() - i,
    {
        let collateral = other_ports_held_by(entries, pids[i], port);
        targets.push(KillTarget { pid: pids[i], collateral });
        i = i + 1;
    }
    PortKillPlan::Targets(targets)
}

pub open spec fn scan_failure_text(e: Error) -> Seq<char> {
    "could not read the socket table: "@ + error_text(e)
}

/// The outcome of killing `port` when the socket table could not be read.
pub fn scan_failure_outcome(port: u16, err: &Error) -> (r: KillOutcome)
    ensures
        port_report(r, port, KillStatus::NotFound, scan_failure_text(*err)),
{
    let mut d = owned("could not read the socket table: ");
    let m = err.message();
    push_str(&mut d, m.as_str());
    KillOutcome { pid: 0, process_name: String::new(), port: Some(port), status: KillStatus::NotFound, detail: d, collateral_ports: Vec::new() }
}

/// Killing a port targets each owning process once, every target holds a
/// socket on the port, and every process named on the port is a target.
pub proof fn law_port_owners_are_distinct(es: Seq<PortEntryView>, port: u16, protocol: Option<Protocol>)
    ensures
        forall|i: int, j: int|
            0 <= i < j < port_owners(es, port, protocol).len() ==> #[trigger] port_owners(es, port, protocol)[i]
                != #[trigger] port_owners(es, port, protocol)[j],
        forall|i: int|
            0 <= i < port_owners(es, port, protocol).len() ==> exists|k: int|
                0 <= k < es.len() && on_port(#[trigger] es[k], port, protocol) && es[k].pid == Some(
                    #[trigger] port_owners(es, port, protocol)[i],
                ),
        forall|k: int|
            0 <= k < es.len() && on_port(#[trigger] es[k], port, protocol) && es[k].pid is Some
                ==> port_owners(es, port, protocol).contains(es[k].pid.unwrap()),
    decreases es.len(),
{
    if es.len() > 0 {
        let d = es.drop_last();
        let e = es.last();
        law_port_owners_are_distinct(d, port, protocol);
        let prev = port_owners(d, port, protocol);
        let now = port_owners(es, port, protocol);
        assert forall|k: int| 0 <= k < d.len() implies d[k] == es[k] by {}
        assert(es[es.len() - 1] == e);
        if on_port(e, port, protocol) && e.pid.is_some() && !prev.contains(e.pid.unwrap()) {
            assert(now == prev.push(e.pid.unwrap()));
            assert forall|i: int, j: int| 0 <= i < j < now.len() implies #[trigger] now[i] != #[trigger] now[j] by {
                if j == prev.len() {
                    assert(now[i] == prev[i]);
                    assert(prev.contains(prev[i]));
                } else {
                    assert(now[i] == prev[i] && now[j] == prev[j]);
                }
            }
            assert forall|i: int| 0 <= i < now.len() implies exists|k: int|
                0 <= k < es.len() && on_port(#[trigger] es[k], port, protocol) && es[k].pid == Some(
                    #[trigger] now[i],
                ) by {
                if i < prev.len() {
                    assert(now[i] == prev[i]);
                    let k = choose|k: int|
                        0 <= k < d.len() && on_port(#[trigger] d[k], port, protocol) && d[k].pid == Some(
                            prev[i],
                        );
                    assert(es[k] == d[k]);
                } else {
                    assert(es[es.len() - 1] == e);
                }
            }
            assert forall|k: int| 0 <= k < es.len() && on_port(#[trigger] es[k], port, protocol)
                && es[k].pid is Some implies now.contains(es[k].pid.unwrap()) by {
                if k < d.len() {
                    assert(prev.contains(d[k].pid.unwrap()));
                    let i = choose|i: int| 0 <= i < prev.len() && prev[i] == d[k].pid.unwrap();
                    assert(now[i] == prev[i]);
                } else {
                    assert(now[prev.len() as int] == e.pid.unwrap());
                }
            }
        } else {
            assert(now == prev);
            assert forall|i: int| 0 <= i < now.len() implies exists|k: int|
                0 <= k < es.len() && on_port(#[trigger] es[k], port, protocol) && es[k].pid == Some(
                    #[trigger] now[i],
                ) by {
                let k = choose|k: int|
                    0 <= k < d.len() && on_port(#[trigger] d[k], port, protocol) && d[k].pid == Some(
                        prev[i],
                    );
                assert(es[k] == d[k]);
            }
            assert forall|k: int| 0 <= k < es.len() && on_port(#[trigger] es[k], port, protocol)
                && es[k].pid is Some implies now.contains(es[k].pid.unwrap()) by {
                if k < d.len() {
                    assert(d[k] == es[k]);
                }
            }
        }
    }
}

} // verus!
