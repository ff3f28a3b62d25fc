//! The command-line front end's arguments and decisions: which scan to run,
//! what to kill, and which exit code to report.

use vstd::prelude::*;

use crate::error::{exit_number, ExitCode};
use crate::filter::{description, no_filters, passes, Filters};
use crate::kill::{is_other_ports, other_ports_held_by, success, KillMode, KillOutcome, KillStatus};
use crate::scan::{
    entry_views, group_by_port, group_views, is_grouping, primary_pid_of, PortEntry, PortEntryView, PortGroupView,
    PortGroup, Protocol, ScanOptions,
};
use crate::kill::free_text;
use crate::render::{
    entry_cells, entry_columns, group_cells, group_columns, kill_plan_text, layout_of, outcome_text,
    print_empty, print_entries, print_groups, print_kill_outcome, print_kill_plan, print_summary,
    summary_text, empty_text, tone, toned, Tone,
};
use crate::system::Platform;
use crate::text::{
    decimal, decimal_string, has_substring, join, join_strings, owned, push_decimal, push_str, to_lowercase, trim, trim_str,
    unicode_lowercase, views,
};

verus! {

/// Protocol choice on the command line.
#[derive(Debug, Clone, Copy, PartialEq, Eq, Structural)]
pub enum ProtoArg {
    Tcp,
    Udp,
}

pub open spec fn proto_of(arg: ProtoArg) -> Protocol {
    match arg {
        ProtoArg::Tcp => Protocol::Tcp,
        ProtoArg::Udp => Protocol::Udp,
    }
}

impl From<ProtoArg> for Protocol {
    fn from(arg: ProtoArg) -> (r: Protocol) {
        match arg {
            ProtoArg::Tcp => Protocol::Tcp,
            ProtoArg::Udp => Protocol::Udp,
        }
    }
}

impl vstd::std_specs::convert::FromSpecImpl<ProtoArg> for Protocol {
    open spec fn obeys_from_spec() -> bool {
        true
    }

    open spec fn from_spec(arg: ProtoArg) -> Protocol {
        proto_of(arg)
    }
}

/// The protocol a `--proto` flag selects, if any.
pub fn protocol_choice(arg: Option<ProtoArg>) -> (r: Option<Protocol>)
    ensures
        r == match arg {
            Some(a) => Some(proto_of(a)),
            None => None,
        },
{
    match arg {
        Some(ProtoArg::Tcp) => Some(Protocol::Tcp),
        Some(ProtoArg::Udp) => Some(Protocol::Udp),
        None => None,
    }
}

/// Arguments of `portify list`.
#[derive(Debug, Clone)]
pub struct ListArgs {
    /// Only these ports.
    pub ports: Vec<u16>,
    /// Filter by process name, executable path or command line.
    pub filter: Option<String>,
    /// Show everything: established connections and outbound UDP sockets too.
    pub all: bool,
    /// Only these protocols (default: both).
    pub proto: Option<ProtoArg>,
    /// One row per socket instead of one row per port.
    pub raw: bool,
    /// Show the full command line of each process.
    pub wide: bool,
}

/// Arguments of `portify kill`.
#[derive(Debug, Clone)]
pub struct KillArgs {
    /// Ports to free.
    pub ports: Vec<u16>,
    /// Kill by process ID instead of by port.
    pub pid: Vec<u32>,
    /// Skip the confirmation prompt.
    pub yes: bool,
    /// Go straight to SIGKILL instead of asking politely first.
    pub force: bool,
    /// Restrict port lookups to one protocol.
    pub proto: Option<ProtoArg>,
}

/// Arguments of `portify watch`.
#[derive(Debug, Clone)]
pub struct WatchArgs {
    /// Refresh interval in seconds (1 to 3600).
    pub interval: u64,
    /// Only these ports.
    pub ports: Vec<u16>,
    /// Filter by process name, executable path or command line.
    pub filter: Option<String>,
    /// Show everything.
    pub all: bool,
}

impl ListArgs {
    /// Bare `portify 3000` is shorthand for `portify list 3000`.
    pub fn with_ports(ports: Vec<u16>) -> (r: Self)
        ensures
            r.ports@ == ports@,
            r.filter.is_none(),
            !r.all,
            r.proto.is_none(),
            !r.raw,
            !r.wide,
    {
        ListArgs { ports, filter: None, all: false, proto: None, raw: false, wide: false }
    }
}

/// The scan that `list` and `watch` run.
///
/// Naming ports turns a browse into a lookup, and a lookup must find the
/// sockets the browse view hides: ephemeral UDP sockets are included then.
pub fn scan_options(all: bool, explicit_ports: bool) -> (r: ScanOptions)
    ensures
        r.include_tcp && r.include_udp && r.include_ipv4 && r.include_ipv6 && r.with_details,
        r.only_serving == !all,
        r.include_ephemeral_udp == (all || explicit_ports),
{
    if all {
        return ScanOptions::everything();
    }
    ScanOptions {
        include_tcp: true,
        include_udp: true,
        include_ipv4: true,
        include_ipv6: true,
        only_serving: true,
        include_ephemeral_udp: explicit_ports,
        with_details: true,
    }
}

/// The exit code a kill status stands for: a refused kill is bad input, not
/// a malfunction; a survivor is an internal failure.
pub open spec fn status_exit(s: KillStatus) -> ExitCode {
    match s {
        KillStatus::Killed | KillStatus::Escalated => ExitCode::Success,
        KillStatus::NotFound => ExitCode::NotFound,
        KillStatus::PermissionDenied => ExitCode::PermissionDenied,
        KillStatus::Refused => ExitCode::InvalidInput,
        KillStatus::Survived => ExitCode::Internal,
    }
}

/// The most severe exit code among the outcomes (severity is numeric order).
pub open spec fn worst_exit(os: Seq<KillOutcome>) -> ExitCode
    decreases os.len(),
{
    if os.len() == 0 {
        ExitCode::Success
    } else {
        let prev = worst_exit(os.drop_last());
        let cand = status_exit(os.last().status);
        if exit_number(cand) > exit_number(prev) {
            cand
        } else {
            prev
        }
    }
}

fn exit_for(s: KillStatus) -> (r: ExitCode)
    ensures
        r == status_exit(s),
{
    match s {
        KillStatus::Killed | KillStatus::Escalated => ExitCode::Success,
        KillStatus::NotFound => ExitCode::NotFound,
        KillStatus::PermissionDenied => ExitCode::PermissionDenied,
        KillStatus::Refused => ExitCode::InvalidInput,
        KillStatus::Survived => ExitCode::Internal,
    }
}

/// The exit code of a kill run: the worst outcome decides.
pub fn worst_exit_code(outcomes: &[KillOutcome]) -> (r: ExitCode)
    ensures
        r == worst_exit(outcomes@),
{
    let mut code = ExitCode::Success;
    let mut i: usize = 0;
    while i < outcomes.len()
        invariant
            i <= outcomes@.len(),
            code == worst_exit(outcomes@.subrange(0, i as int)),
        decreases outcomes.len() - i,
    {
        let candidate = exit_for(outcomes[i].status);
        proof {
            let pre2 = outcomes@.subrange(0, i + 1);
            assert(pre2.drop_last() =~= outcomes@.subrange(0, i as int));
        }
        if candidate.code() > code.code() {
            code = candidate;
        }
        i = i + 1;
    }
    assert(outcomes@.subrange(0, outcomes@.len() as int) =~= outcomes@);
    code
}

/// The exit code of a listing: finding nothing is `NotFound` when the user
/// asked about something specific (or asked for JSON), and success for an
/// unfiltered empty table.
pub fn list_exit_code(found_any: bool, json: bool, unfiltered: bool) -> (r: ExitCode)
    ensures
        r == (if found_any || (!json && unfiltered) {
            ExitCode::Success
        } else {
            ExitCode::NotFound
        }),
{
    if found_any || (!json && unfiltered) {
        ExitCode::Success
    } else {
        ExitCode::NotFound
    }
}

/// A kill request names at least one port or pid.
pub fn kill_request_is_empty(args: &KillArgs) -> (r: bool)
    ensures
        r == (args.ports@.len() == 0 && args.pid@.len() == 0),
{
    args.ports.len() == 0 && args.pid.len() == 0
}

/// How many sockets in `es` have an owner the OS would not name.
pub open spec fn hidden_count(es: Seq<PortEntryView>) -> nat
    decreases es.len(),
{
    if es.len() == 0 {
        0
    } else {
        hidden_count(es.drop_last()) + if es.last().owner_hidden {
            1nat
        } else {
            0nat
        }
    }
}

proof fn lemma_hidden_count_bound(es: Seq<PortEntryView>)
    ensures
        hidden_count(es) <= es.len(),
    decreases es.len(),
{
    if es.len() > 0 {
        lemma_hidden_count_bound(es.drop_last());
    }
}

/// How many of the entries have a hidden owner.
pub fn count_hidden(entries: &[PortEntry]) -> (r: usize)
    ensures
        r == hidden_count(entry_views(entries@)),
{
    let ghost all = entry_views(entries@);
    let mut count: usize = 0;
    let mut i: usize = 0;
    while i < entries.len()
        invariant
            i <= entries@.len(),
            all == entry_views(entries@),
            count == hidden_count(all.subrange(0, i as int)),
        decreases entries.len() - i,
    {
        proof {
            let pre2 = all.subrange(0, i + 1);
            assert(pre2.drop_last() =~= all.subrange(0, i as int));
            assert(pre2.last() == entries@[i as int]@);
            lemma_hidden_count_bound(all.subrange(0, i as int));
        }
        if entries[i].owner_hidden {
            count = count + 1;
        }
        i = i + 1;
    }
    assert(all.subrange(0, entries@.len() as int) =~= all);
    count
}

/// The answer to the confirmation prompt is a yes: `y` or `yes`, ignoring
/// case and surrounding whitespace.
pub open spec fn affirmative(answer: Seq<char>) -> bool {
    let a = unicode_lowercase(trim(answer));
    a == "y"@ || a == "yes"@
}

pub fn is_yes(answer: &str) -> (r: bool)
    ensures
        r == affirmative(answer@),
{
    let trimmed = trim_str(answer);
    let lower = to_lowercase(trimmed.as_str());
    crate::text::str_eq(lower.as_str(), "y") || crate::text::str_eq(lower.as_str(), "yes")
}

impl PortEntry {
    /// A copy with the same view.
    pub fn duplicate(&self) -> (r: PortEntry)
        ensures
            r@ == self@,
    {
        PortEntry {
            port: self.port,
            protocol: self.protocol,
            state: self.state,
            local_address: self.local_address.clone(),
            remote_address: crate::scan::copy_opt_string(&self.remote_address),
            pid: self.pid,
            process: match &self.process {
                Some(p) => Some(p.duplicate()),
                None => None,
            },
            service: self.service,
            owner_hidden: self.owner_hidden,
        }
    }
}

/// What the confirmation prompt of `kill` shows: the rows for the requested
/// ports (per protocol when one is given), and for each row the other ports
/// its first process also holds in the whole scan.
pub open spec fn is_kill_preview(
    all: Seq<PortEntryView>,
    ports: Seq<u16>,
    proto: Option<Protocol>,
    plan: Seq<(u16, PortGroup)>,
    collateral: Seq<(u16, Vec<u16>)>,
) -> bool {
    let f = |e: PortEntryView|
        (ports.len() == 0 || ports.contains(e.port)) && match proto {
            Some(p) => e.protocol == p,
            None => true,
        };
    let groups = plan.map_values(|t: (u16, PortGroup)| t.1@);
    &&& is_grouping(all.filter(f), groups)
    &&& plan.len() == collateral.len()
    &&& forall|i: int|
        0 <= i < plan.len() ==> (#[trigger] plan[i]).0 == plan[i].1.port && collateral[i].0
            == plan[i].1.port && match primary_pid_of(plan[i].1@) {
            Some(pid) => is_other_ports(all, pid, plan[i].1.port, collateral[i].1@),
            None => collateral[i].1@.len() == 0,
        }
}

/// The rows and collateral ports shown before killing `ports`.
pub fn build_kill_plan(entries: &Vec<PortEntry>, ports: &Vec<u16>, proto: Option<Protocol>) -> (r: (
    Vec<(u16, PortGroup)>,
    Vec<(u16, Vec<u16>)>,
))
    ensures
        is_kill_preview(entry_views(entries@), ports@, proto, r.0@, r.1@),
{
    let mut copy: Vec<PortEntry> = Vec::new();
    let mut i: usize = 0;
    while i < entries.len()
        invariant
            i <= entries@.len(),
            copy@.len() == i,
            entry_views(copy@) == entry_views(entries@.subrange(0, i as int)),
        decreases entries.len() - i,
    {
        let ghost before = copy@;
        copy.push(entries[i].duplicate());
        i = i + 1;
        proof {
            assert forall|q: int| 0 <= q < i implies entry_views(copy@)[q] == entry_views(entries@.subrange(0, i as int))[q] by {
                if q < i - 1 {
                    assert(copy@[q] == before[q]);
                    assert(entry_views(before)[q] == entry_views(entries@.subrange(0, i - 1))[q]);
                }
            }
        }
        assert(entry_views(copy@) =~= entry_views(entries@.subrange(0, i as int)));
    }
    assert(entries@.subrange(0, entries@.len() as int) =~= entries@);
    let filters = Filters { ports: ports.clone(), text: None, proto };
    let selected = filters.apply(copy);
    let groups = group_by_port(selected.as_slice());
    let ghost fsel = |e: PortEntryView|
        (ports@.len() == 0 || ports@.contains(e.port)) && match proto {
            Some(p) => e.protocol == p,
            None => true,
        };
    proof {
        let fp = |e: PortEntryView| passes(filters, e);
        assert(fp =~= fsel);
    }
    let mut plan: Vec<(u16, PortGroup)> = Vec::new();
    let mut collateral: Vec<(u16, Vec<u16>)> = Vec::new();
    let mut k: usize = 0;
    let total = groups.len();
    let mut rest = groups;
    let ghost gs = group_views(rest@);
    while rest.len() > 0
        invariant
            k + rest@.len() == gs.len(),
            gs.len() == total,
            group_views(rest@) == gs.subrange(k as int, gs.len() as int),
            plan@.len() == k,
            collateral@.len() == k,
            forall|j: int|
                0 <= j < k ==> (#[trigger] plan@[j]).1@ == gs[j] && plan@[j].0 == gs[j].port
                    && collateral@[j].0 == gs[j].port && match primary_pid_of(gs[j]) {
                    Some(pid) => is_other_ports(entry_views(entries@), pid, gs[j].port, collateral@[j].1@),
                    None => collateral@[j].1@.len() == 0,
                },
        decreases rest.len(),
    {
        let ghost before = rest@;
        let g = rest.remove(0);
        proof {
            assert(group_views(before)[0] == g@);
            assert(rest@ =~= before.subrange(1, before.len() as int));
            assert forall|q: int| 0 <= q < rest@.len() implies group_views(rest@)[q] == gs[k + 1 + q] by {
                assert(rest@[q] == before[q + 1]);
                assert(group_views(before)[q + 1] == gs.subrange(k as int, gs.len() as int)[q + 1]);
            }
            assert(group_views(rest@) =~= gs.subrange(k + 1, gs.len() as int));
            assert(g@ == gs[k as int]);
        }
        let others = match g.primary_pid() {
            Some(pid) => other_ports_held_by(entries.as_slice(), pid, g.port),
            None => Vec::new(),
        };
        let port = g.port;
        collateral.push((port, others));
        plan.push((port, g));
        k = k + 1;
    }
    proof {
        let groups_of_plan = plan@.map_values(|t: (u16, PortGroup)| t.1@);
        assert(groups_of_plan =~= gs);
    }
    (plan, collateral)
}

// ---------------------------------------------------------------------------
// A `portify kill` run
// ---------------------------------------------------------------------------

/// The protocol a `--proto` flag selects.
pub open spec fn chosen_protocol(arg: Option<ProtoArg>) -> Option<Protocol> {
    match arg {
        Some(a) => Some(proto_of(a)),
        None => None,
    }
}

/// The kill mode `--force` selects.
pub open spec fn chosen_mode(force: bool) -> KillMode {
    if force {
        KillMode::Force
    } else {
        KillMode::Graceful
    }
}

/// Where a `portify kill` run stands.
#[derive(Debug, Clone, Copy, PartialEq, Eq, Structural)]
pub enum KillRunPhase {
    /// Waiting for the scan that shows what is about to die.
    Previewing,
    /// Waiting for the answer to the confirmation prompt.
    Prompting,
    /// Waiting for the outcomes of the kills.
    Killing,
    /// The run is over.
    Done,
}

/// A `portify kill` run in progress.
#[derive(Debug, Clone)]
pub struct KillRun {
    pub args: KillArgs,
    pub json: bool,
    pub phase: KillRunPhase,
}

/// What happened in answer to the last action.
#[derive(Debug, Clone)]
pub enum KillRunEvent {
    /// The scan for the preview: the listing, or `None` when the socket
    /// table could not be read (the prompt is then less informative).
    Previewed(Option<Vec<PortEntry>>),
    /// The line typed at the prompt (empty when it could not be read).
    Answered(String),
    /// There is no terminal to ask on.
    NoTerminal,
    /// What the kills came to: the ports' outcomes in request order, then
    /// the pids'.
    Killed(Vec<KillOutcome>),
}

/// What to do next.
#[derive(Debug, Clone)]
pub enum KillRunAction {
    /// Report the message as a failure and exit with the code.
    Fail(ExitCode, String),
    /// Scan with these options and report the listing.
    Preview(ScanOptions),
    /// Show these lines, then ask "Continue? [y/N] ".
    Prompt(Vec<String>),
    /// Kill whatever holds each port (on the protocol, when one is given),
    /// then each pid, in this mode.
    Kill { ports: Vec<u16>, pids: Vec<u32>, proto: Option<Protocol>, mode: KillMode },
    /// Print these lines and exit with the code. Under `--json` the outcomes
    /// themselves are written out as JSON by the caller, and no lines are given.
    Finish(Vec<String>, ExitCode),
}

pub open spec fn nothing_to_kill_text() -> Seq<char> {
    "nothing to kill: pass a port (portify kill 3000) or a PID (portify kill --pid 12841)"@
}

pub open spec fn no_terminal_text() -> Seq<char> {
    "refusing to kill without confirmation while stdin is not a terminal; pass --yes"@
}

/// `pids` as a list in brackets: `[1, 2]`.
pub open spec fn pid_list(pids: Seq<u32>) -> Seq<char> {
    "["@ + join(pids.map_values(|p: u32| decimal(p as nat)), ", "@) + "]"@
}

/// What the prompt shows: the plan, when there is one, and the pids asked for.
pub open spec fn prompt_text(
    plan: Seq<(u16, PortGroup)>,
    collateral: Seq<(u16, Vec<u16>)>,
    pids: Seq<u32>,
) -> Seq<Seq<char>> {
    (if plan.len() > 0 {
        kill_plan_text(plan, collateral)
    } else {
        Seq::empty()
    }) + (if pids.len() > 0 {
        seq!["  PID "@ + pid_list(pids)]
    } else {
        Seq::empty()
    })
}

/// The report of every outcome, one after another.
pub open spec fn outcomes_text(os: Seq<KillOutcome>) -> Seq<Seq<char>>
    decreases os.len(),
{
    if os.len() == 0 {
        Seq::empty()
    } else {
        outcomes_text(os.drop_last()) + outcome_text(os.last())
    }
}

/// `act` kills exactly what `args` asks for.
pub open spec fn kills_request(args: KillArgs, act: KillRunAction) -> bool {
    act matches KillRunAction::Kill { ports, pids, proto, mode } && ports@ == args.ports@ && pids@
        == args.pid@ && proto == chosen_protocol(args.proto) && mode == chosen_mode(args.force)
}

/// `ev` answers the question the phase is waiting on.
pub open spec fn run_answers(phase: KillRunPhase, ev: KillRunEvent) -> bool {
    match phase {
        KillRunPhase::Previewing => ev is Previewed,
        KillRunPhase::Prompting => ev is Answered || ev is NoTerminal,
        KillRunPhase::Killing => ev is Killed,
        KillRunPhase::Done => false,
    }
}

pub open spec fn run_rank(p: KillRunPhase) -> int {
    match p {
        KillRunPhase::Previewing => 0,
        KillRunPhase::Prompting => 1,
        KillRunPhase::Killing => 2,
        KillRunPhase::Done => 3,
    }
}

/// The phase that waits for the answer to `act`.
pub open spec fn waits_on(act: KillRunAction) -> KillRunPhase {
    match act {
        KillRunAction::Preview(_) => KillRunPhase::Previewing,
        KillRunAction::Prompt(_) => KillRunPhase::Prompting,
        KillRunAction::Kill { .. } => KillRunPhase::Killing,
        _ => KillRunPhase::Done,
    }
}

/// The scan behind the prompt: whatever is on the ports, ephemeral UDP
/// sockets included.
pub open spec fn is_preview_options(o: ScanOptions) -> bool {
    o.include_tcp && o.include_udp && o.include_ipv4 && o.include_ipv6 && o.only_serving
        && o.include_ephemeral_udp && o.with_details
}

/// What a kill of free ports reports, one line per port, as the kill of
/// each would: a muted mark and "nothing is holding port N".
pub open spec fn free_port_lines(ports: Seq<u16>) -> Seq<Seq<char>> {
    ports.map_values(|p: u16| toned("·"@, Tone::Muted) + " "@ + free_text(p))
}

fn free_port_report(ports: &Vec<u16>) -> (r: Vec<String>)
    ensures
        views(r@) == free_port_lines(ports@),
{
    let mut lines: Vec<String> = Vec::new();
    let mut i: usize = 0;
    while i < ports.len()
        invariant
            i <= ports@.len(),
            views(lines@) == free_port_lines(ports@.subrange(0, i as int)),
        decreases ports.len() - i,
    {
        let ghost prev = lines@;
        let mut line = tone("·", Tone::Muted);
        push_str(&mut line, " ");
        push_str(&mut line, "nothing is holding port ");
        push_decimal(&mut line, ports[i] as u128);
        assert(line@ == toned("·"@, Tone::Muted) + " "@ + free_text(ports[i as int]));
        lines.push(line);
        i = i + 1;
        assert(views(lines@) =~= views(prev).push(line@));
        assert(views(lines@) =~= free_port_lines(ports@.subrange(0, i as int)));
    }
    assert(ports@.subrange(0, ports@.len() as int) =~= ports@);
    lines
}

fn kill_order(args: &KillArgs) -> (r: KillRunAction)
    ensures
        kills_request(*args, r),
{
    KillRunAction::Kill {
        ports: args.ports.clone(),
        pids: args.pid.clone(),
        proto: protocol_choice(args.proto),
        mode: if args.force {
            KillMode::Force
        } else {
            KillMode::Graceful
        },
    }
}

fn pid_line(pids: &Vec<u32>) -> (r: String)
    ensures
        r@ == "  PID "@ + pid_list(pids@),
{
    let mut texts: Vec<String> = Vec::new();
    let mut i: usize = 0;
    while i < pids.len()
        invariant
            i <= pids@.len(),
            texts@.len() == i,
            views(texts@) == pids@.subrange(0, i as int).map_values(|p: u32| decimal(p as nat)),
        decreases pids.len() - i,
    {
        let ghost before = texts@;
        texts.push(decimal_string(pids[i] as u128));
        i = i + 1;
        proof {
            let a = views(texts@);
            let b = pids@.subrange(0, i as int).map_values(|p: u32| decimal(p as nat));
            assert forall|k: int| 0 <= k < a.len() implies a[k] == b[k] by {
                if k < i - 1 {
                    assert(texts@[k] == before[k]);
                    assert(views(before)[k] == pids@.subrange(0, i - 1).map_values(
                        |p: u32| decimal(p as nat),
                    )[k]);
                }
            }
            assert(a =~= b);
        }
    }
    assert(pids@.subrange(0, pids@.len() as int) =~= pids@);
    let listed = join_strings(&texts, ", ");
    let mut s = owned("  PID [");
    push_str(&mut s, listed.as_str());
    push_str(&mut s, "]");
    proof {
        reveal_strlit("  PID [");
        reveal_strlit("  PID ");
        reveal_strlit("[");
        reveal_strlit("]");
    }
    assert(s@ =~= "  PID "@ + pid_list(pids@));
    s
}

fn prompt_lines(plan: &Vec<(u16, PortGroup)>, collateral: &Vec<(u16, Vec<u16>)>, pids: &Vec<u32>) -> (r: Vec<String>)
    ensures
        views(r@) == prompt_text(plan@, collateral@, pids@),
{
    let mut lines: Vec<String> = if plan.len() > 0 {
        print_kill_plan(plan.as_slice(), collateral.as_slice())
    } else {
        Vec::new()
    };
    let ghost first = views(lines@);
    if pids.len() > 0 {
        lines.push(pid_line(pids));
        assert(views(lines@) =~= first.push(views(lines@).last()));
    }
    assert(views(lines@) =~= prompt_text(plan@, collateral@, pids@));
    lines
}

fn outcome_lines(os: &Vec<KillOutcome>) -> (r: Vec<String>)
    ensures
        views(r@) == outcomes_text(os@),
{
    let mut lines: Vec<String> = Vec::new();
    let mut i: usize = 0;
    while i < os.len()
        invariant
            i <= os@.len(),
            views(lines@) == outcomes_text(os@.subrange(0, i as int)),
        decreases os.len() - i,
    {
        let more = print_kill_outcome(&os[i]);
        let ghost before = views(lines@);
        let mut k: usize = 0;
        while k < more.len()
            invariant
                k <= more@.len(),
                views(lines@) == before + views(more@).subrange(0, k as int),
            decreases more.len() - k,
        {
            let ghost prev = lines@;
            let t = owned(more[k].as_str());
            assert(t@ == views(more@)[k as int]);
            lines.push(t);
            assert(views(lines@) =~= views(prev).push(t@));
            k = k + 1;
            assert(views(more@).subrange(0, k as int) =~= views(more@).subrange(0, k - 1).push(
                views(more@)[k - 1],
            ));
            assert(views(lines@) =~= before + views(more@).subrange(0, k as int));
        }
        proof {
            let pre2 = os@.subrange(0, i + 1);
            assert(pre2.drop_last() =~= os@.subrange(0, i as int));
            assert(views(more@).subrange(0, more@.len() as int) =~= views(more@));
        }
        i = i + 1;
    }
    assert(os@.subrange(0, os@.len() as int) =~= os@);
    lines
}

impl KillRun {
    /// Begin `portify kill`. An empty request fails as bad input. With
    /// `--yes`, or under `--json` where a prompt would hang a script, the kills
    /// start at once; otherwise what is about to die is shown first (the scan
    /// is skipped when only pids are named).
    pub fn start(args: KillArgs, json: bool) -> (r: (KillRun, KillRunAction))
        ensures
            r.0.args == args && r.0.json == json,
            r.0.phase == waits_on(r.1),
            if args.ports@.len() == 0 && args.pid@.len() == 0 {
                r.1 matches KillRunAction::Fail(c, m) && c == ExitCode::InvalidInput && m@
                    == nothing_to_kill_text()
            } else if args.yes || json {
                kills_request(args, r.1)
            } else if args.ports@.len() == 0 {
                r.1 matches KillRunAction::Prompt(lines) && views(lines@) == prompt_text(
                    Seq::empty(),
                    Seq::empty(),
                    args.pid@,
                )
            } else {
                r.1 matches KillRunAction::Preview(o) && is_preview_options(o)
            },
    {
        if kill_request_is_empty(&args) {
            let run = KillRun { args, json, phase: KillRunPhase::Done };
            return (run, KillRunAction::Fail(ExitCode::InvalidInput, owned("nothing to kill: pass a port (portify kill 3000) or a PID (portify kill --pid 12841)")));
        }
        if args.yes || json {
            let act = kill_order(&args);
            return (KillRun { args, json, phase: KillRunPhase::Killing }, act);
        }
        if args.ports.len() == 0 {
            let plan: Vec<(u16, PortGroup)> = Vec::new();
            let collateral: Vec<(u16, Vec<u16>)> = Vec::new();
            let lines = prompt_lines(&plan, &collateral, &args.pid);
            assert(plan@ =~= Seq::empty());
            assert(collateral@ =~= Seq::empty());
            return (KillRun { args, json, phase: KillRunPhase::Prompting }, KillRunAction::Prompt(lines));
        }
        let options = ScanOptions {
            include_tcp: true,
            include_udp: true,
            include_ipv4: true,
            include_ipv6: true,
            only_serving: true,
            include_ephemeral_udp: true,
            with_details: true,
        };
        (KillRun { args, json, phase: KillRunPhase::Previewing }, KillRunAction::Preview(options))
    }

    /// Advance the run with the answer to the last action.
    ///
    /// Nothing is signalled before the user says yes: a run that previews
    /// only ever kills after an affirmative answer, and a refusal or a
    /// missing terminal ends it without killing anything.
    pub fn step(self, ev: KillRunEvent) -> (r: (KillRun, KillRunAction))
        requires
            run_answers(self.phase, ev),
        ensures
            r.0.args == self.args && r.0.json == self.json,
            r.0.phase == waits_on(r.1),
            run_rank(r.0.phase) > run_rank(self.phase),
            match ev {
                KillRunEvent::Previewed(found) => {
                    let es = match found {
                        Some(v) => entry_views(v@),
                        None => Seq::empty(),
                    };
                    exists|plan: Seq<(u16, PortGroup)>, coll: Seq<(u16, Vec<u16>)>|
                        #![trigger prompt_text(plan, coll, self.args.pid@)]
                        (if found is Some {
                            is_kill_preview(es, self.args.ports@, chosen_protocol(self.args.proto), plan, coll)
                        } else {
                            plan.len() == 0 && coll.len() == 0
                        }) && if plan.len() == 0 && self.args.pid@.len() == 0 {
                            r.1 matches KillRunAction::Finish(lines, c) && c == ExitCode::NotFound
                                && views(lines@) == free_port_lines(self.args.ports@)
                        } else {
                            r.1 matches KillRunAction::Prompt(lines) && views(lines@) == prompt_text(
                                plan,
                                coll,
                                self.args.pid@,
                            )
                        }
                },
                KillRunEvent::Answered(answer) => if affirmative(answer@) {
                    kills_request(self.args, r.1)
                } else {
                    r.1 matches KillRunAction::Finish(lines, c) && c == ExitCode::Success && views(
                        lines@,
                    ) == seq!["Cancelled."@]
                },
                KillRunEvent::NoTerminal => r.1 matches KillRunAction::Fail(c, m) && c
                    == ExitCode::InvalidInput && m@ == no_terminal_text(),
                KillRunEvent::Killed(os) => r.1 matches KillRunAction::Finish(lines, c) && c
                    == worst_exit(os@) && views(lines@) == (if self.json {
                    Seq::empty()
                } else {
                    outcomes_text(os@)
                }),
            },
            // Nothing is killed after a preview without an affirmative answer.
            r.1 is Kill ==> (ev matches KillRunEvent::Answered(a) && affirmative(a@)),
    {
        let KillRun { args, json, phase } = self;
        match ev {
            KillRunEvent::Previewed(found) => {
                let (plan, collateral) = match found {
                    Some(entries) => build_kill_plan(&entries, &args.ports, protocol_choice(args.proto)),
                    None => (Vec::new(), Vec::new()),
                };
                proof {
                    let _t = prompt_text(plan@, collateral@, args.pid@);
                }
                if plan.len() == 0 && args.pid.len() == 0 {
                    let lines = free_port_report(&args.ports);
                    let run = KillRun { args, json, phase: KillRunPhase::Done };
                    return (run, KillRunAction::Finish(lines, ExitCode::NotFound));
                }
                let lines = prompt_lines(&plan, &collateral, &args.pid);
                proof {
                    let _t = prompt_text(plan@, collateral@, args.pid@);
                }
                (KillRun { args, json, phase: KillRunPhase::Prompting }, KillRunAction::Prompt(lines))
            },
            KillRunEvent::Answered(answer) => {
                if is_yes(answer.as_str()) {
                    let act = kill_order(&args);
                    (KillRun { args, json, phase: KillRunPhase::Killing }, act)
                } else {
                    let lines = vec![owned("Cancelled.")];
                    assert(views(lines@) =~= seq!["Cancelled."@]);
                    (KillRun { args, json, phase: KillRunPhase::Done }, KillRunAction::Finish(lines, ExitCode::Success))
                }
            },
            KillRunEvent::NoTerminal => {
                let m = owned("refusing to kill without confirmation while stdin is not a terminal; pass --yes");
                (KillRun { args, json, phase: KillRunPhase::Done }, KillRunAction::Fail(ExitCode::InvalidInput, m))
            },
            KillRunEvent::Killed(outcomes) => {
                let code = worst_exit_code(outcomes.as_slice());
                let lines = if json {
                    let none: Vec<String> = Vec::new();
                    assert(views(none@) =~= Seq::empty());
                    none
                } else {
                    outcome_lines(&outcomes)
                };
                (KillRun { args, json, phase: KillRunPhase::Done }, KillRunAction::Finish(lines, code))
            },
        }
    }
}

/// What a listing prints, when it is not written out as JSON, and the code
/// it exits with. An empty listing says what was searched for and is only
/// an error when something was asked for; otherwise the table (one row per
/// socket with `raw`, else one per port) and the footer follow.
pub fn list_report(
    entries: &[PortEntry],
    filters: &Filters,
    raw: bool,
    wide: bool,
    elapsed_ms: u128,
    elevated: bool,
    platform: Platform,
    terminal: usize,
) -> (r: (Vec<String>, ExitCode))
    ensures
        entries@.len() == 0 ==> views(r.0@) == seq![empty_text(description(*filters))] && r.1 == (if no_filters(*filters) {
            ExitCode::Success
        } else {
            ExitCode::NotFound
        }),
        entries@.len() > 0 && raw ==> views(r.0@) == layout_of(
            entry_columns(wide),
            entry_cells(entry_views(entries@), wide),
            terminal as nat,
        ) + summary_text(
            entries@.len(),
            hidden_count(entry_views(entries@)),
            elapsed_ms as nat,
            elevated,
            platform,
        ) && r.1 == ExitCode::Success,
        entries@.len() > 0 && !raw ==> exists|gs: Seq<PortGroupView>|
            #![trigger group_cells(gs, wide)]
            is_grouping(entry_views(entries@), gs) && views(r.0@) == layout_of(
                group_columns(wide),
                group_cells(gs, wide),
                terminal as nat,
            ) + summary_text(
                gs.len(),
                hidden_count(entry_views(entries@)),
                elapsed_ms as nat,
                elevated,
                platform,
            ) && r.1 == ExitCode::Success,
{
    if entries.len() == 0 {
        let d = filters.describe();
        let lines = vec![print_empty(d.as_str())];
        assert(views(lines@) =~= seq![empty_text(description(*filters))]);
        let code = list_exit_code(false, false, filters.is_empty());
        return (lines, code);
    }
    let hidden = count_hidden(entries);
    if raw {
        let mut lines = print_entries(entries, wide, terminal);
        let ghost table = views(lines@);
        let mut footer = print_summary(entries.len(), hidden, elapsed_ms, elevated, platform);
        let ghost foot = views(footer@);
        lines.append(&mut footer);
        assert(views(lines@) =~= table + foot);
        (lines, ExitCode::Success)
    } else {
        let groups = group_by_port(entries);
        let mut lines = print_groups(groups.as_slice(), wide, terminal);
        let ghost table = views(lines@);
        let mut footer = print_summary(groups.len(), hidden, elapsed_ms, elevated, platform);
        let ghost foot = views(footer@);
        lines.append(&mut footer);
        assert(views(lines@) =~= table + foot);
        proof {
            let _t = group_cells(group_views(groups@), wide);
        }
        (lines, ExitCode::Success)
    }
}

/// A kill run exits with success exactly when every outcome was a success.
pub proof fn law_success_iff_every_kill_succeeded(outcomes: Seq<KillOutcome>)
    ensures
        worst_exit(outcomes) == ExitCode::Success <==> forall|i: int|
            0 <= i < outcomes.len() ==> success((#[trigger] outcomes[i]).status),
    decreases outcomes.len(),
{
    if outcomes.len() > 0 {
        let d = outcomes.drop_last();
        law_success_iff_every_kill_succeeded(d);
        assert forall|i: int| 0 <= i < d.len() implies d[i] == outcomes[i] by {}
        let last = outcomes[outcomes.len() - 1];
        assert(last == outcomes.last());
        if forall|i: int| 0 <= i < outcomes.len() ==> success((#[trigger] outcomes[i]).status) {
            assert(success(last.status));
        }
    }
}

/// The worst outcome decides: two batches of outcomes taken together exit
/// with the more severe of the two codes the batches exit with on their own.
pub proof fn law_worst_outcome_decides(a: Seq<KillOutcome>, b: Seq<KillOutcome>)
    ensures
        worst_exit(a + b) == (if exit_number(worst_exit(a)) >= exit_number(worst_exit(b)) {
            worst_exit(a)
        } else {
            worst_exit(b)
        }),
    decreases b.len(),
{
    if b.len() == 0 {
        assert(a + b =~= a);
    } else {
        law_worst_outcome_decides(a, b.drop_last());
        assert((a + b).drop_last() =~= a + b.drop_last());
        assert((a + b).last() == b.last());
    }
}

} // verus!
