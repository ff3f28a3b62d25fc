//! The socket-table model: protocols, socket states, the process that owns a
//! socket, one row per socket, and one row per port.

use vstd::prelude::*;

use crate::services::{lookup_port, service_for_port, service_table};
use crate::services::{process_description, describe_process};
use crate::text::{chars_of, decimal, join, join_strings, owned, push_decimal, push_str, views};

verus! {

// ---------------------------------------------------------------------------
// Protocol
// ---------------------------------------------------------------------------

#[derive(Debug, Clone, Copy, PartialEq, Eq, PartialOrd, Ord, Hash, Structural)]
pub enum Protocol {
    Tcp,
    Udp,
}

/// Position of a protocol in listings: TCP before UDP.
pub open spec fn protocol_rank(p: Protocol) -> int {
    match p {
        Protocol::Tcp => 0,
        Protocol::Udp => 1,
    }
}

pub open spec fn protocol_name(p: Protocol) -> Seq<char> {
    match p {
        Protocol::Tcp => "TCP"@,
        Protocol::Udp => "UDP"@,
    }
}

impl Protocol {
    pub fn as_str(self) -> (r: &'static str)
        ensures
            r@ == protocol_name(self),
    {
        match self {
            Protocol::Tcp => "TCP",
            Protocol::Udp => "UDP",
        }
    }
}

// ---------------------------------------------------------------------------
// Socket state
// ---------------------------------------------------------------------------

/// Socket state, normalised across platforms.
///
/// UDP has no state machine, so a bound UDP socket is reported as
/// [`SocketState::Bound`] rather than pretending it is listening.
#[derive(Debug, Clone, Copy, PartialEq, Eq, Structural)]
pub enum SocketState {
    Listen,
    Bound,
    Established,
    SynSent,
    SynReceived,
    FinWait,
    CloseWait,
    Closing,
    TimeWait,
    Closed,
    Unknown,
}

/// The TCP states an operating system reports for a socket, one for one.
#[derive(Debug, Clone, Copy, PartialEq, Eq, Structural)]
pub enum TcpStateKind {
    Closed,
    Listen,
    SynSent,
    SynReceived,
    Established,
    FinWait1,
    FinWait2,
    CloseWait,
    Closing,
    LastAck,
    TimeWait,
    DeleteTcb,
    Unknown,
}

pub open spec fn serving(s: SocketState) -> bool {
    s == SocketState::Listen || s == SocketState::Bound
}

pub open spec fn state_name(s: SocketState) -> Seq<char> {
    match s {
        SocketState::Listen => "LISTEN"@,
        SocketState::Bound => "BOUND"@,
        SocketState::Established => "ESTABLISHED"@,
        SocketState::SynSent => "SYN_SENT"@,
        SocketState::SynReceived => "SYN_RECV"@,
        SocketState::FinWait => "FIN_WAIT"@,
        SocketState::CloseWait => "CLOSE_WAIT"@,
        SocketState::Closing => "CLOSING"@,
        SocketState::TimeWait => "TIME_WAIT"@,
        SocketState::Closed => "CLOSED"@,
        SocketState::Unknown => "UNKNOWN"@,
    }
}

pub open spec fn normalised_state(t: TcpStateKind) -> SocketState {
    match t {
        TcpStateKind::Listen => SocketState::Listen,
        TcpStateKind::Established => SocketState::Established,
        TcpStateKind::SynSent => SocketState::SynSent,
        TcpStateKind::SynReceived => SocketState::SynReceived,
        TcpStateKind::FinWait1 | TcpStateKind::FinWait2 => SocketState::FinWait,
        TcpStateKind::CloseWait => SocketState::CloseWait,
        TcpStateKind::Closing | TcpStateKind::LastAck => SocketState::Closing,
        TcpStateKind::TimeWait => SocketState::TimeWait,
        TcpStateKind::Closed | TcpStateKind::DeleteTcb => SocketState::Closed,
        TcpStateKind::Unknown => SocketState::Unknown,
    }
}

impl SocketState {
    /// True when the socket is holding the port open for new work.
    pub fn is_serving(self) -> (r: bool)
        ensures
            r == serving(self),
    {
        match self {
            SocketState::Listen | SocketState::Bound => true,
            _ => false,
        }
    }

    pub fn as_str(self) -> (r: &'static str)
        ensures
            r@ == state_name(self),
    {
        match self {
            SocketState::Listen => "LISTEN",
            SocketState::Bound => "BOUND",
            SocketState::Established => "ESTABLISHED",
            SocketState::SynSent => "SYN_SENT",
            SocketState::SynReceived => "SYN_RECV",
            SocketState::FinWait => "FIN_WAIT",
            SocketState::CloseWait => "CLOSE_WAIT",
            SocketState::Closing => "CLOSING",
            SocketState::TimeWait => "TIME_WAIT",
            SocketState::Closed => "CLOSED",
            SocketState::Unknown => "UNKNOWN",
        }
    }

    /// The normalised state of a TCP socket.
    pub fn from_tcp(state: TcpStateKind) -> (r: SocketState)
        ensures
            r == normalised_state(state),
    {
        match state {
            TcpStateKind::Listen => SocketState::Listen,
            TcpStateKind::Established => SocketState::Established,
            TcpStateKind::SynSent => SocketState::SynSent,
            TcpStateKind::SynReceived => SocketState::SynReceived,
            TcpStateKind::FinWait1 | TcpStateKind::FinWait2 => SocketState::FinWait,
            TcpStateKind::CloseWait => SocketState::CloseWait,
            TcpStateKind::Closing | TcpStateKind::LastAck => SocketState::Closing,
            TcpStateKind::TimeWait => SocketState::TimeWait,
            TcpStateKind::Closed | TcpStateKind::DeleteTcb => SocketState::Closed,
            TcpStateKind::Unknown => SocketState::Unknown,
        }
    }
}

// ---------------------------------------------------------------------------
// Process identity
// ---------------------------------------------------------------------------

/// Identity of the process holding a socket.
#[derive(Debug, Clone, PartialEq, Eq)]
pub struct ProcessInfo {
    pub pid: u32,
    pub name: String,
    /// Full path to the executable, when the OS lets us read it.
    pub exe: Option<String>,
    /// Full command line, useful to tell three `node` processes apart.
    pub command: Option<String>,
    /// What this executable is, when it is one we recognise.
    pub description: Option<&'static str>,
    /// Resident memory in bytes.
    pub memory_bytes: Option<u64>,
    /// Unix timestamp (seconds) when the process started.
    pub started_at: Option<u64>,
}

pub struct ProcessInfoView {
    pub pid: u32,
    pub name: Seq<char>,
    pub exe: Option<Seq<char>>,
    pub command: Option<Seq<char>>,
    pub description: Option<&'static str>,
    pub memory_bytes: Option<u64>,
    pub started_at: Option<u64>,
}

pub open spec fn opt_view(o: Option<String>) -> Option<Seq<char>> {
    match o {
        Some(s) => Some(s@),
        None => None,
    }
}

impl View for ProcessInfo {
    type V = ProcessInfoView;

    open spec fn view(&self) -> ProcessInfoView {
        ProcessInfoView {
            pid: self.pid,
            name: self.name@,
            exe: opt_view(self.exe),
            command: opt_view(self.command),
            description: self.description,
            memory_bytes: self.memory_bytes,
            started_at: self.started_at,
        }
    }
}

pub fn copy_opt_string(o: &Option<String>) -> (r: Option<String>)
    ensures
        opt_view(r) == opt_view(*o),
{
    match o {
        Some(s) => Some(s.clone()),
        None => None,
    }
}

impl ProcessInfo {
    /// A copy with the same view.
    pub fn duplicate(&self) -> (r: ProcessInfo)
        ensures
            r@ == self@,
    {
        ProcessInfo {
            pid: self.pid,
            name: self.name.clone(),
            exe: copy_opt_string(&self.exe),
            command: copy_opt_string(&self.command),
            description: self.description,
            memory_bytes: self.memory_bytes,
            started_at: self.started_at,
        }
    }
}

// ---------------------------------------------------------------------------
// One socket
// ---------------------------------------------------------------------------

/// One socket, with whatever could be learned about its owner.
#[derive(Debug, Clone)]
pub struct PortEntry {
    pub port: u16,
    pub protocol: Protocol,
    pub state: SocketState,
    pub local_address: String,
    pub remote_address: Option<String>,
    pub pid: Option<u32>,
    pub process: Option<ProcessInfo>,
    pub service: Option<&'static str>,
    /// True when the socket exists but the OS would not say who owns it.
    pub owner_hidden: bool,
}

pub struct PortEntryView {
    pub port: u16,
    pub protocol: Protocol,
    pub state: SocketState,
    pub local_address: Seq<char>,
    pub remote_address: Option<Seq<char>>,
    pub pid: Option<u32>,
    pub process: Option<ProcessInfoView>,
    pub service: Option<&'static str>,
    pub owner_hidden: bool,
}

pub open spec fn opt_process_view(o: Option<ProcessInfo>) -> Option<ProcessInfoView> {
    match o {
        Some(p) => Some(p@),
        None => None,
    }
}

impl View for PortEntry {
    type V = PortEntryView;

    open spec fn view(&self) -> PortEntryView {
        PortEntryView {
            port: self.port,
            protocol: self.protocol,
            state: self.state,
            local_address: self.local_address@,
            remote_address: opt_view(self.remote_address),
            pid: self.pid,
            process: opt_process_view(self.process),
            service: self.service,
            owner_hidden: self.owner_hidden,
        }
    }
}

/// The views of a sequence of entries.
pub open spec fn entry_views(s: Seq<PortEntry>) -> Seq<PortEntryView> {
    s.map_values(|e: PortEntry| e@)
}

/// Best available label for the owner of a socket.
pub open spec fn owner_label(e: PortEntryView) -> Seq<char> {
    match e.process {
        Some(p) => p.name,
        None => if e.owner_hidden {
            "(hidden)"@
        } else {
            "(system)"@
        },
    }
}

impl PortEntry {
    /// Best available label for the owning process.
    pub fn process_name(&self) -> (r: &str)
        ensures
            r@ == owner_label(self@),
    {
        match &self.process {
            Some(p) => p.name.as_str(),
            None => if self.owner_hidden {
                "(hidden)"
            } else {
                "(system)"
            },
        }
    }
}

// ---------------------------------------------------------------------------
// One port
// ---------------------------------------------------------------------------

/// A port collapsed across all of its sockets.
///
/// A single dev server routinely produces one socket per address family per
/// interface; listing them raw is what makes `netstat` output unreadable.
#[derive(Debug, Clone)]
pub struct PortGroup {
    pub port: u16,
    pub protocol: Protocol,
    pub service: Option<&'static str>,
    /// Distinct processes holding the port (normally exactly one).
    pub processes: Vec<ProcessInfo>,
    /// Distinct local addresses the port is bound to.
    pub addresses: Vec<String>,
    /// How many serving sockets were collapsed into this row.
    pub sockets: usize,
    /// How many established connections currently sit on this port.
    pub connections: usize,
    pub owner_hidden: bool,
}

pub struct PortGroupView {
    pub port: u16,
    pub protocol: Protocol,
    pub service: Option<&'static str>,
    pub processes: Seq<ProcessInfoView>,
    pub addresses: Seq<Seq<char>>,
    pub sockets: nat,
    pub connections: nat,
    pub owner_hidden: bool,
}

pub open spec fn process_views(s: Seq<ProcessInfo>) -> Seq<ProcessInfoView> {
    s.map_values(|p: ProcessInfo| p@)
}

pub open spec fn string_views(s: Seq<String>) -> Seq<Seq<char>> {
    s.map_values(|a: String| a@)
}

impl View for PortGroup {
    type V = PortGroupView;

    open spec fn view(&self) -> PortGroupView {
        PortGroupView {
            port: self.port,
            protocol: self.protocol,
            service: self.service,
            processes: process_views(self.processes@),
            addresses: string_views(self.addresses@),
            sockets: self.sockets as nat,
            connections: self.connections as nat,
            owner_hidden: self.owner_hidden,
        }
    }
}

pub open spec fn group_views(s: Seq<PortGroup>) -> Seq<PortGroupView> {
    s.map_values(|g: PortGroup| g@)
}

/// The first process of a group, by pid.
pub open spec fn primary_pid_of(g: PortGroupView) -> Option<u32> {
    if g.processes.len() > 0 {
        Some(g.processes[0].pid)
    } else {
        None
    }
}

/// The label a group is listed under.
pub open spec fn group_label(g: PortGroupView) -> Seq<char> {
    if g.processes.len() == 0 {
        if g.owner_hidden {
            "(hidden)"@
        } else {
            "(system)"@
        }
    } else if g.processes.len() == 1 {
        g.processes[0].name
    } else {
        g.processes[0].name + " (+"@ + decimal((g.processes.len() - 1) as nat) + " more)"@
    }
}

/// A row's label names its first owner, and says how many more there are:
/// with one owner the label is that owner's name, with k >= 2 owners it is
/// the first one's name followed by " (+k-1 more)", so it is the bare name
/// exactly when one process holds the port. A row with no visible owner is
/// labelled hidden or system.
pub proof fn law_row_label_names_every_owner(g: PortGroupView)
    ensures
        g.processes.len() >= 1 ==> group_label(g).take(g.processes[0].name.len() as int)
            == g.processes[0].name,
        g.processes.len() >= 1 ==> (group_label(g) == g.processes[0].name <==> g.processes.len() == 1),
        g.processes.len() >= 2 ==> group_label(g) == g.processes[0].name + " (+"@ + decimal(
            (g.processes.len() - 1) as nat,
        ) + " more)"@,
        g.processes.len() == 0 ==> group_label(g) == (if g.owner_hidden {
            "(hidden)"@
        } else {
            "(system)"@
        }),
{
    if g.processes.len() >= 1 {
        let name = g.processes[0].name;
        let l = group_label(g);
        assert(l.take(name.len() as int) =~= name);
        if g.processes.len() >= 2 {
            reveal_strlit(" (+");
            assert(l.len() > name.len());
        }
    }
}

impl PortGroup {
    pub fn primary_pid(&self) -> (r: Option<u32>)
        ensures
            r == primary_pid_of(self@),
    {
        if self.processes.len() > 0 {
            Some(self.processes[0].pid)
        } else {
            None
        }
    }

    pub fn process_label(&self) -> (r: String)
        ensures
            r@ == group_label(self@),
            // One owner: its name; k owners: the first's name and how many more.
            self.processes@.len() == 1 ==> r@ == self.processes@[0].name@,
            self.processes@.len() >= 2 ==> r@ == self.processes@[0].name@ + " (+"@ + decimal(
                (self.processes@.len() - 1) as nat,
            ) + " more)"@,
            self.processes@.len() == 0 ==> r@ == (if self.owner_hidden {
                "(hidden)"@
            } else {
                "(system)"@
            }),
    {
        proof {
            law_row_label_names_every_owner(self@);
            if self.processes@.len() > 0 {
                assert(self@.processes[0] == self.processes@[0]@);
            }
        }
        let n = self.processes.len();
        if n == 0 {
            if self.owner_hidden {
                owned("(hidden)")
            } else {
                owned("(system)")
            }
        } else if n == 1 {
            self.processes[0].name.clone()
        } else {
            let mut s = self.processes[0].name.clone();
            push_str(&mut s, " (+");
            push_decimal(&mut s, (n - 1) as u128);
            push_str(&mut s, " more)");
            s
        }
    }
}

// ---------------------------------------------------------------------------
// Scan options
// ---------------------------------------------------------------------------

/// What to include in a scan.
#[derive(Debug, Clone, Copy)]
pub struct ScanOptions {
    pub include_tcp: bool,
    pub include_udp: bool,
    pub include_ipv4: bool,
    pub include_ipv6: bool,
    /// Keep only sockets that are holding a port open (LISTEN / bound UDP).
    pub only_serving: bool,
    /// Include UDP sockets bound to an OS-assigned ephemeral port.
    ///
    /// These are outbound client sockets, not services anyone is trying to
    /// free, so they are hidden unless asked for.
    pub include_ephemeral_udp: bool,
    /// Resolve executable path and command line.
    pub with_details: bool,
}

impl Default for ScanOptions {
    /// Which ports are currently taken, over any protocol or address family.
    fn default() -> (r: Self)
        ensures
            r.include_tcp,
            r.include_udp,
            r.include_ipv4,
            r.include_ipv6,
            r.only_serving,
            !r.include_ephemeral_udp,
            r.with_details,
    {
        ScanOptions {
            include_tcp: true,
            include_udp: true,
            include_ipv4: true,
            include_ipv6: true,
            only_serving: true,
            include_ephemeral_udp: false,
            with_details: true,
        }
    }
}

/// Start of the IANA dynamic/private port range, which is also the default
/// Windows ephemeral range and the usual Linux one.
pub const EPHEMERAL_PORT_START: u16 = 49152;

impl ScanOptions {
    /// Everything: transient connection states and ephemeral client sockets.
    pub fn everything() -> (r: Self)
        ensures
            r.include_tcp,
            r.include_udp,
            r.include_ipv4,
            r.include_ipv6,
            !r.only_serving,
            r.include_ephemeral_udp,
            r.with_details,
    {
        ScanOptions {
            include_tcp: true,
            include_udp: true,
            include_ipv4: true,
            include_ipv6: true,
            only_serving: false,
            include_ephemeral_udp: true,
            with_details: true,
        }
    }

    /// True when no address family or no protocol is selected, so a scan
    /// finds nothing without reading the socket table.
    pub fn selects_nothing(&self) -> (r: bool)
        ensures
            r == (!(self.include_ipv4 || self.include_ipv6) || !(self.include_tcp
                || self.include_udp)),
    {
        !(self.include_ipv4 || self.include_ipv6) || !(self.include_tcp || self.include_udp)
    }
}

pub open spec fn ephemeral_udp(protocol: Protocol, port: u16) -> bool {
    protocol == Protocol::Udp && port >= EPHEMERAL_PORT_START
}

/// True for a UDP socket the OS handed out from the dynamic range.
pub fn is_ephemeral_udp(protocol: Protocol, port: u16) -> (r: bool)
    ensures
        r == ephemeral_udp(protocol, port),
{
    protocol == Protocol::Udp && port >= EPHEMERAL_PORT_START
}

// ---------------------------------------------------------------------------
// Grouping sockets by port
// ---------------------------------------------------------------------------

/// `(p1, r1)` sorts strictly before `(p2, r2)`: by port, then TCP before UDP.
pub open spec fn key_before(p1: u16, r1: Protocol, p2: u16, r2: Protocol) -> bool {
    p1 < p2 || (p1 == p2 && protocol_rank(r1) < protocol_rank(r2))
}

pub open spec fn has_pid(ps: Seq<ProcessInfoView>, pid: u32) -> bool {
    exists|i: int| 0 <= i < ps.len() && #[trigger] ps[i].pid == pid
}

/// The empty row that the first socket on a port opens.
pub open spec fn new_group(e: PortEntryView) -> PortGroupView {
    PortGroupView {
        port: e.port,
        protocol: e.protocol,
        service: e.service,
        processes: Seq::empty(),
        addresses: Seq::empty(),
        sockets: 0,
        connections: 0,
        owner_hidden: false,
    }
}

/// What one more socket on the same port adds to its row: a serving socket
/// is counted and its address recorded once; any other socket is counted as a
/// connection; its process is recorded once per pid, and a socket without a
/// visible owner marks the row as hidden.
pub open spec fn add_to_group(g: PortGroupView, e: PortEntryView) -> PortGroupView {
    let g1 = if serving(e.state) {
        PortGroupView {
            sockets: g.sockets + 1,
            addresses: if g.addresses.contains(e.local_address) {
                g.addresses
            } else {
                g.addresses.push(e.local_address)
            },
            ..g
        }
    } else {
        PortGroupView { connections: g.connections + 1, ..g }
    };
    match e.process {
        Some(p) => if has_pid(g1.processes, p.pid) {
            g1
        } else {
            PortGroupView { processes: g1.processes.push(p), ..g1 }
        },
        None => if e.owner_hidden {
            PortGroupView { owner_hidden: true, ..g1 }
        } else {
            g1
        },
    }
}

/// The row for `(port, protocol)` after folding every socket of `es` on it in
/// order, or `None` when no socket of `es` is on it.
pub open spec fn group_of(es: Seq<PortEntryView>, port: u16, protocol: Protocol) -> Option<
    PortGroupView,
>
    decreases es.len(),
{
    if es.len() == 0 {
        None
    } else {
        let prev = group_of(es.drop_last(), port, protocol);
        let e = es.last();
        if e.port == port && e.protocol == protocol {
            Some(
                add_to_group(
                    match prev {
                        Some(g) => g,
                        None => new_group(e),
                    },
                    e,
                ),
            )
        } else {
            prev
        }
    }
}

/// `gs` is the grouping of `es`: one row per distinct `(port, protocol)` of
/// `es`, ascending, each row the fold of that port's sockets.
pub open spec fn is_grouping(es: Seq<PortEntryView>, gs: Seq<PortGroupView>) -> bool {
    &&& forall|i: int, j: int|
        0 <= i < j < gs.len() ==> key_before(
            #[trigger] gs[i].port,
            gs[i].protocol,
            #[trigger] gs[j].port,
            gs[j].protocol,
        )
    &&& forall|i: int|
        0 <= i < gs.len() ==> group_of(es, #[trigger] gs[i].port, gs[i].protocol) == Some(gs[i])
    &&& forall|k: int|
        0 <= k < es.len() ==> exists|i: int|
            0 <= i < gs.len() && #[trigger] gs[i].port == (#[trigger] es[k]).port && gs[i].protocol
                == es[k].protocol
}

proof fn lemma_group_of_some(es: Seq<PortEntryView>, port: u16, protocol: Protocol)
    ensures
        group_of(es, port, protocol).is_some() <==> exists|k: int|
            0 <= k < es.len() && (#[trigger] es[k]).port == port && es[k].protocol == protocol,
        group_of(es, port, protocol) matches Some(g) ==> g.port == port && g.protocol
            == protocol && g.sockets + g.connections <= es.len(),
    decreases es.len(),
{
    if es.len() > 0 {
        let d = es.drop_last();
        lemma_group_of_some(d, port, protocol);
        if group_of(es, port, protocol).is_some() {
            if !(es.last().port == port && es.last().protocol == protocol) {
                let k = choose|k: int|
                    0 <= k < d.len() && (#[trigger] d[k]).port == port && d[k].protocol
                        == protocol;
                assert(es[k] == d[k]);
            } else {
                assert(es[es.len() - 1] == es.last());
            }
        }
        if exists|k: int|
            0 <= k < es.len() && (#[trigger] es[k]).port == port && es[k].protocol == protocol {
            let k = choose|k: int|
                0 <= k < es.len() && (#[trigger] es[k]).port == port && es[k].protocol
                    == protocol;
            if k < es.len() - 1 {
                assert(d[k] == es[k]);
            }
        }
    }
}

fn contains_address(v: &Vec<String>, a: &String) -> (r: bool)
    ensures
        r == string_views(v@).contains(a@),
{
    let mut i: usize = 0;
    while i < v.len()
        invariant
            i <= v.len(),
            forall|k: int| 0 <= k < i ==> v@[k]@ != a@,
        decreases v.len() - i,
    {
        if v[i] == *a {
            assert(string_views(v@)[i as int] == a@);
            return true;
        }
        i = i + 1;
    }
    assert forall|k: int| 0 <= k < string_views(v@).len() implies string_views(v@)[k] != a@ by {
        assert(string_views(v@)[k] == v@[k]@);
    }
    false
}

fn contains_pid(v: &Vec<ProcessInfo>, pid: u32) -> (r: bool)
    ensures
        r == has_pid(process_views(v@), pid),
{
    let mut i: usize = 0;
    while i < v.len()
        invariant
            i <= v.len(),
            forall|k: int| 0 <= k < i ==> v@[k].pid != pid,
        decreases v.len() - i,
    {
        if v[i].pid == pid {
            assert(process_views(v@)[i as int].pid == pid);
            return true;
        }
        i = i + 1;
    }
    assert forall|k: int| 0 <= k < process_views(v@).len() implies process_views(v@)[k].pid
        != pid by {
        assert(process_views(v@)[k] == v@[k]@);
    }
    false
}

fn add_entry(g: &mut PortGroup, e: &PortEntry)
    requires
        old(g).sockets + old(g).connections < usize::MAX,
    ensures
        final(g)@ == add_to_group(old(g)@, e@),
{
    let ghost g0 = g@;
    if e.state.is_serving() {
        g.sockets = g.sockets + 1;
        if !contains_address(&g.addresses, &e.local_address) {
            let ghost before = g.addresses@;
            g.addresses.push(e.local_address.clone());
            assert(string_views(g.addresses@) =~= string_views(before).push(e.local_address@));
        }
    } else {
        g.connections = g.connections + 1;
    }
    let ghost g1 = g@;
    match &e.process {
        Some(p) => {
            if !contains_pid(&g.processes, p.pid) {
                let ghost before = g.processes@;
                g.processes.push(p.duplicate());
                assert(process_views(g.processes@) =~= process_views(before).push(p@));
            }
        },
        None => {
            if e.owner_hidden {
                g.owner_hidden = true;
            }
        },
    }
}

fn open_group(e: &PortEntry) -> (r: PortGroup)
    ensures
        r@ == new_group(e@),
{
    let r = PortGroup {
        port: e.port,
        protocol: e.protocol,
        service: e.service,
        processes: Vec::new(),
        addresses: Vec::new(),
        sockets: 0,
        connections: 0,
        owner_hidden: false,
    };
    assert(process_views(r.processes@) =~= Seq::empty());
    assert(string_views(r.addresses@) =~= Seq::empty());
    r
}

/// `(p1, r1)` sorts strictly before `(p2, r2)`.
fn before(p1: u16, r1: Protocol, p2: u16, r2: Protocol) -> (r: bool)
    ensures
        r == key_before(p1, r1, p2, r2),
{
    p1 < p2 || (p1 == p2 && r1 == Protocol::Tcp && r2 == Protocol::Udp)
}

proof fn lemma_group_of_push(es: Seq<PortEntryView>, e: PortEntryView, port: u16, protocol: Protocol)
    ensures
        group_of(es.push(e), port, protocol) == (if e.port == port && e.protocol == protocol {
            Some(
                add_to_group(
                    match group_of(es, port, protocol) {
                        Some(g) => g,
                        None => new_group(e),
                    },
                    e,
                ),
            )
        } else {
            group_of(es, port, protocol)
        }),
{
    assert(es.push(e).drop_last() =~= es);
}

proof fn lemma_grouping_update(es: Seq<PortEntryView>, gs: Seq<PortGroupView>, e: PortEntryView, p: int)
    requires
        is_grouping(es, gs),
        0 <= p < gs.len(),
        gs[p].port == e.port,
        gs[p].protocol == e.protocol,
    ensures
        is_grouping(es.push(e), gs.update(p, add_to_group(gs[p], e))),
{
    let es2 = es.push(e);
    let ngs = gs.update(p, add_to_group(gs[p], e));
    assert forall|i: int| 0 <= i < ngs.len() implies group_of(
        es2,
        #[trigger] ngs[i].port,
        ngs[i].protocol,
    ) == Some(ngs[i]) by {
        assert(group_of(es, gs[i].port, gs[i].protocol) == Some(gs[i]));
        lemma_group_of_push(es, e, gs[i].port, gs[i].protocol);
        if i != p {
            assert(key_before(gs[i].port, gs[i].protocol, gs[p].port, gs[p].protocol) || key_before(gs[p].port, gs[p].protocol, gs[i].port, gs[i].protocol));
        }
    }
    assert forall|k: int| 0 <= k < es2.len() implies exists|i: int|
        0 <= i < ngs.len() && #[trigger] ngs[i].port == (#[trigger] es2[k]).port
            && ngs[i].protocol == es2[k].protocol by {
        if k < es.len() {
            assert(es2[k] == es[k]);
            let i = choose|i: int|
                0 <= i < gs.len() && #[trigger] gs[i].port == (#[trigger] es[k]).port
                    && gs[i].protocol == es[k].protocol;
            assert(ngs[i].port == gs[i].port);
        } else {
            assert(ngs[p].port == es2[k].port);
        }
    }
}

proof fn lemma_grouping_insert(es: Seq<PortEntryView>, gs: Seq<PortGroupView>, e: PortEntryView, p: int)
    requires
        is_grouping(es, gs),
        0 <= p <= gs.len(),
        forall|j: int| 0 <= j < p ==> key_before(gs[j].port, gs[j].protocol, e.port, e.protocol),
        p < gs.len() ==> !key_before(gs[p].port, gs[p].protocol, e.port, e.protocol),
        p < gs.len() ==> !(gs[p].port == e.port && gs[p].protocol == e.protocol),
    ensures
        is_grouping(es.push(e), gs.insert(p, add_to_group(new_group(e), e))),
{
    let es2 = es.push(e);
    let ng = add_to_group(new_group(e), e);
    let ngs = gs.insert(p, ng);
    lemma_group_of_some(es, e.port, e.protocol);
    if group_of(es, e.port, e.protocol).is_some() {
        let k = choose|k: int|
            0 <= k < es.len() && (#[trigger] es[k]).port == e.port && es[k].protocol == e.protocol;
        let i = choose|i: int|
            0 <= i < gs.len() && #[trigger] gs[i].port == (#[trigger] es[k]).port && gs[i].protocol
                == es[k].protocol;
        if i < p {
            assert(key_before(gs[i].port, gs[i].protocol, e.port, e.protocol));
        } else if i > p {
            assert(key_before(gs[p].port, gs[p].protocol, gs[i].port, gs[i].protocol));
        }
        assert(false);
    }
    lemma_group_of_push(es, e, e.port, e.protocol);
    assert forall|i: int| 0 <= i < ngs.len() implies group_of(
        es2,
        #[trigger] ngs[i].port,
        ngs[i].protocol,
    ) == Some(ngs[i]) by {
        if i < p {
            assert(ngs[i] == gs[i]);
            assert(group_of(es, gs[i].port, gs[i].protocol) == Some(gs[i]));
            lemma_group_of_push(es, e, gs[i].port, gs[i].protocol);
        } else if i > p {
            assert(ngs[i] == gs[i - 1]);
            assert(group_of(es, gs[i - 1].port, gs[i - 1].protocol) == Some(gs[i - 1]));
            lemma_group_of_push(es, e, gs[i - 1].port, gs[i - 1].protocol);
            if i - 1 > p {
                assert(key_before(gs[p].port, gs[p].protocol, gs[i - 1].port, gs[i - 1].protocol));
            }
        }
    }
    assert forall|i: int, j: int| 0 <= i < j < ngs.len() implies key_before(
        #[trigger] ngs[i].port,
        ngs[i].protocol,
        #[trigger] ngs[j].port,
        ngs[j].protocol,
    ) by {
        if j < p {
            assert(ngs[i] == gs[i] && ngs[j] == gs[j]);
        } else if j == p {
            assert(ngs[i] == gs[i]);
        } else if i < p {
            assert(ngs[i] == gs[i] && ngs[j] == gs[j - 1]);
            if j - 1 > p {
                assert(key_before(gs[p].port, gs[p].protocol, gs[j - 1].port, gs[j - 1].protocol));
            }
        } else if i == p {
            assert(ngs[j] == gs[j - 1]);
            if j - 1 > p {
                assert(key_before(gs[p].port, gs[p].protocol, gs[j - 1].port, gs[j - 1].protocol));
            }
        } else {
            assert(ngs[i] == gs[i - 1]);
            assert(ngs[j] == gs[j - 1]);
        }
    }
    assert forall|k: int| 0 <= k < es2.len() implies exists|i: int|
        0 <= i < ngs.len() && #[trigger] ngs[i].port == (#[trigger] es2[k]).port
            && ngs[i].protocol == es2[k].protocol by {
        if k < es.len() {
            assert(es2[k] == es[k]);
            let i = choose|i: int|
                0 <= i < gs.len() && #[trigger] gs[i].port == (#[trigger] es[k]).port
                    && gs[i].protocol == es[k].protocol;
            if i < p {
                assert(ngs[i] == gs[i]);
            } else {
                assert(ngs[i + 1] == gs[i]);
            }
        } else {
            assert(ngs[p].port == es2[k].port);
        }
    }
}

/// Collapse raw sockets into one row per `(port, protocol)`, ascending.
pub fn group_by_port(entries: &[PortEntry]) -> (r: Vec<PortGroup>)
    ensures
        is_grouping(entry_views(entries@), group_views(r@)),
{
    let mut groups: Vec<PortGroup> = Vec::new();
    let mut n: usize = 0;
    assert(group_views(groups@) =~= Seq::empty());
    assert(entry_views(entries@.subrange(0, 0)) =~= Seq::empty());
    while n < entries.len()
        invariant
            n <= entries@.len(),
            is_grouping(entry_views(entries@.subrange(0, n as int)), group_views(groups@)),
        decreases entries.len() - n,
    {
        let e = &entries[n];
        let ghost es = entry_views(entries@.subrange(0, n as int));
        let ghost gs = group_views(groups@);
        assert(entry_views(entries@.subrange(0, n + 1)) =~= es.push(e@));
        let mut p: usize = 0;
        while p < groups.len() && before(groups[p].port, groups[p].protocol, e.port, e.protocol)
            invariant
                p <= groups@.len(),
                gs == group_views(groups@),
                forall|j: int| 0 <= j < p ==> key_before(gs[j].port, gs[j].protocol, e.port, e.protocol),
            decreases groups.len() - p,
        {
            p = p + 1;
        }
        if p < groups.len() && groups[p].port == e.port && groups[p].protocol == e.protocol {
            proof {
                assert(gs[p as int] == groups@[p as int]@);
                lemma_group_of_some(es, e.port, e.protocol);
                assert(group_of(es, gs[p as int].port, gs[p as int].protocol) == Some(gs[p as int]));
                lemma_grouping_update(es, gs, e@, p as int);
            }
            let mut g = groups.remove(p);
            add_entry(&mut g, e);
            groups.insert(p, g);
            assert(group_views(groups@) =~= gs.update(p as int, add_to_group(gs[p as int], e@)));
        } else {
            proof {
                if p < groups.len() {
                    assert(gs[p as int] == groups@[p as int]@);
                }
                lemma_grouping_insert(es, gs, e@, p as int);
            }
            let mut g = open_group(e);
            add_entry(&mut g, e);
            groups.insert(p, g);
            assert(group_views(groups@) =~= gs.insert(p as int, add_to_group(new_group(e@), e@)));
        }
        n = n + 1;
    }
    assert(entries@.subrange(0, entries@.len() as int) =~= entries@);
    groups
}

/// How many sockets of `es` are on `(port, protocol)`.
pub open spec fn key_count(es: Seq<PortEntryView>, port: u16, protocol: Protocol) -> nat
    decreases es.len(),
{
    if es.len() == 0 {
        0
    } else {
        key_count(es.drop_last(), port, protocol) + if es.last().port == port && es.last().protocol
            == protocol {
            1nat
        } else {
            0nat
        }
    }
}

/// No two of the processes share a pid.
pub open spec fn distinct_pids(ps: Seq<ProcessInfoView>) -> bool {
    forall|a: int, b: int| 0 <= a < b < ps.len() ==> #[trigger] ps[a].pid != #[trigger] ps[b].pid
}

proof fn lemma_add_keeps_pids_distinct(g: PortGroupView, e: PortEntryView)
    requires
        distinct_pids(g.processes),
    ensures
        distinct_pids(add_to_group(g, e).processes),
{
    let r = add_to_group(g, e);
    if let Some(p) = e.process {
        if !has_pid(g.processes, p.pid) {
            let ps = g.processes;
            assert(r.processes =~= ps.push(p));
            assert forall|a: int, b: int| 0 <= a < b < r.processes.len() implies #[trigger] r.processes[a].pid
                != #[trigger] r.processes[b].pid by {
                if b == ps.len() {
                    assert(r.processes[a] == ps[a]);
                    assert(ps[a].pid != p.pid);
                } else {
                    assert(r.processes[a] == ps[a] && r.processes[b] == ps[b]);
                }
            }
        }
    }
}

proof fn lemma_group_of_counts(es: Seq<PortEntryView>, port: u16, protocol: Protocol)
    ensures
        match group_of(es, port, protocol) {
            Some(g) => g.sockets + g.connections == key_count(es, port, protocol) && key_count(
                es,
                port,
                protocol,
            ) >= 1 && distinct_pids(g.processes),
            None => key_count(es, port, protocol) == 0,
        },
    decreases es.len(),
{
    if es.len() > 0 {
        let d = es.drop_last();
        lemma_group_of_counts(d, port, protocol);
        let e = es.last();
        if e.port == port && e.protocol == protocol {
            let g = match group_of(d, port, protocol) {
                Some(g) => g,
                None => new_group(e),
            };
            lemma_add_keeps_pids_distinct(g, e);
        }
    }
}

/// Grouping loses and invents no socket: every row counts exactly the
/// sockets on its port and protocol (so no row is empty), and lists each
/// process holding the port once.
pub proof fn law_rows_count_every_socket_once(es: Seq<PortEntryView>, gs: Seq<PortGroupView>)
    requires
        is_grouping(es, gs),
    ensures
        forall|i: int|
            0 <= i < gs.len() ==> (#[trigger] gs[i]).sockets + gs[i].connections == key_count(
                es,
                gs[i].port,
                gs[i].protocol,
            ),
        forall|i: int| 0 <= i < gs.len() ==> (#[trigger] gs[i]).sockets + gs[i].connections >= 1,
        forall|i: int| 0 <= i < gs.len() ==> distinct_pids((#[trigger] gs[i]).processes),
{
    assert forall|i: int| 0 <= i < gs.len() implies (#[trigger] gs[i]).sockets + gs[i].connections
        == key_count(es, gs[i].port, gs[i].protocol) && gs[i].sockets + gs[i].connections >= 1
        && distinct_pids(gs[i].processes) by {
        assert(group_of(es, gs[i].port, gs[i].protocol) == Some(gs[i]));
        lemma_group_of_counts(es, gs[i].port, gs[i].protocol);
    }
}

/// The local addresses of the serving sockets of `es` on `(port, protocol)`.
pub open spec fn serving_addresses(es: Seq<PortEntryView>, port: u16, protocol: Protocol) -> Set<Seq<char>>
    decreases es.len(),
{
    if es.len() == 0 {
        Set::empty()
    } else {
        let prev = serving_addresses(es.drop_last(), port, protocol);
        let e = es.last();
        if e.port == port && e.protocol == protocol && serving(e.state) {
            prev.insert(e.local_address)
        } else {
            prev
        }
    }
}

/// The pids of the named owners of the sockets of `es` on `(port, protocol)`.
pub open spec fn owner_pids(es: Seq<PortEntryView>, port: u16, protocol: Protocol) -> Set<u32>
    decreases es.len(),
{
    if es.len() == 0 {
        Set::empty()
    } else {
        let prev = owner_pids(es.drop_last(), port, protocol);
        let e = es.last();
        if e.port == port && e.protocol == protocol && e.process is Some {
            prev.insert(e.process.unwrap().pid)
        } else {
            prev
        }
    }
}

/// Some socket of `es` on `(port, protocol)` has an owner the OS would not
/// name.
pub open spec fn hidden_socket_on(es: Seq<PortEntryView>, port: u16, protocol: Protocol) -> bool
    decreases es.len(),
{
    if es.len() == 0 {
        false
    } else {
        let e = es.last();
        hidden_socket_on(es.drop_last(), port, protocol) || (e.port == port && e.protocol == protocol
            && e.process is None && e.owner_hidden)
    }
}

/// The position of the first serving socket of `es` on `(port, protocol)`
/// bound to `x`, or the length of `es` when there is none.
pub open spec fn first_bound(es: Seq<PortEntryView>, port: u16, protocol: Protocol, x: Seq<char>) -> int
    decreases es.len(),
{
    if es.len() == 0 {
        0
    } else {
        let d = es.drop_last();
        let e = es.last();
        if first_bound(d, port, protocol, x) < d.len() {
            first_bound(d, port, protocol, x)
        } else if e.port == port && e.protocol == protocol && serving(e.state) && e.local_address == x {
            d.len() as int
        } else {
            es.len() as int
        }
    }
}

proof fn lemma_first_bound(es: Seq<PortEntryView>, port: u16, protocol: Protocol, x: Seq<char>)
    ensures
        0 <= first_bound(es, port, protocol, x) <= es.len(),
        (first_bound(es, port, protocol, x) < es.len()) == serving_addresses(es, port, protocol).contains(x),
    decreases es.len(),
{
    if es.len() > 0 {
        lemma_first_bound(es.drop_last(), port, protocol, x);
    }
}

/// The position of the first socket of `es` on `(port, protocol)` whose
/// named owner has `pid`, or the length of `es` when there is none.
pub open spec fn first_owned(es: Seq<PortEntryView>, port: u16, protocol: Protocol, pid: u32) -> int
    decreases es.len(),
{
    if es.len() == 0 {
        0
    } else {
        let d = es.drop_last();
        let e = es.last();
        if first_owned(d, port, protocol, pid) < d.len() {
            first_owned(d, port, protocol, pid)
        } else if e.port == port && e.protocol == protocol && e.process is Some && e.process.unwrap().pid
            == pid {
            d.len() as int
        } else {
            es.len() as int
        }
    }
}

proof fn lemma_first_owned(es: Seq<PortEntryView>, port: u16, protocol: Protocol, pid: u32)
    ensures
        0 <= first_owned(es, port, protocol, pid) <= es.len(),
        (first_owned(es, port, protocol, pid) < es.len()) == owner_pids(es, port, protocol).contains(pid),
    decreases es.len(),
{
    if es.len() > 0 {
        lemma_first_owned(es.drop_last(), port, protocol, pid);
    }
}

/// No text occurs twice.
pub open spec fn distinct_texts(s: Seq<Seq<char>>) -> bool {
    forall|a: int, b: int| 0 <= a < b < s.len() ==> #[trigger] s[a] != #[trigger] s[b]
}

/// `g` lists, each once and in the order they are first seen, the addresses
/// of the serving sockets on its key and the named owners on its key, and
/// is hidden exactly when a socket is.
pub open spec fn row_members(es: Seq<PortEntryView>, g: PortGroupView) -> bool {
    &&& distinct_texts(g.addresses)
    &&& forall|x: Seq<char>| g.addresses.contains(x) <==> serving_addresses(es, g.port, g.protocol).contains(x)
    &&& forall|a: int, b: int|
        0 <= a < b < g.addresses.len() ==> first_bound(es, g.port, g.protocol, #[trigger] g.addresses[a])
            < first_bound(es, g.port, g.protocol, #[trigger] g.addresses[b])
    &&& distinct_pids(g.processes)
    &&& forall|a: int, b: int|
        0 <= a < b < g.processes.len() ==> first_owned(es, g.port, g.protocol, (#[trigger] g.processes[a]).pid)
            < first_owned(es, g.port, g.protocol, (#[trigger] g.processes[b]).pid)
    &&& forall|q: u32| has_pid(g.processes, q) <==> owner_pids(es, g.port, g.protocol).contains(q)
    &&& g.owner_hidden == hidden_socket_on(es, g.port, g.protocol)
}

proof fn lemma_add_keeps_members(d: Seq<PortEntryView>, g: PortGroupView, e: PortEntryView)
    requires
        g.port == e.port && g.protocol == e.protocol,
        row_members(d, g),
    ensures
        row_members(d.push(e), add_to_group(g, e)),
{
    let es = d.push(e);
    assert(es.drop_last() =~= d);
    let r = add_to_group(g, e);
    lemma_add_keeps_pids_distinct(g, e);
    assert forall|i: int| 0 <= i < g.processes.len() implies first_owned(es, g.port, g.protocol, (#[trigger] g.processes[i]).pid)
        == first_owned(d, g.port, g.protocol, g.processes[i].pid) && first_owned(d, g.port, g.protocol, g.processes[i].pid) < d.len() by {
        assert(has_pid(g.processes, g.processes[i].pid));
        lemma_first_owned(d, g.port, g.protocol, g.processes[i].pid);
    }
    // Every address already listed keeps the place it was first seen at.
    assert forall|i: int| 0 <= i < g.addresses.len() implies first_bound(es, g.port, g.protocol, #[trigger] g.addresses[i])
        == first_bound(d, g.port, g.protocol, g.addresses[i]) && first_bound(d, g.port, g.protocol, g.addresses[i]) < d.len() by {
        assert(g.addresses.contains(g.addresses[i]));
        lemma_first_bound(d, g.port, g.protocol, g.addresses[i]);
    }
    if serving(e.state) && !g.addresses.contains(e.local_address) {
        let a = g.addresses;
        assert(r.addresses =~= a.push(e.local_address));
        assert forall|i: int, j: int| 0 <= i < j < r.addresses.len() implies #[trigger] r.addresses[i]
            != #[trigger] r.addresses[j] by {
            if j == a.len() {
                assert(r.addresses[i] == a[i]);
                assert(a.contains(a[i]));
            } else {
                assert(r.addresses[i] == a[i] && r.addresses[j] == a[j]);
            }
        }
        lemma_first_bound(d, g.port, g.protocol, e.local_address);
        assert(first_bound(es, g.port, g.protocol, e.local_address) == d.len());
        assert forall|i: int, j: int| 0 <= i < j < r.addresses.len() implies first_bound(es, r.port, r.protocol, #[trigger] r.addresses[i])
            < first_bound(es, r.port, r.protocol, #[trigger] r.addresses[j]) by {
            assert(r.addresses[i] == a[i]);
            if j < a.len() {
                assert(r.addresses[j] == a[j]);
            }
        }
        assert forall|x: Seq<char>| r.addresses.contains(x) <==> serving_addresses(es, r.port, r.protocol).contains(x) by {
            if r.addresses.contains(x) {
                let i = choose|i: int| 0 <= i < r.addresses.len() && r.addresses[i] == x;
                if i < a.len() {
                    assert(a[i] == x);
                }
            }
            if a.contains(x) {
                let i = choose|i: int| 0 <= i < a.len() && a[i] == x;
                assert(r.addresses[i] == x);
            }
            if x == e.local_address {
                assert(r.addresses[a.len() as int] == x);
            }
        }
    }
    if let Some(p) = e.process {
        if !has_pid(g.processes, p.pid) {
            let ps = g.processes;
            assert(r.processes =~= ps.push(p));
            lemma_first_owned(d, g.port, g.protocol, p.pid);
            assert(first_owned(es, g.port, g.protocol, p.pid) == d.len());
            assert forall|i: int, j: int| 0 <= i < j < r.processes.len() implies first_owned(es, r.port, r.protocol, (#[trigger] r.processes[i]).pid)
                < first_owned(es, r.port, r.protocol, (#[trigger] r.processes[j]).pid) by {
                assert(r.processes[i] == ps[i]);
                if j < ps.len() {
                    assert(r.processes[j] == ps[j]);
                }
            }
            lemma_first_owned(d, g.port, g.protocol, p.pid);
            assert(first_owned(es, g.port, g.protocol, p.pid) == d.len());
            assert forall|i: int, j: int| 0 <= i < j < r.processes.len() implies first_owned(es, r.port, r.protocol, (#[trigger] r.processes[i]).pid)
                < first_owned(es, r.port, r.protocol, (#[trigger] r.processes[j]).pid) by {
                assert(r.processes[i] == ps[i]);
                if j < ps.len() {
                    assert(r.processes[j] == ps[j]);
                }
            }
            assert forall|q: u32| has_pid(r.processes, q) <==> owner_pids(es, r.port, r.protocol).contains(q) by {
                if has_pid(r.processes, q) {
                    let i = choose|i: int| 0 <= i < r.processes.len() && #[trigger] r.processes[i].pid == q;
                    if i < ps.len() {
                        assert(ps[i].pid == q);
                    }
                }
                if has_pid(ps, q) {
                    let i = choose|i: int| 0 <= i < ps.len() && #[trigger] ps[i].pid == q;
                    assert(r.processes[i].pid == q);
                }
                if q == p.pid {
                    assert(r.processes[ps.len() as int].pid == q);
                }
            }
        }
    }
}

proof fn lemma_group_of_members(es: Seq<PortEntryView>, port: u16, protocol: Protocol)
    ensures
        match group_of(es, port, protocol) {
            Some(g) => row_members(es, g),
            None => serving_addresses(es, port, protocol) == Set::<Seq<char>>::empty() && owner_pids(
                es,
                port,
                protocol,
            ) == Set::<u32>::empty() && !hidden_socket_on(es, port, protocol),
        },
    decreases es.len(),
{
    if es.len() > 0 {
        let d = es.drop_last();
        let e = es.last();
        lemma_group_of_members(d, port, protocol);
        assert(d.push(e) =~= es);
        if e.port == port && e.protocol == protocol {
            lemma_group_of_some(d, port, protocol);
            let g = match group_of(d, port, protocol) {
                Some(g) => g,
                None => new_group(e),
            };
            if group_of(d, port, protocol).is_none() {
                let n = new_group(e);
                assert(n.addresses =~= Seq::<Seq<char>>::empty());
                assert forall|x: Seq<char>| n.addresses.contains(x) <==> serving_addresses(d, n.port, n.protocol).contains(x) by {}
                assert forall|q: u32| has_pid(n.processes, q) <==> owner_pids(d, n.port, n.protocol).contains(q) by {}
                assert(row_members(d, n));
            }
            lemma_add_keeps_members(d, g, e);
        } else {
            if let Some(g) = group_of(d, port, protocol) {
                lemma_group_of_some(d, port, protocol);
                assert forall|x: Seq<char>| g.addresses.contains(x) <==> serving_addresses(es, g.port, g.protocol).contains(x) by {}
                assert forall|q: u32| has_pid(g.processes, q) <==> owner_pids(es, g.port, g.protocol).contains(q) by {}
            }
        }
    }
}

/// Each row lists every address its serving sockets are bound to and every
/// process holding the port, each once and in the order they are first
/// seen; and a row is marked hidden exactly when one of its sockets has an
/// owner the OS would not name.
pub proof fn law_rows_list_addresses_and_owners_once(es: Seq<PortEntryView>, gs: Seq<PortGroupView>)
    requires
        is_grouping(es, gs),
    ensures
        forall|i: int| 0 <= i < gs.len() ==> row_members(es, #[trigger] gs[i]),
{
    assert forall|i: int| 0 <= i < gs.len() implies row_members(es, #[trigger] gs[i]) by {
        assert(group_of(es, gs[i].port, gs[i].protocol) == Some(gs[i]));
        lemma_group_of_members(es, gs[i].port, gs[i].protocol);
    }
}

/// The sockets and connections counted over all rows.
pub open spec fn row_total(gs: Seq<PortGroupView>) -> nat
    decreases gs.len(),
{
    if gs.len() == 0 {
        0
    } else {
        row_total(gs.drop_last()) + gs.last().sockets + gs.last().connections
    }
}

/// The sockets of `es` on the keys of the rows, summed over the rows.
spec fn counted(es: Seq<PortEntryView>, gs: Seq<PortGroupView>) -> nat
    decreases gs.len(),
{
    if gs.len() == 0 {
        0
    } else {
        counted(es, gs.drop_last()) + key_count(es, gs.last().port, gs.last().protocol)
    }
}

/// How many rows are on `(port, protocol)`.
spec fn rows_on(gs: Seq<PortGroupView>, port: u16, protocol: Protocol) -> nat
    decreases gs.len(),
{
    if gs.len() == 0 {
        0
    } else {
        rows_on(gs.drop_last(), port, protocol) + if gs.last().port == port && gs.last().protocol
            == protocol {
            1nat
        } else {
            0nat
        }
    }
}

proof fn lemma_counted_push(es: Seq<PortEntryView>, e: PortEntryView, gs: Seq<PortGroupView>)
    ensures
        counted(es.push(e), gs) == counted(es, gs) + rows_on(gs, e.port, e.protocol),
    decreases gs.len(),
{
    assert(es.push(e).drop_last() =~= es);
    if gs.len() > 0 {
        lemma_counted_push(es, e, gs.drop_last());
    }
}

proof fn lemma_rows_on_unique(gs: Seq<PortGroupView>, port: u16, protocol: Protocol)
    requires
        forall|i: int, j: int|
            0 <= i < j < gs.len() ==> !(#[trigger] gs[i].port == #[trigger] gs[j].port && gs[i].protocol
                == gs[j].protocol),
    ensures
        rows_on(gs, port, protocol) == (if exists|i: int|
            0 <= i < gs.len() && (#[trigger] gs[i]).port == port && gs[i].protocol == protocol {
            1nat
        } else {
            0nat
        }),
    decreases gs.len(),
{
    if gs.len() > 0 {
        let d = gs.drop_last();
        assert forall|i: int, j: int| 0 <= i < j < d.len() implies !(#[trigger] d[i].port
            == #[trigger] d[j].port && d[i].protocol == d[j].protocol) by {
            assert(d[i] == gs[i] && d[j] == gs[j]);
        }
        lemma_rows_on_unique(d, port, protocol);
        let last = gs[gs.len() - 1];
        assert(last == gs.last());
        if exists|i: int| 0 <= i < d.len() && (#[trigger] d[i]).port == port && d[i].protocol == protocol {
            let i = choose|i: int| 0 <= i < d.len() && (#[trigger] d[i]).port == port && d[i].protocol == protocol;
            assert(gs[i] == d[i]);
        }
        if exists|i: int| 0 <= i < gs.len() && (#[trigger] gs[i]).port == port && gs[i].protocol == protocol {
            let i = choose|i: int| 0 <= i < gs.len() && (#[trigger] gs[i]).port == port && gs[i].protocol == protocol;
            if i < d.len() {
                assert(d[i] == gs[i]);
            }
        }
    }
}

proof fn lemma_counted_covers(es: Seq<PortEntryView>, gs: Seq<PortGroupView>)
    requires
        forall|i: int, j: int|
            0 <= i < j < gs.len() ==> !(#[trigger] gs[i].port == #[trigger] gs[j].port && gs[i].protocol
                == gs[j].protocol),
        forall|k: int|
            0 <= k < es.len() ==> exists|i: int|
                0 <= i < gs.len() && #[trigger] gs[i].port == (#[trigger] es[k]).port && gs[i].protocol
                    == es[k].protocol,
    ensures
        counted(es, gs) == es.len(),
    decreases es.len(),
{
    if es.len() == 0 {
        lemma_counted_empty(es, gs);
    } else {
        let d = es.drop_last();
        let e = es.last();
        assert forall|k: int| 0 <= k < d.len() implies exists|i: int|
            0 <= i < gs.len() && #[trigger] gs[i].port == (#[trigger] d[k]).port && gs[i].protocol
                == d[k].protocol by {
            assert(d[k] == es[k]);
        }
        lemma_counted_covers(d, gs);
        assert(d.push(e) =~= es);
        lemma_counted_push(d, e, gs);
        assert(es[es.len() - 1] == e);
        lemma_rows_on_unique(gs, e.port, e.protocol);
    }
}

proof fn lemma_counted_empty(es: Seq<PortEntryView>, gs: Seq<PortGroupView>)
    requires
        es.len() == 0,
    ensures
        counted(es, gs) == 0,
    decreases gs.len(),
{
    if gs.len() > 0 {
        lemma_counted_empty(es, gs.drop_last());
    }
}

proof fn lemma_row_total_counted(es: Seq<PortEntryView>, gs: Seq<PortGroupView>)
    requires
        forall|i: int|
            0 <= i < gs.len() ==> (#[trigger] gs[i]).sockets + gs[i].connections == key_count(
                es,
                gs[i].port,
                gs[i].protocol,
            ),
    ensures
        row_total(gs) == counted(es, gs),
    decreases gs.len(),
{
    if gs.len() > 0 {
        let d = gs.drop_last();
        assert forall|i: int| 0 <= i < d.len() implies (#[trigger] d[i]).sockets + d[i].connections
            == key_count(es, d[i].port, d[i].protocol) by {
            assert(d[i] == gs[i]);
        }
        lemma_row_total_counted(es, d);
        assert(gs[gs.len() - 1] == gs.last());
    }
}

/// The rows account for every socket: the sockets and connections counted
/// over all rows add up to the number of sockets grouped.
pub proof fn law_rows_add_up_to_the_sockets(es: Seq<PortEntryView>, gs: Seq<PortGroupView>)
    requires
        is_grouping(es, gs),
    ensures
        row_total(gs) == es.len(),
{
    law_rows_count_every_socket_once(es, gs);
    lemma_row_total_counted(es, gs);
    assert forall|i: int, j: int| 0 <= i < j < gs.len() implies !(#[trigger] gs[i].port
        == #[trigger] gs[j].port && gs[i].protocol == gs[j].protocol) by {
        assert(key_before(gs[i].port, gs[i].protocol, gs[j].port, gs[j].protocol));
    }
    lemma_counted_covers(es, gs);
}

// ---------------------------------------------------------------------------
// Process identity from what the process table reports
// ---------------------------------------------------------------------------

/// The name a process is listed under: the executable's file name when the
/// OS reports a non-empty one, otherwise the name the process table gives
/// (on Linux, the main thread's name, capped at 15 bytes).
pub open spec fn best_name(exe_file_name: Option<Seq<char>>, reported: Seq<char>) -> Seq<char> {
    match exe_file_name {
        Some(f) => if f.len() > 0 {
            f
        } else {
            reported
        },
        None => reported,
    }
}

pub fn best_process_name(exe_file_name: Option<String>, reported: String) -> (r: String)
    ensures
        r@ == best_name(opt_view(exe_file_name), reported@),
{
    match exe_file_name {
        Some(f) => {
            if f.as_str().unicode_len() > 0 {
                f
            } else {
                reported
            }
        },
        None => reported,
    }
}

/// The identity recorded for a running process, from what the process table
/// reports about it. Zero memory or start time means "unknown", never zero.
pub open spec fn process_identity(
    pid: u32,
    exe_path: Option<Seq<char>>,
    exe_file_name: Option<Seq<char>>,
    reported_name: Seq<char>,
    args: Seq<Seq<char>>,
    memory: u64,
    start_time: u64,
    with_details: bool,
) -> ProcessInfoView {
    let name = best_name(exe_file_name, reported_name);
    let command = join(args, " "@);
    ProcessInfoView {
        pid,
        name,
        exe: if with_details {
            exe_path
        } else {
            None
        },
        command: if with_details && command.len() > 0 {
            Some(command)
        } else {
            None
        },
        description: process_description(name),
        memory_bytes: if memory > 0 {
            Some(memory)
        } else {
            None
        },
        started_at: if start_time > 0 {
            Some(start_time)
        } else {
            None
        },
    }
}

pub fn process_info_from(
    pid: u32,
    exe_path: Option<String>,
    exe_file_name: Option<String>,
    reported_name: String,
    args: Vec<String>,
    memory: u64,
    start_time: u64,
    with_details: bool,
) -> (r: ProcessInfo)
    ensures
        r@ == process_identity(
            pid,
            opt_view(exe_path),
            opt_view(exe_file_name),
            reported_name@,
            views(args@),
            memory,
            start_time,
            with_details,
        ),
{
    let name = best_process_name(exe_file_name, reported_name);
    let description = describe_process(name.as_str());
    let command = if with_details {
        let joined = join_strings(&args, " ");
        if joined.as_str().unicode_len() > 0 {
            Some(joined)
        } else {
            None
        }
    } else {
        None
    };
    ProcessInfo {
        pid,
        name,
        exe: if with_details {
            exe_path
        } else {
            None
        },
        command,
        description,
        memory_bytes: if memory > 0 {
            Some(memory)
        } else {
            None
        },
        started_at: if start_time > 0 {
            Some(start_time)
        } else {
            None
        },
    }
}

// ---------------------------------------------------------------------------
// From the socket table to entries
// ---------------------------------------------------------------------------

/// One end of a socket as the socket table reports it.
#[derive(Debug, Clone)]
pub struct Endpoint {
    /// The address in its usual textual form (`127.0.0.1`, `::1`).
    pub ip: String,
    pub is_v6: bool,
    pub port: u16,
}

/// What the socket table says about one socket.
#[derive(Debug, Clone)]
pub enum SocketDetail {
    Tcp { local: Endpoint, remote: Endpoint, state: TcpStateKind },
    Udp { local: Endpoint },
}

/// One row of the socket table.
#[derive(Debug, Clone)]
pub struct RawSocket {
    pub detail: SocketDetail,
    /// Processes associated with the socket; empty when the OS hides them.
    pub associated_pids: Vec<u32>,
}

/// `ip:port`, with an IPv6 address in brackets.
pub open spec fn address_text(ip: Seq<char>, is_v6: bool, port: u16) -> Seq<char> {
    if is_v6 {
        "["@ + ip + "]:"@ + decimal(port as nat)
    } else {
        ip + ":"@ + decimal(port as nat)
    }
}

pub open spec fn endpoint_text(e: Endpoint) -> Seq<char> {
    address_text(e.ip@, e.is_v6, e.port)
}

pub fn format_addr(ip: &str, is_v6: bool, port: u16) -> (r: String)
    ensures
        r@ == address_text(ip@, is_v6, port),
{
    let mut s = String::new();
    if is_v6 {
        push_str(&mut s, "[");
        push_str(&mut s, ip);
        push_str(&mut s, "]:");
    } else {
        push_str(&mut s, ip);
        push_str(&mut s, ":");
    }
    push_decimal(&mut s, port as u128);
    assert(s@ =~= address_text(ip@, is_v6, port));
    s
}

/// The first process of `ps` with this pid.
pub open spec fn find_process(ps: Seq<ProcessInfoView>, pid: u32) -> Option<ProcessInfoView>
    decreases ps.len(),
{
    if ps.len() == 0 {
        None
    } else if ps[0].pid == pid {
        Some(ps[0])
    } else {
        find_process(ps.drop_first(), pid)
    }
}

pub open spec fn socket_port(s: RawSocket) -> u16 {
    match s.detail {
        SocketDetail::Tcp { local, .. } => local.port,
        SocketDetail::Udp { local } => local.port,
    }
}

pub open spec fn socket_state(s: RawSocket) -> SocketState {
    match s.detail {
        SocketDetail::Tcp { state, .. } => normalised_state(state),
        SocketDetail::Udp { .. } => SocketState::Bound,
    }
}

pub open spec fn socket_protocol(s: RawSocket) -> Protocol {
    match s.detail {
        SocketDetail::Tcp { .. } => Protocol::Tcp,
        SocketDetail::Udp { .. } => Protocol::Udp,
    }
}

pub open spec fn socket_local(s: RawSocket) -> Seq<char> {
    match s.detail {
        SocketDetail::Tcp { local, .. } => endpoint_text(local),
        SocketDetail::Udp { local } => endpoint_text(local),
    }
}

pub open spec fn socket_remote(s: RawSocket) -> Option<Seq<char>> {
    match s.detail {
        SocketDetail::Tcp { remote, .. } => Some(endpoint_text(remote)),
        SocketDetail::Udp { .. } => None,
    }
}

/// The entry a socket becomes, or `None` when the options leave it out:
/// non-serving sockets when only serving ones are wanted, and ephemeral UDP
/// client sockets unless they are asked for. A socket without an associated
/// pid, or whose pid is not in the process table, has a hidden owner; the
/// remote address is only kept for sockets that are not serving.
pub open spec fn socket_entry(
    options: ScanOptions,
    s: RawSocket,
    procs: Seq<ProcessInfoView>,
) -> Option<PortEntryView> {
    let port = socket_port(s);
    let state = socket_state(s);
    let protocol = socket_protocol(s);
    if options.only_serving && !serving(state) {
        None
    } else if ephemeral_udp(protocol, port) && !options.include_ephemeral_udp {
        None
    } else {
        let pid = if s.associated_pids@.len() > 0 {
            Some(s.associated_pids@[0])
        } else {
            None
        };
        let process = match pid {
            Some(p) => find_process(procs, p),
            None => None,
        };
        Some(
            PortEntryView {
                port,
                protocol,
                state,
                local_address: socket_local(s),
                remote_address: if serving(state) {
                    None
                } else {
                    socket_remote(s)
                },
                pid,
                process,
                service: lookup_port(service_table(), port),
                owner_hidden: pid.is_none() || process.is_none(),
            },
        )
    }
}

/// The entries of `socks`, in table order, before sorting.
pub open spec fn socket_entries(
    options: ScanOptions,
    socks: Seq<RawSocket>,
    procs: Seq<ProcessInfoView>,
) -> Seq<PortEntryView>
    decreases socks.len(),
{
    if socks.len() == 0 {
        Seq::empty()
    } else {
        let prev = socket_entries(options, socks.drop_last(), procs);
        match socket_entry(options, socks.last(), procs) {
            Some(e) => prev.push(e),
            None => prev,
        }
    }
}

/// Strict lexicographic order on text, by code point (the order of `str`).
pub open spec fn text_before(a: Seq<char>, b: Seq<char>) -> bool
    decreases a.len(),
{
    if a.len() == 0 {
        b.len() > 0
    } else if b.len() == 0 {
        false
    } else if a[0] < b[0] {
        true
    } else if a[0] == b[0] {
        text_before(a.drop_first(), b.drop_first())
    } else {
        false
    }
}

/// Listing order: by port, then protocol, then local address.
pub open spec fn entry_before(a: PortEntryView, b: PortEntryView) -> bool {
    ||| a.port < b.port
    ||| (a.port == b.port && protocol_rank(a.protocol) < protocol_rank(b.protocol))
    ||| (a.port == b.port && a.protocol == b.protocol && text_before(
        a.local_address,
        b.local_address,
    ))
}

/// `x` inserted into `s` after every element it does not sort before.
pub open spec fn insert_entry(s: Seq<PortEntryView>, x: PortEntryView) -> Seq<PortEntryView>
    decreases s.len(),
{
    if s.len() == 0 {
        seq![x]
    } else if entry_before(x, s.last()) {
        insert_entry(s.drop_last(), x).push(s.last())
    } else {
        s.push(x)
    }
}

/// The stable sort of `s` in listing order.
pub open spec fn sort_entries(s: Seq<PortEntryView>) -> Seq<PortEntryView>
    decreases s.len(),
{
    if s.len() == 0 {
        s
    } else {
        insert_entry(sort_entries(s.drop_last()), s.last())
    }
}

/// What a scan reports for a socket table and a process table.
pub open spec fn scanned(
    options: ScanOptions,
    socks: Seq<RawSocket>,
    procs: Seq<ProcessInfoView>,
) -> Seq<PortEntryView> {
    sort_entries(socket_entries(options, socks, procs))
}

proof fn lemma_insert_entry_at(s: Seq<PortEntryView>, x: PortEntryView, p: int)
    requires
        0 <= p <= s.len(),
        forall|j: int| p <= j < s.len() ==> entry_before(x, #[trigger] s[j]),
        p == 0 || !entry_before(x, s[p - 1]),
    ensures
        insert_entry(s, x) == s.insert(p, x),
    decreases s.len(),
{
    if s.len() == 0 {
        assert(s.insert(0, x) =~= seq![x]);
    } else if p == s.len() {
        assert(s.insert(p, x) =~= s.push(x));
    } else {
        let d = s.drop_last();
        assert(entry_before(x, s[s.len() - 1]));
        assert forall|j: int| p <= j < d.len() implies entry_before(x, #[trigger] d[j]) by {
            assert(d[j] == s[j]);
        }
        if p > 0 {
            assert(d[p - 1] == s[p - 1]);
        }
        lemma_insert_entry_at(d, x, p);
        assert(d.insert(p, x).push(s.last()) =~= s.insert(p, x));
    }
}

proof fn lemma_text_before_total(a: Seq<char>, b: Seq<char>)
    ensures
        !text_before(a, a),
        !(text_before(a, b) && text_before(b, a)),
        a != b ==> text_before(a, b) || text_before(b, a),
    decreases a.len(),
{
    if a.len() > 0 {
        lemma_text_before_total(a.drop_first(), a.drop_first());
    }
    if a.len() > 0 && b.len() > 0 && a[0] == b[0] {
        lemma_text_before_total(a.drop_first(), b.drop_first());
        if a != b {
            if a.drop_first() == b.drop_first() {
                assert(a =~= seq![a[0]] + a.drop_first());
                assert(b =~= seq![b[0]] + b.drop_first());
            }
        }
    }
    if a.len() == 0 && b.len() == 0 {
        assert(a =~= b);
    }
}

proof fn lemma_text_before_trans(a: Seq<char>, b: Seq<char>, c: Seq<char>)
    requires
        text_before(a, b),
        text_before(b, c),
    ensures
        text_before(a, c),
    decreases a.len(),
{
    if a.len() > 0 && a[0] == b[0] && b[0] == c[0] {
        lemma_text_before_trans(a.drop_first(), b.drop_first(), c.drop_first());
    }
}

/// Listing order never puts two entries before each other, and an entry
/// that sorts neither before `m` nor after... is placed consistently: if `x`
/// is not before `m` and `m` is not before `y`, then `x` is not before `y`.
proof fn lemma_entry_order(x: PortEntryView, m: PortEntryView, y: PortEntryView)
    ensures
        !(entry_before(x, m) && entry_before(m, x)),
        !entry_before(x, m) && !entry_before(m, y) ==> !entry_before(x, y),
{
    lemma_text_before_total(x.local_address, m.local_address);
    lemma_text_before_total(m.local_address, y.local_address);
    lemma_text_before_total(x.local_address, y.local_address);
    if text_before(y.local_address, m.local_address) && text_before(m.local_address, x.local_address) {
        lemma_text_before_trans(y.local_address, m.local_address, x.local_address);
    }
}

/// `s` is in listing order (ties keep their order).
pub open spec fn listing_sorted(s: Seq<PortEntryView>) -> bool {
    forall|i: int, j: int| 0 <= i < j < s.len() ==> !entry_before(#[trigger] s[j], #[trigger] s[i])
}

proof fn lemma_insert_entry_keeps(s: Seq<PortEntryView>, x: PortEntryView)
    ensures
        insert_entry(s, x).to_multiset() == s.to_multiset().insert(x),
        listing_sorted(s) ==> listing_sorted(insert_entry(s, x)),
    decreases s.len(),
{
    broadcast use vstd::seq_lib::group_to_multiset_ensures;
    broadcast use vstd::multiset::group_multiset_axioms;

    if s.len() == 0 {
        assert(seq![x] =~= Seq::<PortEntryView>::empty().push(x));
        assert(s =~= Seq::<PortEntryView>::empty());
    } else {
        let d = s.drop_last();
        let last = s.last();
        assert(d.push(last) =~= s);
        lemma_insert_entry_keeps(d, x);
        if entry_before(x, last) {
            let t = insert_entry(d, x);
            assert(t.push(last).to_multiset() =~= s.to_multiset().insert(x));
            if listing_sorted(s) {
                assert forall|i: int, j: int| 0 <= i < j < d.len() implies !entry_before(
                    #[trigger] d[j],
                    #[trigger] d[i],
                ) by {
                    assert(d[i] == s[i] && d[j] == s[j]);
                }
                let r = t.push(last);
                assert forall|i: int, j: int| 0 <= i < j < r.len() implies !entry_before(
                    #[trigger] r[j],
                    #[trigger] r[i],
                ) by {
                    if j == r.len() - 1 {
                        let y = t[i];
                        assert(r[i] == y && r[j] == last);
                        assert(t.contains(y));
                        assert(t.to_multiset().count(y) > 0);
                        if y == x {
                            lemma_entry_order(x, last, x);
                        } else {
                            assert(d.to_multiset().count(y) > 0);
                            assert(d.contains(y));
                            let k = choose|k: int| 0 <= k < d.len() && d[k] == y;
                            assert(s[k] == y);
                            assert(s[s.len() - 1] == last);
                        }
                    } else {
                        assert(r[i] == t[i] && r[j] == t[j]);
                    }
                }
            }
        } else {
            if listing_sorted(s) {
                let r = s.push(x);
                assert forall|i: int, j: int| 0 <= i < j < r.len() implies !entry_before(
                    #[trigger] r[j],
                    #[trigger] r[i],
                ) by {
                    if j == r.len() - 1 {
                        assert(r[j] == x && r[i] == s[i]);
                        if i < s.len() - 1 {
                            assert(s[s.len() - 1] == last);
                            lemma_entry_order(x, last, s[i]);
                        }
                    } else {
                        assert(r[i] == s[i] && r[j] == s[j]);
                    }
                }
            }
        }
    }
}

proof fn lemma_sort_entries_keeps(s: Seq<PortEntryView>)
    ensures
        sort_entries(s).to_multiset() == s.to_multiset(),
        listing_sorted(sort_entries(s)),
    decreases s.len(),
{
    broadcast use vstd::seq_lib::group_to_multiset_ensures;

    if s.len() > 0 {
        let d = s.drop_last();
        lemma_sort_entries_keeps(d);
        lemma_insert_entry_keeps(sort_entries(d), s.last());
        assert(d.push(s.last()) =~= s);
    }
}

/// `e` is one a scan under `options` may list: a serving socket when only
/// serving ones are asked for, and no ephemeral UDP client socket unless
/// those are asked for.
pub open spec fn honours(options: ScanOptions, e: PortEntryView) -> bool {
    &&& options.only_serving ==> serving(e.state)
    &&& !options.include_ephemeral_udp ==> !ephemeral_udp(e.protocol, e.port)
}

proof fn lemma_socket_entries_honour(options: ScanOptions, socks: Seq<RawSocket>, procs: Seq<ProcessInfoView>)
    ensures
        forall|i: int|
            0 <= i < socket_entries(options, socks, procs).len() ==> honours(
                options,
                #[trigger] socket_entries(options, socks, procs)[i],
            ),
    decreases socks.len(),
{
    if socks.len() > 0 {
        let prev = socket_entries(options, socks.drop_last(), procs);
        lemma_socket_entries_honour(options, socks.drop_last(), procs);
        if let Some(e) = socket_entry(options, socks.last(), procs) {
            assert(honours(options, e));
            assert forall|i: int| 0 <= i < prev.push(e).len() implies honours(
                options,
                #[trigger] prev.push(e)[i],
            ) by {
                if i < prev.len() {
                    assert(prev.push(e)[i] == prev[i]);
                }
            }
        }
    }
}

/// A scan lists exactly the sockets the options keep, each once, in listing
/// order (by port, then protocol, then local address, ties in table order);
/// every listed socket honours the options.
pub proof fn law_scan_lists_what_the_options_keep(
    options: ScanOptions,
    socks: Seq<RawSocket>,
    procs: Seq<ProcessInfoView>,
)
    ensures
        scanned(options, socks, procs).to_multiset() == socket_entries(options, socks, procs).to_multiset(),
        listing_sorted(scanned(options, socks, procs)),
        forall|i: int|
            0 <= i < scanned(options, socks, procs).len() ==> honours(
                options,
                #[trigger] scanned(options, socks, procs)[i],
            ),
{
    broadcast use vstd::seq_lib::group_to_multiset_ensures;

    let raw = socket_entries(options, socks, procs);
    let listed = scanned(options, socks, procs);
    lemma_sort_entries_keeps(raw);
    lemma_socket_entries_honour(options, socks, procs);
    assert forall|i: int| 0 <= i < listed.len() implies honours(options, #[trigger] listed[i]) by {
        assert(listed.contains(listed[i]));
        assert(listed.to_multiset().count(listed[i]) > 0);
        assert(raw.contains(listed[i]));
    }
}

fn text_less(a: &String, b: &String) -> (r: bool)
    ensures
        r == text_before(a@, b@),
{
    let x = chars_of(a.as_str());
    let y = chars_of(b.as_str());
    let mut i: usize = 0;
    assert(x@.skip(0) =~= x@);
    assert(y@.skip(0) =~= y@);
    loop
        invariant
            x@ == a@,
            y@ == b@,
            i <= x@.len(),
            i <= y@.len(),
            text_before(a@, b@) == text_before(x@.skip(i as int), y@.skip(i as int)),
        decreases x@.len() - i,
    {
        let ghost xs = x@.skip(i as int);
        let ghost ys = y@.skip(i as int);
        if i == x.len() {
            return i < y.len();
        }
        if i == y.len() {
            return false;
        }
        assert(xs[0] == x@[i as int] && ys[0] == y@[i as int]);
        if x[i] < y[i] {
            return true;
        }
        if x[i] != y[i] {
            return false;
        }
        assert(xs.drop_first() =~= x@.skip(i + 1));
        assert(ys.drop_first() =~= y@.skip(i + 1));
        i = i + 1;
    }
}

fn entry_less(a: &PortEntry, b: &PortEntry) -> (r: bool)
    ensures
        r == entry_before(a@, b@),
{
    if a.port != b.port {
        return a.port < b.port;
    }
    if a.protocol != b.protocol {
        return a.protocol == Protocol::Tcp;
    }
    text_less(&a.local_address, &b.local_address)
}

fn find_process_in(procs: &[ProcessInfo], pid: u32) -> (r: Option<ProcessInfo>)
    ensures
        opt_process_view(r) == find_process(process_views(procs@), pid),
{
    let ghost ps = process_views(procs@);
    let mut i: usize = 0;
    assert(ps.skip(0) =~= ps);
    while i < procs.len()
        invariant
            i <= procs@.len(),
            ps == process_views(procs@),
            find_process(ps, pid) == find_process(ps.skip(i as int), pid),
        decreases procs.len() - i,
    {
        let ghost rest = ps.skip(i as int);
        assert(rest[0] == procs@[i as int]@);
        assert(rest.drop_first() =~= ps.skip(i + 1));
        if procs[i].pid == pid {
            return Some(procs[i].duplicate());
        }
        i = i + 1;
    }
    None
}

fn entry_of(options: &ScanOptions, s: &RawSocket, procs: &[ProcessInfo]) -> (r: Option<PortEntry>)
    ensures
        match r {
            Some(e) => socket_entry(*options, *s, process_views(procs@)) == Some(e@),
            None => socket_entry(*options, *s, process_views(procs@)).is_none(),
        },
{
    let (port, state, protocol, local, remote) = match &s.detail {
        SocketDetail::Tcp { local, remote, state } => (
            local.port,
            SocketState::from_tcp(*state),
            Protocol::Tcp,
            format_addr(local.ip.as_str(), local.is_v6, local.port),
            Some(format_addr(remote.ip.as_str(), remote.is_v6, remote.port)),
        ),
        SocketDetail::Udp { local } => (
            local.port,
            SocketState::Bound,
            Protocol::Udp,
            format_addr(local.ip.as_str(), local.is_v6, local.port),
            None,
        ),
    };
    if options.only_serving && !state.is_serving() {
        return None;
    }
    if is_ephemeral_udp(protocol, port) && !options.include_ephemeral_udp {
        return None;
    }
    let pid = if s.associated_pids.len() > 0 {
        Some(s.associated_pids[0])
    } else {
        None
    };
    let process = match pid {
        Some(p) => find_process_in(procs, p),
        None => None,
    };
    let owner_hidden = pid.is_none() || process.is_none();
    let serving_now = state.is_serving();
    Some(
        PortEntry {
            port,
            protocol,
            state,
            local_address: local,
            remote_address: if serving_now {
                None
            } else {
                remote
            },
            pid,
            process,
            service: service_for_port(port),
            owner_hidden,
        },
    )
}

/// Turn a socket table and a process table into the entries a scan reports,
/// sorted by port, protocol and local address (stably).
pub fn assemble_entries(options: &ScanOptions, sockets: &[RawSocket], processes: &[ProcessInfo]) -> (r: Vec<PortEntry>)
    ensures
        entry_views(r@) == scanned(*options, sockets@, process_views(processes@)),
{
    let ghost procs = process_views(processes@);
    let mut out: Vec<PortEntry> = Vec::new();
    let mut n: usize = 0;
    assert(entry_views(out@) =~= sort_entries(socket_entries(*options, sockets@.subrange(0, 0), procs)));
    while n < sockets.len()
        invariant
            n <= sockets@.len(),
            procs == process_views(processes@),
            entry_views(out@) == sort_entries(socket_entries(*options, sockets@.subrange(0, n as int), procs)),
        decreases sockets.len() - n,
    {
        let ghost pre = sockets@.subrange(0, n as int);
        let ghost pre2 = sockets@.subrange(0, n + 1);
        assert(pre2.drop_last() =~= pre);
        assert(pre2.last() == sockets@[n as int]);
        match entry_of(options, &sockets[n], processes) {
            Some(e) => {
                let ghost sorted = entry_views(out@);
                let mut p: usize = out.len();
                while p > 0 && entry_less(&e, &out[p - 1])
                    invariant
                        p <= out@.len(),
                        sorted == entry_views(out@),
                        forall|j: int| p <= j < sorted.len() ==> entry_before(e@, #[trigger] sorted[j]),
                    decreases p,
                {
                    p = p - 1;
                }
                proof {
                    lemma_insert_entry_at(sorted, e@, p as int);
                    let prev = socket_entries(*options, pre, procs);
                    assert(socket_entries(*options, pre2, procs) == prev.push(e@));
                    assert(prev.push(e@).drop_last() =~= prev);
                    assert(prev.push(e@).last() == e@);
                }
                out.insert(p, e);
                assert(entry_views(out@) =~= sorted.insert(p as int, e@));
            },
            None => {},
        }
        n = n + 1;
    }
    assert(sockets@.subrange(0, sockets@.len() as int) =~= sockets@);
    out
}

// ---------------------------------------------------------------------------
// Human-readable sizes
// ---------------------------------------------------------------------------

/// Smallest integer that needs 54 significant bits.
pub open spec fn mantissa_limit() -> nat {
    0x20_0000_0000_0000
}

/// `b` shifted right until it fits in 53 significant bits.
pub open spec fn top_bits(b: nat) -> nat
    decreases b,
{
    if b < mantissa_limit() {
        b
    } else {
        top_bits(b / 2)
    }
}

/// The power of two that [`top_bits`] divided `b` by.
pub open spec fn bit_scale(b: nat) -> nat
    decreases b,
{
    if b < mantissa_limit() {
        1
    } else {
        2 * bit_scale(b / 2)
    }
}

/// `b` as a double-precision float: rounded to 53 significant bits, ties to
/// an even significand.
pub open spec fn nearest_double(b: nat) -> nat {
    let top = top_bits(b);
    let scale = bit_scale(b);
    let low = b - top * scale;
    if 2 * low > scale || (2 * low == scale && top % 2 == 1) {
        (top + 1) * scale
    } else {
        top * scale
    }
}

/// How many times a size is divided by 1024 before it is shown (at most 3).
pub open spec fn size_unit(f: nat) -> nat {
    if f < 1024 {
        0
    } else if f < 1024 * 1024 {
        1
    } else if f < 1024 * 1024 * 1024 {
        2
    } else {
        3
    }
}

pub open spec fn unit_divisor(k: nat) -> nat {
    if k == 1 {
        1024
    } else if k == 2 {
        1024 * 1024
    } else {
        1024 * 1024 * 1024
    }
}

pub open spec fn unit_suffix(k: nat) -> Seq<char> {
    if k == 0 {
        " B"@
    } else if k == 1 {
        " KB"@
    } else if k == 2 {
        " MB"@
    } else {
        " GB"@
    }
}

/// `f / d` in tenths, rounded to nearest with ties to an even tenth.
pub open spec fn tenths(f: nat, d: nat) -> nat {
    let q = (10 * f) / d;
    let r = (10 * f) % d;
    if 2 * r > d || (2 * r == d && q % 2 == 1) {
        q + 1
    } else {
        q
    }
}

/// Human-readable size: whole bytes below 1 KB, otherwise one decimal in
/// the largest of KB, MB, GB that keeps the value at least 1 (GB at most).
/// The value shown is that of the size as a double, as the float division
/// and `{:.1}` formatting produce it.
pub open spec fn size_text(bytes: nat) -> Seq<char> {
    let f = nearest_double(bytes);
    let k = size_unit(f);
    if k == 0 {
        decimal(bytes) + " B"@
    } else {
        let t = tenths(f, unit_divisor(k));
        decimal(t / 10) + "."@ + decimal(t % 10) + unit_suffix(k)
    }
}

proof fn lemma_scale_linear(b: nat)
    ensures
        b >= mantissa_limit() ==> bit_scale(b) * mantissa_limit() <= 2 * b,
    decreases b,
{
    if b >= mantissa_limit() {
        lemma_scale_linear(b / 2);
        let c = bit_scale(b / 2);
        assert((2 * c) * mantissa_limit() == 2 * (c * mantissa_limit())) by (nonlinear_arith);
    }
}

proof fn lemma_top_scale(b: nat)
    ensures
        top_bits(b) * bit_scale(b) <= b,
        top_bits(b) < mantissa_limit(),
        bit_scale(b) >= 1,
        b < mantissa_limit() ==> top_bits(b) == b && bit_scale(b) == 1,
        b < 0x1_0000_0000_0000_0000 ==> bit_scale(b) <= 0x1000,
    decreases b,
{
    lemma_scale_linear(b);
    if b >= mantissa_limit() {
        lemma_top_scale(b / 2);
        let t = top_bits(b / 2);
        let c = bit_scale(b / 2);
        assert(t * (2 * c) == 2 * (t * c)) by (nonlinear_arith);
        if b < 0x1_0000_0000_0000_0000 {
            assert(bit_scale(b) <= 0x1000) by (nonlinear_arith)
                requires
                    bit_scale(b) * mantissa_limit() <= 2 * b,
                    b < 0x1_0000_0000_0000_0000,
                    mantissa_limit() == 0x20_0000_0000_0000,
            ;
        }
    }
}

/// Human-readable size, used by both front ends.
pub fn format_bytes(bytes: u64) -> (r: String)
    ensures
        r@ == size_text(bytes as nat),
{
    let b: u128 = bytes as u128;
    let mut x: u128 = b;
    let mut d: u128 = 1;
    proof {
        lemma_top_scale(b as nat);
    }
    while x >= 0x20_0000_0000_0000
        invariant
            b < 0x1_0000_0000_0000_0000,
            top_bits(b as nat) == top_bits(x as nat),
            bit_scale(b as nat) == d * bit_scale(x as nat),
            1 <= d <= 0x1000,
            x * d <= b,
        decreases x,
    {
        proof {
            lemma_top_scale(x as nat);
            lemma_top_scale(b as nat);
            assert(bit_scale(x as nat) == 2 * bit_scale((x / 2) as nat));
            assert(d * (2 * bit_scale((x / 2) as nat)) == (2 * d) * bit_scale((x / 2) as nat)) by (nonlinear_arith);
            assert(2 * d <= 0x1000) by (nonlinear_arith)
                requires
                    d * bit_scale(x as nat) <= 0x1000,
                    bit_scale(x as nat) == 2 * bit_scale((x / 2) as nat),
                    bit_scale((x / 2) as nat) >= 1,
                    d >= 1,
            ;
            assert((x / 2) * (2 * d) <= x * d) by (nonlinear_arith)
                requires
                    d >= 1,
            ;
        }
        x = x / 2;
        d = 2 * d;
    }
    proof {
        lemma_top_scale(x as nat);
    }
    assert(x < 0x20_0000_0000_0000);
    assert((x + 1) * d <= 0x20_0000_0000_0000 * 0x1000) by (nonlinear_arith)
        requires
            x < 0x20_0000_0000_0000,
            d <= 0x1000,
    ;
    let low: u128 = b - x * d;
    let f: u128 = if 2 * low > d || (2 * low == d && x % 2 == 1) {
        (x + 1) * d
    } else {
        x * d
    };
    assert(f == nearest_double(b as nat));
    let mut s = String::new();
    if f < 1024 {
        push_decimal(&mut s, b);
        push_str(&mut s, " B");
        assert(s@ =~= size_text(bytes as nat));
        return s;
    }
    let (div, suffix): (u128, &str) = if f < 1024 * 1024 {
        (1024, " KB")
    } else if f < 1024 * 1024 * 1024 {
        (1024 * 1024, " MB")
    } else {
        (1024 * 1024 * 1024, " GB")
    };
    let n = 10 * f;
    let q = n / div;
    let rem = n % div;
    let t = if 2 * rem > div || (2 * rem == div && q % 2 == 1) {
        q + 1
    } else {
        q
    };
    push_decimal(&mut s, t / 10);
    push_str(&mut s, ".");
    push_decimal(&mut s, t % 10);
    push_str(&mut s, suffix);
    assert(s@ =~= size_text(bytes as nat));
    s
}

} // verus!
