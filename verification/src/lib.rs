//! Portify: what is holding a port, and how to get it back.
//!
//! The library holds every decision the command-line tool and the desktop
//! app make: how the socket table becomes a listing, how a listing is
//! filtered, grouped and laid out, what killing a port or a pid comes down
//! to, and which exit code a run ends with. Reading the socket and process
//! tables, delivering signals and writing to the terminal are left to the
//! caller, which hands the library plain values and acts on what it returns.

pub mod cli;
pub mod desktop;
pub mod error;
pub mod filter;
pub mod kill;
pub mod render;
pub mod scan;
pub mod services;
pub mod system;
pub mod text;

pub use error::{Error, ExitCode};
pub use kill::{
    other_ports_held_by, plan_port_kill, KillAction, KillEvent, KillMode, KillOutcome,
    KillProcess, KillStatus, PortKillPlan,
};
pub use scan::{
    assemble_entries, format_bytes, group_by_port, PortEntry, PortGroup, ProcessInfo, Protocol,
    ScanOptions, SocketState,
};
pub use services::{describe_process, is_privileged_port, service_for_port};
pub use system::{elevation_hint, Platform, SystemSummary};
