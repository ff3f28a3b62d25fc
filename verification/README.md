# portify

Find out what is holding a port, and take it back.

`src/` is a library verified with Verus. It holds every decision the tool
makes, each with a contract:

- `scan` turns a socket table and a process table into the listing
  (`assemble_entries`), collapses sockets into one row per port
  (`group_by_port`) and formats sizes;
- `filter` keeps the entries that satisfy every active filter;
- `kill` decides what killing a port or a pid comes down to: the safety
  rules, the plan for a port, and the attempt itself as a state machine
  (`KillProcess::start` / `step`) driven by whoever owns the process table;
- `render` lays out tables and messages as lines of text;
- `cli` and `desktop` hold the decisions of the two front ends (scan
  options, exit codes, confirmation, settings, focus handling);
- `services`, `system`, `error` and `text` are the small pieces shared by
  the others.

The `law_*` proof functions state what holds across calls: filters compose,
grouping counts every socket once, a scan lists exactly what its options
keep and in listing order, the worst outcome decides the exit code, and so
on.

The desktop (tray) app's window, tray and hotkey glue is written against
Tauri and is not part of this crate. The
decisions it makes (settings defaults and clamping, how the UI's protocol
string is read, when a tray click hides the window, hotkey messages) are in
`src/desktop.rs`.

`app/` is the `portify` command itself: argument parsing, reading the socket
and process tables, delivering signals, JSON output and the terminal. It
hands the library plain values and prints what the library returns.
