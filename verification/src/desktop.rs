//! Decisions of the desktop front end: the settings it keeps, how it reads
//! requests from its UI, and when a tray click means "hide".

use vstd::prelude::*;

use crate::kill::KillMode;
use crate::scan::{PortGroup, Protocol};
use crate::text::{owned, push_str, str_eq, trim, trim_str};

verus! {

/// User settings, persisted as JSON in the OS config directory.
#[derive(Debug, Clone, PartialEq, Eq)]
pub struct Settings {
    /// Seconds between automatic refreshes. Zero disables auto-refresh.
    pub refresh_interval_secs: u32,
    /// Show a desktop notification with the result of a kill.
    pub notifications: bool,
    /// Require a second click before terminating anything.
    pub confirm_before_kill: bool,
    /// Include established connections, not just ports being served.
    pub include_all: bool,
    /// Hide the window as soon as it loses focus (menu-bar style).
    pub hide_on_blur: bool,
    /// System-wide hotkey that shows or hides the window, in accelerator
    /// syntax. Empty disables it.
    pub shortcut: String,
}

/// Default hotkey.
///
/// Ctrl+Alt+P rather than Ctrl+Shift+P: a global shortcut wins over whatever
/// application has focus, and Ctrl+Shift+P would break the command palette
/// of every editor on the machine.
pub const DEFAULT_SHORTCUT: &'static str = "CmdOrCtrl+Alt+P";

/// The longest refresh interval a settings file may ask for, in seconds.
pub const MAX_REFRESH_SECS: u32 = 3600;

pub open spec fn is_default_settings(s: Settings) -> bool {
    &&& s.refresh_interval_secs == 5
    &&& s.notifications
    &&& s.confirm_before_kill
    &&& !s.include_all
    &&& !s.hide_on_blur
    &&& s.shortcut@ == DEFAULT_SHORTCUT@
}

impl Default for Settings {
    fn default() -> (r: Self)
        ensures
            is_default_settings(r),
    {
        Settings {
            refresh_interval_secs: 5,
            notifications: true,
            // The whole app is one click away from killing a process, so the
            // safe default is the deliberate one.
            confirm_before_kill: true,
            include_all: false,
            // A window that vanishes on alt-tab is surprising the first time.
            hide_on_blur: false,
            shortcut: owned(DEFAULT_SHORTCUT),
        }
    }
}

impl Settings {
    /// Clamp anything a hand-edited file could get wrong.
    pub fn sanitised(self) -> (r: Self)
        ensures
            r.refresh_interval_secs == (if self.refresh_interval_secs > MAX_REFRESH_SECS {
                MAX_REFRESH_SECS
            } else {
                self.refresh_interval_secs
            }),
            r.notifications == self.notifications,
            r.confirm_before_kill == self.confirm_before_kill,
            r.include_all == self.include_all,
            r.hide_on_blur == self.hide_on_blur,
            r.shortcut == self.shortcut,
            // Whatever the file said, the interval is in bounds afterwards, and
            // settings already in bounds are left as they are (so sanitising
            // twice is sanitising once).
            r.refresh_interval_secs <= MAX_REFRESH_SECS,
            self.refresh_interval_secs <= MAX_REFRESH_SECS ==> r == self,
    {
        let mut s = self;
        if s.refresh_interval_secs > MAX_REFRESH_SECS {
            s.refresh_interval_secs = MAX_REFRESH_SECS;
        }
        s
    }
}

/// The settings in effect after reading the settings file: the parsed
/// settings, clamped, or the defaults when there was nothing usable.
pub fn settings_from(parsed: Option<Settings>) -> (r: Settings)
    ensures
        match parsed {
            Some(p) => r.refresh_interval_secs == (if p.refresh_interval_secs > MAX_REFRESH_SECS {
                MAX_REFRESH_SECS
            } else {
                p.refresh_interval_secs
            }) && r.notifications == p.notifications && r.confirm_before_kill
                == p.confirm_before_kill && r.include_all == p.include_all && r.hide_on_blur
                == p.hide_on_blur && r.shortcut == p.shortcut,
            None => is_default_settings(r),
        },
{
    match parsed {
        Some(p) => p.sanitised(),
        None => Settings::default(),
    }
}

/// The answer to a request for the port list.
#[derive(Debug)]
pub struct ScanResult {
    pub ports: Vec<PortGroup>,
    pub elapsed_ms: u128,
    pub elevated: bool,
}

/// Parse the protocol string the UI sends. An unrecognised value means "any
/// protocol" rather than an error: the worst case is a wider match.
pub fn parse_protocol(value: Option<String>) -> (r: Option<Protocol>)
    ensures
        r == match value {
            Some(v) => if v@ == "tcp"@ {
                Some(Protocol::Tcp)
            } else if v@ == "udp"@ {
                Some(Protocol::Udp)
            } else {
                None
            },
            None => None,
        },
{
    match value {
        Some(v) => {
            if str_eq(v.as_str(), "tcp") {
                Some(Protocol::Tcp)
            } else if str_eq(v.as_str(), "udp") {
                Some(Protocol::Udp)
            } else {
                None
            }
        },
        None => None,
    }
}

/// `force` selects the hard kill.
pub fn kill_mode(force: bool) -> (r: KillMode)
    ensures
        r == (if force {
            KillMode::Force
        } else {
            KillMode::Graceful
        }),
{
    if force {
        KillMode::Force
    } else {
        KillMode::Graceful
    }
}

/// A blur this recent was almost certainly caused by the click being
/// handled, in milliseconds.
pub const BLUR_GRACE_MS: u128 = 400;

/// The window has focus, or lost it so recently (`since_blur_ms` ago) that
/// the loss is attributable to the interaction being handled.
pub fn effectively_focused(focused: bool, since_blur_ms: Option<u128>) -> (r: bool)
    ensures
        r == (focused || match since_blur_ms {
            Some(ms) => ms < BLUR_GRACE_MS,
            None => false,
        }),
{
    if focused {
        return true;
    }
    match since_blur_ms {
        Some(ms) => ms < BLUR_GRACE_MS,
        None => false,
    }
}

/// Whether a toggle hides the window: only when it is both visible and
/// (effectively) focused; otherwise the intent is "bring it to me".
pub fn toggle_hides(visible: bool, focused: bool) -> (r: bool)
    ensures
        r == (visible && focused),
{
    visible && focused
}

/// The hotkey to register for an accelerator setting: `None` when it is
/// blank (the hotkey is disabled), else the accelerator without surrounding
/// whitespace.
pub fn shortcut_request(accelerator: &str) -> (r: Option<String>)
    ensures
        match r {
            Some(s) => trim(accelerator@).len() > 0 && s@ == trim(accelerator@),
            None => trim(accelerator@).len() == 0,
        },
{
    let t = trim_str(accelerator);
    if t.as_str().unicode_len() == 0 {
        None
    } else {
        Some(t)
    }
}

pub open spec fn invalid_shortcut_text(accelerator: Seq<char>) -> Seq<char> {
    "\""@ + accelerator
        + "\" is not a valid shortcut. Combine modifiers with one key, like Ctrl+Alt+P."@
}

/// What to say when an accelerator does not parse: what is wrong and what
/// a good value looks like, rather than the parser's own wording.
pub fn invalid_shortcut_message(accelerator: &str) -> (r: String)
    ensures
        r@ == invalid_shortcut_text(accelerator@),
{
    let mut s = owned("\"");
    push_str(&mut s, accelerator);
    push_str(&mut s, "\" is not a valid shortcut. Combine modifiers with one key, like Ctrl+Alt+P.");
    s
}

pub open spec fn unregistered_shortcut_text(accelerator: Seq<char>, reason: Seq<char>) -> Seq<char> {
    "could not register \""@ + accelerator + "\": "@ + reason
        + ". Another application may already own it."@
}

/// What to say when the system refuses to register a valid accelerator.
pub fn unregistered_shortcut_message(accelerator: &str, reason: &str) -> (r: String)
    ensures
        r@ == unregistered_shortcut_text(accelerator@, reason@),
{
    let mut s = owned("could not register \"");
    push_str(&mut s, accelerator);
    push_str(&mut s, "\": ");
    push_str(&mut s, reason);
    push_str(&mut s, ". Another application may already own it.");
    s
}

} // verus!
