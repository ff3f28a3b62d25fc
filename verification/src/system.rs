//! Host facts that change what can be seen and killed.

use vstd::prelude::*;

verus! {

/// The family of operating system the tool runs on, where behaviour differs.
#[derive(Debug, Clone, Copy, PartialEq, Eq, Structural)]
pub enum Platform {
    Unix,
    Windows,
    Other,
}

/// Host summary, as reported by `portify info`.
#[derive(Debug, Clone)]
pub struct SystemSummary {
    pub os: String,
    pub os_version: String,
    pub kernel_version: String,
    pub arch: String,
    pub hostname: String,
    /// True when running as Administrator (Windows) or root (Unix).
    pub elevated: bool,
    pub portify_version: String,
}

pub open spec fn elevation_text(platform: Platform) -> Seq<char> {
    if platform == Platform::Windows {
        "re-open your terminal with \"Run as Administrator\""@
    } else {
        "re-run with sudo"@
    }
}

/// The command a user should run to get elevated access on this platform.
pub fn elevation_hint(platform: Platform) -> (r: &'static str)
    ensures
        r@ == elevation_text(platform),
{
    if platform == Platform::Windows {
        "re-open your terminal with \"Run as Administrator\""
    } else {
        "re-run with sudo"
    }
}

} // verus!
