//! Errors a scan can end in, and the process-exit contract shared by the
//! command-line front end.

use vstd::prelude::*;

use crate::text::{concat};

verus! {

/// Errors that can come out of a scan.
///
/// Killing a process never returns an error: a failed kill is a result the
/// user needs to see, so it is modelled as [`crate::kill::KillStatus`].
#[derive(Debug)]
pub enum Error {
    /// The OS socket table could not be read at all.
    SocketTable(String),
}

pub open spec fn error_text(e: Error) -> Seq<char> {
    match e {
        Error::SocketTable(m) => "could not read the system socket table: "@ + m@,
    }
}

impl Error {
    /// The message shown for this error.
    pub fn message(&self) -> (r: String)
        ensures
            r@ == error_text(*self),
    {
        match self {
            Error::SocketTable(m) => concat("could not read the system socket table: ", m.as_str()),
        }
    }
}

/// Process-exit contract, so scripts can branch on it: 0 clean, 2 nothing
/// found, 3 blocked by permissions, 4 bad input, 5 something broke.
#[derive(Debug, Clone, Copy, PartialEq, Eq, Structural)]
pub enum ExitCode {
    Success,
    NotFound,
    PermissionDenied,
    InvalidInput,
    Internal,
}

pub open spec fn exit_number(c: ExitCode) -> u8 {
    match c {
        ExitCode::Success => 0,
        ExitCode::NotFound => 2,
        ExitCode::PermissionDenied => 3,
        ExitCode::InvalidInput => 4,
        ExitCode::Internal => 5,
    }
}

impl ExitCode {
    /// The number the process exits with.
    pub fn code(self) -> (r: u8)
        ensures
            r == exit_number(self),
    {
        match self {
            ExitCode::Success => 0,
            ExitCode::NotFound => 2,
            ExitCode::PermissionDenied => 3,
            ExitCode::InvalidInput => 4,
            ExitCode::Internal => 5,
        }
    }
}

impl From<ExitCode> for i32 {
    fn from(code: ExitCode) -> (r: i32) {
        match code {
            ExitCode::Success => 0,
            ExitCode::NotFound => 2,
            ExitCode::PermissionDenied => 3,
            ExitCode::InvalidInput => 4,
            ExitCode::Internal => 5,
        }
    }
}

impl vstd::std_specs::convert::FromSpecImpl<ExitCode> for i32 {
    open spec fn obeys_from_spec() -> bool {
        true
    }

    open spec fn from_spec(code: ExitCode) -> i32 {
        exit_number(code) as i32
    }
}

} // verus!
