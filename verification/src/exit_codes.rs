//! Process exit statuses, grep-style: a match, no match, or an error.

use vstd::prelude::*;

verus! {

/// How a run ended.
#[derive(Copy, Clone, Debug, PartialEq, Eq, Structural)]
pub enum ExitCode {
    Match,
    NoMatch,
    Error,
}

/// The status number of each outcome: 0, 1 and 2.
pub open spec fn exit_status(c: ExitCode) -> i32 {
    match c {
        ExitCode::Match => 0,
        ExitCode::NoMatch => 1,
        ExitCode::Error => 2,
    }
}

/// The outcome of a run that finished without error: a match if any line
/// matched.
pub open spec fn outcome_of(any_match: bool) -> ExitCode {
    if any_match {
        ExitCode::Match
    } else {
        ExitCode::NoMatch
    }
}

impl ExitCode {
    /// The process exit status.
    pub fn as_i32(self) -> (r: i32)
        ensures
            r == exit_status(self),
    {
        match self {
            ExitCode::Match => 0,
            ExitCode::NoMatch => 1,
            ExitCode::Error => 2,
        }
    }
}

impl From<bool> for ExitCode {
    fn from(any_match: bool) -> (r: ExitCode) {
        if any_match {
            ExitCode::Match
        } else {
            ExitCode::NoMatch
        }
    }
}

impl vstd::std_specs::convert::FromSpecImpl<bool> for ExitCode {
    open spec fn obeys_from_spec() -> bool {
        true
    }

    open spec fn from_spec(any_match: bool) -> ExitCode {
        outcome_of(any_match)
    }
}

} // verus!
