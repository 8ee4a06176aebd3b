//! Errors of the library.
use vstd::prelude::*;

verus! {

/// What can make a clip, or one of its steps, fail.
#[derive(Clone, Debug, PartialEq, Eq)]
pub enum Error {
    /// A scope is closed while none is open, or left open at the end.
    UnbalancedScopes,
    /// A variable is declared as an alias of a handle never declared.
    InvalidAlias,
    /// The writer has no handle left to give to a new variable.
    TooManyVars,
    /// The requested start time lies outside the source's time range.
    InvalidStartTime(u64),
    /// The requested end time lies outside the source's time range.
    InvalidEndTime(u64),
    /// The requested start time lies after the requested end time.
    InvalidTimeRange(u64, u64),
    /// The signal filter selects no signal.
    NoMatchingSignals,
    /// The signal pattern is not a valid regular expression.
    InvalidRegex(String),
}

} // verus!
