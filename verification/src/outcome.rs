//! Outcome classification for one execution call, and the host's errors.

use vstd::prelude::*;
use vstd::string::*;

verus! {

/// How one execution call against a live context ended: the script either
/// completed, or threw, in which case the engine supplies a human-readable
/// message retrieved from the still-live context.
#[derive(Debug, PartialEq, Eq)]
pub enum ExecutionOutcome {
    Success,
    Exception(String),
}

/// An error of the host itself, detected on its side of the boundary.
#[derive(Debug, PartialEq, Eq, Structural, Clone, Copy)]
pub enum HostError {
    /// Text destined for the boundary holds a nul, which nul-terminated
    /// transport cannot carry; detected before any foreign call.
    EncodingError,
    /// The boundary's own contract was broken: the engine reported an
    /// exception but supplied no message for it.
    BoundaryError,
}

impl HostError {
    /// A fixed diagnostic text for each error.
    pub fn describe(&self) -> (s: String)
        ensures
            *self == HostError::EncodingError ==> s@ == "embedded nul in text for the engine"@,
            *self == HostError::BoundaryError ==> s@ == "engine boundary contract violated"@,
    {
        match self {
            HostError::EncodingError => String::from_str("embedded nul in text for the engine"),
            HostError::BoundaryError => String::from_str("engine boundary contract violated"),
        }
    }
}

/// Classify the boundary's report of one execution call. The engine signals
/// an exception with a zero result and nothing else; the message must then be
/// fetched separately, and a missing message is a broken boundary, not an
/// outcome.
pub fn outcome_from_boundary(code: i32, message: Option<String>) -> (r: Result<
    ExecutionOutcome,
    HostError,
>)
    ensures
        code != 0 ==> r == Ok::<ExecutionOutcome, HostError>(ExecutionOutcome::Success),
        code == 0 ==> match message {
            Some(m) => r == Ok::<ExecutionOutcome, HostError>(ExecutionOutcome::Exception(m)),
            None => r == Err::<ExecutionOutcome, HostError>(HostError::BoundaryError),
        },
{
    if code != 0 {
        Ok(ExecutionOutcome::Success)
    } else {
        match message {
            Some(m) => Ok(ExecutionOutcome::Exception(m)),
            None => Err(HostError::BoundaryError),
        }
    }
}

} // verus!
