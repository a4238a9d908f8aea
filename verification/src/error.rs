//! Outcomes and errors of a tip controller run.
use crate::lib_old::NanonisError;
use vstd::prelude::*;

verus! {

/// Outcome of a successful tip controller run
#[derive(Debug, Clone, Copy, PartialEq, Eq, Structural)]
pub enum RunOutcome {
    /// Tip preparation completed (tip reached stable state)
    Completed,
    /// User requested shutdown (Ctrl+C or GUI stop)
    StoppedByUser,
}

/// Error type for the tip controller
#[derive(Debug)]
pub enum Error {
    /// Underlying Nanonis communication error
    Nanonis(NanonisError),
    /// Graceful shutdown was requested (internal, caught by run())
    Shutdown,
    /// Maximum cycle count exceeded
    CycleLimit(u32),
    /// Maximum duration exceeded
    TimedOut(std::time::Duration),
    /// Configuration validation error
    Config(String),
}

impl From<NanonisError> for Error {
    fn from(e: NanonisError) -> (r: Error) {
        Error::Nanonis(e)
    }
}

impl vstd::std_specs::convert::FromSpecImpl<NanonisError> for Error {
    open spec fn obeys_from_spec() -> bool {
        true
    }

    open spec fn from_spec(e: NanonisError) -> Error {
        Error::Nanonis(e)
    }
}

} // verus!
