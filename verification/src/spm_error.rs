//! Errors of a scanning probe controller.
use vstd::prelude::*;

verus! {

/// Errors of a scanning probe controller and of the routines that drive it.
#[derive(Debug)]
pub enum SpmError {
    /// Network or I/O failure.
    Io { source: std::io::Error, context: String },
    /// The operation timed out.
    Timeout(String),
    /// A malformed response or a type mismatch.
    Protocol(String),
    /// The controller reported an error with this code.
    Hardware { code: i32, message: String },
    /// A workflow step could not proceed.
    Workflow(String),
    /// A routine refused to continue.
    Routine(String),
    /// The controller lacks the capability.
    Unsupported(String),
    /// A stop was requested.
    ShutdownRequested,
}

} // verus!
