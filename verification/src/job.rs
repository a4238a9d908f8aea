//! Long-running processes that end in a result.
use crate::lib_old::NanonisError;
use std::time::Duration;
use vstd::prelude::*;

verus! {

/// A long-running process that can succeed, fail, or time out.
///
/// Jobs are autonomous processes such as tip controllers, scans or
/// monitoring loops: each runs for a while and produces a result.
pub trait Job {
    /// What a successful run returns.
    type Output;

    /// Run the job within `timeout`: `Ok` with the output when it completes,
    /// `Err` when it fails or times out.
    fn run(&mut self, timeout: Duration) -> Result<Self::Output, NanonisError>;
}

} // verus!
