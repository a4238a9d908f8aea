//! Events the harness writes on behalf of whichever routine it runs.
use vstd::prelude::*;

verus! {

/// A guarded body failed and so did its cleanup. The body's error is what
/// the run reports; this is the only record of the cleanup's.
#[derive(Clone, Debug)]
pub struct CleanupFailedEvent {
    pub body_error: String,
    pub cleanup_error: String,
}

/// The routine panicked. The tip was withdrawn and the controller torn down
/// before the panic was re-raised.
#[derive(Clone, Debug)]
pub struct PanickedEvent {
    pub routine: String,
    pub message: String,
}

/// A settings file was loaded into the controller during the run.
#[derive(Clone, Debug)]
pub struct SettingsLoadedEvent {
    /// The path as the routine gave it.
    pub path: String,
}

/// A layout file was loaded into the controller during the run.
#[derive(Clone, Debug)]
pub struct LayoutLoadedEvent {
    /// The path as the routine gave it.
    pub path: String,
}

} // verus!
