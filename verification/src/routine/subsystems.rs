//! Parameters of the motor subsystem.
use crate::config::DEFAULT_APPROACH_TIMEOUT_MS;
use vstd::prelude::*;

verus! {

/// Parameters for a reposition: withdraw, step the coarse motors, settle,
/// re-approach (calibrated), settle again.
#[derive(Debug, Clone, Copy)]
pub struct RepositionSpec {
    /// Coarse motor steps in x.
    pub x_steps: i16,
    /// Coarse motor steps in y.
    pub y_steps: i16,
    /// Z retraction steps before the lateral move.
    pub z_retract: i16,
    /// Settle between the motor move and the re-approach (ms).
    pub post_move_settle_ms: u64,
    /// Settle after the re-approach (ms).
    pub post_approach_settle_ms: u64,
    /// Budget for each of the two approaches in the re-approach (ms).
    pub approach_timeout_ms: u64,
}

impl Default for RepositionSpec {
    fn default() -> (r: Self)
        ensures
            r.x_steps == 0,
            r.y_steps == 0,
            r.z_retract == -3,
            r.post_move_settle_ms == 500,
            r.post_approach_settle_ms == 500,
            r.approach_timeout_ms == DEFAULT_APPROACH_TIMEOUT_MS,
    {
        Self {
            x_steps: 0,
            y_steps: 0,
            z_retract: -3,
            post_move_settle_ms: 500,
            post_approach_settle_ms: 500,
            approach_timeout_ms: DEFAULT_APPROACH_TIMEOUT_MS,
        }
    }
}

} // verus!
