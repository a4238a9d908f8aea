//! The tip controller's decision after each monitoring pass, and its
//! statistics.
use crate::policy::PolicyDecision;
use vstd::prelude::*;

verus! {

/// System statistics for monitoring controller and policy performance
#[derive(Debug, Clone, Copy)]
pub struct SystemStats {
    pub total_approaches: u32,
    pub positions_visited: usize,
    pub actions_executed: usize,
}

/// What the control loop does after a monitoring pass.
#[derive(Debug, Clone, Copy, PartialEq, Eq, Structural)]
pub enum LoopAction {
    /// The recovery actions ran after a bad signal: keep checking.
    ContinueBadLoop,
    /// The good-signal actions ran: keep monitoring for stability.
    ContinueStabilityLoop,
    /// The signal is stable: the process is complete.
    Halt,
}

/// The loop's next move for a policy decision: a bad signal runs the
/// recovery sequence and checks again, a good one runs the good-signal
/// actions and keeps watching, a stable one halts.
pub fn loop_action(decision: PolicyDecision) -> (r: LoopAction)
    ensures
        decision == PolicyDecision::Bad ==> r == LoopAction::ContinueBadLoop,
        decision == PolicyDecision::Good ==> r == LoopAction::ContinueStabilityLoop,
        decision == PolicyDecision::Stable ==> r == LoopAction::Halt,
{
    match decision {
        PolicyDecision::Bad => LoopAction::ContinueBadLoop,
        PolicyDecision::Good => LoopAction::ContinueStabilityLoop,
        PolicyDecision::Stable => LoopAction::Halt,
    }
}

} // verus!
