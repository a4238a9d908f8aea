//! How routine runs end and how the harness leaves the tip.
pub mod events;
pub mod rt;
pub mod subsystems;

use crate::text::{decimal_string, decimal_text};
use vstd::prelude::*;

verus! {

/// How a routine run ended.
///
/// Everything here is an expected ending, not an error: a stop request or an
/// exhausted budget is a normal way for lab automation to finish.
#[derive(Debug, Clone, Copy, PartialEq, Eq)]
pub enum Outcome {
    /// The routine reached its goal.
    Completed,
    /// A shutdown was requested (Ctrl+C, GUI stop button).
    StoppedByUser,
    /// The cycle budget ran out first.
    CycleLimit(usize),
    /// The time budget ran out first.
    TimedOut(std::time::Duration),
}

impl Outcome {
    /// The outcome's name as the log spells it.
    pub open spec fn tag_text(self) -> Seq<char> {
        match self {
            Outcome::Completed => "completed"@,
            Outcome::StoppedByUser => "stopped_by_user"@,
            Outcome::CycleLimit(_) => "cycle_limit"@,
            Outcome::TimedOut(_) => "timed_out"@,
        }
    }

    /// The outcome's name as the log spells it (`completed`,
    /// `stopped_by_user`, `cycle_limit`, `timed_out`), without the detail
    /// that a budget outcome carries.
    pub fn log_tag(&self) -> (r: &'static str)
        ensures
            r@ == self.tag_text(),
    {
        match self {
            Outcome::Completed => "completed",
            Outcome::StoppedByUser => "stopped_by_user",
            Outcome::CycleLimit(_) => "cycle_limit",
            Outcome::TimedOut(_) => "timed_out",
        }
    }

    /// The detail a cycle-limit outcome carries in the log: the cycle count
    /// in decimal. The time of a timed-out outcome is rounded to whole
    /// seconds through floating point, by the caller; the other outcomes
    /// carry none.
    pub fn cycle_detail(&self) -> (r: Option<String>)
        ensures
            match self {
                Outcome::CycleLimit(n) => r matches Some(t) && t@ == decimal_text(*n as nat),
                _ => r is None,
            },
    {
        match self {
            Outcome::CycleLimit(n) => Some(decimal_string(*n as u64)),
            _ => None,
        }
    }
}

/// How the harness leaves the tip when a routine ends, whatever the outcome.
#[derive(Debug, Clone, Copy, PartialEq, Eq, Structural)]
pub enum ExitPolicy {
    /// Withdraw, then back the coarse motor off this many steps.
    Withdraw { retract_steps: u16 },
    /// Leave Z and the coarse motor exactly as the routine left them.
    LeaveInPlace,
}

impl Default for ExitPolicy {
    /// Withdraw with no coarse retract, the safe choice for a routine that
    /// has not thought about it.
    fn default() -> (r: Self)
        ensures
            r == (ExitPolicy::Withdraw { retract_steps: 0 }),
    {
        ExitPolicy::Withdraw { retract_steps: 0 }
    }
}

} // verus!
