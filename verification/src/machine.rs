//! Execution priorities of action sequences.
use vstd::prelude::*;

verus! {

/// Execution priority levels for action sequences
#[derive(Debug, Clone, Copy, PartialEq, Eq, Structural)]
pub enum ExecutionPriority {
    Normal,
    High,
    Emergency,
}

} // verus!
