//! Polarity settings of the pulse and sweep configuration.
use vstd::prelude::*;

verus! {

#[derive(Debug, Clone, Copy, PartialEq, Eq, Structural)]
pub enum BiasSweepPolarity {
    /// Sweep from upper_bound toward lower_bound (toward zero)
    Positive,
    /// Sweep from -upper_bound toward -lower_bound (toward zero)
    Negative,
    /// Two sweeps: positive first (toward zero), then negative (toward zero)
    Both,
}

impl Default for BiasSweepPolarity {
    fn default() -> (r: Self)
        ensures
            r == BiasSweepPolarity::Both,
    {
        BiasSweepPolarity::Both
    }
}

#[derive(Debug, Clone, Copy, PartialEq, Eq, Structural)]
pub enum PolaritySign {
    Positive,
    Negative,
}

impl Default for PolaritySign {
    fn default() -> (r: Self)
        ensures
            r == PolaritySign::Positive,
    {
        PolaritySign::Positive
    }
}

impl PolaritySign {
    /// The other sign.
    pub open spec fn flipped(self) -> PolaritySign {
        match self {
            PolaritySign::Positive => PolaritySign::Negative,
            PolaritySign::Negative => PolaritySign::Positive,
        }
    }

    pub fn opposite(&self) -> (r: Self)
        ensures
            r == self.flipped(),
            r != *self,
    {
        match self {
            PolaritySign::Positive => PolaritySign::Negative,
            PolaritySign::Negative => PolaritySign::Positive,
        }
    }
}

/// Flipping the sign twice gives the sign back.
pub proof fn law_opposite_is_an_involution(sign: PolaritySign)
    ensures
        sign.flipped().flipped() == sign,
        sign.flipped() != sign,
{
}

#[derive(Debug, Clone, Copy)]
pub struct RandomPolaritySwitch {
    pub enabled: bool,
    pub switch_every_n_pulses: u32,
}

/// A polarity switch that a configuration names is on unless it says
/// otherwise.
pub fn default_enabled() -> (r: bool)
    ensures
        r,
{
    true
}

} // verus!
