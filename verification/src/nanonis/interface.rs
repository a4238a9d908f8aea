//! Universal SPM concepts shared by every controller interface.
use vstd::prelude::*;

verus! {

/// Universal SPM pulse modes - concepts that apply to any SPM system
#[derive(Debug, Clone, Copy, PartialEq, Eq, Structural)]
pub enum PulseMode {
    /// Keep current bias voltage unchanged
    Keep,
    /// Add voltage to current bias (relative)
    Relative,
    /// Set bias to absolute voltage value
    Absolute,
}

impl PulseMode {
    /// The code of the mode on the wire.
    pub open spec fn code(self) -> u16 {
        match self {
            PulseMode::Keep => 0,
            PulseMode::Relative => 1,
            PulseMode::Absolute => 2,
        }
    }
}

impl From<PulseMode> for u16 {
    fn from(mode: PulseMode) -> (r: u16) {
        match mode {
            PulseMode::Keep => 0,
            PulseMode::Relative => 1,
            PulseMode::Absolute => 2,
        }
    }
}

impl vstd::std_specs::convert::FromSpecImpl<PulseMode> for u16 {
    open spec fn obeys_from_spec() -> bool {
        true
    }

    open spec fn from_spec(mode: PulseMode) -> u16 {
        mode.code()
    }
}

/// Universal Z-controller hold states for SPM operations
#[derive(Debug, Clone, Copy, PartialEq, Eq, Structural)]
pub enum ZControllerHold {
    /// Don't modify Z-controller state
    NoChange,
    /// Hold Z-controller during operation
    Hold,
    /// Release/disable Z-controller during operation
    Release,
}

impl ZControllerHold {
    /// The code of the hold state on the wire.
    pub open spec fn code(self) -> u16 {
        match self {
            ZControllerHold::NoChange => 0,
            ZControllerHold::Hold => 1,
            ZControllerHold::Release => 2,
        }
    }
}

impl From<ZControllerHold> for u16 {
    fn from(hold: ZControllerHold) -> (r: u16) {
        match hold {
            ZControllerHold::NoChange => 0,
            ZControllerHold::Hold => 1,
            ZControllerHold::Release => 2,
        }
    }
}

impl vstd::std_specs::convert::FromSpecImpl<ZControllerHold> for u16 {
    open spec fn obeys_from_spec() -> bool {
        true
    }

    open spec fn from_spec(hold: ZControllerHold) -> u16 {
        hold.code()
    }
}

} // verus!
