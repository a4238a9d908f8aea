//! Z drift operations and their defaults.
use crate::text::{append_decimal, decimal_text};
use vstd::prelude::*;
use vstd::string::*;

verus! {

/// Which drift operation to run.
#[derive(Debug, Clone, Copy, PartialEq, Eq, Structural)]
pub enum DriftOp {
    /// Report the compensation velocities and which axes have saturated.
    /// Changes nothing.
    Status,
    /// Fit a Z drift rate from one burst. Changes nothing.
    Measure,
    /// Measure in bursts, correcting the Z velocity after each, and leave
    /// compensation switched on.
    Compensate,
    /// Switch compensation off.
    Off,
}

impl Default for DriftOp {
    fn default() -> (r: Self)
        ensures
            r == DriftOp::Status,
    {
        DriftOp::Status
    }
}

impl DriftOp {
    /// The operation's name, as configurations spell it.
    pub open spec fn name_text(self) -> Seq<char> {
        match self {
            DriftOp::Status => "status"@,
            DriftOp::Measure => "measure"@,
            DriftOp::Compensate => "compensate"@,
            DriftOp::Off => "off"@,
        }
    }

    /// Whether the operation measures drift, and so reads Z over time.
    pub open spec fn measures_spec(self) -> bool {
        self == DriftOp::Measure || self == DriftOp::Compensate
    }

    pub fn measures(self) -> (r: bool)
        ensures
            r == self.measures_spec(),
    {
        match self {
            DriftOp::Measure | DriftOp::Compensate => true,
            _ => false,
        }
    }

    /// Whether the run reads the compensation status again at its end:
    /// after changing it (`Compensate`, `Off`), never after only looking.
    pub fn reads_status_after(self) -> (r: bool)
        ensures
            r == (self == DriftOp::Compensate || self == DriftOp::Off),
    {
        match self {
            DriftOp::Compensate | DriftOp::Off => true,
            _ => false,
        }
    }

    pub fn name(self) -> (r: &'static str)
        ensures
            r@ == self.name_text(),
    {
        match self {
            DriftOp::Status => "status",
            DriftOp::Measure => "measure",
            DriftOp::Compensate => "compensate",
            DriftOp::Off => "off",
        }
    }
}

/// Length of one measurement burst, in milliseconds.
pub fn default_window_ms() -> (r: u64)
    ensures
        r == 5_000,
{
    5_000
}

/// Bursts a compensation spends.
pub fn default_bursts() -> (r: usize)
    ensures
        r == 5,
{
    5
}

/// Timed reads per window when Z is polled.
pub fn default_samples() -> (r: usize)
    ensures
        r == 16,
{
    16
}

/// Polling is refused unless asked for.
pub fn default_true() -> (r: bool)
    ensures
        r,
{
    true
}

/// When a status was taken.
#[derive(Debug, Clone, Copy, PartialEq, Eq, Structural)]
pub enum StatusWhen {
    Before,
    After,
}

/// `"the data stream does not carry Z (signal {z}); add it to the TCP
/// channel mapping and reconnect, or allow polling"`.
pub open spec fn missing_stream_text(z: nat) -> Seq<char> {
    "the data stream does not carry Z (signal "@ + decimal_text(z)
        + "); add it to the TCP channel mapping and reconnect, or allow polling"@
}

/// Why a run cannot start, if it cannot: an operation that measures, when
/// the stream is required, needs the stream to carry Z (signal `z`).
pub fn stream_refusal(op: DriftOp, require_stream: bool, streams_z: bool, z: u8) -> (r: Option<
    String,
>)
    ensures
        (op.measures_spec() && require_stream && !streams_z) ==> (r matches Some(m) && m@
            == missing_stream_text(z as nat)),
        !(op.measures_spec() && require_stream && !streams_z) ==> r is None,
{
    if op.measures() && require_stream && !streams_z {
        let mut m = String::from_str("the data stream does not carry Z (signal ");
        append_decimal(&mut m, z as u64);
        m.append("); add it to the TCP channel mapping and reconnect, or allow polling");
        Some(m)
    } else {
        None
    }
}

} // verus!
