//! Types of the TCP client.
use vstd::prelude::*;

verus! {

/// Nanonis signal index (0-127) for TCP protocol
///
/// Represents a signal index as used in the Nanonis TCP protocol.
/// This is the low-level protocol type, separate from the high-level signal
/// types.
#[derive(Debug, Clone, Copy, PartialEq, Eq, Hash, Structural)]
pub struct SignalIndex(u8);

impl View for SignalIndex {
    type V = u8;

    closed spec fn view(&self) -> u8 {
        self.0
    }
}

impl SignalIndex {
    /// The index that holds `index`.
    pub closed spec fn from_raw(index: u8) -> SignalIndex {
        SignalIndex(index)
    }

    /// The index made from `index` holds `index`.
    pub broadcast proof fn lemma_from_raw(index: u8)
        ensures
            #[trigger] SignalIndex::from_raw(index)@ == index,
    {
    }

    /// Create a new SignalIndex
    pub fn new(index: u8) -> (r: Self)
        ensures
            r@ == index,
    {
        Self(index)
    }

    /// Get the raw index value
    pub fn get(&self) -> (r: u8)
        ensures
            r == self@,
    {
        self.0
    }
}

// Conversion for protocol usage (i32 is what Nanonis protocol uses)
impl From<SignalIndex> for i32 {
    fn from(idx: SignalIndex) -> (r: i32) {
        idx.0 as i32
    }
}

impl vstd::std_specs::convert::FromSpecImpl<SignalIndex> for i32 {
    open spec fn obeys_from_spec() -> bool {
        true
    }

    open spec fn from_spec(idx: SignalIndex) -> i32 {
        idx@ as i32
    }
}

// Allow creating from u8
impl From<u8> for SignalIndex {
    fn from(index: u8) -> (r: SignalIndex) {
        SignalIndex(index)
    }
}

impl vstd::std_specs::convert::FromSpecImpl<u8> for SignalIndex {
    open spec fn obeys_from_spec() -> bool {
        true
    }

    open spec fn from_spec(index: u8) -> SignalIndex {
        SignalIndex::from_raw(index)
    }
}

} // verus!
