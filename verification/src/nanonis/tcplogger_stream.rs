//! Frames of the TCP Logger data stream.
//!
//! A frame is an 18-byte header (channel count `u32`, oversampling `f32`,
//! counter `u64`, logger state `u16`, all big-endian) followed by one
//! big-endian `f32` per channel. Reading the socket is the caller's part;
//! this module decodes the bytes.
use crate::lib_old::NanonisError;
use crate::nanonis::be::{dec_u16, dec_u32, dec_u64, read_u16, read_u32, read_u64};
use vstd::prelude::*;

verus! {

/// Size of a frame header in bytes.
pub const FRAME_HEADER_SIZE: usize = 18;

/// State of the TCP Logger module.
#[derive(Debug, Clone, Copy, PartialEq, Eq, Structural)]
pub enum TCPLogStatus {
    Disconnected,
    Idle,
    Start,
    Stop,
    Running,
    TCPConnect,
    TCPDisconnect,
    BufferOverflow,
}

/// The state that the logger reports with `code`, if any.
pub open spec fn status_of(code: int) -> Option<TCPLogStatus> {
    if code == 0 {
        Some(TCPLogStatus::Disconnected)
    } else if code == 1 {
        Some(TCPLogStatus::Idle)
    } else if code == 2 {
        Some(TCPLogStatus::Start)
    } else if code == 3 {
        Some(TCPLogStatus::Stop)
    } else if code == 4 {
        Some(TCPLogStatus::Running)
    } else if code == 5 {
        Some(TCPLogStatus::TCPConnect)
    } else if code == 6 {
        Some(TCPLogStatus::TCPDisconnect)
    } else if code == 7 {
        Some(TCPLogStatus::BufferOverflow)
    } else {
        None
    }
}

impl TCPLogStatus {
    /// The state with wire code `code`; codes run from 0 to 7.
    pub fn from_code(code: i32) -> (r: Option<TCPLogStatus>)
        ensures
            r == status_of(code as int),
    {
        match code {
            0 => Some(TCPLogStatus::Disconnected),
            1 => Some(TCPLogStatus::Idle),
            2 => Some(TCPLogStatus::Start),
            3 => Some(TCPLogStatus::Stop),
            4 => Some(TCPLogStatus::Running),
            5 => Some(TCPLogStatus::TCPConnect),
            6 => Some(TCPLogStatus::TCPDisconnect),
            7 => Some(TCPLogStatus::BufferOverflow),
            _ => None,
        }
    }
}

/// The code each state has on the wire, from the logger's documented
/// numbering: 0 disconnected, 1 idle, 2 start, 3 stop, 4 running, 5 TCP
/// connect, 6 TCP disconnect, 7 buffer overflow.
pub open spec fn wire_code(s: TCPLogStatus) -> int {
    match s {
        TCPLogStatus::Disconnected => 0,
        TCPLogStatus::Idle => 1,
        TCPLogStatus::Start => 2,
        TCPLogStatus::Stop => 3,
        TCPLogStatus::Running => 4,
        TCPLogStatus::TCPConnect => 5,
        TCPLogStatus::TCPDisconnect => 6,
        TCPLogStatus::BufferOverflow => 7,
    }
}

/// Decoding follows the logger's numbering: each state's wire code decodes
/// to that state, exactly the codes 0 to 7 decode to a state, and two codes
/// never decode to the same state.
pub proof fn law_states_decode_by_their_wire_code(code: int, s: TCPLogStatus)
    ensures
        status_of(wire_code(s)) == Some(s),
        (0 <= code <= 7) <==> status_of(code) is Some,
        status_of(code) == Some(s) ==> code == wire_code(s),
        status_of(0) == Some(TCPLogStatus::Disconnected),
        status_of(1) == Some(TCPLogStatus::Idle),
        status_of(2) == Some(TCPLogStatus::Start),
        status_of(3) == Some(TCPLogStatus::Stop),
        status_of(4) == Some(TCPLogStatus::Running),
        status_of(5) == Some(TCPLogStatus::TCPConnect),
        status_of(6) == Some(TCPLogStatus::TCPDisconnect),
        status_of(7) == Some(TCPLogStatus::BufferOverflow),
{
}

/// A frame header decodes its state field by the logger's numbering: the
/// state read is the one whose wire code the last two bytes hold.
pub proof fn law_header_state_is_the_coded_state(header: Seq<u8>, s: TCPLogStatus)
    requires
        header.len() == FRAME_HEADER_SIZE,
        header_state_code(header) as int == wire_code(s),
    ensures
        status_of(header_state_code(header) as int) == Some(s),
{
}

/// The header of a stream frame. `oversampling` is the bit pattern of an
/// `f32`.
#[derive(Debug, Clone, Copy)]
pub struct FrameHeader {
    pub num_channels: u32,
    pub oversampling: u32,
    pub counter: u64,
    pub state: TCPLogStatus,
}

/// One frame of the stream: its counter and one sample per channel, each
/// the bit pattern of an `f32`.
#[derive(Debug, Clone)]
pub struct SignalFrame {
    pub counter: u64,
    pub data: Vec<u32>,
}

/// The state code in a header's last two bytes.
pub open spec fn header_state_code(h: Seq<u8>) -> u16 {
    dec_u16(h.subrange(16, 18))
}

/// Decode a frame header. A state code outside 0 to 7 is a protocol error.
pub fn parse_frame_header(header: &[u8]) -> (r: Result<FrameHeader, NanonisError>)
    requires
        header@.len() == FRAME_HEADER_SIZE,
    ensures
        match status_of(header_state_code(header@) as int) {
            Some(s) => r matches Ok(h) && h.num_channels == dec_u32(header@) && h.oversampling
                == dec_u32(header@.subrange(4, 8)) && h.counter == dec_u64(
                header@.subrange(8, 16),
            ) && h.state == s,
            None => r matches Err(NanonisError::Protocol(m)) && m@ == "Invalid Status value"@,
        },
{
    let num_channels = read_u32(header);
    let oversampling_bytes = vstd::slice::slice_subrange(header, 4, 8);
    let oversampling = read_u32(oversampling_bytes);
    let counter_bytes = vstd::slice::slice_subrange(header, 8, 16);
    let counter = read_u64(counter_bytes);
    let state_bytes = vstd::slice::slice_subrange(header, 16, 18);
    let state_val = read_u16(state_bytes);
    proof {
        assert(oversampling_bytes@ =~= header@.subrange(4, 8));
        assert(counter_bytes@ =~= header@.subrange(8, 16));
        assert(state_bytes@ =~= header@.subrange(16, 18));
    }
    match TCPLogStatus::from_code(state_val as i32) {
        Some(state) => Ok(FrameHeader { num_channels, oversampling, counter, state }),
        None => {
            proof {
                reveal_strlit("Invalid Status value");
            }
            Err(NanonisError::Protocol(String::from_str("Invalid Status value")))
        },
    }
}

/// Bytes of the data block that follows a header announcing `num_channels`
/// channels: four per channel. The count is computed in `u32`, so a count
/// whose byte size overflows it is ruled out.
pub fn frame_data_size(num_channels: u32) -> (r: usize)
    requires
        num_channels as int * 4 <= u32::MAX,
    ensures
        r == num_channels as int * 4,
{
    (num_channels * 4) as usize
}

/// The samples of a data block: one big-endian 32-bit pattern per channel.
pub open spec fn samples_of(data: Seq<u8>, n: nat) -> Seq<u32> {
    Seq::new(n, |i: int| dec_u32(data.subrange(4 * i, 4 * i + 4)))
}

/// Decode the data block that follows `header`.
pub fn parse_frame_data(header: &FrameHeader, data: &[u8]) -> (r: SignalFrame)
    requires
        data@.len() == header.num_channels as int * 4,
    ensures
        r.counter == header.counter,
        r.data@ == samples_of(data@, header.num_channels as nat),
{
    let n = header.num_channels;
    let len = data.len();
    let mut values: Vec<u32> = Vec::new();
    let mut i: u32 = 0;
    while i < n
        invariant
            i <= n,
            n == header.num_channels,
            data@.len() == n as int * 4,
            len == data@.len(),
            values@ =~= samples_of(data@, n as nat).take(i as int),
        decreases n - i,
    {
        let start: usize = (i as usize) * 4;
        let chunk = vstd::slice::slice_subrange(data, start, start + 4);
        let v = read_u32(chunk);
        proof {
            assert(chunk@ =~= data@.subrange(4 * i, 4 * i + 4));
        }
        values.push(v);
        i = i + 1;
    }
    proof {
        assert(values@ =~= samples_of(data@, n as nat));
    }
    SignalFrame { counter: header.counter, data: values }
}

} // verus!
