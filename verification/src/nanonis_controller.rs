//! The decisions of the Nanonis hardware controller that stand apart from
//! the instrument: how a 3-D motor displacement becomes moves, how signal
//! indices are narrowed for the wire, which oscilloscope data is asked for,
//! and the bookkeeping of the TCP data stream (configured channels, channel
//! mapping, sample collection).
use crate::spm_error::SpmError;
use crate::text::{append_decimal, decimal_text};
use std::collections::HashMap;
use vstd::prelude::*;

verus! {

/// Direction of a coarse motor move.
#[derive(Debug, Clone, Copy, PartialEq, Eq, Structural)]
pub enum MotorDirection {
    XPlus,
    XMinus,
    YPlus,
    YMinus,
    ZPlus,
    ZMinus,
}

/// A signed displacement in motor steps along each axis.
#[derive(Debug, Clone, Copy, PartialEq, Eq, Structural)]
pub struct MotorDisplacement {
    pub x: i16,
    pub y: i16,
    pub z: i16,
}

/// One coarse move: a direction and a number of steps.
#[derive(Debug, Clone, Copy, PartialEq, Eq, Structural)]
pub struct MotorMove {
    pub direction: MotorDirection,
    pub steps: u16,
}

/// The size of `d`, in steps.
pub open spec fn step_count(d: i16) -> u16 {
    (if d < 0 {
        -d
    } else {
        d as int
    }) as u16
}

/// The move along one axis: none for a zero displacement, else `steps`
/// steps towards the side that the sign picks.
pub open spec fn axis_move(d: i16, positive: MotorDirection, negative: MotorDirection) -> Seq<
    MotorMove,
> {
    if d == 0 {
        Seq::empty()
    } else {
        seq![
            MotorMove {
                direction: if d > 0 {
                    positive
                } else {
                    negative
                },
                steps: step_count(d),
            },
        ]
    }
}

/// The moves of a displacement: x, then y, then z, skipping axes that do
/// not move.
pub open spec fn moves_for(d: MotorDisplacement) -> Seq<MotorMove> {
    axis_move(d.x, MotorDirection::XPlus, MotorDirection::XMinus) + axis_move(
        d.y,
        MotorDirection::YPlus,
        MotorDirection::YMinus,
    ) + axis_move(d.z, MotorDirection::ZPlus, MotorDirection::ZMinus)
}

fn push_axis_move(moves: &mut Vec<MotorMove>, d: i16, positive: MotorDirection, negative: MotorDirection)
    ensures
        final(moves)@ == old(moves)@ + axis_move(d, positive, negative),
{
    if d != 0 {
        let direction = if d > 0 {
            positive
        } else {
            negative
        };
        let steps: u16 = if d == i16::MIN {
            32768u16
        } else if d < 0 {
            (-d) as u16
        } else {
            d as u16
        };
        moves.push(MotorMove { direction, steps });
        proof {
            assert(final(moves)@ =~= old(moves)@ + axis_move(d, positive, negative));
        }
    } else {
        proof {
            assert(moves@ =~= old(moves)@ + axis_move(d, positive, negative));
        }
    }
}

/// The coarse moves that carry out a 3-D displacement, axis by axis.
pub fn motor_moves(displacement: MotorDisplacement) -> (r: Vec<MotorMove>)
    ensures
        r@ == moves_for(displacement),
{
    let mut moves: Vec<MotorMove> = Vec::new();
    push_axis_move(&mut moves, displacement.x, MotorDirection::XPlus, MotorDirection::XMinus);
    push_axis_move(&mut moves, displacement.y, MotorDirection::YPlus, MotorDirection::YMinus);
    push_axis_move(&mut moves, displacement.z, MotorDirection::ZPlus, MotorDirection::ZMinus);
    proof {
        assert(moves@ =~= moves_for(displacement));
    }
    moves
}

/// The signed steps that `moves` make along one axis.
pub open spec fn net_steps(moves: Seq<MotorMove>, positive: MotorDirection, negative: MotorDirection) -> int
    decreases moves.len(),
{
    if moves.len() == 0 {
        0
    } else {
        let m = moves.last();
        net_steps(moves.drop_last(), positive, negative) + if m.direction == positive {
            m.steps as int
        } else if m.direction == negative {
            -(m.steps as int)
        } else {
            0
        }
    }
}

proof fn lemma_net_steps_concat(a: Seq<MotorMove>, b: Seq<MotorMove>, positive: MotorDirection, negative: MotorDirection)
    ensures
        net_steps(a + b, positive, negative) == net_steps(a, positive, negative) + net_steps(b, positive, negative),
    decreases b.len(),
{
    if b.len() > 0 {
        lemma_net_steps_concat(a, b.drop_last(), positive, negative);
        assert((a + b).drop_last() =~= a + b.drop_last());
    }
}

/// The moves of a displacement carry it out exactly: along each axis their
/// signed steps add up to the displacement, and no move is empty.
pub proof fn law_moves_carry_out_the_displacement(d: MotorDisplacement)
    ensures
        net_steps(moves_for(d), MotorDirection::XPlus, MotorDirection::XMinus) == d.x,
        net_steps(moves_for(d), MotorDirection::YPlus, MotorDirection::YMinus) == d.y,
        net_steps(moves_for(d), MotorDirection::ZPlus, MotorDirection::ZMinus) == d.z,
        forall|i: int| 0 <= i < moves_for(d).len() ==> #[trigger] moves_for(d)[i].steps > 0,
{
    let ax = axis_move(d.x, MotorDirection::XPlus, MotorDirection::XMinus);
    let ay = axis_move(d.y, MotorDirection::YPlus, MotorDirection::YMinus);
    let az = axis_move(d.z, MotorDirection::ZPlus, MotorDirection::ZMinus);
    let dirs = seq![
        (MotorDirection::XPlus, MotorDirection::XMinus),
        (MotorDirection::YPlus, MotorDirection::YMinus),
        (MotorDirection::ZPlus, MotorDirection::ZMinus),
    ];
    assert forall|k: int| 0 <= k < 3 implies {
        let (p, n) = #[trigger] dirs[k];
        net_steps(moves_for(d), p, n) == net_steps(ax, p, n) + net_steps(ay, p, n) + net_steps(az, p, n)
    } by {
        let (p, n) = dirs[k];
        lemma_net_steps_concat(ax + ay, az, p, n);
        lemma_net_steps_concat(ax, ay, p, n);
    }
    assert(dirs[0] == (MotorDirection::XPlus, MotorDirection::XMinus));
    assert(dirs[1] == (MotorDirection::YPlus, MotorDirection::YMinus));
    assert(dirs[2] == (MotorDirection::ZPlus, MotorDirection::ZMinus));
    reveal_with_fuel(net_steps, 2);
    assert(step_count(d.x) == if d.x < 0 { -d.x } else { d.x as int });
    assert(step_count(d.y) == if d.y < 0 { -d.y } else { d.y as int });
    assert(step_count(d.z) == if d.z < 0 { -d.z } else { d.z as int });
}

/// Which oscilloscope data a read waits for.
#[derive(Debug, Clone, Copy, PartialEq, Eq, Structural)]
pub enum AcquisitionMode {
    /// The data in the buffer now.
    Current,
    /// The data after the next trigger.
    NextTrigger,
    /// The data after two triggers.
    WaitTwoTriggers,
}

impl AcquisitionMode {
    /// The oscilloscope's code for the mode: 0, 1 or 2 in declaration order.
    pub fn data_to_get(self) -> (r: u16)
        ensures
            r == match self {
                AcquisitionMode::Current => 0u16,
                AcquisitionMode::NextTrigger => 1u16,
                AcquisitionMode::WaitTwoTriggers => 2u16,
            },
    {
        match self {
            AcquisitionMode::Current => 0,
            AcquisitionMode::NextTrigger => 1,
            AcquisitionMode::WaitTwoTriggers => 2,
        }
    }
}

/// A signal index as the single-signal read sends it: one byte.
pub fn signal_index_u8(index: u32) -> (r: Result<u8, SpmError>)
    ensures
        index <= 255 ==> (r matches Ok(v) && v == index),
        index > 255 ==> (r matches Err(SpmError::Protocol(m)) && m@ == "Signal index "@
            + decimal_text(index as nat) + " exceeds u8 range (max 255)"@),
{
    if index <= 255 {
        Ok(index as u8)
    } else {
        let mut m = String::from_str("Signal index ");
        append_decimal(&mut m, index as u64);
        m.append(" exceeds u8 range (max 255)");
        Err(SpmError::Protocol(m))
    }
}

/// Where the first index above `i32::MAX` stands, if one does.
pub open spec fn first_beyond_i32(indices: Seq<u32>) -> Option<int>
    decreases indices.len(),
{
    if indices.len() == 0 {
        None
    } else {
        match first_beyond_i32(indices.drop_last()) {
            Some(k) => Some(k),
            None => if indices.last() > i32::MAX {
                Some(indices.len() - 1)
            } else {
                None
            },
        }
    }
}

/// Signal indices as the multi-signal read sends them: `i32` each. The
/// first index that does not fit is reported.
pub fn signal_indices_i32(indices: &[u32]) -> (r: Result<Vec<i32>, SpmError>)
    ensures
        match first_beyond_i32(indices@) {
            None => r matches Ok(v) && v@.len() == indices@.len() && forall|j: int|
                0 <= j < indices@.len() ==> v@[j] == indices@[j],
            Some(k) => r matches Err(SpmError::Protocol(m)) && m@ == "Signal index "@
                + decimal_text(indices@[k] as nat) + " exceeds i32 range"@,
        },
{
    let mut out: Vec<i32> = Vec::new();
    let mut i: usize = 0;
    while i < indices.len()
        invariant
            i <= indices@.len(),
            first_beyond_i32(indices@.take(i as int)) is None,
            out@.len() == i,
            forall|j: int| 0 <= j < i ==> out@[j] == indices@[j],
        decreases indices@.len() - i,
    {
        proof {
            assert(indices@.take(i as int + 1).drop_last() =~= indices@.take(i as int));
        }
        let index = indices[i];
        if index > 2147483647u32 {
            proof {
                assert(first_beyond_i32(indices@.take(i as int + 1)) == Some(i as int));
                lemma_prefix_decides(indices@, i as int + 1);
            }
            let mut m = String::from_str("Signal index ");
            append_decimal(&mut m, index as u64);
            m.append(" exceeds i32 range");
            return Err(SpmError::Protocol(m));
        }
        out.push(index as i32);
        i = i + 1;
    }
    proof {
        assert(indices@.take(i as int) =~= indices@);
    }
    Ok(out)
}

/// Once a prefix has an index beyond `i32::MAX`, the whole sequence has the
/// same first one.
proof fn lemma_prefix_decides(s: Seq<u32>, n: int)
    requires
        0 <= n <= s.len(),
        first_beyond_i32(s.take(n)) is Some,
    ensures
        first_beyond_i32(s) == first_beyond_i32(s.take(n)),
    decreases s.len() - n,
{
    if n < s.len() {
        assert(s.take(n + 1).drop_last() =~= s.take(n));
        lemma_prefix_decides(s, n + 1);
    } else {
        assert(s.take(n) =~= s);
    }
}

/// The number of channels in a data-stream channel list; an empty list is
/// refused before anything is sent to the instrument.
pub fn channel_count(channels: &[i32]) -> (r: Result<u32, SpmError>)
    ensures
        channels@.len() == 0 ==> (r matches Err(SpmError::Protocol(m)) && m@
            == "data_stream_configure: at least one channel is required"@),
        channels@.len() > 0 ==> (r matches Ok(n) && n == channels@.len() as u32),
{
    if channels.len() == 0 {
        Err(SpmError::Protocol(String::from_str("data_stream_configure: at least one channel is required")))
    } else {
        Ok(channels.len() as u32)
    }
}

/// Where the samples of a signal come from.
#[derive(Debug, Clone, Copy, PartialEq, Eq, Structural)]
pub enum SampleSource {
    /// No stream reader runs: poll the signal once per sample.
    Polling,
    /// Read the stream; the signal stands at this position of each frame.
    Stream(usize),
}

/// The bookkeeping of the TCP data stream: how many channels the stream was
/// configured with, where each signal stands in a frame, and whether the
/// controller was torn down.
pub struct StreamBook {
    configured_channel_count: Option<u32>,
    signal_to_data_position: HashMap<u32, usize>,
    torn_down: bool,
}

impl StreamBook {
    /// The channel count that the last configuration recorded.
    pub closed spec fn configured(&self) -> Option<u32> {
        self.configured_channel_count
    }

    /// Signal index to position in a frame.
    pub closed spec fn mapping(&self) -> Map<u32, usize> {
        self.signal_to_data_position@
    }

    /// Whether teardown has begun.
    pub closed spec fn is_torn_down(&self) -> bool {
        self.torn_down
    }

    /// Nothing configured, nothing mapped, not torn down.
    pub fn new() -> (r: Self)
        ensures
            r.configured() is None,
            r.mapping() == Map::<u32, usize>::empty(),
            !r.is_torn_down(),
    {
        StreamBook {
            configured_channel_count: None,
            signal_to_data_position: HashMap::new(),
            torn_down: false,
        }
    }

    /// Replace the mapping from signal index to frame position.
    pub fn set_channel_mapping(&mut self, mapping: HashMap<u32, usize>)
        ensures
            final(self).mapping() == mapping@,
            final(self).configured() == old(self).configured(),
            final(self).is_torn_down() == old(self).is_torn_down(),
    {
        self.signal_to_data_position = mapping;
    }

    /// Record the channel count once the instrument accepted the list.
    pub fn set_channel_count(&mut self, count: u32)
        ensures
            final(self).configured() == Some(count),
            final(self).mapping() == old(self).mapping(),
            final(self).is_torn_down() == old(self).is_torn_down(),
    {
        self.configured_channel_count = Some(count);
    }

    /// The channel count a stream reader is started with: refused when no
    /// list was configured or when it was empty.
    pub fn reader_channel_count(&self) -> (r: Result<u32, SpmError>)
        ensures
            self.configured() is None ==> (r matches Err(SpmError::Protocol(m)) && m@
                == "No channels configured. Call data_stream_configure before start_tcp_reader"@),
            self.configured() == Some(0u32) ==> (r matches Err(SpmError::Protocol(m)) && m@
                == "Channel count is zero. Configure at least one channel"@),
            (self.configured() matches Some(n) && n > 0) ==> (r matches Ok(c) && Some(c) == self.configured()),
    {
        match self.configured_channel_count {
            None => Err(
                SpmError::Protocol(
                    String::from_str(
                        "No channels configured. Call data_stream_configure before start_tcp_reader",
                    ),
                ),
            ),
            Some(0) => Err(
                SpmError::Protocol(
                    String::from_str("Channel count is zero. Configure at least one channel"),
                ),
            ),
            Some(n) => Ok(n),
        }
    }

    /// Where `num_samples` samples of signal `index` come from: none is an
    /// error; without a running stream reader they are polled; with one, the
    /// signal must be mapped to a frame position.
    pub fn sample_source(&self, index: u32, num_samples: usize, streaming: bool) -> (r: Result<
        SampleSource,
        SpmError,
    >)
        ensures
            num_samples == 0 ==> (r matches Err(SpmError::Protocol(m)) && m@
                == "read_signal_samples: num_samples must be > 0"@),
            num_samples > 0 && !streaming ==> r matches Ok(SampleSource::Polling),
            num_samples > 0 && streaming && self.mapping().contains_key(index) ==> (r matches Ok(
                SampleSource::Stream(p),
            ) && p == self.mapping()[index]),
            num_samples > 0 && streaming && !self.mapping().contains_key(index) ==> (r matches Err(
                SpmError::Protocol(m),
            ) && m@ == "Signal index "@ + decimal_text(index as nat)
                + " has no TCP channel mapping. Call set_channel_mapping with a mapping that includes this signal."@),
    {
        broadcast use vstd::std_specs::hash::group_hash_axioms;

        if num_samples == 0 {
            return Err(
                SpmError::Protocol(String::from_str("read_signal_samples: num_samples must be > 0")),
            );
        }
        if !streaming {
            return Ok(SampleSource::Polling);
        }
        match self.signal_to_data_position.get(&index) {
            Some(p) => Ok(SampleSource::Stream(*p)),
            None => {
                let mut m = String::from_str("Signal index ");
                append_decimal(&mut m, index as u64);
                m.append(
                    " has no TCP channel mapping. Call set_channel_mapping with a mapping that includes this signal.",
                );
                Err(SpmError::Protocol(m))
            },
        }
    }

    /// Begin teardown: `true` the first time, when the caller stops the
    /// stream and resets the instrument, `false` on every later call.
    pub fn begin_teardown(&mut self) -> (r: bool)
        ensures
            r == !old(self).is_torn_down(),
            final(self).is_torn_down(),
            final(self).configured() == old(self).configured(),
            final(self).mapping() == old(self).mapping(),
    {
        if self.torn_down {
            false
        } else {
            self.torn_down = true;
            true
        }
    }
}

/// How long to collect `num_samples` stream samples before giving up, in
/// seconds: five, and one more per hundred samples.
pub fn sample_timeout_secs(num_samples: usize) -> (r: u64)
    ensures
        r == 5 + num_samples as int / 100,
{
    5 + (num_samples as u64) / 100
}

/// The values at `position` of the frames that carry one, in frame order.
pub open spec fn values_at(frames: Seq<Seq<u32>>, position: int) -> Seq<u32>
    decreases frames.len(),
{
    if frames.len() == 0 {
        Seq::empty()
    } else {
        let rest = values_at(frames.drop_last(), position);
        if position < frames.last().len() {
            rest.push(frames.last()[position])
        } else {
            rest
        }
    }
}

/// How many of the frames are long enough to carry position `position`.
pub open spec fn frames_carrying(frames: Seq<Seq<u32>>, position: int) -> nat
    decreases frames.len(),
{
    if frames.len() == 0 {
        0
    } else {
        frames_carrying(frames.drop_last(), position) + if 0 <= position < frames.last().len() {
            1nat
        } else {
            0nat
        }
    }
}

/// The samples of a batch are the values at the mapped position: one from
/// each frame that carries it, in frame order. When every frame carries the
/// position, the `j`-th sample is `frames[j][position]`; in any case each
/// sample is the value at that position of some frame, and there are as many
/// as frames that carry it.
pub proof fn law_samples_come_from_the_mapped_position(frames: Seq<Seq<u32>>, position: int)
    requires
        0 <= position,
    ensures
        values_at(frames, position).len() == frames_carrying(frames, position),
        forall|k: int|
            0 <= k < values_at(frames, position).len() ==> exists|j: int|
                0 <= j < frames.len() && position < frames[j].len() && #[trigger] values_at(
                    frames,
                    position,
                )[k] == frames[j][position],
        (forall|j: int| 0 <= j < frames.len() ==> position < #[trigger] frames[j].len()) ==> (
        values_at(frames, position) == Seq::new(frames.len(), |j: int| frames[j][position])),
    decreases frames.len(),
{
    if frames.len() > 0 {
        let d = frames.drop_last();
        law_samples_come_from_the_mapped_position(d, position);
        let vs = values_at(frames, position);
        let dv = values_at(d, position);
        assert forall|k: int| 0 <= k < vs.len() implies exists|j: int|
            0 <= j < frames.len() && position < frames[j].len() && #[trigger] vs[k]
                == frames[j][position] by {
            if k < dv.len() {
                assert(vs[k] == dv[k]);
                let j = choose|j: int| 0 <= j < d.len() && position < d[j].len() && dv[k] == d[j][position];
                assert(frames[j] == d[j]);
            } else {
                assert(vs[k] == frames[frames.len() - 1][position]);
            }
        }
        if forall|j: int| 0 <= j < frames.len() ==> position < #[trigger] frames[j].len() {
            assert forall|j: int| 0 <= j < d.len() implies position < #[trigger] d[j].len() by {
                assert(d[j] == frames[j]);
            }
            assert(frames.last().len() == frames[frames.len() - 1].len());
            assert(vs =~= Seq::new(frames.len(), |j: int| frames[j][position]));
        }
    } else {
        assert(values_at(frames, position) =~= Seq::new(0, |j: int| frames[j][position]));
    }
}

/// The frames' data as sequences.
pub open spec fn frame_views(frames: Seq<Vec<u32>>) -> Seq<Seq<u32>> {
    frames.map_values(|f: Vec<u32>| f@)
}

/// The samples that a batch of new frames adds to `collected` when `wanted`
/// are needed: the values at the signal's position, until enough are there.
pub open spec fn gathered(collected: Seq<u32>, frames: Seq<Seq<u32>>, position: int, wanted: int) -> Seq<u32> {
    let vs = values_at(frames, position);
    let room = wanted - collected.len();
    collected + vs.take(if vs.len() < room { vs.len() as int } else { room })
}

proof fn lemma_values_at_prefix(frames: Seq<Seq<u32>>, position: int, i: int, j: int)
    requires
        0 <= i <= j <= frames.len(),
    ensures
        values_at(frames.take(i), position).len() <= values_at(frames.take(j), position).len(),
        values_at(frames.take(i), position) =~= values_at(frames.take(j), position).take(
            values_at(frames.take(i), position).len() as int,
        ),
    decreases j - i,
{
    if i < j {
        lemma_values_at_prefix(frames, position, i, j - 1);
        assert(frames.take(j).drop_last() =~= frames.take(j - 1));
    }
}

/// Add to `collected` the samples of a batch of new frames: the value at
/// `position` of each frame that has one, stopping once `wanted` samples are
/// there. Frames too short for the position are passed over.
pub fn gather_samples(frames: &[Vec<u32>], position: usize, wanted: usize, collected: &mut Vec<u32>)
    requires
        old(collected)@.len() < wanted,
    ensures
        final(collected)@ == gathered(old(collected)@, frame_views(frames@), position as int, wanted as int),
{
    let ghost fs = frame_views(frames@);
    let ghost start = collected@;
    let mut i: usize = 0;
    while i < frames.len() && collected.len() < wanted
        invariant
            i <= frames@.len(),
            fs == frame_views(frames@),
            start == old(collected)@,
            start.len() < wanted,
            collected@.len() <= wanted,
            collected@ =~= start + values_at(fs.take(i as int), position as int).take(
                collected@.len() - start.len(),
            ),
            collected@.len() < wanted ==> collected@.len() - start.len() == values_at(
                fs.take(i as int),
                position as int,
            ).len(),
            collected@.len() == wanted ==> collected@.len() - start.len() <= values_at(
                fs.take(i as int),
                position as int,
            ).len(),
        decreases frames@.len() - i,
    {
        proof {
            assert(fs.take(i as int + 1).drop_last() =~= fs.take(i as int));
            assert(fs.take(i as int + 1).last() == frames@[i as int]@);
        }
        let frame = &frames[i];
        if position < frame.len() {
            collected.push(frame[position]);
        }
        i = i + 1;
    }
    proof {
        let vs = values_at(fs, position as int);
        lemma_values_at_prefix(fs, position as int, i as int, fs.len() as int);
        assert(fs.take(fs.len() as int) =~= fs);
        if collected@.len() < wanted {
            assert(i == frames@.len());
            assert(fs.take(i as int) =~= fs);
        }
        assert(collected@ =~= gathered(start, fs, position as int, wanted as int));
    }
}

/// Gathering never overshoots: what was collected stays in front, and the
/// batch adds values until `wanted` are there or the frames run out.
pub proof fn law_gathering_keeps_and_never_overshoots(collected: Seq<u32>, frames: Seq<Seq<u32>>, position: int, wanted: int)
    requires
        collected.len() < wanted,
    ensures
        gathered(collected, frames, position, wanted).len() <= wanted,
        gathered(collected, frames, position, wanted).take(collected.len() as int) == collected,
        gathered(collected, frames, position, wanted).len() == wanted || gathered(
            collected,
            frames,
            position,
            wanted,
        ).len() == collected.len() + values_at(frames, position).len(),
{
    let g = gathered(collected, frames, position, wanted);
    assert(g.take(collected.len() as int) =~= collected);
}

/// The end of a collection: no sample at all is a timeout; any other
/// number, also fewer than asked for, is handed back.
pub fn finish_samples(collected: Vec<u32>) -> (r: Result<Vec<u32>, SpmError>)
    ensures
        collected@.len() == 0 ==> (r matches Err(SpmError::Timeout(m)) && m@
            == "No TCP stream data collected within timeout"@),
        collected@.len() > 0 ==> (r matches Ok(v) && v@ == collected@),
{
    if collected.len() == 0 {
        Err(SpmError::Timeout(String::from_str("No TCP stream data collected within timeout")))
    } else {
        Ok(collected)
    }
}

} // verus!
