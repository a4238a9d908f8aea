use std::collections::HashMap;

use rusty_tip::lib_old::NanonisError;
use rusty_tip::nanonis::tcplogger_stream::{
    frame_data_size, parse_frame_data, parse_frame_header, TCPLogStatus, FRAME_HEADER_SIZE,
};
use rusty_tip::nanonis_controller::{
    channel_count, finish_samples, gather_samples, motor_moves, sample_timeout_secs,
    signal_index_u8, signal_indices_i32, AcquisitionMode, MotorDirection, MotorDisplacement,
    MotorMove, SampleSource, StreamBook,
};
use rusty_tip::spm_error::SpmError;

fn header(channels: u32, oversampling: f32, counter: u64, state: u16) -> Vec<u8> {
    let mut h = Vec::new();
    h.extend_from_slice(&channels.to_be_bytes());
    h.extend_from_slice(&oversampling.to_be_bytes());
    h.extend_from_slice(&counter.to_be_bytes());
    h.extend_from_slice(&state.to_be_bytes());
    h
}

#[test]
fn a_frame_header_decodes_field_by_field() {
    let h = header(3, 2.5, 0x0102_0304_0506_0708, 4);
    assert_eq!(h.len(), FRAME_HEADER_SIZE);
    let parsed = parse_frame_header(&h).unwrap();
    assert_eq!(parsed.num_channels, 3);
    assert_eq!(f32::from_bits(parsed.oversampling), 2.5);
    assert_eq!(parsed.counter, 0x0102_0304_0506_0708);
    assert_eq!(parsed.state, TCPLogStatus::Running);
}

#[test]
fn an_unknown_logger_state_is_a_protocol_error() {
    let h = header(1, 1.0, 9, 8);
    match parse_frame_header(&h) {
        Err(NanonisError::Protocol(m)) => assert_eq!(m, "Invalid Status value"),
        other => panic!("expected a protocol error, got {:?}", other),
    }
}

#[test]
fn frame_data_holds_one_float_per_channel() {
    let h = parse_frame_header(&header(2, 1.0, 77, 1)).unwrap();
    assert_eq!(frame_data_size(h.num_channels), 8);
    let mut data = Vec::new();
    data.extend_from_slice(&(-1.5f32).to_be_bytes());
    data.extend_from_slice(&(3.25f32).to_be_bytes());
    let frame = parse_frame_data(&h, &data);
    assert_eq!(frame.counter, 77);
    let values: Vec<f32> = frame.data.iter().map(|b| f32::from_bits(*b)).collect();
    assert_eq!(values, vec![-1.5, 3.25]);
}

#[test]
fn status_codes_run_from_zero_to_seven() {
    assert_eq!(TCPLogStatus::from_code(0), Some(TCPLogStatus::Disconnected));
    assert_eq!(TCPLogStatus::from_code(7), Some(TCPLogStatus::BufferOverflow));
    assert_eq!(TCPLogStatus::from_code(8), None);
    assert_eq!(TCPLogStatus::from_code(-1), None);
}

#[test]
fn a_displacement_becomes_one_move_per_moving_axis() {
    let moves = motor_moves(MotorDisplacement { x: 3, y: -2, z: 0 });
    assert_eq!(
        moves,
        vec![
            MotorMove { direction: MotorDirection::XPlus, steps: 3 },
            MotorMove { direction: MotorDirection::YMinus, steps: 2 },
        ]
    );
    assert!(motor_moves(MotorDisplacement { x: 0, y: 0, z: 0 }).is_empty());
    let extreme = motor_moves(MotorDisplacement { x: 0, y: 0, z: i16::MIN });
    assert_eq!(extreme, vec![MotorMove { direction: MotorDirection::ZMinus, steps: 32768 }]);
}

#[test]
fn acquisition_modes_map_to_their_codes() {
    assert_eq!(AcquisitionMode::Current.data_to_get(), 0);
    assert_eq!(AcquisitionMode::NextTrigger.data_to_get(), 1);
    assert_eq!(AcquisitionMode::WaitTwoTriggers.data_to_get(), 2);
}

#[test]
fn signal_indices_are_narrowed_or_refused() {
    assert_eq!(signal_index_u8(255).unwrap(), 255);
    match signal_index_u8(300) {
        Err(SpmError::Protocol(m)) => assert_eq!(m, "Signal index 300 exceeds u8 range (max 255)"),
        other => panic!("unexpected {:?}", other),
    }
    assert_eq!(signal_indices_i32(&[0, 24, 7]).unwrap(), vec![0, 24, 7]);
    match signal_indices_i32(&[1, 3_000_000_000, 4_000_000_000]) {
        Err(SpmError::Protocol(m)) => assert_eq!(m, "Signal index 3000000000 exceeds i32 range"),
        other => panic!("unexpected {:?}", other),
    }
}

#[test]
fn an_empty_channel_list_is_refused() {
    match channel_count(&[]) {
        Err(SpmError::Protocol(m)) => {
            assert_eq!(m, "data_stream_configure: at least one channel is required")
        }
        other => panic!("unexpected {:?}", other),
    }
    assert_eq!(channel_count(&[0, 24, 30]).unwrap(), 3);
}

#[test]
fn the_stream_reader_needs_configured_channels() {
    let mut book = StreamBook::new();
    match book.reader_channel_count() {
        Err(SpmError::Protocol(m)) => assert_eq!(
            m,
            "No channels configured. Call data_stream_configure before start_tcp_reader"
        ),
        other => panic!("unexpected {:?}", other),
    }
    book.set_channel_count(0);
    match book.reader_channel_count() {
        Err(SpmError::Protocol(m)) => {
            assert_eq!(m, "Channel count is zero. Configure at least one channel")
        }
        other => panic!("unexpected {:?}", other),
    }
    book.set_channel_count(4);
    assert_eq!(book.reader_channel_count().unwrap(), 4);
}

#[test]
fn samples_come_from_the_stream_only_for_mapped_signals() {
    let mut book = StreamBook::new();
    let mut mapping = HashMap::new();
    mapping.insert(24u32, 2usize);
    book.set_channel_mapping(mapping);
    match book.sample_source(24, 0, true) {
        Err(SpmError::Protocol(m)) => assert_eq!(m, "read_signal_samples: num_samples must be > 0"),
        other => panic!("unexpected {:?}", other),
    }
    assert_eq!(book.sample_source(5, 10, false).unwrap(), SampleSource::Polling);
    assert_eq!(book.sample_source(24, 10, true).unwrap(), SampleSource::Stream(2));
    match book.sample_source(5, 10, true) {
        Err(SpmError::Protocol(m)) => assert_eq!(
            m,
            "Signal index 5 has no TCP channel mapping. Call set_channel_mapping with a mapping that includes this signal."
        ),
        other => panic!("unexpected {:?}", other),
    }
}

#[test]
fn teardown_runs_once() {
    let mut book = StreamBook::new();
    assert!(book.begin_teardown());
    assert!(!book.begin_teardown());
    assert!(!book.begin_teardown());
}

#[test]
fn the_collection_timeout_grows_with_the_sample_count() {
    assert_eq!(sample_timeout_secs(0), 5);
    assert_eq!(sample_timeout_secs(99), 5);
    assert_eq!(sample_timeout_secs(250), 7);
}

#[test]
fn gathering_takes_the_mapped_position_and_stops_when_full() {
    let frames = vec![vec![1u32, 2], vec![3], vec![4, 5], vec![6, 7]];
    let mut collected = vec![9u32];
    gather_samples(&frames, 1, 3, &mut collected);
    assert_eq!(collected, vec![9, 2, 5]);

    let mut short = Vec::new();
    gather_samples(&frames, 1, 10, &mut short);
    assert_eq!(short, vec![2, 5, 7]);
}

#[test]
fn collecting_nothing_is_a_timeout() {
    match finish_samples(Vec::new()) {
        Err(SpmError::Timeout(m)) => assert_eq!(m, "No TCP stream data collected within timeout"),
        other => panic!("unexpected {:?}", other),
    }
    assert_eq!(finish_samples(vec![1, 2]).unwrap(), vec![1, 2]);
}

#[test]
fn a_log_buffer_reports_a_due_batch_and_hands_entries_out_in_order() {
    let mut buffer = rusty_tip::logger::LogBuffer::new(3);
    assert!(buffer.is_empty());
    assert!(!buffer.add("a"));
    assert!(!buffer.add("b"));
    assert!(buffer.add("c"));
    assert_eq!(buffer.len(), 3);
    assert_eq!(buffer.drain(), vec!["a", "b", "c"]);
    assert!(buffer.is_empty());
    assert!(!buffer.add("d"));
    assert_eq!(buffer.drain(), vec!["d"]);
}
