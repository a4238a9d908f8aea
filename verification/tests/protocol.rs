use rusty_tip::lib_old::{NanonisError, NanonisValue};
use rusty_tip::nanonis::client::encode_request;
use rusty_tip::nanonis::protocol::{Protocol, HEADER_SIZE};

fn header_for(command: &str, body_size: u32) -> [u8; HEADER_SIZE] {
    let v = Protocol::create_command_header(command, body_size);
    let mut h = [0u8; HEADER_SIZE];
    h.copy_from_slice(&v);
    h
}

fn protocol_message(e: NanonisError) -> String {
    match e {
        NanonisError::Protocol(m) => m,
        other => panic!("expected a protocol error, got {other:?}"),
    }
}

fn type_message(e: NanonisError) -> String {
    match e {
        NanonisError::Type(m) => m,
        other => panic!("expected a type error, got {other:?}"),
    }
}

#[test]
fn test_value_serialization() {
    let mut buffer = Vec::new();
    Protocol::serialize_value(
        &NanonisValue::F32(std::f32::consts::PI.to_bits()),
        "f",
        &mut buffer,
    )
    .unwrap();
    assert_eq!(buffer.len(), 4);
    assert_eq!(buffer, std::f32::consts::PI.to_be_bytes().to_vec());
}

#[test]
fn test_value_type_safety() {
    let value = NanonisValue::F32(std::f32::consts::PI.to_bits());
    assert!(value.as_f32().is_ok());
    assert!(value.as_f64().is_err());
    assert!(value.as_u32().is_err());
}

#[test]
fn accessors_return_the_held_value() {
    assert_eq!(NanonisValue::U32(7).as_u32().unwrap(), 7);
    assert_eq!(NanonisValue::F64(2.5f64.to_bits()).as_f64().unwrap(), 2.5f64.to_bits());
    let names = NanonisValue::ArrayString(vec!["a".to_string(), "b".to_string()]);
    assert_eq!(names.as_string_array().unwrap().len(), 2);
    let floats = NanonisValue::ArrayF32(vec![1.0f32.to_bits()]);
    assert_eq!(floats.as_f32_array().unwrap(), &[1.0f32.to_bits()][..]);
    let err = NanonisValue::U16(1).as_f32().unwrap_err();
    assert_eq!(type_message(err), "Expected f32, got U16(1)");
    let err = NanonisValue::String("x".into()).as_string_array().unwrap_err();
    assert_eq!(type_message(err), "Expected string array, got String(\"x\")");
}

#[test]
fn header_pads_the_command_and_announces_the_body() {
    let h = Protocol::create_command_header("Bias.Get", 0x0102_0304);
    assert_eq!(h.len(), 40);
    assert_eq!(&h[..8], b"Bias.Get");
    assert!(h[8..32].iter().all(|&b| b == 0));
    assert_eq!(&h[32..36], &[1, 2, 3, 4]);
    assert_eq!(&h[36..38], &[0, 1]);
    assert_eq!(&h[38..40], &[0, 0]);
}

#[test]
fn long_commands_are_cut_to_32_bytes() {
    let long = "A".repeat(40);
    let h = Protocol::create_command_header(&long, 0);
    assert_eq!(&h[..32], "A".repeat(32).as_bytes());
    assert_eq!(&h[32..36], &[0, 0, 0, 0]);
}

#[test]
fn an_echoed_header_is_accepted_with_its_body_size() {
    let h = header_for("Bias.Get", 12);
    assert_eq!(Protocol::validate_response_header(&h, "Bias.Get").unwrap(), 12);
}

#[test]
fn a_header_for_another_command_is_a_mismatch() {
    let h = header_for("Bias.Set", 0);
    match Protocol::validate_response_header(&h, "Bias.Get") {
        Err(NanonisError::CommandMismatch { expected, actual }) => {
            assert_eq!(expected, "Bias.Get");
            assert_eq!(actual, "Bias.Set");
        }
        other => panic!("expected a mismatch, got {other:?}"),
    }
}

#[test]
fn trailing_zero_characters_are_dropped_from_the_echoed_command() {
    let h = header_for("Osci10", 0);
    match Protocol::validate_response_header(&h, "Osci10") {
        Err(NanonisError::CommandMismatch { actual, .. }) => assert_eq!(actual, "Osci1"),
        other => panic!("expected a mismatch, got {other:?}"),
    }
}

#[test]
fn scalars_serialize_big_endian() {
    let mut b = Vec::new();
    Protocol::serialize_value(&NanonisValue::U16(0x1234), "H", &mut b).unwrap();
    Protocol::serialize_value(&NanonisValue::I16(-2), "h", &mut b).unwrap();
    Protocol::serialize_value(&NanonisValue::U32(0xDEAD_BEEF), "I", &mut b).unwrap();
    Protocol::serialize_value(&NanonisValue::I32(-1), "i", &mut b).unwrap();
    Protocol::serialize_value(&NanonisValue::F64(1.0f64.to_bits()), "d", &mut b).unwrap();
    assert_eq!(
        b,
        vec![
            0x12, 0x34, 0xFF, 0xFE, 0xDE, 0xAD, 0xBE, 0xEF, 0xFF, 0xFF, 0xFF, 0xFF, 0x3F, 0xF0, 0,
            0, 0, 0, 0, 0
        ]
    );
}

#[test]
fn strings_and_arrays_serialize_with_optional_length_prefix() {
    let mut b = Vec::new();
    Protocol::serialize_value(&NanonisValue::String("abc".into()), "+*c", &mut b).unwrap();
    assert_eq!(b, vec![0, 0, 0, 3, b'a', b'b', b'c']);

    let mut b = Vec::new();
    Protocol::serialize_value(&NanonisValue::String("abc".into()), "*c", &mut b).unwrap();
    assert_eq!(b, b"abc".to_vec());

    let mut b = Vec::new();
    let names = NanonisValue::ArrayString(vec!["ab".into(), "c".into()]);
    Protocol::serialize_value(&names, "*+c", &mut b).unwrap();
    assert_eq!(b, vec![0, 0, 0, 2, b'a', b'b', 0, 0, 0, 1, b'c']);

    let mut b = Vec::new();
    Protocol::serialize_value(&NanonisValue::ArrayI32(vec![1, -1]), "+*i", &mut b).unwrap();
    assert_eq!(b, vec![0, 0, 0, 2, 0, 0, 0, 1, 0xFF, 0xFF, 0xFF, 0xFF]);

    let mut b = Vec::new();
    Protocol::serialize_value(&NanonisValue::ArrayU32(vec![5]), "*I", &mut b).unwrap();
    assert_eq!(b, vec![0, 0, 0, 5]);

    let mut b = Vec::new();
    let a = NanonisValue::ArrayF64(vec![2.0f64.to_bits()]);
    Protocol::serialize_value(&a, "+*d", &mut b).unwrap();
    assert_eq!(b, vec![0, 0, 0, 1, 0x40, 0, 0, 0, 0, 0, 0, 0]);
}

#[test]
fn a_value_its_code_does_not_take_is_a_type_error_and_writes_nothing() {
    let mut b = vec![9u8];
    let err = Protocol::serialize_value(&NanonisValue::U16(1), "I", &mut b).unwrap_err();
    assert_eq!(type_message(err), "Unsupported type combination: U16(1) with I");
    assert_eq!(b, vec![9u8]);
    // A counted string is a response type only.
    let err = Protocol::serialize_value(&NanonisValue::String("x".into()), "*-c", &mut b);
    assert!(err.is_err());
    assert_eq!(b, vec![9u8]);
}

#[test]
fn responses_parse_by_type_code() {
    let mut r = vec![0, 0, 0, 2];
    r.extend_from_slice(&1.0f32.to_be_bytes());
    r.extend_from_slice(&2.0f32.to_be_bytes());
    let v = Protocol::parse_response(&r, &["i", "*f"]).unwrap();
    assert_eq!(v.len(), 2);
    assert!(matches!(v[0], NanonisValue::I32(2)));
    match &v[1] {
        NanonisValue::ArrayF32(a) => assert_eq!(a, &vec![1.0f32.to_bits(), 2.0f32.to_bits()]),
        other => panic!("{other:?}"),
    }
}

#[test]
fn string_lists_and_counted_strings_parse() {
    let r = vec![0, 0, 0, 11, 0, 0, 0, 2, 0, 0, 0, 2, b'a', b'b', 0, 0, 0, 1, b'c'];
    let v = Protocol::parse_response(&r, &["+*c"]).unwrap();
    match &v[0] {
        NanonisValue::ArrayString(a) => assert_eq!(a, &vec!["ab".to_string(), "c".to_string()]),
        other => panic!("{other:?}"),
    }

    let r = vec![0, 0, 0, 3, b'x', b'y', b'z'];
    let v = Protocol::parse_response(&r, &["I", "*-c"]).unwrap();
    match &v[1] {
        NanonisValue::String(s) => assert_eq!(s, "xyz"),
        other => panic!("{other:?}"),
    }

    let r = vec![0, 0, 0, 1, 0, 0, 0, 1, b'q'];
    let v = Protocol::parse_response(&r, &["i", "*+c"]).unwrap();
    match &v[1] {
        NanonisValue::ArrayString(a) => assert_eq!(a, &vec!["q".to_string()]),
        other => panic!("{other:?}"),
    }
}

#[test]
fn two_dimensional_arrays_parse_row_major() {
    let mut r = vec![0, 0, 0, 2, 0, 0, 0, 1];
    r.extend_from_slice(&3.0f32.to_be_bytes());
    r.extend_from_slice(&4.0f32.to_be_bytes());
    let v = Protocol::parse_response(&r, &["i", "i", "2f"]).unwrap();
    match &v[2] {
        NanonisValue::Array2DF32(rows) => {
            assert_eq!(rows, &vec![vec![3.0f32.to_bits()], vec![4.0f32.to_bits()]])
        }
        other => panic!("{other:?}"),
    }
}

#[test]
fn malformed_responses_report_why() {
    let err = Protocol::parse_response(&[0, 0, 0, 0], &["*f"]).unwrap_err();
    assert_eq!(protocol_message(err), "Array length not specified");

    let err = Protocol::parse_response(&[0, 1, 0, 0, 0, 0], &["H", "*f"]).unwrap_err();
    assert_eq!(protocol_message(err), "Array length not found");

    let err = Protocol::parse_response(&[0, 1], &["I"]).unwrap_err();
    assert!(matches!(err, NanonisError::Io { .. }));

    let err = Protocol::parse_response(&[], &["Q"]).unwrap_err();
    assert_eq!(type_message(err), "Unsupported response type: Q");

    let err = Protocol::parse_response(&[0, 0, 0, 1], &["i", "2f"]).unwrap_err();
    assert_eq!(protocol_message(err), "2D array dimensions not found");

    let err = Protocol::parse_response(&[0, 0, 0, 1, 0, 0, 0, 1], &["I", "i", "2f"]).unwrap_err();
    assert_eq!(protocol_message(err), "Invalid row count for 2D array");

    let err = Protocol::parse_response(&[0, 0, 0, 1, 0, 0, 0, 1], &["i", "I", "2f"]).unwrap_err();
    assert_eq!(protocol_message(err), "Invalid column count for 2D array");

    let err = Protocol::parse_response(&[0, 1], &["H", "*+c"]).unwrap_err();
    assert_eq!(protocol_message(err), "String count not found for *+c type");

    let err = Protocol::parse_response(&[], &["*-c"]).unwrap_err();
    assert_eq!(protocol_message(err), "String length not found for *-c type");

    // A count larger than the data is an end-of-data error, not a panic.
    let err = Protocol::parse_response(&[0xFF, 0xFF, 0xFF, 0xFF], &["i", "*f"]).unwrap_err();
    assert!(matches!(err, NanonisError::Io { .. }));
}

#[test]
fn what_serialize_writes_parse_reads_back() {
    let values = vec![
        NanonisValue::U16(7),
        NanonisValue::I16(-7),
        NanonisValue::U32(70_000),
        NanonisValue::I32(-70_000),
        NanonisValue::F32(0.25f32.to_bits()),
        NanonisValue::F64((-3.5f64).to_bits()),
        NanonisValue::ArrayI32(vec![3, -4, 5]),
        NanonisValue::ArrayF32(vec![1.5f32.to_bits()]),
        NanonisValue::ArrayF64(vec![]),
    ];
    let codes = ["H", "h", "I", "i", "f", "d", "+*i", "+*f", "+*d"];
    let mut body = Vec::new();
    for (v, t) in values.iter().zip(codes.iter()) {
        Protocol::serialize_value(v, t, &mut body).unwrap();
    }
    body.extend_from_slice(&[1, 2, 3]);
    let back = Protocol::parse_response(&body, &codes).unwrap();
    assert_eq!(format!("{back:?}"), format!("{values:?}"));
}

fn error_block(status: i32, message: &[u8]) -> Vec<u8> {
    let mut b = status.to_be_bytes().to_vec();
    b.extend_from_slice(&(message.len() as i32).to_be_bytes());
    b.extend_from_slice(message);
    b
}

#[test]
fn the_error_block_reports_server_errors() {
    let mut body = vec![0, 0, 0, 9];
    body.extend(error_block(-3, b"  tip crashed \n"));
    match Protocol::parse_error_info(&body, 4) {
        Err(NanonisError::ServerError { code, message }) => {
            assert_eq!(code, -3);
            assert_eq!(message, "tip crashed");
        }
        other => panic!("{other:?}"),
    }
    match Protocol::parse_response_with_error_check(&body, &["I"]) {
        Err(NanonisError::ServerError { code, .. }) => assert_eq!(code, -3),
        other => panic!("{other:?}"),
    }
}

#[test]
fn a_clean_error_block_is_no_error() {
    let mut body = vec![0, 0, 0, 9];
    body.extend(error_block(0, b""));
    assert!(Protocol::parse_error_info(&body, 4).is_ok());
    let v = Protocol::parse_response_with_error_check(&body, &["I"]).unwrap();
    assert!(matches!(v[0], NanonisValue::U32(9)));

    let blank = error_block(1, b" \t ");
    assert!(Protocol::parse_error_info(&blank, 0).is_ok());
    // No room for a block at all.
    assert!(Protocol::parse_error_info(&[1, 2, 3], 0).is_ok());
    assert!(Protocol::parse_error_info(&[1, 2, 3], 10).is_ok());
}

#[test]
fn broken_error_blocks_are_protocol_errors() {
    let mut truncated = error_block(1, b"abc");
    truncated.truncate(9);
    let err = Protocol::parse_error_info(&truncated, 0).unwrap_err();
    assert_eq!(protocol_message(err), "Error message truncated");

    let invalid = error_block(1, &[0xFF, 0xFE]);
    let err = Protocol::parse_error_info(&invalid, 0).unwrap_err();
    assert_eq!(protocol_message(err), "Invalid UTF-8 in error message");
}

#[test]
fn oversized_responses_are_refused() {
    assert!(Protocol::check_response_size(100 * 1024 * 1024).is_ok());
    let err = Protocol::check_response_size(100 * 1024 * 1024 + 1).unwrap_err();
    assert_eq!(
        protocol_message(err),
        "Response size 104857601 exceeds maximum 104857600"
    );
}

#[test]
fn a_request_is_a_header_and_the_serialized_arguments() {
    let args = vec![NanonisValue::F32(1.0f32.to_bits()), NanonisValue::U32(1)];
    let (header, body) = encode_request("Bias.Set", &args, &["f", "I", "I"]).unwrap();
    assert_eq!(body, vec![0x3F, 0x80, 0, 0, 0, 0, 0, 1]);
    assert_eq!(header, Protocol::create_command_header("Bias.Set", 8));

    let err = encode_request("Bias.Set", &args, &["d"]).unwrap_err();
    assert_eq!(type_message(err), "Unsupported type combination: F32(1065353216) with d");
    let mixed = vec![NanonisValue::U32(1), NanonisValue::U16(2), NanonisValue::I16(3)];
    let err = encode_request("X.Y", &mixed, &["I", "I", "I"]).unwrap_err();
    assert_eq!(type_message(err), "Unsupported type combination: U16(2) with I");
}
