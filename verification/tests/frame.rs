use rusty_tip::frame::{npy_f32, Frame};
use rusty_tip::spm_error::SpmError;

fn bits(rows: Vec<Vec<f32>>) -> Vec<Vec<u32>> {
    rows.into_iter().map(|r| r.into_iter().map(f32::to_bits).collect()).collect()
}

fn frame_2x3() -> Frame {
    Frame::from_rows("Z".to_string(), bits(vec![vec![1.0, 2.0, 3.0], vec![4.0, 5.0, 6.0]])).unwrap()
}

#[test]
fn from_rows_flattens_and_indexes() {
    let f = frame_2x3();
    assert_eq!((f.rows, f.cols), (2, 3));
    let row: Vec<f32> = f.row(1).iter().map(|b| f32::from_bits(*b)).collect();
    assert_eq!(row, vec![4.0, 5.0, 6.0]);
    assert_eq!(f32::from_bits(f.at(0, 2)), 3.0);
}

#[test]
fn ragged_rows_are_rejected() {
    let err = Frame::from_rows("Z".to_string(), bits(vec![vec![1.0, 2.0], vec![3.0]])).err().unwrap();
    match err {
        SpmError::Routine(m) => {
            assert!(m.contains("row 1"));
            assert_eq!(m, "Frame::from_rows: row 1 has 1 columns, expected 2");
        }
        other => panic!("expected a routine error, got {other:?}"),
    }
}

#[test]
fn npy_layout_matches_the_spec() {
    let f = frame_2x3();
    let bytes = f.npy_bytes();
    assert_eq!(&bytes[..8], b"\x93NUMPY\x01\x00");
    let hlen = u16::from_le_bytes([bytes[8], bytes[9]]) as usize;
    assert_eq!((10 + hlen) % 64, 0);
    let header = std::str::from_utf8(&bytes[10..10 + hlen]).unwrap();
    assert!(header.contains("'descr': '<f4'"));
    assert!(header.contains("'shape': (2, 3)"));
    assert!(header.ends_with('\n'));
    // Payload: 6 little-endian f32s follow the header.
    let payload = &bytes[10 + hlen..];
    assert_eq!(payload.len(), 6 * 4);
    assert_eq!(f32::from_le_bytes(payload[..4].try_into().unwrap()), 1.0);
}

#[test]
fn a_frame_starts_upward_without_geometry() {
    let f = frame_2x3();
    assert!(f.direction_up);
    assert!(f.geometry.is_none());
    assert!(!f.with_direction(false).direction_up);
    let empty = Frame::from_rows("I".to_string(), Vec::new()).unwrap();
    assert_eq!((empty.rows, empty.cols, empty.data.len()), (0, 0, 0));
}

#[test]
fn one_dimension_is_a_one_tuple() {
    let bytes = npy_f32(&[0x3f80_0000], &[1]);
    let hlen = u16::from_le_bytes([bytes[8], bytes[9]]) as usize;
    let header = std::str::from_utf8(&bytes[10..10 + hlen]).unwrap();
    assert!(header.starts_with("{'descr': '<f4', 'fortran_order': False, 'shape': (1,), }"));
    assert_eq!(&bytes[10 + hlen..], &[0x00, 0x00, 0x80, 0x3f]);
    let three = npy_f32(&[], &[2, 0, 5]);
    let h3 = std::str::from_utf8(&three[10..]).unwrap();
    assert!(h3.contains("'shape': (2, 0, 5)"));
}
