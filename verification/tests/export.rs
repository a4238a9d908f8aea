use rusty_tip::export::gsf::{
    check_size, data_range, header_text, padding_len, read_header, read_header_text, HeaderText,
    MAGIC,
};
use rusty_tip::export::xyz::{check_shapes, table_header};
use rusty_tip::text::{lines, parse_usize};

fn header(title: Option<&str>) -> HeaderText {
    HeaderText {
        x_real: format!("{:e}", 7e-10),
        y_real: format!("{:e}", 5e-10),
        x_offset: format!("{:e}", 0.0),
        y_offset: format!("{:e}", 0.0),
        xy_units: "m".to_string(),
        z_units: "m".to_string(),
        title: title.map(|t| t.to_string()),
    }
}

/// A whole file in memory: header, padding, then `n` samples of four bytes.
fn file_bytes(text: &str, n: usize) -> Vec<u8> {
    let mut bytes = text.as_bytes().to_vec();
    bytes.extend(std::iter::repeat(0u8).take(padding_len(text.len())));
    for i in 0..n {
        bytes.extend_from_slice(&(i as f32 + 1.0).to_le_bytes());
    }
    bytes
}

#[test]
fn the_header_is_written_line_by_line() {
    let text = header_text(7, 5, &header(Some("Z tip")));
    assert_eq!(
        text,
        "Gwyddion Simple Field 1.0\nXRes = 7\nYRes = 5\nXReal = 7e-10\nYReal = 5e-10\n\
         XOffset = 0e0\nYOffset = 0e0\nXYUnits = m\nZUnits = m\nTitle = Z tip\n"
    );
    let bare = HeaderText { xy_units: String::new(), z_units: String::new(), ..header(None) };
    assert!(!header_text(1, 1, &bare).contains("Units"));
    assert!(!header_text(1, 1, &bare).contains("Title"));
}

#[test]
fn what_is_written_reads_back() {
    let text = header_text(7, 5, &header(Some("Z tip")));
    let bytes = file_bytes(&text, 35);
    let h = read_header(&bytes).unwrap();
    assert_eq!(h.nul, text.len());
    assert_eq!(h.resolution().unwrap(), (7, 5));
    assert_eq!(h.xy_units, "m");
    assert_eq!(h.z_units, "m");
    assert_eq!(h.title.as_deref(), Some("Z tip"));
    assert!(h.error.is_none());
    let keys: Vec<&str> = h.numbers.iter().map(|(k, _)| k.as_str()).collect();
    assert_eq!(keys, vec!["XReal", "YReal", "XOffset", "YOffset"]);
    assert_eq!(h.numbers[0].1.parse::<f64>().unwrap(), 7e-10);
    let (start, end) = data_range(bytes.len(), h.nul, 7, 5).unwrap();
    assert_eq!(start % 4, 0);
    assert_eq!(end, bytes.len());
    assert_eq!(f32::from_le_bytes(bytes[start..start + 4].try_into().unwrap()), 1.0);
}

#[test]
fn padding_is_one_to_four_nuls_and_aligns_the_data() {
    for len in 0..12usize {
        let pad = padding_len(len);
        assert!((1..=4).contains(&pad), "padding must be 1 to 4 NULs, got {pad}");
        assert_eq!((len + pad) % 4, 0, "data must start on a 4-byte boundary");
    }
    assert_eq!(padding_len(28), 4);
    assert_eq!(padding_len(29), 3);
}

#[test]
fn a_file_that_is_not_gsf_is_refused() {
    let err = read_header(b"not a gsf\0\0\0\0").err().unwrap();
    assert_eq!(err, "missing the GSF magic line");
    assert_eq!(read_header(b"Gwyddion").err().unwrap(), "no NUL padding found; not a GSF file");
    assert_eq!(read_header(b"\xff\xfe\0").err().unwrap(), "header is not UTF-8");
    assert_eq!(read_header(b"\0").err().unwrap(), "missing the GSF magic line");
}

#[test]
fn the_magic_line_may_end_in_crlf() {
    let h = read_header_text("Gwyddion Simple Field 1.0\r\nXRes = 2\r\nYRes=3\r\n", 0).unwrap();
    assert_eq!(h.resolution().unwrap(), (2, 3));
}

#[test]
fn a_bad_or_missing_resolution_is_named() {
    let bad = format!("{MAGIC}\nXRes = many\nYRes = 3\nTitle = t\n");
    let h = read_header_text(&bad, 0).unwrap();
    assert_eq!(h.error.as_deref(), Some("bad XRes"));
    assert_eq!(h.ny, None, "nothing is read past the bad line");
    assert_eq!(h.title, None);
    let missing = format!("{MAGIC}\nXRes = 4\n");
    let h = read_header_text(&missing, 0).unwrap();
    assert_eq!(h.resolution().err().unwrap(), "header has no YRes");
    let none = format!("{MAGIC}\n");
    assert_eq!(read_header_text(&none, 0).unwrap().resolution().err().unwrap(), "header has no XRes");
}

#[test]
fn unknown_keys_and_lines_without_equals_are_ignored() {
    let text = format!("{MAGIC}\nComment line\nFoo = bar\nXRes=1\nYRes=1\n");
    let h = read_header_text(&text, 0).unwrap();
    assert_eq!(h.resolution().unwrap(), (1, 1));
    assert!(h.numbers.is_empty());
}

#[test]
fn a_short_file_is_reported_as_truncated() {
    assert_eq!(
        data_range(40, 30, 2, 2).err().unwrap(),
        "truncated: need 16 data bytes from offset 32, file has 8"
    );
    assert_eq!(data_range(48, 30, 2, 2).unwrap(), (32, 48));
}

#[test]
fn empty_fields_are_not_written() {
    assert_eq!(check_size(0, 3).err().unwrap(), "refusing to write an empty GSF field");
    assert!(check_size(3, 0).is_err());
    assert!(check_size(1, 1).is_ok());
}

#[test]
fn table_header_names_the_columns() {
    assert_eq!(table_header(&["z_surface", "z_tip"]), "# x_m y_m z_surface z_tip");
    assert_eq!(table_header(&[]), "# x_m y_m");
}

#[test]
fn tables_need_maps_of_one_shape() {
    assert_eq!(check_shapes(&[]).err().unwrap(), "write_table needs at least one map");
    assert_eq!(
        check_shapes(&[(3, 3), (3, 2)]).err().unwrap(),
        "all maps in a table must have the same shape"
    );
    assert_eq!(check_shapes(&[(2, 5), (2, 5)]).unwrap(), (2, 5));
}

#[test]
fn lines_split_as_str_lines_does() {
    assert_eq!(lines("a\r\nb\n"), vec!["a", "b"]);
    assert_eq!(lines("a\n\nb"), vec!["a", "", "b"]);
    assert_eq!(lines("x\r"), vec!["x\r"]);
    assert!(lines("").is_empty());
    assert_eq!(lines("\n"), vec![""]);
}

#[test]
fn unsigned_numbers_parse_as_str_parse_does() {
    assert_eq!(parse_usize("+12"), Some(12));
    assert_eq!(parse_usize("007"), Some(7));
    assert_eq!(parse_usize(""), None);
    assert_eq!(parse_usize("+"), None);
    assert_eq!(parse_usize("-1"), None);
    assert_eq!(parse_usize("1 2"), None);
    assert_eq!(parse_usize("99999999999999999999999"), None);
    assert_eq!(parse_usize(&usize::MAX.to_string()), Some(usize::MAX));
}

#[test]
fn samples_read_back_whatever_the_header_length() {
    for title in ["a", "ab", "abc", "abcd"] {
        let text = header_text(3, 2, &header(Some(title)));
        let bytes = file_bytes(&text, 6);
        let h = read_header(&bytes).unwrap();
        let (start, end) = data_range(bytes.len(), h.nul, 3, 2).unwrap();
        assert_eq!(start, text.len() + padding_len(text.len()), "title {title:?}");
        assert_eq!(end, bytes.len());
        let values: Vec<f32> = bytes[start..end]
            .chunks_exact(4)
            .map(|c| f32::from_le_bytes([c[0], c[1], c[2], c[3]]))
            .collect();
        assert_eq!(values, vec![1.0, 2.0, 3.0, 4.0, 5.0, 6.0], "title {title:?}");
    }
}

#[test]
fn a_header_aligned_to_four_is_followed_by_four_nuls() {
    assert_eq!(data_range(48, 40, 1, 1).unwrap(), (44, 48));
    assert_eq!(data_range(47, 40, 1, 1).err().unwrap(), "truncated: need 4 data bytes from offset 44, file has 3");
}
