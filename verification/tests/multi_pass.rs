use rusty_tip::multi_pass::{pass_order, 
    boolean, direction, fmt_bool, get, integer, label, parse_ini, string, unquote,
    unsourced_playbacks, PassDirection,
};

const SAMPLE: &str = "[Callback VI]\r\nSelector = 0\r\nPath = \"\"\r\n\r\n[Pass1]\r\n\
Acq ch = \"\\00\\00\\00\\00\"\r\nRec state = TRUE\r\nRec ch = 30\r\nPlay state = false\r\n\
Speed sel = 2\r\nScript name = \"\"";

#[test]
fn sections_alternate_forward_and_backward() {
    assert_eq!(direction(0), PassDirection::Forward);
    assert_eq!(direction(1), PassDirection::Backward);
    assert_eq!(label(0), "Fwd #1");
    assert_eq!(label(1), "Bwd #1");
    assert_eq!(label(2), "Fwd #2");
    assert_eq!(label(3), "Bwd #2");
}

#[test]
fn ini_sections_and_keys_are_read() {
    let sections = parse_ini(SAMPLE).unwrap();
    let cb = sections.get("Callback VI").unwrap();
    assert_eq!(integer(cb, "Callback VI", "Selector").unwrap(), 0);
    assert_eq!(string(cb, "Path"), "");
    let p1 = sections.get("Pass1").unwrap();
    assert_eq!(get(p1, "Pass1", "Acq ch").unwrap(), "\\00\\00\\00\\00");
    assert!(boolean(p1, "Pass1", "Rec state").unwrap());
    assert!(!boolean(p1, "Pass1", "Play state").unwrap());
    assert_eq!(integer(p1, "Pass1", "Rec ch").unwrap(), 30);
    assert_eq!(integer(p1, "Pass1", "Speed sel").unwrap(), 2);
    assert!(sections.get("Pass2").is_none());
    assert_eq!(sections.entries().len(), 2);
}

#[test]
fn ini_reader_tolerates_lf_endings_and_stray_whitespace() {
    let text = "  [Pass1]  \n; a comment\n\n Rec ch=  7 \n";
    let sections = parse_ini(text).unwrap();
    let p1 = sections.get("Pass1").unwrap();
    assert_eq!(integer(p1, "Pass1", "Rec ch").unwrap(), 7);
}

#[test]
fn a_key_set_twice_keeps_the_last_value() {
    let sections = parse_ini("[S]\na = 1\na = 2\n[T]\n[S]\nb = \"x\"").unwrap();
    let s = sections.get("S").unwrap();
    assert_eq!(integer(s, "S", "a").unwrap(), 2);
    assert_eq!(string(s, "b"), "x");
    assert_eq!(sections.entries().len(), 2);
}

#[test]
fn malformed_lines_are_errors() {
    let err = parse_ini("[S]\njust words").err().unwrap();
    assert_eq!(err, "line is neither section nor key: \"just words\"");
    let err = parse_ini("a = 1").err().unwrap();
    assert_eq!(err, "key \"a \" before any section");
}

#[test]
fn missing_and_malformed_values_are_named() {
    let sections = parse_ini("[Pass1]\nRec state = maybe\nRec ch = 3x").unwrap();
    let p = sections.get("Pass1").unwrap();
    assert_eq!(
        boolean(p, "Pass1", "Rec state").unwrap_err(),
        "[Pass1] Rec state is \"MAYBE\", expected TRUE or FALSE"
    );
    assert_eq!(
        integer(p, "Pass1", "Rec ch").unwrap_err(),
        "[Pass1] Rec ch is not an integer: \"3x\""
    );
    assert_eq!(
        get(p, "Pass1", "Play offset").unwrap_err(),
        "[Pass1] has no \"Play offset\""
    );
}

#[test]
fn quotes_come_off_only_in_pairs() {
    assert_eq!(unquote("\"abc\""), "abc");
    assert_eq!(unquote("\"abc"), "\"abc");
    assert_eq!(unquote("\""), "\"");
    assert_eq!(unquote("\"\""), "");
    assert_eq!(fmt_bool(true), "TRUE");
    assert_eq!(fmt_bool(false), "FALSE");
}

#[test]
fn a_playback_with_nothing_recorded_in_that_direction_is_reported() {
    // Record forward, play backward: the backward pass has nothing to play.
    let rec = [true, false];
    let play = [false, true];
    assert_eq!(unsourced_playbacks(&rec, &play), vec![1]);
    assert_eq!(label(1), "Bwd #1");
    // The four-section constant lift records both ways, then plays both.
    assert!(unsourced_playbacks(&[true, true, false, false], &[false, false, true, true]).is_empty());
}

#[test]
fn integers_take_a_sign_and_must_fit_an_i32() {
    let sections = parse_ini(
        "[S]\na = -2147483648\nb = 2147483647\nc = 2147483648\nd = +12\ne = -\nf = 99999999999\ng = -0",
    )
    .unwrap();
    let s = sections.get("S").unwrap();
    assert_eq!(integer(s, "S", "a").unwrap(), i32::MIN);
    assert_eq!(integer(s, "S", "b").unwrap(), i32::MAX);
    assert!(integer(s, "S", "c").is_err());
    assert_eq!(integer(s, "S", "d").unwrap(), 12);
    assert!(integer(s, "S", "e").is_err());
    assert!(integer(s, "S", "f").is_err());
    assert_eq!(integer(s, "S", "g").unwrap(), 0);
}

#[test]
fn booleans_ignore_ascii_case_only() {
    let sections = parse_ini("[S]\na = true\nb = FaLsE\nc = tr\u{fc}e").unwrap();
    let s = sections.get("S").unwrap();
    assert!(boolean(s, "S", "a").unwrap());
    assert!(!boolean(s, "S", "b").unwrap());
    assert_eq!(
        boolean(s, "S", "c").unwrap_err(),
        "[S] c is \"TR\u{fc}E\", expected TRUE or FALSE"
    );
}

#[test]
fn passes_are_ordered_by_number_and_a_gap_is_an_error() {
    let sections = parse_ini("[Callback VI]\n[Pass2]\n[Pass1]\n[Pass3]").unwrap();
    assert_eq!(pass_order(&sections).unwrap(), vec![2, 1, 3]);
    let gap = parse_ini("[Pass1]\n[Pass3]").unwrap();
    assert_eq!(pass_order(&gap).unwrap_err(), "passes are numbered [1, 3], expected 1..=2");
    let twice = parse_ini("[Pass01]\n[Pass1]").unwrap();
    assert_eq!(pass_order(&twice).unwrap_err(), "passes are numbered [1, 1], expected 1..=2");
    let none = parse_ini("[Callback VI]\n[Passes]").unwrap();
    assert_eq!(pass_order(&none).unwrap_err(), "no [PassN] sections found; not a .mpas file");
    let many = parse_ini("[Pass10]\n[Pass2]\n[Pass1]").unwrap();
    assert_eq!(pass_order(&many).unwrap_err(), "passes are numbered [1, 2, 10], expected 1..=3");
}
