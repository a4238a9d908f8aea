use rusty_tip::experiment_log::reader::{bookends, content_lines, ActionNode, Body, Log, Record};
use rusty_tip::experiment_log::{sorted_signal_facts, SignalFact};

fn started(seq: u64, action: &str, depth: usize) -> Record {
    Record { seq, body: Body::ActionStarted { action: action.to_string(), depth } }
}

fn completed(seq: u64, action: &str, depth: usize) -> Record {
    Record { seq, body: Body::ActionCompleted { action: action.to_string(), depth } }
}

fn failed(seq: u64, action: &str, error: &str, depth: usize) -> Record {
    Record {
        seq,
        body: Body::ActionFailed { action: action.to_string(), error: error.to_string(), depth },
    }
}

fn log_of(records: Vec<Record>) -> Log {
    Log { records, skipped: Vec::new() }
}

const SAMPLE: &str = r#"{"seq":0,"type":"run_started","header":{"tool":"t","version":"1","schema":{"tool":"t","kinds":[{"kind":"t/cycle","schema":{"type":"object","properties":{"cycle":{"type":"integer"},"freq_shift":{"type":["number","null"]},"nested":{"type":"object"}}}}]}},"timestamp":100.0}
{"seq":1,"type":"action_started","action":"outer","params":{"a":1},"depth":0,"timestamp":100.5}
{"seq":2,"type":"action_started","action":"inner","params":{},"depth":1,"timestamp":100.6}
{"seq":3,"type":"action_completed","action":"inner","output":null,"depth":1,"duration":50.0,"timestamp":100.65}
{"seq":4,"type":"action_completed","action":"outer","output":null,"depth":0,"duration":200.0,"timestamp":100.7}
{"seq":5,"type":"custom","kind":"t/cycle","data":{"cycle":1,"freq_shift":-1.5},"timestamp":101.0}
not json at all
{"seq":6,"type":"action_started","action":"cut","params":{},"depth":0,"timestamp":102.0}
"#;

/// The records of `SAMPLE` (its unparsable line left out), and the duration
/// each carries.
fn sample() -> (Log, Vec<Option<f64>>) {
    let records = vec![
        Record { seq: 0, body: Body::RunStarted },
        started(1, "outer", 0),
        started(2, "inner", 1),
        completed(3, "inner", 1),
        completed(4, "outer", 0),
        Record { seq: 5, body: Body::Custom { kind: "t/cycle".to_string() } },
        started(6, "cut", 0),
    ];
    let durations = vec![None, None, None, Some(50.0), Some(200.0), None, None];
    (log_of(records), durations)
}

fn duration_ms(node: &ActionNode, durations: &[Option<f64>]) -> Option<f64> {
    node.end.and_then(|i| durations[i])
}

#[test]
fn rebuilds_the_tree_from_depth_and_keeps_cut_off_actions() {
    let (log, durations) = sample();
    let tree = log.action_tree();
    assert_eq!(tree.len(), 2);
    assert_eq!(tree[0].name, "outer");
    assert_eq!(duration_ms(&tree[0], &durations), Some(200.0));
    assert_eq!(tree[0].children.len(), 1);
    assert_eq!(tree[0].children[0].name, "inner");
    assert_eq!(tree[1].name, "cut");
    assert_eq!(duration_ms(&tree[1], &durations), None);
}

#[test]
fn nodes_name_the_lines_that_started_and_ended_them() {
    let (log, _) = sample();
    let tree = log.action_tree();
    assert_eq!((tree[0].record, tree[0].end, tree[0].seq, tree[0].depth), (1, Some(4), 1, 0));
    let inner = &tree[0].children[0];
    assert_eq!((inner.record, inner.end, inner.seq, inner.depth), (2, Some(3), 2, 1));
    assert_eq!((tree[1].record, tree[1].end), (6, None));
    assert!(tree.iter().all(|n| n.error.is_none()));
}

#[test]
fn a_failed_action_carries_its_error() {
    let log = log_of(vec![started(0, "approach", 0), failed(1, "approach", "timeout", 0)]);
    let tree = log.action_tree();
    assert_eq!(tree.len(), 1);
    assert_eq!(tree[0].end, Some(1));
    assert_eq!(tree[0].error.as_deref(), Some("timeout"));
}

#[test]
fn a_start_at_the_same_depth_cuts_off_the_open_action() {
    let log = log_of(vec![started(0, "a", 0), started(1, "b", 0), completed(2, "b", 0)]);
    let tree = log.action_tree();
    assert_eq!(tree.len(), 2);
    assert_eq!((tree[0].name.as_str(), tree[0].end), ("a", None));
    assert_eq!((tree[1].name.as_str(), tree[1].end), ("b", Some(2)));
}

#[test]
fn an_end_closes_what_was_opened_inside_it_as_cut_off() {
    let log = log_of(vec![
        started(0, "outer", 0),
        started(1, "inner", 1),
        started(2, "deepest", 2),
        completed(3, "outer", 0),
    ]);
    let tree = log.action_tree();
    assert_eq!(tree.len(), 1);
    assert_eq!(tree[0].end, Some(3));
    let inner = &tree[0].children[0];
    assert_eq!((inner.name.as_str(), inner.end), ("inner", None));
    assert_eq!((inner.children[0].name.as_str(), inner.children[0].end), ("deepest", None));
}

#[test]
fn an_end_for_an_action_never_started_changes_nothing() {
    let log = log_of(vec![completed(0, "ghost", 0), started(1, "real", 0)]);
    let tree = log.action_tree();
    assert_eq!(tree.len(), 1);
    assert_eq!((tree[0].name.as_str(), tree[0].record, tree[0].end), ("real", 1, None));
}

#[test]
fn an_empty_log_has_an_empty_tree() {
    assert!(log_of(Vec::new()).action_tree().is_empty());
}

#[test]
fn content_lines_are_numbered_from_one_and_skip_blank_lines() {
    let lines = content_lines(SAMPLE);
    assert_eq!(lines.len(), 8);
    assert_eq!(lines[6], (7, "not json at all".to_string()));
    let numbered = content_lines("a\n   \n\r\nb\r\n");
    assert_eq!(numbered, vec![(1, "a".to_string()), (4, "b".to_string())]);
}

#[test]
fn bookends_are_the_first_and_last_content_lines() {
    assert_eq!(
        bookends("\nfirst\nmiddle\n  \nlast\n\n"),
        (Some("first".to_string()), Some("last".to_string()))
    );
    assert_eq!(bookends("only\n"), (Some("only".to_string()), None));
    assert_eq!(bookends(" \n"), (None, None));
}

fn fact(index: u8, name: &str, tcp_channel: Option<u8>) -> SignalFact {
    SignalFact { index, name: name.to_string(), tcp_channel }
}

#[test]
fn signal_facts_are_sorted_by_index_then_name_and_aliases_collapse() {
    let facts = vec![
        fact(3, "Z (m)", None),
        fact(0, "Current (A)", Some(0)),
        fact(3, "Z (m)", Some(1)),
        fact(0, "I", Some(0)),
        fact(0, "Current (A)", None),
        fact(24, "freq shift", Some(5)),
        fact(24, "Freq shift", Some(5)),
        fact(1, "\u{3bc}-bias", None),
        fact(1, "z-bias", None),
    ];
    let sorted = sorted_signal_facts(&facts);
    let keys: Vec<(u8, &str, Option<u8>)> =
        sorted.iter().map(|f| (f.index, f.name.as_str(), f.tcp_channel)).collect();
    assert_eq!(
        keys,
        vec![
            (0, "Current (A)", Some(0)),
            (0, "I", Some(0)),
            (1, "z-bias", None),
            (1, "\u{3bc}-bias", None),
            (3, "Z (m)", None),
            (24, "Freq shift", Some(5)),
            (24, "freq shift", Some(5)),
        ]
    );
    assert!(sorted_signal_facts(&Vec::new()).is_empty());
}
