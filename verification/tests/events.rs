use rusty_tip::event::EventAccumulator;

fn make_event(kind: &str) -> String {
    kind.to_string()
}

fn all(acc: &EventAccumulator<String>) -> Vec<String> {
    acc.all().iter().cloned().collect()
}

#[test]
fn accumulator_collects_events() {
    let mut acc = EventAccumulator::new(10);
    acc.on_event(make_event("a"));
    acc.on_event(make_event("b"));
    acc.on_event(make_event("c"));
    assert_eq!(all(&acc).len(), 3);
}

#[test]
fn accumulator_respects_capacity() {
    let mut acc = EventAccumulator::new(3);
    for i in 0..5 {
        acc.on_event(make_event(&format!("e{}", i)));
    }
    let all = all(&acc);
    assert_eq!(all.len(), 3);
    // Should have the 3 most recent: e2, e3, e4
    assert_eq!(all[0], "e2");
    assert_eq!(all[2], "e4");
}

#[test]
fn accumulator_recent_returns_tail() {
    let mut acc = EventAccumulator::new(10);
    for i in 0..5 {
        acc.on_event(make_event(&format!("e{}", i)));
    }
    let recent = acc.recent(2);
    assert_eq!(recent.len(), 2);
    assert_eq!(recent[0], "e3");
}

#[test]
fn accumulator_recent_more_than_available() {
    let mut acc = EventAccumulator::new(10);
    acc.on_event(make_event("a"));
    let recent = acc.recent(100);
    assert_eq!(recent.len(), 1);
}

#[test]
fn accumulator_clear() {
    let mut acc = EventAccumulator::new(10);
    acc.on_event(make_event("a"));
    acc.on_event(make_event("b"));
    acc.clear();
    assert_eq!(all(&acc).len(), 0);
}

#[test]
fn an_accumulator_of_no_capacity_keeps_the_last_event() {
    let mut acc = EventAccumulator::new(0);
    acc.on_event(make_event("a"));
    acc.on_event(make_event("b"));
    assert_eq!(all(&acc), vec!["b".to_string()]);
    assert_eq!(acc.recent_start(0), 1);
    assert_eq!(acc.len(), 1);
}
