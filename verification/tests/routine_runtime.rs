use rusty_tip::mock_controller::Capability;
use rusty_tip::routine::rt::{guard_outcome, require, Cycles};
use rusty_tip::routine::Outcome;
use rusty_tip::spm_error::SpmError;
use std::time::Duration;

#[test]
fn cycles_counts_up_to_the_limit() {
    let mut cycles = Cycles::new(Some(3), None);
    let mut seen = Vec::new();
    while let Some(c) = cycles.next(false, Duration::ZERO) {
        seen.push(c);
    }
    assert_eq!(seen, vec![1, 2, 3]);
    assert_eq!(cycles.outcome(), Outcome::CycleLimit(3));
}

#[test]
fn cycles_stops_on_shutdown() {
    let mut cycles = Cycles::new(None, None);
    assert_eq!(cycles.next(false, Duration::ZERO), Some(1));
    assert_eq!(cycles.next(true, Duration::ZERO), None);
    assert_eq!(cycles.outcome(), Outcome::StoppedByUser);
}

#[test]
fn cycles_times_out() {
    let mut cycles = Cycles::new(None, Some(Duration::from_secs(1)));
    assert_eq!(cycles.next(false, Duration::from_secs(10)), None);
    assert_eq!(cycles.outcome(), Outcome::TimedOut(Duration::from_secs(1)));
}

#[test]
fn an_ended_loop_stays_ended() {
    let mut cycles = Cycles::new(Some(1), None);
    assert_eq!(cycles.next(false, Duration::ZERO), Some(1));
    assert_eq!(cycles.next(false, Duration::ZERO), None);
    assert!(cycles.ended());
    assert_eq!(cycles.next(true, Duration::from_secs(99)), None);
    assert_eq!(cycles.outcome(), Outcome::CycleLimit(1));
    assert_eq!(cycles.completed(), 1);
}

#[test]
fn a_stop_request_wins_over_the_budgets() {
    let mut cycles = Cycles::new(Some(0), Some(Duration::from_secs(1)));
    assert_eq!(cycles.next(true, Duration::from_secs(10)), None);
    assert_eq!(cycles.outcome(), Outcome::StoppedByUser);
    let mut timed = Cycles::new(Some(0), Some(Duration::from_secs(1)));
    assert_eq!(timed.next(false, Duration::from_secs(10)), None);
    assert_eq!(timed.outcome(), Outcome::TimedOut(Duration::from_secs(1)));
    let mut exact = Cycles::new(None, Some(Duration::from_secs(1)));
    assert_eq!(exact.next(false, Duration::from_secs(1)), Some(1), "the budget is exceeded only past it");
}

fn routine(m: &str) -> SpmError {
    SpmError::Routine(m.to_string())
}

#[test]
fn the_body_error_wins_and_a_hidden_cleanup_error_is_handed_back() {
    let (r, hidden) = guard_outcome::<u8>(Err(routine("body failed")), Err(routine("cleanup failed")));
    assert!(matches!(r, Err(SpmError::Routine(m)) if m == "body failed"));
    assert!(matches!(hidden, Some(SpmError::Routine(m)) if m == "cleanup failed"));
    let (r, hidden) = guard_outcome::<u8>(Ok(7), Err(routine("cleanup failed")));
    assert!(matches!(r, Err(SpmError::Routine(m)) if m == "cleanup failed"));
    assert!(hidden.is_none());
    let (r, hidden) = guard_outcome::<u8>(Ok(7), Ok(()));
    assert_eq!(r.ok(), Some(7));
    assert!(hidden.is_none());
    let (r, hidden) = guard_outcome::<u8>(Err(routine("body failed")), Ok(()));
    assert!(matches!(r, Err(SpmError::Routine(m)) if m == "body failed"));
    assert!(hidden.is_none());
}

#[test]
fn a_missing_capability_is_unsupported() {
    let caps = [Capability::Signals, Capability::Bias];
    assert!(require(&caps, Capability::Bias).is_ok());
    match require(&caps, Capability::Motor) {
        Err(SpmError::Unsupported(m)) => {
            assert_eq!(m, "controller does not support the Motor subsystem")
        }
        other => panic!("expected unsupported, got {other:?}"),
    }
}
