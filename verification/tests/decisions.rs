use rusty_tip::config::{config_source, ConfigSource};
use rusty_tip::controller::{loop_action, LoopAction};
use rusty_tip::drift::{stream_refusal, DriftOp};
use rusty_tip::mock_controller::{all_capabilities, Capability};
use rusty_tip::policy::PolicyDecision;
use rusty_tip::routine::Outcome;
use rusty_tip::session::{ConnState, SessionState};
use rusty_tip::spm_error::SpmError;
use std::time::Duration;

#[test]
fn the_control_loop_halts_only_on_a_stable_signal() {
    assert_eq!(loop_action(PolicyDecision::Bad), LoopAction::ContinueBadLoop);
    assert_eq!(loop_action(PolicyDecision::Good), LoopAction::ContinueStabilityLoop);
    assert_eq!(loop_action(PolicyDecision::Stable), LoopAction::Halt);
}

#[test]
fn measuring_without_the_stream_is_refused_unless_polling_is_allowed() {
    let err = stream_refusal(DriftOp::Measure, true, false, 10).unwrap();
    assert!(err.contains("does not carry Z"), "{err}");
    assert_eq!(
        err,
        "the data stream does not carry Z (signal 10); add it to the TCP channel mapping and \
         reconnect, or allow polling"
    );
    assert!(stream_refusal(DriftOp::Compensate, true, false, 10).is_some());
    assert!(stream_refusal(DriftOp::Measure, false, false, 10).is_none());
    assert!(stream_refusal(DriftOp::Measure, true, true, 10).is_none());
    assert!(stream_refusal(DriftOp::Status, true, false, 10).is_none());
    assert!(stream_refusal(DriftOp::Off, true, false, 10).is_none());
}

#[test]
fn only_changing_operations_read_the_status_again() {
    assert!(DriftOp::Compensate.reads_status_after());
    assert!(DriftOp::Off.reads_status_after());
    assert!(!DriftOp::Status.reads_status_after());
    assert!(!DriftOp::Measure.reads_status_after());
    assert!(DriftOp::Measure.measures() && DriftOp::Compensate.measures());
    assert!(!DriftOp::Status.measures() && !DriftOp::Off.measures());
}

#[test]
fn a_named_configuration_file_must_exist() {
    assert_eq!(config_source(Some(true), &[true, true, true]), Ok(ConfigSource::Given));
    assert_eq!(config_source(Some(false), &[true, true, true]), Err(()));
}

#[test]
fn without_a_name_the_first_usual_file_wins_then_the_defaults() {
    assert_eq!(config_source(None, &[false, true, true]), Ok(ConfigSource::Found(1)));
    assert_eq!(config_source(None, &[true, true, false]), Ok(ConfigSource::Found(0)));
    assert_eq!(config_source(None, &[false, false, false]), Ok(ConfigSource::Defaults));
}

#[test]
fn outcomes_are_named_as_the_log_spells_them() {
    assert_eq!(Outcome::Completed.log_tag(), "completed");
    assert_eq!(Outcome::StoppedByUser.log_tag(), "stopped_by_user");
    assert_eq!(Outcome::CycleLimit(3).log_tag(), "cycle_limit");
    assert_eq!(Outcome::TimedOut(Duration::from_secs(2)).log_tag(), "timed_out");
    assert_eq!(Outcome::CycleLimit(12).cycle_detail().as_deref(), Some("12"));
    assert_eq!(Outcome::Completed.cycle_detail(), None);
    assert_eq!(Outcome::TimedOut(Duration::from_secs(2)).cycle_detail(), None);
}

#[test]
fn the_mock_has_every_capability_once() {
    let caps = all_capabilities();
    assert_eq!(caps.len(), 11);
    for (i, a) in caps.iter().enumerate() {
        assert!(caps[i + 1..].iter().all(|b| b != a));
    }
    assert!(caps.contains(&Capability::SafeTip));
    assert!(caps.contains(&Capability::Signals));
}

#[test]
fn a_broken_connection_poisons_the_session_until_it_reconnects() {
    let mut s = SessionState::new();
    assert_eq!(s.state(), ConnState::Disconnected);
    assert!(matches!(s.ready(), Err(SpmError::Workflow(m)) if m == "not connected"));
    assert!(matches!(s.can_reconnect(), Err(SpmError::Workflow(m)) if m == "not connected"));
    s.connect_ended(true);
    assert_eq!(s.state(), ConnState::Connected);
    assert!(s.ready().is_ok());
    s.job_ended(false);
    assert_eq!(s.state(), ConnState::Poisoned);
    assert!(
        matches!(s.ready(), Err(SpmError::Workflow(m)) if m == "the connection is poisoned; reconnect first")
    );
    assert!(s.can_reconnect().is_ok());
    s.reconnected();
    assert_eq!(s.state(), ConnState::Connected);
    s.job_ended(true);
    assert_eq!(s.state(), ConnState::Connected);
    s.disconnect();
    assert_eq!(s, SessionState { connected: false, poisoned: false });
    s.connect_ended(false);
    assert_eq!(s.state(), ConnState::Disconnected);
}
