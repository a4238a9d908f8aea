use rusty_tip::mock_controller::{FaultKind, FaultPlan, MockObservations};
use rusty_tip::spm_error::SpmError;

#[test]
fn fail_on_call_fires_once_at_the_right_ordinal() {
    let plan = FaultPlan::new().fail_on_call("withdraw", 2, FaultKind::Timeout);
    let mut obs = MockObservations::default();
    assert!(obs.enter(&plan, "withdraw").is_ok()); // 1st
    let err = obs.enter(&plan, "withdraw").unwrap_err(); // 2nd
    assert!(matches!(err, SpmError::Timeout(_)));
    assert!(obs.enter(&plan, "withdraw").is_ok()); // 3rd
}

#[test]
fn a_disconnect_fault_marks_the_connection_lost() {
    let plan = FaultPlan::new().fail_on_call("auto_approach", 1, FaultKind::Disconnect);
    let mut obs = MockObservations::default();
    assert!(obs.connected);
    let err = obs.enter(&plan, "auto_approach").unwrap_err();
    assert!(matches!(err, SpmError::Io { ref context, .. } if context == "mock controller"));
    assert!(!obs.connected);
}

#[test]
fn every_call_fails_when_asked_and_the_last_request_wins() {
    let plan = FaultPlan::new()
        .fail_every("scan_action", FaultKind::Protocol)
        .fail_every("scan_action", FaultKind::Hardware(7))
        .fail_on_call("scan_action", 1, FaultKind::Timeout);
    let mut obs = MockObservations::default();
    for _ in 0..2 {
        match obs.enter(&plan, "scan_action") {
            Err(SpmError::Hardware { code, message }) => {
                assert_eq!(code, 7);
                assert_eq!(message, "mock: injected hardware error");
            }
            other => panic!("expected a hardware error, got {other:?}"),
        }
    }
    assert!(obs.enter(&plan, "withdraw").is_ok());
}

#[test]
fn calls_are_logged_even_when_they_fail() {
    let plan = FaultPlan::new().fail_on_call("set_bias", 1, FaultKind::Io);
    let mut obs = MockObservations::default();
    assert!(obs.enter(&plan, "set_bias").is_err());
    obs.enter(&plan, "bias_pulse").unwrap();
    obs.enter(&plan, "withdraw").unwrap();
    obs.enter(&plan, "set_bias").unwrap();
    assert!(obs.called("set_bias"));
    assert_eq!(obs.count("set_bias"), 2);
    assert_eq!(obs.count("bias_pulse"), 1);
    assert_eq!(obs.count("auto_approach"), 0);
    assert_eq!(obs.first_index("set_bias"), Some(0));
    assert_eq!(obs.last_index("set_bias"), Some(3));
    assert_eq!(obs.first_index("reconnect"), None);
    assert_eq!(obs.calls, vec!["set_bias", "bias_pulse", "withdraw", "set_bias"]);
}

#[test]
fn fresh_observations_are_empty_and_connected() {
    let obs = MockObservations::default();
    assert!(obs.calls.is_empty() && obs.pulses.is_empty() && obs.freq_values.is_empty());
    assert_eq!((obs.approach_count, obs.withdraw_count, obs.motor_moves, obs.freq_reads), (0, 0, 0, 0));
    assert!(obs.connected && !obs.prepared && !obs.torn_down);
}
