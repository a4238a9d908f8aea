use rusty_tip::config::{
    default_approach_timeout_ms, validate_status_interval, DataAcquisitionConfig,
    ExperimentLoggingConfig, NanonisConfig, TimingConfig, DEFAULT_APPROACH_TIMEOUT_MS,
};
use rusty_tip::controller_types::{BiasSweepPolarity, PolaritySign};
use rusty_tip::drift::DriftOp;
use rusty_tip::mock_controller::{FaultKind, Rng};
use rusty_tip::nanonis::client::{ConnectionConfig, NanonisClientBuilder};
use rusty_tip::nanonis::interface::{PulseMode, ZControllerHold};
use rusty_tip::nanonis::types::SignalIndex;
use rusty_tip::policy::{PolicyDecision, RuleBasedPolicy, TipState};
use rusty_tip::routine::subsystems::RepositionSpec;
use rusty_tip::routine::ExitPolicy;
use rusty_tip::spm_error::SpmError;
use rusty_tip::text::decimal_string;
use std::time::Duration;

#[test]
fn config_sections_have_their_documented_defaults() {
    let n = NanonisConfig::default();
    assert_eq!(n.host_ip, "127.0.0.1");
    assert_eq!(n.control_ports, vec![6501, 6502, 6503, 6504]);
    let d = DataAcquisitionConfig::default();
    assert_eq!((d.data_port, d.sample_rate, d.stable_signal_samples), (6590, 1000, 100));
    let e = ExperimentLoggingConfig::default();
    assert!(e.enabled);
    assert_eq!(e.output_path, "./experiments");
    let t = TimingConfig::default();
    assert_eq!(t.reposition_steps, [3, 3]);
    assert_eq!(t.status_interval, 10);
    assert_eq!(t.approach_timeout_ms, default_approach_timeout_ms());
    assert_eq!(t.reposition_approach_timeout_ms, DEFAULT_APPROACH_TIMEOUT_MS);
    assert_eq!(t.exit_retract_steps, 2);
    assert_eq!(RepositionSpec::default().z_retract, -3);
}

#[test]
fn a_zero_status_interval_is_refused() {
    let mut t = TimingConfig::default();
    assert!(validate_status_interval(&t).is_ok());
    t.status_interval = 0;
    assert_eq!(
        validate_status_interval(&t).unwrap_err(),
        "tip_prep.timing.status_interval must be at least 1"
    );
}

#[test]
fn polarity_flips_and_defaults() {
    assert_eq!(PolaritySign::Positive.opposite(), PolaritySign::Negative);
    assert_eq!(PolaritySign::Negative.opposite().opposite(), PolaritySign::Negative);
    assert_eq!(PolaritySign::default(), PolaritySign::Positive);
    assert_eq!(BiasSweepPolarity::default(), BiasSweepPolarity::Both);
}

#[test]
fn drift_operations_are_named_as_configurations_spell_them() {
    assert_eq!(DriftOp::Status.name(), "status");
    assert_eq!(DriftOp::Measure.name(), "measure");
    assert_eq!(DriftOp::Compensate.name(), "compensate");
    assert_eq!(DriftOp::Off.name(), "off");
    assert_eq!(DriftOp::default(), DriftOp::Status);
}

#[test]
fn wire_codes_of_modes() {
    assert_eq!(u16::from(PulseMode::Keep), 0);
    assert_eq!(u16::from(PulseMode::Relative), 1);
    assert_eq!(u16::from(PulseMode::Absolute), 2);
    assert_eq!(u16::from(ZControllerHold::NoChange), 0);
    assert_eq!(u16::from(ZControllerHold::Hold), 1);
    assert_eq!(u16::from(ZControllerHold::Release), 2);
}

#[test]
fn signal_indices_convert_both_ways() {
    let idx = SignalIndex::new(30);
    assert_eq!(idx.get(), 30);
    assert_eq!(i32::from(idx), 30);
    assert_eq!(SignalIndex::from(7u8).get(), 7);
}

#[test]
fn the_builder_keeps_what_it_is_given() {
    let (address, port, config, debug) = NanonisClientBuilder::default()
        .address("192.168.1.100")
        .port(6501)
        .debug(true)
        .connect_timeout(Duration::from_secs(30))
        .read_timeout(Duration::from_secs(60))
        .into_parts()
        .unwrap();
    assert_eq!(address, "192.168.1.100");
    assert_eq!(port, 6501);
    assert!(debug);
    assert_eq!(config.connect_timeout, Duration::from_secs(30));
    assert_eq!(config.read_timeout, Duration::from_secs(60));
    assert_eq!(config.write_timeout, Duration::from_secs(5));
    let c = ConnectionConfig::default();
    assert_eq!(c.read_timeout, Duration::from_secs(10));
}

#[test]
fn the_builder_needs_an_address_and_a_port() {
    let err = NanonisClientBuilder::default().port(1).into_parts().unwrap_err();
    assert!(format!("{err:?}").contains("Address must be specified"));
    let err = NanonisClientBuilder::default().address("x").into_parts().unwrap_err();
    assert!(format!("{err:?}").contains("Port must be specified"));
}

#[test]
fn test_rule_based_policy_mapping() {
    let mut policy = RuleBasedPolicy::new("Test Policy".to_string());
    assert_eq!(policy.decide(TipState::Good), PolicyDecision::Good);
    assert_eq!(policy.decide(TipState::Bad), PolicyDecision::Bad);
    assert_eq!(policy.decide(TipState::Stable), PolicyDecision::Stable);
    assert_eq!(policy.get_name(), "Test Policy");
}

#[test]
fn exit_policy_defaults_to_a_plain_withdraw() {
    assert_eq!(ExitPolicy::default(), ExitPolicy::Withdraw { retract_steps: 0 });
}

#[test]
fn injected_faults_become_the_matching_errors() {
    assert!(matches!(FaultKind::Io.to_error(), SpmError::Io { .. }));
    assert!(matches!(FaultKind::Disconnect.to_error(), SpmError::Io { .. }));
    match FaultKind::Hardware(42).to_error() {
        SpmError::Hardware { code, message } => {
            assert_eq!(code, 42);
            assert_eq!(message, "mock: injected hardware error");
        }
        other => panic!("{other:?}"),
    }
    match FaultKind::Timeout.to_error() {
        SpmError::Timeout(m) => assert_eq!(m, "mock: injected timeout"),
        other => panic!("{other:?}"),
    }
}

#[test]
fn the_generator_is_xorshift64_star() {
    let mut a = Rng::new(1);
    // x = 1: x ^= x >> 12 -> 1; x ^= x << 25 -> 0x2000001; x ^= x >> 27 -> 0x2000001.
    let x: u64 = 0x2000001;
    assert_eq!(a.next_u64(), x.wrapping_mul(0x2545_F491_4F6C_DD1D));
    let mut b = Rng::new(1);
    b.next_u64();
    assert_eq!(a.next_u64(), b.next_u64());
    // A zero seed is replaced, so the stream is not stuck at zero.
    let mut z = Rng::new(0);
    assert_ne!(z.next_u64(), 0);
}

#[test]
fn decimals_render_like_display() {
    assert_eq!(decimal_string(0), "0");
    assert_eq!(decimal_string(1234), "1234");
    assert_eq!(decimal_string(u64::MAX), u64::MAX.to_string());
}
