use rusty_tip::machine_state::{
    describe_z_controller, validate_chain, MachineState, ScanActivity, StateEffects, StateField,
    StateRequirements, TipEngagement, TrackedValue, ZControllerStatus,
};

#[test]
fn uninitialized_state_needs_resolution() {
    let state = MachineState::uninitialized();
    assert!(state.needs_resolution(StateField::Tip));
    assert!(state.needs_resolution(StateField::BiasV));
    assert!(state.needs_resolution(StateField::Scan));
}

#[test]
fn known_state_does_not_need_resolution() {
    let mut state = MachineState::uninitialized();
    state.bias_v.set(0.5f64.to_bits());
    assert!(!state.needs_resolution(StateField::BiasV));
    assert!(state.needs_resolution(StateField::Tip));
}

#[test]
fn degrade_known_to_unknown() {
    let mut state = MachineState::uninitialized();
    state.bias_v.set(0.5f64.to_bits());
    assert!(state.bias_v.is_known());

    state.degrade_field(StateField::BiasV);
    assert!(!state.bias_v.is_known());
    assert!(matches!(state.bias_v, TrackedValue::Unknown));
}

#[test]
fn degrade_uninitialized_stays_uninitialized() {
    let mut state = MachineState::uninitialized();
    state.degrade_field(StateField::BiasV);
    assert!(matches!(state.bias_v, TrackedValue::Uninitialized));
}

#[test]
fn requirements_empty_always_passes() {
    let state = MachineState::uninitialized();
    let reqs = StateRequirements::none();
    assert!(reqs.check(&state).is_empty());
}

#[test]
fn tip_requirement_passes_when_matched() {
    let mut state = MachineState::uninitialized();
    state.tip.set(TipEngagement::Approached);

    let reqs = StateRequirements::none().tip(TipEngagement::Approached);
    assert!(reqs.check(&state).is_empty());
}

#[test]
fn tip_requirement_fails_when_wrong_value() {
    let mut state = MachineState::uninitialized();
    state.tip.set(TipEngagement::Withdrawn);

    let reqs = StateRequirements::none().tip(TipEngagement::Approached);
    let violations = reqs.check(&state);
    assert_eq!(violations.len(), 1);
    assert_eq!(violations[0].field, StateField::Tip);
}

#[test]
fn tip_requirement_fails_when_uninitialized() {
    let state = MachineState::uninitialized();
    let reqs = StateRequirements::none().tip(TipEngagement::Approached);
    let violations = reqs.check(&state);
    assert_eq!(violations.len(), 1);
}

#[test]
fn effects_apply_sets_fields() {
    let mut state = MachineState::uninitialized();
    let effects = StateEffects::none()
        .set_tip(TipEngagement::Approached)
        .set_bias(0.5f64.to_bits())
        .set_scan(ScanActivity::Stopped);

    effects.apply(&mut state);

    assert_eq!(state.tip.as_known(), Some(&TipEngagement::Approached));
    assert_eq!(state.bias_v.as_known(), Some(&0.5f64.to_bits()));
    assert_eq!(state.scan.as_known(), Some(&ScanActivity::Stopped));
    // Unaffected fields stay uninitialized
    assert!(state.z_setpoint_a.needs_resolution());
}

#[test]
fn effects_degrade_on_error() {
    let mut state = MachineState::uninitialized();
    state.tip.set(TipEngagement::Approached);
    state.bias_v.set(0.5f64.to_bits());

    let effects = StateEffects::none().set_bias(1.0f64.to_bits());
    effects.degrade(&mut state);

    // bias was affected by the effect, so it's now Unknown
    assert!(matches!(state.bias_v, TrackedValue::Unknown));
    // tip was not affected, so it stays Known
    assert_eq!(state.tip.as_known(), Some(&TipEngagement::Approached));
}

#[test]
fn chain_validation_catches_missing_approach() {
    let state = MachineState::uninitialized();

    // Chain: BiasPulse (needs approached) without prior approach
    let pulse_expects = StateRequirements::none().tip(TipEngagement::Approached);
    let pulse_effects = StateEffects::none();

    let chain: Vec<(&str, &StateRequirements, &StateEffects)> =
        vec![("bias_pulse", &pulse_expects, &pulse_effects)];

    let errors = validate_chain(&chain, &state);
    assert_eq!(errors.len(), 1);
    assert_eq!(errors[0].step, 0);
    assert_eq!(errors[0].action_name, "bias_pulse");
}

#[test]
fn chain_validation_passes_with_approach_before_pulse() {
    let state = MachineState::uninitialized();

    let approach_expects = StateRequirements::none();
    let approach_effects = StateEffects::none().set_tip(TipEngagement::Approached);

    let pulse_expects = StateRequirements::none().tip(TipEngagement::Approached);
    let pulse_effects = StateEffects::none();

    let chain: Vec<(&str, &StateRequirements, &StateEffects)> = vec![
        ("calibrated_approach", &approach_expects, &approach_effects),
        ("bias_pulse", &pulse_expects, &pulse_effects),
    ];

    let errors = validate_chain(&chain, &state);
    assert!(errors.is_empty());
}

#[test]
fn chain_validation_catches_scan_start_without_approach() {
    let state = MachineState::uninitialized();

    let scan_expects = StateRequirements::none().tip(TipEngagement::Approached);
    let scan_effects = StateEffects::none().set_scan(ScanActivity::Running);

    let chain: Vec<(&str, &StateRequirements, &StateEffects)> =
        vec![("scan_start", &scan_expects, &scan_effects)];

    let errors = validate_chain(&chain, &state);
    assert_eq!(errors.len(), 1);
}

// ---------------------------------------------------------------------------

#[test]
fn violation_messages_name_expected_and_actual() {
    let mut state = MachineState::uninitialized();
    state.tip.set(TipEngagement::Withdrawn);
    let reqs = StateRequirements::none()
        .tip(TipEngagement::Approached)
        .scan(ScanActivity::Running)
        .known(StateField::BiasV);
    let violations = reqs.check(&state);
    assert_eq!(violations.len(), 3);
    assert_eq!(violations[0].to_text(), "Tip: expected approached, got withdrawn");
    assert_eq!(violations[1].to_text(), "Scan: expected running, got scan: uninitialized");
    assert_eq!(
        violations[2].to_text(),
        "BiasV: expected any known value, got unknown/uninitialized"
    );
}

#[test]
fn unknown_fields_are_described_as_needing_a_query() {
    let mut state = MachineState::uninitialized();
    state.scan.set(ScanActivity::Running);
    state.scan.degrade();
    assert_eq!(state.scan.describe("scan"), "scan: UNKNOWN (query needed)");
    assert_eq!(state.tip.describe("tip"), "tip: uninitialized");
    state.z_controller.set(ZControllerStatus::On);
    assert_eq!(describe_z_controller(&state.z_controller), "On");
}

#[test]
fn chain_errors_render_with_step_and_violations() {
    let state = MachineState::uninitialized();
    let expects = StateRequirements::none()
        .tip(TipEngagement::Approached)
        .known(StateField::Scan);
    let effects = StateEffects::none();
    let nothing = StateRequirements::none();
    let chain: Vec<(&str, &StateRequirements, &StateEffects)> =
        vec![("first", &nothing, &effects), ("pulse", &expects, &effects)];
    let errors = validate_chain(&chain, &state);
    assert_eq!(errors.len(), 1);
    assert_eq!(
        errors[0].to_text(),
        "Step 1 (pulse): Tip: expected approached, got tip: uninitialized, \
         Scan: expected any known value, got unknown/uninitialized"
    );
}

#[test]
fn a_failed_step_does_not_apply_its_effects() {
    // The first step fails, so its SetTip is not simulated and the second
    // step fails too.
    let state = MachineState::uninitialized();
    let needs_scan = StateRequirements::none().known(StateField::Scan);
    let approach = StateEffects::none().set_tip(TipEngagement::Approached);
    let needs_tip = StateRequirements::none().tip(TipEngagement::Approached);
    let nothing = StateEffects::none();
    let chain: Vec<(&str, &StateRequirements, &StateEffects)> =
        vec![("approach", &needs_scan, &approach), ("pulse", &needs_tip, &nothing)];
    let errors = validate_chain(&chain, &state);
    assert_eq!(errors.len(), 2);
    assert_eq!(errors[1].step, 1);
}

#[test]
fn degrade_all_forgets_every_known_field() {
    let mut state = MachineState::default();
    state.tip.set(TipEngagement::Approached);
    state.safe_tip_enabled.set(true);
    state.degrade_all();
    assert!(matches!(state.tip, TrackedValue::Unknown));
    assert!(matches!(state.safe_tip_enabled, TrackedValue::Unknown));
    assert!(matches!(state.scan, TrackedValue::Uninitialized));
}

#[test]
fn fields_are_reported_in_requirement_and_effect_order() {
    let reqs = StateRequirements::none()
        .scan(ScanActivity::Stopped)
        .known(StateField::ZSetpointA)
        .tip(TipEngagement::Withdrawn);
    assert_eq!(
        reqs.required_fields(),
        vec![StateField::Scan, StateField::ZSetpointA, StateField::Tip]
    );
    let effects = StateEffects::none()
        .set_safe_tip(false)
        .set_z_controller(ZControllerStatus::Hold)
        .set_z_setpoint(1e-10f64.to_bits());
    assert_eq!(
        effects.affected_fields(),
        vec![StateField::SafeTipEnabled, StateField::ZController, StateField::ZSetpointA]
    );
    assert!(!effects.is_empty());
    assert_eq!(reqs.requirements().len(), 3);
}
