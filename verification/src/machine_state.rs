//! Machine state tracking for safe action execution.
//!
//! Every action declares what machine state it expects and what state it
//! produces. The framework tracks state transitions and refuses to execute
//! actions whose preconditions are not met.
//!
//! Values that the hardware reports as floating-point numbers (bias and
//! setpoint) are tracked by their IEEE-754 bit patterns (`f64::to_bits`), so
//! that two tracked values are equal exactly when their bits are.
use vstd::prelude::*;
use vstd::string::*;

verus! {

// ============================================================================
// Text of tracked values
// ============================================================================

/// A value that has a human-readable rendering, used in state descriptions
/// and violation messages.
pub trait ValueText {
    /// The rendering, as a sequence of characters.
    spec fn text(&self) -> Seq<char>;

    /// Render the value.
    fn to_text(&self) -> (s: String)
        ensures
            s@ == self.text(),
    ;
}

// ============================================================================
// TrackedValue<T> — a value with explicit knowledge status
// ============================================================================

/// A value whose tracking status is explicit.
///
/// - `Known(T)` — set by a successful action or verified by a query.
/// - `Unknown` — was known, but a failed action made it uncertain.
/// - `Uninitialized` — never set; procedure has not addressed this field yet.
#[derive(Debug, Clone, Copy)]
pub enum TrackedValue<T> {
    Known(T),
    Unknown,
    Uninitialized,
}

impl<T> TrackedValue<T> {
    /// The state after a failed action touched this value: Known becomes
    /// Unknown, anything else stays as it is.
    pub open spec fn degraded(self) -> TrackedValue<T> {
        match self {
            TrackedValue::Known(_) => TrackedValue::Unknown,
            _ => self,
        }
    }

    pub fn is_known(&self) -> (r: bool)
        ensures
            r == (*self is Known),
    {
        match self {
            TrackedValue::Known(_) => true,
            _ => false,
        }
    }

    /// Returns true if the value needs resolution (Unknown or Uninitialized).
    pub fn needs_resolution(&self) -> (r: bool)
        ensures
            r == !(*self is Known),
    {
        !self.is_known()
    }

    pub fn as_known(&self) -> (r: Option<&T>)
        ensures
            r.is_some() == (*self is Known),
            *self is Known ==> *r.unwrap() == self->Known_0,
    {
        match self {
            TrackedValue::Known(v) => Some(v),
            _ => None,
        }
    }

    /// Set to Known.
    pub fn set(&mut self, value: T)
        ensures
            *final(self) == TrackedValue::Known(value),
    {
        *self = TrackedValue::Known(value);
    }

    /// Degrade to Unknown. Only affects Known values —
    /// Uninitialized stays Uninitialized (it was never set,
    /// so a failure didn't change that fact).
    pub fn degrade(&mut self)
        ensures
            *final(self) == old(self).degraded(),
    {
        if self.is_known() {
            *self = TrackedValue::Unknown;
        }
    }
}

impl<T> Default for TrackedValue<T> {
    fn default() -> (r: Self)
        ensures
            r is Uninitialized,
    {
        TrackedValue::Uninitialized
    }
}

/// The text of `": UNKNOWN (query needed)"` appended to a field name.
pub open spec fn unknown_text(field_name: Seq<char>) -> Seq<char> {
    field_name + ": UNKNOWN (query needed)"@
}

/// The text of `": uninitialized"` appended to a field name.
pub open spec fn uninitialized_text(field_name: Seq<char>) -> Seq<char> {
    field_name + ": uninitialized"@
}

impl<T: ValueText> TrackedValue<T> {
    /// What `describe` renders for this value under the given field name.
    pub open spec fn description(self, field_name: Seq<char>) -> Seq<char> {
        match self {
            TrackedValue::Known(v) => v.text(),
            TrackedValue::Unknown => unknown_text(field_name),
            TrackedValue::Uninitialized => uninitialized_text(field_name),
        }
    }

    pub fn describe(&self, field_name: &str) -> (s: String)
        ensures
            s@ == self.description(field_name@),
    {
        match self {
            TrackedValue::Known(v) => v.to_text(),
            TrackedValue::Unknown => {
                let mut s = String::from_str(field_name);
                s.append(": UNKNOWN (query needed)");
                s
            },
            TrackedValue::Uninitialized => {
                let mut s = String::from_str(field_name);
                s.append(": uninitialized");
                s
            },
        }
    }
}

// ============================================================================
// Domain types for tracked fields
// ============================================================================

#[derive(Debug, Clone, Copy, PartialEq, Eq, Structural)]
pub enum TipEngagement {
    Approached,
    Withdrawn,
}

impl ValueText for TipEngagement {
    open spec fn text(&self) -> Seq<char> {
        match self {
            TipEngagement::Approached => "approached"@,
            TipEngagement::Withdrawn => "withdrawn"@,
        }
    }

    fn to_text(&self) -> (s: String) {
        match self {
            TipEngagement::Approached => String::from_str("approached"),
            TipEngagement::Withdrawn => String::from_str("withdrawn"),
        }
    }
}

#[derive(Debug, Clone, Copy, PartialEq, Eq, Structural)]
pub enum ScanActivity {
    Running,
    Stopped,
}

impl ValueText for ScanActivity {
    open spec fn text(&self) -> Seq<char> {
        match self {
            ScanActivity::Running => "running"@,
            ScanActivity::Stopped => "stopped"@,
        }
    }

    fn to_text(&self) -> (s: String) {
        match self {
            ScanActivity::Running => String::from_str("running"),
            ScanActivity::Stopped => String::from_str("stopped"),
        }
    }
}

impl ValueText for bool {
    open spec fn text(&self) -> Seq<char> {
        if *self {
            "true"@
        } else {
            "false"@
        }
    }

    fn to_text(&self) -> (s: String) {
        if *self {
            String::from_str("true")
        } else {
            String::from_str("false")
        }
    }
}

/// Status of the Z controller as the controller reports it.
#[derive(Debug, Clone, Copy, PartialEq, Eq, Structural)]
pub enum ZControllerStatus {
    Off,
    On,
    Hold,
    SafeTip,
}

impl ValueText for ZControllerStatus {
    /// The variant's name, as its `Debug` rendering spells it.
    open spec fn text(&self) -> Seq<char> {
        match self {
            ZControllerStatus::Off => "Off"@,
            ZControllerStatus::On => "On"@,
            ZControllerStatus::Hold => "Hold"@,
            ZControllerStatus::SafeTip => "SafeTip"@,
        }
    }

    fn to_text(&self) -> (s: String) {
        match self {
            ZControllerStatus::Off => String::from_str("Off"),
            ZControllerStatus::On => String::from_str("On"),
            ZControllerStatus::Hold => String::from_str("Hold"),
            ZControllerStatus::SafeTip => String::from_str("SafeTip"),
        }
    }
}

// ============================================================================
// MachineState
// ============================================================================

/// Which field of MachineState an action reads or writes.
#[derive(Debug, Clone, Copy, PartialEq, Eq, Hash, Structural)]
pub enum StateField {
    Tip,
    BiasV,
    ZSetpointA,
    ZController,
    Scan,
    SafeTipEnabled,
}

impl StateField {
    /// The field's name, as its `Debug` rendering spells it.
    pub open spec fn name_text(self) -> Seq<char> {
        match self {
            StateField::Tip => "Tip"@,
            StateField::BiasV => "BiasV"@,
            StateField::ZSetpointA => "ZSetpointA"@,
            StateField::ZController => "ZController"@,
            StateField::Scan => "Scan"@,
            StateField::SafeTipEnabled => "SafeTipEnabled"@,
        }
    }

    pub fn name(&self) -> (s: String)
        ensures
            s@ == self.name_text(),
    {
        match self {
            StateField::Tip => String::from_str("Tip"),
            StateField::BiasV => String::from_str("BiasV"),
            StateField::ZSetpointA => String::from_str("ZSetpointA"),
            StateField::ZController => String::from_str("ZController"),
            StateField::Scan => String::from_str("Scan"),
            StateField::SafeTipEnabled => String::from_str("SafeTipEnabled"),
        }
    }
}

/// Software model of the physical machine state.
///
/// Updated by actions on success, degraded to Unknown on error.
/// This is NOT a live mirror of the hardware — it reflects what
/// the software believes to be true based on the actions it has
/// executed. `bias_v` and `z_setpoint_a` hold the bit patterns of the
/// volts and amperes they track.
#[derive(Debug, Clone, Copy)]
pub struct MachineState {
    pub tip: TrackedValue<TipEngagement>,
    pub bias_v: TrackedValue<u64>,
    pub z_setpoint_a: TrackedValue<u64>,
    pub z_controller: TrackedValue<ZControllerStatus>,
    pub scan: TrackedValue<ScanActivity>,
    pub safe_tip_enabled: TrackedValue<bool>,
}

impl MachineState {
    /// The state in which no field has been addressed yet.
    pub open spec fn all_uninitialized() -> MachineState {
        MachineState {
            tip: TrackedValue::Uninitialized,
            bias_v: TrackedValue::Uninitialized,
            z_setpoint_a: TrackedValue::Uninitialized,
            z_controller: TrackedValue::Uninitialized,
            scan: TrackedValue::Uninitialized,
            safe_tip_enabled: TrackedValue::Uninitialized,
        }
    }

    /// Whether `field` is Known in this state.
    pub open spec fn field_known(self, field: StateField) -> bool {
        match field {
            StateField::Tip => self.tip is Known,
            StateField::BiasV => self.bias_v is Known,
            StateField::ZSetpointA => self.z_setpoint_a is Known,
            StateField::ZController => self.z_controller is Known,
            StateField::Scan => self.scan is Known,
            StateField::SafeTipEnabled => self.safe_tip_enabled is Known,
        }
    }

    /// Whether `field` is Uninitialized in this state.
    pub open spec fn field_uninitialized(self, field: StateField) -> bool {
        match field {
            StateField::Tip => self.tip is Uninitialized,
            StateField::BiasV => self.bias_v is Uninitialized,
            StateField::ZSetpointA => self.z_setpoint_a is Uninitialized,
            StateField::ZController => self.z_controller is Uninitialized,
            StateField::Scan => self.scan is Uninitialized,
            StateField::SafeTipEnabled => self.safe_tip_enabled is Uninitialized,
        }
    }

    /// This state with `field` degraded (Known becomes Unknown).
    pub open spec fn with_degraded(self, field: StateField) -> MachineState {
        match field {
            StateField::Tip => MachineState { tip: self.tip.degraded(), ..self },
            StateField::BiasV => MachineState { bias_v: self.bias_v.degraded(), ..self },
            StateField::ZSetpointA => MachineState {
                z_setpoint_a: self.z_setpoint_a.degraded(),
                ..self
            },
            StateField::ZController => MachineState {
                z_controller: self.z_controller.degraded(),
                ..self
            },
            StateField::Scan => MachineState { scan: self.scan.degraded(), ..self },
            StateField::SafeTipEnabled => MachineState {
                safe_tip_enabled: self.safe_tip_enabled.degraded(),
                ..self
            },
        }
    }

    /// This state with every field degraded.
    pub open spec fn all_degraded(self) -> MachineState {
        MachineState {
            tip: self.tip.degraded(),
            bias_v: self.bias_v.degraded(),
            z_setpoint_a: self.z_setpoint_a.degraded(),
            z_controller: self.z_controller.degraded(),
            scan: self.scan.degraded(),
            safe_tip_enabled: self.safe_tip_enabled.degraded(),
        }
    }

    /// All fields start as Uninitialized.
    pub fn uninitialized() -> (r: Self)
        ensures
            r == MachineState::all_uninitialized(),
    {
        MachineState {
            tip: TrackedValue::Uninitialized,
            bias_v: TrackedValue::Uninitialized,
            z_setpoint_a: TrackedValue::Uninitialized,
            z_controller: TrackedValue::Uninitialized,
            scan: TrackedValue::Uninitialized,
            safe_tip_enabled: TrackedValue::Uninitialized,
        }
    }

    /// Degrade a specific field to Unknown (after a failed action).
    pub fn degrade_field(&mut self, field: StateField)
        ensures
            *final(self) == old(self).with_degraded(field),
    {
        match field {
            StateField::Tip => self.tip.degrade(),
            StateField::BiasV => self.bias_v.degrade(),
            StateField::ZSetpointA => self.z_setpoint_a.degrade(),
            StateField::ZController => self.z_controller.degrade(),
            StateField::Scan => self.scan.degrade(),
            StateField::SafeTipEnabled => self.safe_tip_enabled.degrade(),
        }
    }

    /// Check whether a field needs resolution (Unknown or Uninitialized).
    pub fn needs_resolution(&self, field: StateField) -> (r: bool)
        ensures
            r == !self.field_known(field),
    {
        match field {
            StateField::Tip => self.tip.needs_resolution(),
            StateField::BiasV => self.bias_v.needs_resolution(),
            StateField::ZSetpointA => self.z_setpoint_a.needs_resolution(),
            StateField::ZController => self.z_controller.needs_resolution(),
            StateField::Scan => self.scan.needs_resolution(),
            StateField::SafeTipEnabled => self.safe_tip_enabled.needs_resolution(),
        }
    }

    /// Mark every Known field as Unknown.
    ///
    /// Used after a connection reset or other wide-scope uncertainty event:
    /// the software state model no longer reflects hardware, so the next
    /// action that needs a field will force a fresh query.
    pub fn degrade_all(&mut self)
        ensures
            *final(self) == old(self).all_degraded(),
    {
        self.tip.degrade();
        self.bias_v.degrade();
        self.z_setpoint_a.degrade();
        self.z_controller.degrade();
        self.scan.degrade();
        self.safe_tip_enabled.degrade();
    }
}

/// ZControllerStatus renders as its variant name.
pub fn describe_z_controller(value: &TrackedValue<ZControllerStatus>) -> (s: String)
    ensures
        s@ == value.description("z-ctrl"@),
{
    value.describe("z-ctrl")
}

impl Default for MachineState {
    fn default() -> (r: Self)
        ensures
            r == MachineState::all_uninitialized(),
    {
        Self::uninitialized()
    }
}

// ============================================================================
// StateRequirements — what an action expects before execution
// ============================================================================

/// A single requirement on one field of MachineState.
#[derive(Debug, Clone, Copy)]
pub enum FieldRequirement {
    /// Field must be Known (any value). Used when the action needs
    /// to read or depend on the field but doesn't care about the value.
    Known(StateField),
    /// Tip must be in a specific engagement state.
    TipIs(TipEngagement),
    /// Scan must be in a specific activity state.
    ScanIs(ScanActivity),
}

impl FieldRequirement {
    /// The field this requirement depends on.
    pub open spec fn field(self) -> StateField {
        match self {
            FieldRequirement::Known(f) => f,
            FieldRequirement::TipIs(_) => StateField::Tip,
            FieldRequirement::ScanIs(_) => StateField::Scan,
        }
    }

    /// Whether `state` meets this requirement.
    pub open spec fn holds(self, state: MachineState) -> bool {
        match self {
            FieldRequirement::Known(f) => state.field_known(f),
            FieldRequirement::TipIs(e) => state.tip == TrackedValue::Known(e),
            FieldRequirement::ScanIs(e) => state.scan == TrackedValue::Known(e),
        }
    }
}

/// A violation as the contracts speak of it.
pub struct ViolationView {
    pub field: StateField,
    pub expected: Seq<char>,
    pub actual: Seq<char>,
}

/// The violation that `req` reports against `state`, if any.
pub open spec fn requirement_violation(req: FieldRequirement, state: MachineState) -> Option<
    ViolationView,
> {
    match req {
        FieldRequirement::Known(field) => {
            if !state.field_known(field) {
                Some(
                    ViolationView {
                        field,
                        expected: "any known value"@,
                        actual: "unknown/uninitialized"@,
                    },
                )
            } else {
                None
            }
        },
        FieldRequirement::TipIs(expected) => match state.tip {
            TrackedValue::Known(actual) => if actual == expected {
                None
            } else {
                Some(
                    ViolationView {
                        field: StateField::Tip,
                        expected: expected.text(),
                        actual: actual.text(),
                    },
                )
            },
            _ => Some(
                ViolationView {
                    field: StateField::Tip,
                    expected: expected.text(),
                    actual: state.tip.description("tip"@),
                },
            ),
        },
        FieldRequirement::ScanIs(expected) => match state.scan {
            TrackedValue::Known(actual) => if actual == expected {
                None
            } else {
                Some(
                    ViolationView {
                        field: StateField::Scan,
                        expected: expected.text(),
                        actual: actual.text(),
                    },
                )
            },
            _ => Some(
                ViolationView {
                    field: StateField::Scan,
                    expected: expected.text(),
                    actual: state.scan.description("scan"@),
                },
            ),
        },
    }
}

/// The violations of `reqs` against `state`, in the order of `reqs`.
pub open spec fn violations_of(reqs: Seq<FieldRequirement>, state: MachineState) -> Seq<
    ViolationView,
>
    decreases reqs.len(),
{
    if reqs.len() == 0 {
        Seq::empty()
    } else {
        let prefix = violations_of(reqs.drop_last(), state);
        match requirement_violation(reqs.last(), state) {
            Some(v) => prefix.push(v),
            None => prefix,
        }
    }
}

/// Whether every requirement in `reqs` holds in `state`.
pub open spec fn all_hold(reqs: Seq<FieldRequirement>, state: MachineState) -> bool {
    forall|i: int| 0 <= i < reqs.len() ==> #[trigger] reqs[i].holds(state)
}

/// Collection of preconditions that must be satisfied before an action runs.
#[derive(Debug, Clone)]
pub struct StateRequirements {
    requirements: Vec<FieldRequirement>,
}

impl View for StateRequirements {
    type V = Seq<FieldRequirement>;

    closed spec fn view(&self) -> Seq<FieldRequirement> {
        self.requirements@
    }
}

impl Default for StateRequirements {
    fn default() -> (r: Self)
        ensures
            r@ == Seq::<FieldRequirement>::empty(),
    {
        StateRequirements { requirements: Vec::new() }
    }
}

impl StateRequirements {
    pub fn none() -> (r: Self)
        ensures
            r@ == Seq::<FieldRequirement>::empty(),
    {
        Self::default()
    }

    pub fn tip(self, engagement: TipEngagement) -> (r: Self)
        ensures
            r@ == self@.push(FieldRequirement::TipIs(engagement)),
    {
        let mut this = self;
        this.requirements.push(FieldRequirement::TipIs(engagement));
        this
    }

    pub fn scan(self, activity: ScanActivity) -> (r: Self)
        ensures
            r@ == self@.push(FieldRequirement::ScanIs(activity)),
    {
        let mut this = self;
        this.requirements.push(FieldRequirement::ScanIs(activity));
        this
    }

    pub fn known(self, field: StateField) -> (r: Self)
        ensures
            r@ == self@.push(FieldRequirement::Known(field)),
    {
        let mut this = self;
        this.requirements.push(FieldRequirement::Known(field));
        this
    }

    pub fn requirements(&self) -> (r: &[FieldRequirement])
        ensures
            r@ == self@,
    {
        self.requirements.as_slice()
    }

    pub fn is_empty(&self) -> (r: bool)
        ensures
            r == (self@.len() == 0),
    {
        self.requirements.len() == 0
    }

    /// Check all requirements against the current state.
    /// Returns a list of violations (empty = all satisfied).
    pub fn check(&self, state: &MachineState) -> (r: Vec<Violation>)
        ensures
            r@.map_values(|v: Violation| v@) == violations_of(self@, *state),
    {
        let mut violations: Vec<Violation> = Vec::new();
        let n = self.requirements.len();
        let mut i: usize = 0;
        while i < n
            invariant
                n == self.requirements@.len(),
                i <= n,
                violations@.map_values(|v: Violation| v@) == violations_of(
                    self.requirements@.take(i as int),
                    *state,
                ),
            decreases n - i,
        {
            let req = &self.requirements[i];
            let found = check_requirement(req, state);
            proof {
                assert(self.requirements@.take(i + 1).drop_last() =~= self.requirements@.take(
                    i as int,
                ));
            }
            match found {
                Some(v) => {
                    violations.push(v);
                },
                None => {},
            }
            proof {
                assert(violations@.map_values(|v: Violation| v@) =~= violations_of(
                    self.requirements@.take(i + 1),
                    *state,
                ));
            }
            i = i + 1;
        }
        proof {
            assert(self.requirements@.take(n as int) =~= self.requirements@);
        }
        violations
    }

    /// Which fields these requirements depend on (for auto-recovery).
    pub fn required_fields(&self) -> (r: Vec<StateField>)
        ensures
            r@ == self@.map_values(|req: FieldRequirement| req.field()),
    {
        let mut fields: Vec<StateField> = Vec::new();
        let n = self.requirements.len();
        let mut i: usize = 0;
        while i < n
            invariant
                n == self.requirements@.len(),
                i <= n,
                fields@ == self.requirements@.take(i as int).map_values(
                    |req: FieldRequirement| req.field(),
                ),
            decreases n - i,
        {
            let f = match self.requirements[i] {
                FieldRequirement::Known(f) => f,
                FieldRequirement::TipIs(_) => StateField::Tip,
                FieldRequirement::ScanIs(_) => StateField::Scan,
            };
            fields.push(f);
            proof {
                assert(self.requirements@.take(i + 1).map_values(|req: FieldRequirement| req.field())
                    =~= fields@);
            }
            i = i + 1;
        }
        proof {
            assert(self.requirements@.take(n as int) =~= self.requirements@);
        }
        fields
    }
}

fn check_requirement(req: &FieldRequirement, state: &MachineState) -> (r: Option<Violation>)
    ensures
        match r {
            Some(v) => requirement_violation(*req, *state) == Some(v@),
            None => requirement_violation(*req, *state) is None,
        },
{
    match req {
        FieldRequirement::Known(field) => {
            if state.needs_resolution(*field) {
                Some(
                    Violation {
                        field: *field,
                        expected: String::from_str("any known value"),
                        actual: String::from_str("unknown/uninitialized"),
                    },
                )
            } else {
                None
            }
        },
        FieldRequirement::TipIs(expected) => match &state.tip {
            TrackedValue::Known(actual) => {
                if *actual == *expected {
                    None
                } else {
                    Some(
                        Violation {
                            field: StateField::Tip,
                            expected: expected.to_text(),
                            actual: actual.to_text(),
                        },
                    )
                }
            },
            _ => Some(
                Violation {
                    field: StateField::Tip,
                    expected: expected.to_text(),
                    actual: state.tip.describe("tip"),
                },
            ),
        },
        FieldRequirement::ScanIs(expected) => match &state.scan {
            TrackedValue::Known(actual) => {
                if *actual == *expected {
                    None
                } else {
                    Some(
                        Violation {
                            field: StateField::Scan,
                            expected: expected.to_text(),
                            actual: actual.to_text(),
                        },
                    )
                }
            },
            _ => Some(
                Violation {
                    field: StateField::Scan,
                    expected: expected.to_text(),
                    actual: state.scan.describe("scan"),
                },
            ),
        },
    }
}

// ============================================================================
// Violation — a precondition that was not met
// ============================================================================

#[derive(Debug)]
pub struct Violation {
    pub field: StateField,
    pub expected: String,
    pub actual: String,
}

impl View for Violation {
    type V = ViolationView;

    open spec fn view(&self) -> ViolationView {
        ViolationView { field: self.field, expected: self.expected@, actual: self.actual@ }
    }
}

/// `"{field:?}: expected {expected}, got {actual}"`.
pub open spec fn violation_text(v: ViolationView) -> Seq<char> {
    v.field.name_text() + ": expected "@ + v.expected + ", got "@ + v.actual
}

impl Violation {
    /// The message: `"{field:?}: expected {expected}, got {actual}"`.
    pub fn to_text(&self) -> (s: String)
        ensures
            s@ == violation_text(self@),
    {
        let mut s = self.field.name();
        s.append(": expected ");
        s.append(self.expected.as_str());
        s.append(", got ");
        s.append(self.actual.as_str());
        s
    }
}

// ============================================================================
// StateEffects — how an action changes state on success
// ============================================================================

/// One change an action makes to MachineState on success.
#[derive(Debug, Clone, Copy)]
pub enum StateEffect {
    SetTip(TipEngagement),
    SetBias(u64),
    SetZSetpoint(u64),
    SetZController(ZControllerStatus),
    SetScan(ScanActivity),
    SetSafeTip(bool),
}

impl StateEffect {
    /// The field this effect writes.
    pub open spec fn field(self) -> StateField {
        match self {
            StateEffect::SetTip(_) => StateField::Tip,
            StateEffect::SetBias(_) => StateField::BiasV,
            StateEffect::SetZSetpoint(_) => StateField::ZSetpointA,
            StateEffect::SetZController(_) => StateField::ZController,
            StateEffect::SetScan(_) => StateField::Scan,
            StateEffect::SetSafeTip(_) => StateField::SafeTipEnabled,
        }
    }

    /// `state` with this effect applied.
    pub open spec fn applied_to(self, state: MachineState) -> MachineState {
        match self {
            StateEffect::SetTip(v) => MachineState { tip: TrackedValue::Known(v), ..state },
            StateEffect::SetBias(v) => MachineState { bias_v: TrackedValue::Known(v), ..state },
            StateEffect::SetZSetpoint(v) => MachineState {
                z_setpoint_a: TrackedValue::Known(v),
                ..state
            },
            StateEffect::SetZController(v) => MachineState {
                z_controller: TrackedValue::Known(v),
                ..state
            },
            StateEffect::SetScan(v) => MachineState { scan: TrackedValue::Known(v), ..state },
            StateEffect::SetSafeTip(v) => MachineState {
                safe_tip_enabled: TrackedValue::Known(v),
                ..state
            },
        }
    }
}

/// `state` with `effects` applied in order.
pub open spec fn apply_all(effects: Seq<StateEffect>, state: MachineState) -> MachineState
    decreases effects.len(),
{
    if effects.len() == 0 {
        state
    } else {
        effects.last().applied_to(apply_all(effects.drop_last(), state))
    }
}

/// `state` with the field of each of `effects` degraded, in order.
pub open spec fn degrade_all_fields(effects: Seq<StateEffect>, state: MachineState) -> MachineState
    decreases effects.len(),
{
    if effects.len() == 0 {
        state
    } else {
        degrade_all_fields(effects.drop_last(), state).with_degraded(effects.last().field())
    }
}

/// The position of the last effect in `effects` that writes `f`, or -1.
pub open spec fn last_write(effects: Seq<StateEffect>, f: StateField) -> int
    decreases effects.len(),
{
    if effects.len() == 0 {
        -1
    } else if effects.last().field() == f {
        effects.len() - 1
    } else {
        last_write(effects.drop_last(), f)
    }
}

proof fn lemma_last_write_range(effects: Seq<StateEffect>, f: StateField)
    ensures
        -1 <= last_write(effects, f) < effects.len(),
        last_write(effects, f) >= 0 ==> effects[last_write(effects, f)].field() == f,
    decreases effects.len(),
{
    if effects.len() > 0 && effects.last().field() != f {
        lemma_last_write_range(effects.drop_last(), f);
    }
}

/// Applying effects leaves each field with the value that the last effect
/// writing it carries: a tip set to withdrawn is known withdrawn, a bias set
/// to `v` is known to be `v`, and so on; a field that no effect writes keeps
/// what it was.
pub proof fn law_apply_keeps_the_last_value_written(effects: Seq<StateEffect>, state: MachineState)
    ensures
        ({
            let r = apply_all(effects, state);
            let t = last_write(effects, StateField::Tip);
            let b = last_write(effects, StateField::BiasV);
            let z = last_write(effects, StateField::ZSetpointA);
            let c = last_write(effects, StateField::ZController);
            let sc = last_write(effects, StateField::Scan);
            let st = last_write(effects, StateField::SafeTipEnabled);
            &&& t >= 0 ==> (effects[t] matches StateEffect::SetTip(v) && r.tip == TrackedValue::Known(v))
            &&& t < 0 ==> r.tip == state.tip
            &&& b >= 0 ==> (effects[b] matches StateEffect::SetBias(v) && r.bias_v == TrackedValue::Known(v))
            &&& b < 0 ==> r.bias_v == state.bias_v
            &&& z >= 0 ==> (effects[z] matches StateEffect::SetZSetpoint(v) && r.z_setpoint_a
                == TrackedValue::Known(v))
            &&& z < 0 ==> r.z_setpoint_a == state.z_setpoint_a
            &&& c >= 0 ==> (effects[c] matches StateEffect::SetZController(v) && r.z_controller
                == TrackedValue::Known(v))
            &&& c < 0 ==> r.z_controller == state.z_controller
            &&& sc >= 0 ==> (effects[sc] matches StateEffect::SetScan(v) && r.scan == TrackedValue::Known(v))
            &&& sc < 0 ==> r.scan == state.scan
            &&& st >= 0 ==> (effects[st] matches StateEffect::SetSafeTip(v) && r.safe_tip_enabled
                == TrackedValue::Known(v))
            &&& st < 0 ==> r.safe_tip_enabled == state.safe_tip_enabled
        }),
    decreases effects.len(),
{
    if effects.len() > 0 {
        let d = effects.drop_last();
        law_apply_keeps_the_last_value_written(d, state);
        lemma_last_write_range(d, StateField::Tip);
        lemma_last_write_range(d, StateField::BiasV);
        lemma_last_write_range(d, StateField::ZSetpointA);
        lemma_last_write_range(d, StateField::ZController);
        lemma_last_write_range(d, StateField::Scan);
        lemma_last_write_range(d, StateField::SafeTipEnabled);
        assert forall|k: int| 0 <= k < d.len() implies d[k] == effects[k] by {}
    }
}

/// Describes how an action modifies MachineState on successful execution.
///
/// Used for two purposes:
/// 1. **Chain validation** — simulate state changes without executing.
/// 2. **Error degradation** — on failure, fields listed here become Unknown.
#[derive(Debug, Clone)]
pub struct StateEffects {
    effects: Vec<StateEffect>,
}

impl View for StateEffects {
    type V = Seq<StateEffect>;

    closed spec fn view(&self) -> Seq<StateEffect> {
        self.effects@
    }
}

impl Default for StateEffects {
    fn default() -> (r: Self)
        ensures
            r@ == Seq::<StateEffect>::empty(),
    {
        StateEffects { effects: Vec::new() }
    }
}

impl StateEffects {
    pub fn none() -> (r: Self)
        ensures
            r@ == Seq::<StateEffect>::empty(),
    {
        Self::default()
    }

    pub fn is_empty(&self) -> (r: bool)
        ensures
            r == (self@.len() == 0),
    {
        self.effects.len() == 0
    }

    pub fn set_tip(self, engagement: TipEngagement) -> (r: Self)
        ensures
            r@ == self@.push(StateEffect::SetTip(engagement)),
    {
        let mut this = self;
        this.effects.push(StateEffect::SetTip(engagement));
        this
    }

    /// `voltage` is the bit pattern of the bias in volts.
    pub fn set_bias(self, voltage: u64) -> (r: Self)
        ensures
            r@ == self@.push(StateEffect::SetBias(voltage)),
    {
        let mut this = self;
        this.effects.push(StateEffect::SetBias(voltage));
        this
    }

    /// `setpoint` is the bit pattern of the setpoint in amperes.
    pub fn set_z_setpoint(self, setpoint: u64) -> (r: Self)
        ensures
            r@ == self@.push(StateEffect::SetZSetpoint(setpoint)),
    {
        let mut this = self;
        this.effects.push(StateEffect::SetZSetpoint(setpoint));
        this
    }

    pub fn set_z_controller(self, status: ZControllerStatus) -> (r: Self)
        ensures
            r@ == self@.push(StateEffect::SetZController(status)),
    {
        let mut this = self;
        this.effects.push(StateEffect::SetZController(status));
        this
    }

    pub fn set_scan(self, activity: ScanActivity) -> (r: Self)
        ensures
            r@ == self@.push(StateEffect::SetScan(activity)),
    {
        let mut this = self;
        this.effects.push(StateEffect::SetScan(activity));
        this
    }

    pub fn set_safe_tip(self, enabled: bool) -> (r: Self)
        ensures
            r@ == self@.push(StateEffect::SetSafeTip(enabled)),
    {
        let mut this = self;
        this.effects.push(StateEffect::SetSafeTip(enabled));
        this
    }

    /// Apply effects to machine state (on successful execution).
    pub fn apply(&self, state: &mut MachineState)
        ensures
            *final(state) == apply_all(self@, *old(state)),
    {
        let ghost start = *state;
        let n = self.effects.len();
        let mut i: usize = 0;
        while i < n
            invariant
                n == self.effects@.len(),
                i <= n,
                *state == apply_all(self.effects@.take(i as int), start),
            decreases n - i,
        {
            proof {
                assert(self.effects@.take(i + 1).drop_last() =~= self.effects@.take(i as int));
            }
            match self.effects[i] {
                StateEffect::SetTip(v) => state.tip.set(v),
                StateEffect::SetBias(v) => state.bias_v.set(v),
                StateEffect::SetZSetpoint(v) => state.z_setpoint_a.set(v),
                StateEffect::SetZController(v) => state.z_controller.set(v),
                StateEffect::SetScan(v) => state.scan.set(v),
                StateEffect::SetSafeTip(v) => state.safe_tip_enabled.set(v),
            }
            i = i + 1;
        }
        proof {
            assert(self.effects@.take(n as int) =~= self.effects@);
        }
    }

    /// Degrade affected fields to Unknown (on failed execution).
    pub fn degrade(&self, state: &mut MachineState)
        ensures
            *final(state) == degrade_all_fields(self@, *old(state)),
    {
        let ghost start = *state;
        let n = self.effects.len();
        let mut i: usize = 0;
        while i < n
            invariant
                n == self.effects@.len(),
                i <= n,
                *state == degrade_all_fields(self.effects@.take(i as int), start),
            decreases n - i,
        {
            proof {
                assert(self.effects@.take(i + 1).drop_last() =~= self.effects@.take(i as int));
            }
            let field = match self.effects[i] {
                StateEffect::SetTip(_) => StateField::Tip,
                StateEffect::SetBias(_) => StateField::BiasV,
                StateEffect::SetZSetpoint(_) => StateField::ZSetpointA,
                StateEffect::SetZController(_) => StateField::ZController,
                StateEffect::SetScan(_) => StateField::Scan,
                StateEffect::SetSafeTip(_) => StateField::SafeTipEnabled,
            };
            state.degrade_field(field);
            i = i + 1;
        }
        proof {
            assert(self.effects@.take(n as int) =~= self.effects@);
        }
    }

    /// Which fields this effect set touches.
    pub fn affected_fields(&self) -> (r: Vec<StateField>)
        ensures
            r@ == self@.map_values(|e: StateEffect| e.field()),
    {
        let mut fields: Vec<StateField> = Vec::new();
        let n = self.effects.len();
        let mut i: usize = 0;
        while i < n
            invariant
                n == self.effects@.len(),
                i <= n,
                fields@ == self.effects@.take(i as int).map_values(|e: StateEffect| e.field()),
            decreases n - i,
        {
            let f = match self.effects[i] {
                StateEffect::SetTip(_) => StateField::Tip,
                StateEffect::SetBias(_) => StateField::BiasV,
                StateEffect::SetZSetpoint(_) => StateField::ZSetpointA,
                StateEffect::SetZController(_) => StateField::ZController,
                StateEffect::SetScan(_) => StateField::Scan,
                StateEffect::SetSafeTip(_) => StateField::SafeTipEnabled,
            };
            fields.push(f);
            proof {
                assert(self.effects@.take(i + 1).map_values(|e: StateEffect| e.field())
                    =~= fields@);
            }
            i = i + 1;
        }
        proof {
            assert(self.effects@.take(n as int) =~= self.effects@);
        }
        fields
    }
}

// ============================================================================
// ActionKind + ValidationPolicy
// ============================================================================

/// How an action interacts with the physical hardware state.
#[derive(Debug, Clone, Copy, PartialEq, Eq, Structural)]
pub enum ActionKind {
    /// Pure read — no physical side effects. Safe to auto-insert
    /// for state recovery when a field is Unknown or Uninitialized.
    Query,
    /// Modifies physical hardware state. Must be explicitly placed.
    /// Never auto-inserted by the framework.
    Mutate,
}

/// How strictly the executor enforces action preconditions.
#[derive(Debug, Clone, Copy, PartialEq, Eq, Structural)]
pub enum ValidationPolicy {
    /// Do not consult MachineState at all. Preserves pre-state-tracking
    /// behavior for workflows that predate the feature.
    Disabled,
    /// Log warnings but execute anyway. For simulation and testing.
    Advisory,
    /// Hard gate with automatic Query-based recovery for unknown fields.
    /// For real hardware.
    Strict,
}

impl Default for ValidationPolicy {
    fn default() -> (r: Self)
        ensures
            r == ValidationPolicy::Disabled,
    {
        ValidationPolicy::Disabled
    }
}


// ============================================================================
// Chain validation (pre-execution, no hardware calls)
// ============================================================================

/// Error from pre-execution chain validation.
#[derive(Debug)]
pub struct ChainValidationError {
    pub step: usize,
    pub action_name: String,
    pub violations: Vec<Violation>,
}

/// A chain error as the contracts speak of it.
pub struct ChainErrorView {
    pub step: int,
    pub action_name: Seq<char>,
    pub violations: Seq<ViolationView>,
}

impl View for ChainValidationError {
    type V = ChainErrorView;

    open spec fn view(&self) -> ChainErrorView {
        ChainErrorView {
            step: self.step as int,
            action_name: self.action_name@,
            violations: self.violations@.map_values(|v: Violation| v@),
        }
    }
}

/// One step of an action chain as the contracts speak of it: the action's
/// name, what it expects and what it does on success.
pub struct ChainStep {
    pub name: Seq<char>,
    pub expects: Seq<FieldRequirement>,
    pub effects: Seq<StateEffect>,
}

/// The steps of a chain as `validate_chain` receives it.
pub open spec fn chain_steps(chain: Seq<(&str, &StateRequirements, &StateEffects)>) -> Seq<
    ChainStep,
> {
    chain.map_values(
        |e: (&str, &StateRequirements, &StateEffects)|
            ChainStep { name: e.0@, expects: e.1@, effects: e.2@ },
    )
}

/// Simulate `steps` from `init`: the simulated state after them and the
/// errors found. A step whose expectations fail is reported and its effects
/// are not applied.
pub open spec fn simulate(steps: Seq<ChainStep>, init: MachineState) -> (
    MachineState,
    Seq<ChainErrorView>,
)
    decreases steps.len(),
{
    if steps.len() == 0 {
        (init, Seq::empty())
    } else {
        let (state, errors) = simulate(steps.drop_last(), init);
        let step = steps.last();
        let violations = violations_of(step.expects, state);
        if violations.len() > 0 {
            (
                state,
                errors.push(
                    ChainErrorView {
                        step: steps.len() - 1,
                        action_name: step.name,
                        violations,
                    },
                ),
            )
        } else {
            (apply_all(step.effects, state), errors)
        }
    }
}

/// `"Step {step} ({action_name}): {violations joined by ", "}"`.
pub open spec fn chain_error_text(e: ChainErrorView) -> Seq<char> {
    "Step "@ + crate::text::decimal_text(e.step as nat) + " ("@ + e.action_name + "): "@
        + joined_violations(e.violations)
}

/// The messages of `vs`, joined by `", "`.
pub open spec fn joined_violations(vs: Seq<ViolationView>) -> Seq<char>
    decreases vs.len(),
{
    if vs.len() == 0 {
        Seq::empty()
    } else if vs.len() == 1 {
        violation_text(vs[0])
    } else {
        joined_violations(vs.drop_last()) + ", "@ + violation_text(vs.last())
    }
}

impl ChainValidationError {
    /// The message: `"Step {step} ({action_name}): {violations}"`, the
    /// violations joined by `", "`.
    pub fn to_text(&self) -> (s: String)
        ensures
            s@ == chain_error_text(self@),
    {
        let mut s = String::from_str("Step ");
        crate::text::append_decimal(&mut s, self.step as u64);
        s.append(" (");
        s.append(self.action_name.as_str());
        s.append("): ");
        let ghost prefix = s@;
        let n = self.violations.len();
        let mut i: usize = 0;
        while i < n
            invariant
                n == self.violations@.len(),
                i <= n,
                s@ == prefix + joined_violations(
                    self.violations@.map_values(|v: Violation| v@).take(i as int),
                ),
            decreases n - i,
        {
            let ghost vs = self.violations@.map_values(|v: Violation| v@);
            proof {
                assert(vs.take(i + 1).drop_last() =~= vs.take(i as int));
            }
            if i > 0 {
                s.append(", ");
            }
            let t = self.violations[i].to_text();
            s.append(t.as_str());
            proof {
                if i == 0 {
                    assert(vs.take(1) =~= seq![vs[0]]);
                }
                assert(s@ =~= prefix + joined_violations(vs.take(i + 1)));
            }
            i = i + 1;
        }
        proof {
            assert(self.violations@.map_values(|v: Violation| v@).take(n as int)
                =~= self.violations@.map_values(|v: Violation| v@));
        }
        s
    }
}

/// Validate an action chain against an initial state without executing.
///
/// Simulates state transitions using each action's effects to check
/// whether all preconditions would be met at each step.
/// Returns all violations found (not just the first).
pub fn validate_chain(
    chain: &[(&str, &StateRequirements, &StateEffects)],
    initial_state: &MachineState,
) -> (r: Vec<ChainValidationError>)
    ensures
        r@.map_values(|e: ChainValidationError| e@) == simulate(
            chain_steps(chain@),
            *initial_state,
        ).1,
{
    let mut simulated = *initial_state;
    let mut errors: Vec<ChainValidationError> = Vec::new();
    let n = chain.len();
    let mut i: usize = 0;
    while i < n
        invariant
            n == chain@.len(),
            i <= n,
            (simulated, errors@.map_values(|e: ChainValidationError| e@)) == simulate(
                chain_steps(chain@).take(i as int),
                *initial_state,
            ),
        decreases n - i,
    {
        let ghost steps = chain_steps(chain@);
        proof {
            assert(steps.take(i + 1).drop_last() =~= steps.take(i as int));
        }
        let (name, expects, effects) = chain[i];
        let violations = expects.check(&simulated);
        if violations.len() != 0 {
            let ghost old_errors = errors@.map_values(|e: ChainValidationError| e@);
            errors.push(
                ChainValidationError { step: i, action_name: String::from_str(name), violations },
            );
            proof {
                assert(errors@.map_values(|e: ChainValidationError| e@) =~= old_errors.push(
                    errors@.last()@,
                ));
            }
        } else {
            effects.apply(&mut simulated);
        }
        i = i + 1;
    }
    proof {
        assert(chain_steps(chain@).take(n as int) =~= chain_steps(chain@));
    }
    errors
}


// ============================================================================
// Laws
// ============================================================================

/// Whether `a` and `b` agree on `field`.
pub open spec fn same_field(a: MachineState, b: MachineState, field: StateField) -> bool {
    match field {
        StateField::Tip => a.tip == b.tip,
        StateField::BiasV => a.bias_v == b.bias_v,
        StateField::ZSetpointA => a.z_setpoint_a == b.z_setpoint_a,
        StateField::ZController => a.z_controller == b.z_controller,
        StateField::Scan => a.scan == b.scan,
        StateField::SafeTipEnabled => a.safe_tip_enabled == b.safe_tip_enabled,
    }
}

/// Whether some effect in `effects` writes `field`.
pub open spec fn touches(effects: Seq<StateEffect>, field: StateField) -> bool {
    exists|i: int| 0 <= i < effects.len() && #[trigger] effects[i].field() == field
}

proof fn lemma_touches_drop_last(effects: Seq<StateEffect>, field: StateField)
    requires
        effects.len() > 0,
    ensures
        touches(effects, field) <==> (touches(effects.drop_last(), field) || effects.last().field()
            == field),
{
    let d = effects.drop_last();
    if touches(effects, field) {
        let i = choose|i: int| 0 <= i < effects.len() && #[trigger] effects[i].field() == field;
        if i < effects.len() - 1 {
            assert(d[i] == effects[i]);
        }
    }
    if touches(d, field) {
        let i = choose|i: int| 0 <= i < d.len() && #[trigger] d[i].field() == field;
        assert(effects[i] == d[i]);
    }
    if effects.last().field() == field {
        assert(effects[effects.len() - 1].field() == field);
    }
}

/// After a successful action, every field its effects write is Known; every
/// other field is as it was.
pub proof fn law_apply_sets_exactly_the_affected_fields(
    effects: Seq<StateEffect>,
    state: MachineState,
    field: StateField,
)
    ensures
        touches(effects, field) ==> apply_all(effects, state).field_known(field),
        !touches(effects, field) ==> same_field(apply_all(effects, state), state, field),
    decreases effects.len(),
{
    if effects.len() > 0 {
        lemma_touches_drop_last(effects, field);
        law_apply_sets_exactly_the_affected_fields(effects.drop_last(), state, field);
    }
}

/// After a failed action, no field has become Known or left Uninitialized:
/// each field its effects write is Unknown if it was Known and unchanged
/// otherwise, and every other field is as it was.
pub proof fn law_degrade_only_forgets(effects: Seq<StateEffect>, state: MachineState, field: StateField)
    ensures
        degrade_all_fields(effects, state).field_uninitialized(field) == state.field_uninitialized(
            field,
        ),
        touches(effects, field) ==> !degrade_all_fields(effects, state).field_known(field),
        !touches(effects, field) ==> same_field(degrade_all_fields(effects, state), state, field),
    decreases effects.len(),
{
    if effects.len() > 0 {
        lemma_touches_drop_last(effects, field);
        law_degrade_only_forgets(effects.drop_last(), state, field);
    }
}

/// Degrading for the same failed action twice changes nothing more than
/// degrading once.
pub proof fn law_degrade_is_idempotent(effects: Seq<StateEffect>, state: MachineState)
    ensures
        degrade_all_fields(effects, degrade_all_fields(effects, state)) == degrade_all_fields(
            effects,
            state,
        ),
{
    let once = degrade_all_fields(effects, state);
    let twice = degrade_all_fields(effects, once);
    assert forall|f: StateField| same_field(twice, once, f) by {
        law_degrade_only_forgets(effects, state, f);
        law_degrade_only_forgets(effects, once, f);
    }
    assert(same_field(twice, once, StateField::Tip));
    assert(same_field(twice, once, StateField::BiasV));
    assert(same_field(twice, once, StateField::ZSetpointA));
    assert(same_field(twice, once, StateField::ZController));
    assert(same_field(twice, once, StateField::Scan));
    assert(same_field(twice, once, StateField::SafeTipEnabled));
}

/// After `degrade_all`, no field is Known, and exactly the fields that were
/// Uninitialized still are.
pub proof fn law_degrade_all_leaves_nothing_known(state: MachineState, field: StateField)
    ensures
        !state.all_degraded().field_known(field),
        state.all_degraded().field_uninitialized(field) == state.field_uninitialized(field),
{
}

/// A requirement reports a violation exactly when it does not hold.
proof fn lemma_violation_iff_not_holds(req: FieldRequirement, state: MachineState)
    ensures
        requirement_violation(req, state).is_some() <==> !req.holds(state),
{
}

/// `check` reports no violation exactly when every requirement holds; in
/// particular, no requirements always pass.
pub proof fn law_check_passes_iff_all_hold(reqs: Seq<FieldRequirement>, state: MachineState)
    ensures
        violations_of(reqs, state).len() == 0 <==> all_hold(reqs, state),
        reqs.len() == 0 ==> violations_of(reqs, state).len() == 0,
    decreases reqs.len(),
{
    if reqs.len() > 0 {
        let d = reqs.drop_last();
        law_check_passes_iff_all_hold(d, state);
        lemma_violation_iff_not_holds(reqs.last(), state);
        if all_hold(reqs, state) {
            assert forall|i: int| 0 <= i < d.len() implies #[trigger] d[i].holds(state) by {
                assert(d[i] == reqs[i]);
            }
            assert(reqs[reqs.len() - 1].holds(state));
        }
        if violations_of(reqs, state).len() == 0 {
            assert forall|i: int| 0 <= i < reqs.len() implies #[trigger] reqs[i].holds(state) by {
                if i < reqs.len() - 1 {
                    assert(d[i] == reqs[i]);
                }
            }
        }
    }
}

/// The state reached before step `i` of a chain, by the steps before it.
pub open spec fn state_before(steps: Seq<ChainStep>, init: MachineState, i: int) -> MachineState {
    simulate(steps.take(i), init).0
}

/// A chain validates without errors exactly when every step's expectations
/// hold in the state the earlier steps leave, and then the simulation ends in
/// the state that applying every step's effects in order gives. Every error
/// names a step of the chain, in increasing order.
pub proof fn law_chain_validation(steps: Seq<ChainStep>, init: MachineState)
    ensures
        simulate(steps, init).1.len() == 0 <==> forall|i: int|
            0 <= i < steps.len() ==> all_hold(#[trigger] steps[i].expects, state_before(steps, init, i)),
        forall|k: int|
            0 <= k < simulate(steps, init).1.len() ==> 0 <= #[trigger] simulate(steps, init).1[k].step
                < steps.len(),
        forall|k: int, l: int|
            0 <= k < l < simulate(steps, init).1.len() ==> #[trigger] simulate(steps, init).1[k].step
                < #[trigger] simulate(steps, init).1[l].step,
        simulate(steps, init).1.len() == 0 ==> simulate(steps, init).0 == apply_steps(steps, init),
    decreases steps.len(),
{
    if steps.len() > 0 {
        let d = steps.drop_last();
        law_chain_validation(d, init);
        let (state, errors) = simulate(d, init);
        let step = steps.last();
        law_check_passes_iff_all_hold(step.expects, state);
        assert(steps.take(steps.len() - 1) =~= d);
        assert forall|i: int| 0 <= i < d.len() implies state_before(steps, init, i) == state_before(
            d,
            init,
            i,
        ) && #[trigger] d[i] == steps[i] by {
            assert(steps.take(i) =~= d.take(i));
        }
        let r = simulate(steps, init).1;
        assert forall|k: int| 0 <= k < r.len() implies 0 <= #[trigger] r[k].step < steps.len() by {
            if k < errors.len() {
                assert(r[k] == errors[k]);
            }
        }
        assert forall|k: int, l: int| 0 <= k < l < r.len() implies #[trigger] r[k].step
            < #[trigger] r[l].step by {
            if l < errors.len() {
                assert(r[k] == errors[k]);
                assert(r[l] == errors[l]);
            } else {
                assert(r[k] == errors[k]);
                assert(0 <= errors[k].step < d.len());
            }
        }
        if r.len() == 0 {
            assert forall|i: int| 0 <= i < steps.len() implies all_hold(
                #[trigger] steps[i].expects,
                state_before(steps, init, i),
            ) by {
                if i < d.len() {
                    assert(d[i] == steps[i]);
                } else {
                    assert(steps[i] == step);
                }
            }
        }
        if forall|i: int|
            0 <= i < steps.len() ==> all_hold(#[trigger] steps[i].expects, state_before(steps, init, i)) {
            assert forall|i: int| 0 <= i < d.len() implies all_hold(
                #[trigger] d[i].expects,
                state_before(d, init, i),
            ) by {
                assert(d[i] == steps[i]);
                assert(all_hold(steps[i].expects, state_before(steps, init, i)));
            }
            assert(all_hold(steps[steps.len() - 1].expects, state_before(steps, init, steps.len() - 1)));
        }
    }
}

/// `init` with the effects of every step applied in order.
pub open spec fn apply_steps(steps: Seq<ChainStep>, init: MachineState) -> MachineState
    decreases steps.len(),
{
    if steps.len() == 0 {
        init
    } else {
        apply_all(steps.last().effects, apply_steps(steps.drop_last(), init))
    }
}

} // verus!
