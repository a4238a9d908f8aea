//! The deterministic parts of the in-memory controller: the faults it can
//! inject and when they fire, the record of the calls made to it, its
//! random number generator and its capabilities.
use crate::spm_error::SpmError;
use vstd::prelude::*;
use vstd::string::*;

verus! {

/// The kind of error a scheduled fault produces when it fires.
#[derive(Debug, Clone, Copy, PartialEq, Eq, Structural)]
pub enum FaultKind {
    /// Network/IO failure (`SpmError::Io`). Considered a connection error.
    Io,
    /// Operation timed out (`SpmError::Timeout`). Considered a connection error.
    Timeout,
    /// Malformed response / type mismatch (`SpmError::Protocol`).
    Protocol,
    /// Hardware/server-reported error with the given code (`SpmError::Hardware`).
    Hardware(i32),
    /// Like `Io`, but also flips the mock to "disconnected".
    Disconnect,
}

/// `std::io::Error::new(ErrorKind::BrokenPipe, message)`: an I/O error of
/// kind `BrokenPipe` carrying `message`. `std::io::Error` is opaque here, so
/// nothing is claimed of the value it returns.
#[verifier::external_body]
fn broken_pipe(message: &str) -> std::io::Error {
    std::io::Error::new(std::io::ErrorKind::BrokenPipe, message)
}

/// Whether `e` is the error that the fault `kind` produces: a broken pipe
/// in the mock controller for `Io` and `Disconnect`, else the timeout,
/// protocol or hardware error with its fixed message.
pub open spec fn is_error_of(kind: FaultKind, e: SpmError) -> bool {
    &&& (kind == FaultKind::Io || kind == FaultKind::Disconnect) ==> (e matches SpmError::Io {
        context,
        ..
    } && context@ == "mock controller"@)
    &&& kind == FaultKind::Timeout ==> (e matches SpmError::Timeout(m) && m@
        == "mock: injected timeout"@)
    &&& kind == FaultKind::Protocol ==> (e matches SpmError::Protocol(m) && m@
        == "mock: injected protocol error"@)
    &&& kind is Hardware ==> (e matches SpmError::Hardware { code, message } && code
        == kind->Hardware_0 && message@ == "mock: injected hardware error"@)
}

impl FaultKind {
    /// The error this fault produces.
    pub fn to_error(self) -> (e: SpmError)
        ensures
            is_error_of(self, e),
    {
        match self {
            FaultKind::Io | FaultKind::Disconnect => SpmError::Io {
                source: broken_pipe("mock: injected I/O fault"),
                context: String::from_str("mock controller"),
            },
            FaultKind::Timeout => SpmError::Timeout(String::from_str("mock: injected timeout")),
            FaultKind::Protocol => SpmError::Protocol(
                String::from_str("mock: injected protocol error"),
            ),
            FaultKind::Hardware(code) => SpmError::Hardware {
                code,
                message: String::from_str("mock: injected hardware error"),
            },
        }
    }
}

/// The state a zero seed is replaced by: xorshift can never leave zero.
pub const ZERO_SEED_REPLACEMENT: u64 = 0x9E37_79B9_7F4A_7C15;

/// The multiplier of the xorshift64* output.
pub const XORSHIFT_MULTIPLIER: u64 = 0x2545_F491_4F6C_DD1D;

/// The state after one xorshift64 step from `x`.
pub open spec fn xorshift(x: u64) -> u64 {
    let a = x ^ (x >> 12u64);
    let b = a ^ (a << 25u64);
    b ^ (b >> 27u64)
}

/// The output of xorshift64* for the state `x` it stepped to.
pub open spec fn scrambled(x: u64) -> u64 {
    x.wrapping_mul(XORSHIFT_MULTIPLIER)
}

/// Small deterministic PRNG (xorshift64*) so mock runs are reproducible.
#[derive(Debug, Clone, Copy)]
pub struct Rng(u64);

impl View for Rng {
    type V = u64;

    closed spec fn view(&self) -> u64 {
        self.0
    }
}

impl Rng {
    /// The generator's state is never zero.
    #[verifier::type_invariant]
    closed spec fn nonzero(self) -> bool {
        self.0 != 0
    }

    pub fn new(seed: u64) -> (r: Self)
        ensures
            seed != 0 ==> r@ == seed,
            seed == 0 ==> r@ == ZERO_SEED_REPLACEMENT,
    {
        // Guard the all-zero state, which xorshift can never escape.
        Rng(
            if seed == 0 {
                ZERO_SEED_REPLACEMENT
            } else {
                seed
            },
        )
    }

    pub fn next_u64(&mut self) -> (r: u64)
        ensures
            final(self)@ == xorshift(old(self)@),
            r == scrambled(xorshift(old(self)@)),
    {
        proof {
            use_type_invariant(&*self);
        }
        let mut x = self.0;
        x ^= x >> 12;
        x ^= x << 25;
        x ^= x >> 27;
        proof {
            law_xorshift_stays_nonzero(self.0);
        }
        self.0 = x;
        x.wrapping_mul(XORSHIFT_MULTIPLIER)
    }
}

/// A generator never reaches the zero state, which it could not leave:
/// xorshift steps from a nonzero state to a nonzero state.
pub proof fn law_xorshift_stays_nonzero(x: u64)
    requires
        x != 0,
    ensures
        xorshift(x) != 0,
{
    let a = x ^ (x >> 12u64);
    let b = a ^ (a << 25u64);
    assert(x != 0 ==> x ^ (x >> 12u64) != 0) by (bit_vector);
    assert(a != 0 ==> a ^ (a << 25u64) != 0) by (bit_vector);
    assert(b != 0 ==> b ^ (b >> 27u64) != 0) by (bit_vector);
}

/// What a controller can do.
#[derive(Debug, Clone, Copy, PartialEq, Eq, Hash, Structural)]
pub enum Capability {
    Signals,
    Bias,
    ZController,
    PiezoPosition,
    Motor,
    Scanning,
    Oscilloscope,
    TipShaper,
    Pll,
    DataStream,
    SafeTip,
}

/// Every capability, each once.
pub open spec fn every_capability() -> Seq<Capability> {
    seq![
        Capability::Signals,
        Capability::Bias,
        Capability::ZController,
        Capability::PiezoPosition,
        Capability::Motor,
        Capability::Scanning,
        Capability::Oscilloscope,
        Capability::TipShaper,
        Capability::Pll,
        Capability::DataStream,
        Capability::SafeTip,
    ]
}

/// The full capability set, as the hardware controller has it.
pub fn all_capabilities() -> (r: Vec<Capability>)
    ensures
        r@ == every_capability(),
        r@.no_duplicates(),
        forall|c: Capability| r@.contains(c),
{
    let r = vec![
        Capability::Signals,
        Capability::Bias,
        Capability::ZController,
        Capability::PiezoPosition,
        Capability::Motor,
        Capability::Scanning,
        Capability::Oscilloscope,
        Capability::TipShaper,
        Capability::Pll,
        Capability::DataStream,
        Capability::SafeTip,
    ];
    proof {
        assert(r@ =~= every_capability());
        assert forall|c: Capability| r@.contains(c) by {
            match c {
                Capability::Signals => assert(r@[0] == c),
                Capability::Bias => assert(r@[1] == c),
                Capability::ZController => assert(r@[2] == c),
                Capability::PiezoPosition => assert(r@[3] == c),
                Capability::Motor => assert(r@[4] == c),
                Capability::Scanning => assert(r@[5] == c),
                Capability::Oscilloscope => assert(r@[6] == c),
                Capability::TipShaper => assert(r@[7] == c),
                Capability::Pll => assert(r@[8] == c),
                Capability::DataStream => assert(r@[9] == c),
                Capability::SafeTip => assert(r@[10] == c),
            }
        }
    }
    r
}

// ============================================================================
// Call log and fault plan
// ============================================================================

/// Whether `a` and `b` hold the same text.
fn same_text(a: &str, b: &str) -> (r: bool)
    ensures
        r == (a@ == b@),
{
    let n = a.unicode_len();
    if n != b.unicode_len() {
        return false;
    }
    let mut i: usize = 0;
    while i < n
        invariant
            n == a@.len(),
            n == b@.len(),
            i <= n,
            a@.take(i as int) == b@.take(i as int),
        decreases n - i,
    {
        if a.get_char(i) != b.get_char(i) {
            return false;
        }
        proof {
            assert(a@.take(i + 1) =~= a@.take(i as int).push(a@[i as int]));
            assert(b@.take(i + 1) =~= b@.take(i as int).push(b@[i as int]));
        }
        i = i + 1;
    }
    proof {
        assert(a@.take(n as int) =~= a@);
        assert(b@.take(n as int) =~= b@);
    }
    true
}

/// A fault scheduled to fire on a specific call number of a method.
#[derive(Debug, Clone, Copy)]
pub struct ScheduledFault {
    pub method: &'static str,
    /// 1-based call ordinal at which to fire.
    pub on_call: usize,
    pub kind: FaultKind,
}

/// The faults a mock controller is built with: some on one call of a
/// method, some on every call.
pub struct FaultPlan {
    once: Vec<ScheduledFault>,
    always: Vec<(&'static str, FaultKind)>,
}

/// The method names of `calls`.
pub open spec fn names(calls: Seq<&'static str>) -> Seq<Seq<char>> {
    calls.map_values(|m: &'static str| m@)
}

/// The fault that every call of `method` gets: the last one given for it.
pub open spec fn always_fault(always: Seq<(&'static str, FaultKind)>, method: Seq<char>) -> Option<
    FaultKind,
>
    decreases always.len(),
{
    if always.len() == 0 {
        None
    } else if always.last().0@ == method {
        Some(always.last().1)
    } else {
        always_fault(always.drop_last(), method)
    }
}

/// The fault scheduled for call number `n` of `method`: the first one
/// given for it.
pub open spec fn once_fault(once: Seq<ScheduledFault>, method: Seq<char>, n: nat) -> Option<
    FaultKind,
>
    decreases once.len(),
{
    if once.len() == 0 {
        None
    } else if once_fault(once.drop_last(), method, n) is Some {
        once_fault(once.drop_last(), method, n)
    } else if once.last().method@ == method && once.last().on_call == n {
        Some(once.last().kind)
    } else {
        None
    }
}

impl FaultPlan {
    pub closed spec fn once_view(&self) -> Seq<ScheduledFault> {
        self.once@
    }

    pub closed spec fn always_view(&self) -> Seq<(&'static str, FaultKind)> {
        self.always@
    }

    /// The fault call number `n` of `method` gets: an every-call fault
    /// first, else one scheduled for that call.
    pub open spec fn fault_spec(&self, method: Seq<char>, n: nat) -> Option<FaultKind> {
        match always_fault(self.always_view(), method) {
            Some(k) => Some(k),
            None => once_fault(self.once_view(), method, n),
        }
    }

    /// No faults.
    pub fn new() -> (r: Self)
        ensures
            r.once_view() == Seq::<ScheduledFault>::empty(),
            r.always_view() == Seq::<(&'static str, FaultKind)>::empty(),
    {
        FaultPlan { once: Vec::new(), always: Vec::new() }
    }

    /// Schedule `method` to fail on its `nth` call (1-based) with `kind`.
    pub fn fail_on_call(self, method: &'static str, nth: usize, kind: FaultKind) -> (r: Self)
        ensures
            r.once_view() == self.once_view().push(ScheduledFault { method, on_call: nth, kind }),
            r.always_view() == self.always_view(),
    {
        let mut once = self.once;
        once.push(ScheduledFault { method, on_call: nth, kind });
        FaultPlan { once, always: self.always }
    }

    /// Make `method` fail on every call with `kind`.
    pub fn fail_every(self, method: &'static str, kind: FaultKind) -> (r: Self)
        ensures
            r.always_view() == self.always_view().push((method, kind)),
            r.once_view() == self.once_view(),
    {
        let mut always = self.always;
        always.push((method, kind));
        FaultPlan { once: self.once, always }
    }

    /// The fault call number `n` of `method` gets, if any.
    pub fn fault_for(&self, method: &str, n: usize) -> (r: Option<FaultKind>)
        ensures
            r == self.fault_spec(method@, n as nat),
    {
        let mut i = self.always.len();
        proof {
            assert(self.always@.take(i as int) =~= self.always@);
        }
        while i > 0
            invariant
                i <= self.always@.len(),
                always_fault(self.always@, method@) == always_fault(
                    self.always@.take(i as int),
                    method@,
                ),
            decreases i,
        {
            proof {
                assert(self.always@.take(i as int).drop_last() =~= self.always@.take(i - 1));
            }
            if same_text(self.always[i - 1].0, method) {
                return Some(self.always[i - 1].1);
            }
            i = i - 1;
        }
        let mut j: usize = 0;
        proof {
            assert(self.once@.take(0) =~= Seq::<ScheduledFault>::empty());
        }
        while j < self.once.len()
            invariant
                always_fault(self.always@, method@) is None,
                j <= self.once@.len(),
                once_fault(self.once@.take(j as int), method@, n as nat) is None,
            decreases self.once@.len() - j,
        {
            proof {
                assert(self.once@.take(j + 1).drop_last() =~= self.once@.take(j as int));
            }
            let f = self.once[j];
            if same_text(f.method, method) && f.on_call == n {
                proof {
                    lemma_once_extend(self.once@, method@, n as nat, (j + 1) as nat);
                }
                return Some(f.kind);
            }
            j = j + 1;
        }
        proof {
            assert(self.once@.take(j as int) =~= self.once@);
        }
        None
    }
}

proof fn lemma_once_extend(once: Seq<ScheduledFault>, method: Seq<char>, n: nat, k: nat)
    requires
        k <= once.len(),
        once_fault(once.take(k as int), method, n) is Some,
    ensures
        once_fault(once, method, n) == once_fault(once.take(k as int), method, n),
    decreases once.len() - k,
{
    if k < once.len() {
        assert(once.take(k + 1 as int).drop_last() =~= once.take(k as int));
        lemma_once_extend(once, method, n, k + 1);
    } else {
        assert(once.take(k as int) =~= once);
    }
}

/// How many entries of `s` are `m`.
pub open spec fn occurrences(s: Seq<Seq<char>>, m: Seq<char>) -> nat
    decreases s.len(),
{
    if s.len() == 0 {
        0
    } else {
        occurrences(s.drop_last(), m) + if s.last() == m {
            1nat
        } else {
            0nat
        }
    }
}

/// The first position of `m` in `s`, or -1.
pub open spec fn first_position(s: Seq<Seq<char>>, m: Seq<char>) -> int
    decreases s.len(),
{
    if s.len() == 0 {
        -1
    } else if first_position(s.drop_last(), m) >= 0 {
        first_position(s.drop_last(), m)
    } else if s.last() == m {
        s.len() - 1
    } else {
        -1
    }
}

/// The last position of `m` in `s`, or -1.
pub open spec fn last_position(s: Seq<Seq<char>>, m: Seq<char>) -> int
    decreases s.len(),
{
    if s.len() == 0 {
        -1
    } else if s.last() == m {
        s.len() - 1
    } else {
        last_position(s.drop_last(), m)
    }
}

/// Everything observable about a mock controller run. Voltages and
/// frequency shifts are `f64` values, held as their bit patterns.
#[derive(Debug, Clone)]
pub struct MockObservations {
    /// Every controller method invoked, by name, in order.
    pub calls: Vec<&'static str>,
    /// Most recent voltage passed to `set_bias`.
    pub bias: u64,
    /// Every voltage passed to `bias_pulse`, in order.
    pub pulses: Vec<u64>,
    /// Most recent z-controller setpoint.
    pub z_setpoint: u64,
    pub safe_tip_enabled: bool,
    pub scan_running: bool,
    pub prepared: bool,
    pub torn_down: bool,
    pub approach_count: usize,
    pub withdraw_count: usize,
    /// Coarse-motor moves.
    pub motor_moves: usize,
    /// Freq-shift reads served by the tip model.
    pub freq_reads: usize,
    /// Every value the tip model returned, in order.
    pub freq_values: Vec<u64>,
    /// Connection health; a `Disconnect` fault clears it.
    pub connected: bool,
}

impl Default for MockObservations {
    fn default() -> (r: Self)
        ensures
            r.calls@ == Seq::<&'static str>::empty(),
            r.bias == 0,
            r.pulses@ == Seq::<u64>::empty(),
            r.z_setpoint == 0,
            !r.safe_tip_enabled,
            !r.scan_running,
            !r.prepared,
            !r.torn_down,
            r.approach_count == 0,
            r.withdraw_count == 0,
            r.motor_moves == 0,
            r.freq_reads == 0,
            r.freq_values@ == Seq::<u64>::empty(),
            r.connected,
    {
        MockObservations {
            calls: Vec::new(),
            bias: 0,
            pulses: Vec::new(),
            z_setpoint: 0,
            safe_tip_enabled: false,
            scan_running: false,
            prepared: false,
            torn_down: false,
            approach_count: 0,
            withdraw_count: 0,
            motor_moves: 0,
            freq_reads: 0,
            freq_values: Vec::new(),
            connected: true,
        }
    }
}

proof fn lemma_occurrences_le(s: Seq<Seq<char>>, m: Seq<char>)
    ensures
        occurrences(s, m) <= s.len(),
    decreases s.len(),
{
    if s.len() > 0 {
        lemma_occurrences_le(s.drop_last(), m);
    }
}

impl MockObservations {
    /// How many times `method` was called.
    pub fn count(&self, method: &str) -> (r: usize)
        ensures
            r == occurrences(names(self.calls@), method@),
    {
        let ghost ns = names(self.calls@);
        let mut c: usize = 0;
        let mut i: usize = 0;
        proof {
            assert(ns.take(0) =~= Seq::<Seq<char>>::empty());
        }
        while i < self.calls.len()
            invariant
                ns == names(self.calls@),
                i <= self.calls@.len(),
                c == occurrences(ns.take(i as int), method@),
            decreases self.calls@.len() - i,
        {
            proof {
                assert(ns.take(i + 1).drop_last() =~= ns.take(i as int));
                lemma_occurrences_le(ns.take(i as int), method@);
            }
            if same_text(self.calls[i], method) {
                c = c + 1;
            }
            i = i + 1;
        }
        proof {
            assert(ns.take(i as int) =~= ns);
        }
        c
    }

    /// Whether `method` was ever called.
    pub fn called(&self, method: &str) -> (r: bool)
        ensures
            r == (occurrences(names(self.calls@), method@) > 0),
    {
        self.count(method) > 0
    }

    /// Position of the first call to `method`, if any.
    pub fn first_index(&self, method: &str) -> (r: Option<usize>)
        ensures
            r matches Some(i) ==> i as int == first_position(names(self.calls@), method@),
            r is None ==> first_position(names(self.calls@), method@) < 0,
    {
        let ghost ns = names(self.calls@);
        let mut i: usize = 0;
        proof {
            assert(ns.take(0) =~= Seq::<Seq<char>>::empty());
        }
        while i < self.calls.len()
            invariant
                ns == names(self.calls@),
                i <= self.calls@.len(),
                first_position(ns.take(i as int), method@) < 0,
            decreases self.calls@.len() - i,
        {
            proof {
                assert(ns.take(i + 1).drop_last() =~= ns.take(i as int));
            }
            if same_text(self.calls[i], method) {
                proof {
                    lemma_first_position_extend(ns, method@, (i + 1) as nat);
                }
                return Some(i);
            }
            i = i + 1;
        }
        proof {
            assert(ns.take(i as int) =~= ns);
        }
        None
    }

    /// Position of the last call to `method`, if any.
    pub fn last_index(&self, method: &str) -> (r: Option<usize>)
        ensures
            r matches Some(i) ==> i as int == last_position(names(self.calls@), method@),
            r is None ==> last_position(names(self.calls@), method@) < 0,
    {
        let ghost ns = names(self.calls@);
        let mut i = self.calls.len();
        proof {
            assert(ns.take(i as int) =~= ns);
        }
        while i > 0
            invariant
                ns == names(self.calls@),
                i <= self.calls@.len(),
                last_position(ns, method@) == last_position(ns.take(i as int), method@),
            decreases i,
        {
            proof {
                assert(ns.take(i as int).drop_last() =~= ns.take(i - 1));
            }
            if same_text(self.calls[i - 1], method) {
                return Some(i - 1);
            }
            i = i - 1;
        }
        None
    }

    /// Record a call of `method` and fire the fault that `plan` gives its
    /// call number, if any: the call is logged even when it fails, and a
    /// `Disconnect` fault marks the connection lost.
    pub fn enter(&mut self, plan: &FaultPlan, method: &'static str) -> (r: Result<(), SpmError>)
        ensures
            final(self).calls@ == old(self).calls@.push(method),
            ({
                let fault = plan.fault_spec(
                    method@,
                    occurrences(names(old(self).calls@), method@) + 1,
                );
                &&& fault is None ==> r is Ok && final(self).connected == old(self).connected
                &&& fault matches Some(kind) ==> (r matches Err(e) && is_error_of(kind, e)
                    && final(self).connected == (old(self).connected && kind
                    != FaultKind::Disconnect))
            }),
            final(self).bias == old(self).bias,
            final(self).pulses@ == old(self).pulses@,
            final(self).z_setpoint == old(self).z_setpoint,
            final(self).safe_tip_enabled == old(self).safe_tip_enabled,
            final(self).scan_running == old(self).scan_running,
            final(self).prepared == old(self).prepared,
            final(self).torn_down == old(self).torn_down,
            final(self).approach_count == old(self).approach_count,
            final(self).withdraw_count == old(self).withdraw_count,
            final(self).motor_moves == old(self).motor_moves,
            final(self).freq_reads == old(self).freq_reads,
            final(self).freq_values@ == old(self).freq_values@,
    {
        let ghost before = names(self.calls@);
        self.calls.push(method);
        let n = self.count(method);
        proof {
            assert(names(self.calls@).drop_last() =~= before);
        }
        match plan.fault_for(method, n) {
            None => Ok(()),
            Some(kind) => {
                if kind == FaultKind::Disconnect {
                    self.connected = false;
                }
                Err(kind.to_error())
            },
        }
    }
}

proof fn lemma_first_position_extend(s: Seq<Seq<char>>, m: Seq<char>, k: nat)
    requires
        k <= s.len(),
        first_position(s.take(k as int), m) >= 0,
    ensures
        first_position(s, m) == first_position(s.take(k as int), m),
    decreases s.len() - k,
{
    if k < s.len() {
        assert(s.take(k + 1 as int).drop_last() =~= s.take(k as int));
        lemma_first_position_extend(s, m, k + 1);
    } else {
        assert(s.take(k as int) =~= s);
    }
}

/// The call log counts every call: after one more call of `method`, it has
/// been called once more, and every other method as often as before.
pub proof fn law_each_call_counts_once(calls: Seq<&'static str>, method: &'static str, other: Seq<char>)
    ensures
        occurrences(names(calls.push(method)), method@) == occurrences(names(calls), method@) + 1,
        other != method@ ==> occurrences(names(calls.push(method)), other) == occurrences(
            names(calls),
            other,
        ),
{
    assert(names(calls.push(method)).drop_last() =~= names(calls));
}

} // verus!
