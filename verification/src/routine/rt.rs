//! The decisions of the routine runtime: the budgeted main loop, which
//! error a guarded section reports, and whether a subsystem is available.
//! The clock, the shutdown flag and the controller stay with the caller,
//! which hands in what they say.
use crate::mock_controller::Capability;
use crate::routine::Outcome;
use crate::spm_error::SpmError;
use vstd::prelude::*;
use vstd::string::*;

verus! {

/// Whether `elapsed` is longer than `max`.
pub uninterp spec fn longer_than(elapsed: std::time::Duration, max: std::time::Duration) -> bool;

/// `elapsed > max` on `std::time::Duration`. What is stated is only that
/// the answer depends on the two durations alone.
#[verifier::external_body]
fn exceeds(elapsed: std::time::Duration, max: std::time::Duration) -> (r: bool)
    ensures
        r == longer_than(elapsed, max),
{
    elapsed > max
}

/// The budget of a routine's main loop and how far it has got: `next`
/// gives the 1-based cycle number until a stop condition is hit (a stop
/// request, the time budget, the cycle budget), after which `outcome`
/// says which one it was.
pub struct Cycles {
    max_cycles: Option<usize>,
    max_duration: Option<std::time::Duration>,
    completed: usize,
    ending: Option<Outcome>,
}

/// A loop as a value.
pub ghost struct CyclesModel {
    pub max_cycles: Option<usize>,
    pub max_duration: Option<std::time::Duration>,
    pub completed: nat,
    pub ending: Option<Outcome>,
}

impl View for Cycles {
    type V = CyclesModel;

    closed spec fn view(&self) -> CyclesModel {
        CyclesModel {
            max_cycles: self.max_cycles,
            max_duration: self.max_duration,
            completed: self.completed as nat,
            ending: self.ending,
        }
    }
}

/// One call of `next`: the loop after it, and the cycle number it gives.
/// Once ended, a loop stays ended. Otherwise a stop request ends it first,
/// then an exceeded time budget, then a spent cycle budget; if none holds,
/// the next cycle starts.
pub open spec fn next_cycle(c: CyclesModel, shutdown_requested: bool, elapsed: std::time::Duration) -> (
    CyclesModel,
    Option<nat>,
) {
    if c.ending is Some {
        (c, None)
    } else if shutdown_requested {
        (CyclesModel { ending: Some(Outcome::StoppedByUser), ..c }, None)
    } else if c.max_duration matches Some(max) && longer_than(elapsed, max) {
        (CyclesModel { ending: Some(Outcome::TimedOut(c.max_duration->0)), ..c }, None)
    } else if c.max_cycles matches Some(max) && c.completed >= max {
        (CyclesModel { ending: Some(Outcome::CycleLimit(c.max_cycles->0)), ..c }, None)
    } else {
        (CyclesModel { completed: c.completed + 1, ..c }, Some(c.completed + 1))
    }
}

impl Cycles {
    /// A fresh loop. `None` means unlimited.
    pub fn new(max_cycles: Option<usize>, max_duration: Option<std::time::Duration>) -> (r: Cycles)
        ensures
            r@ == (CyclesModel { max_cycles, max_duration, completed: 0, ending: None }),
    {
        Cycles { max_cycles, max_duration, completed: 0, ending: None }
    }

    /// Cycles started so far.
    pub fn completed(&self) -> (r: usize)
        ensures
            r == self@.completed,
    {
        self.completed
    }

    /// Whether the loop has ended.
    pub fn ended(&self) -> (r: bool)
        ensures
            r == self@.ending is Some,
    {
        self.ending.is_some()
    }

    /// The next cycle number, or `None` once a stop condition is reached,
    /// given whether a stop was requested and how long the loop has run.
    pub fn next(&mut self, shutdown_requested: bool, elapsed: std::time::Duration) -> (r: Option<
        usize,
    >)
        requires
            old(self)@.completed < usize::MAX,
        ensures
            final(self)@ == next_cycle(old(self)@, shutdown_requested, elapsed).0,
            match next_cycle(old(self)@, shutdown_requested, elapsed).1 {
                Some(n) => r == Some(n as usize),
                None => r is None,
            },
    {
        if self.ending.is_some() {
            return None;
        }
        if shutdown_requested {
            self.ending = Some(Outcome::StoppedByUser);
            return None;
        }
        match self.max_duration {
            Some(max) => {
                if exceeds(elapsed, max) {
                    self.ending = Some(Outcome::TimedOut(max));
                    return None;
                }
            },
            None => {},
        }
        match self.max_cycles {
            Some(max) => {
                if self.completed >= max {
                    self.ending = Some(Outcome::CycleLimit(max));
                    return None;
                }
            },
            None => {},
        }
        self.completed = self.completed + 1;
        Some(self.completed)
    }

    /// Why the loop stopped. Only once `next` has returned `None`.
    pub fn outcome(&self) -> (r: Outcome)
        requires
            self@.ending is Some,
        ensures
            Some(r) == self@.ending,
    {
        self.ending.unwrap()
    }
}

/// A loop given `k` more calls of `next`, no stop requested and no time
/// budget exceeded.
pub open spec fn run_cycles(c: CyclesModel, k: nat, elapsed: std::time::Duration) -> CyclesModel
    decreases k,
{
    if k == 0 {
        c
    } else {
        run_cycles(next_cycle(c, false, elapsed).0, (k - 1) as nat, elapsed)
    }
}

/// Once a loop has ended it stays ended, unchanged, and gives no more
/// cycles.
pub proof fn law_an_ended_loop_stays_ended(
    c: CyclesModel,
    shutdown_requested: bool,
    elapsed: std::time::Duration,
)
    requires
        c.ending is Some,
    ensures
        next_cycle(c, shutdown_requested, elapsed) == (c, None::<nat>),
{
}

/// A loop with a budget of `max` cycles, no time budget and no stop
/// request counts `max` cycles, one by one, and then ends on its cycle
/// limit.
pub proof fn law_cycle_budget(max: usize, k: nat, elapsed: std::time::Duration)
    ensures
        ({
            let fresh = CyclesModel {
                max_cycles: Some(max),
                max_duration: None,
                completed: 0,
                ending: None,
            };
            let after = run_cycles(fresh, k, elapsed);
            &&& k <= max ==> after == CyclesModel { completed: k, ..fresh }
            &&& k > max ==> after == CyclesModel {
                completed: max as nat,
                ending: Some(Outcome::CycleLimit(max)),
                ..fresh
            }
        }),
{
    let fresh = CyclesModel { max_cycles: Some(max), max_duration: None, completed: 0, ending: None };
    lemma_budget_counts(fresh, max, 0, k, elapsed);
}

proof fn lemma_budget_counts(fresh: CyclesModel, max: usize, done: nat, k: nat, elapsed: std::time::Duration)
    requires
        fresh == (CyclesModel { max_cycles: Some(max), max_duration: None, completed: 0, ending: None }),
        done <= max,
    ensures
        ({
            let after = run_cycles(CyclesModel { completed: done, ..fresh }, k, elapsed);
            &&& done + k <= max ==> after == CyclesModel { completed: done + k, ..fresh }
            &&& done + k > max ==> after == CyclesModel {
                completed: max as nat,
                ending: Some(Outcome::CycleLimit(max)),
                ..fresh
            }
        }),
    decreases k,
{
    let c = CyclesModel { completed: done, ..fresh };
    if k > 0 {
        if done < max {
            assert(next_cycle(c, false, elapsed).0 == CyclesModel { completed: done + 1, ..fresh });
            lemma_budget_counts(fresh, max, done + 1, (k - 1) as nat, elapsed);
        } else {
            let ended = CyclesModel {
                completed: max as nat,
                ending: Some(Outcome::CycleLimit(max)),
                ..fresh
            };
            assert(next_cycle(c, false, elapsed).0 == ended);
            lemma_ended_runs(ended, (k - 1) as nat, elapsed);
        }
    }
}

proof fn lemma_ended_runs(c: CyclesModel, k: nat, elapsed: std::time::Duration)
    requires
        c.ending is Some,
    ensures
        run_cycles(c, k, elapsed) == c,
    decreases k,
{
    if k > 0 {
        lemma_ended_runs(next_cycle(c, false, elapsed).0, (k - 1) as nat, elapsed);
    }
}

/// Calls of `next` with the given stop requests and elapsed times, in
/// order: the loop after them and what each call gave.
pub open spec fn run_calls(c: CyclesModel, calls: Seq<(bool, std::time::Duration)>) -> (
    CyclesModel,
    Seq<Option<nat>>,
)
    decreases calls.len(),
{
    if calls.len() == 0 {
        (c, Seq::empty())
    } else {
        let (c1, o) = next_cycle(c, calls[0].0, calls[0].1);
        let (cf, os) = run_calls(c1, calls.drop_first());
        (cf, seq![o] + os)
    }
}

/// Whether a call with stop request and elapsed time `call`, made when `i`
/// cycles have run, stops a running loop with these budgets.
pub open spec fn stops_at(
    max_cycles: Option<usize>,
    max_duration: Option<std::time::Duration>,
    call: (bool, std::time::Duration),
    i: nat,
) -> bool {
    call.0 || (max_duration matches Some(d) && longer_than(call.1, d)) || (
    max_cycles matches Some(m) && i >= m)
}

/// Why such a call stops the loop: a stop request first, then the time
/// budget, then the cycle budget.
pub open spec fn stop_reason(
    max_cycles: Option<usize>,
    max_duration: Option<std::time::Duration>,
    call: (bool, std::time::Duration),
) -> Outcome {
    if call.0 {
        Outcome::StoppedByUser
    } else if max_duration matches Some(d) && longer_than(call.1, d) {
        Outcome::TimedOut(max_duration->0)
    } else {
        Outcome::CycleLimit(max_cycles->0)
    }
}

/// How many of `calls` start a cycle before one stops the loop, the first
/// made when `i` cycles have run.
pub open spec fn first_stop(
    max_cycles: Option<usize>,
    max_duration: Option<std::time::Duration>,
    calls: Seq<(bool, std::time::Duration)>,
    i: nat,
) -> nat
    decreases calls.len(),
{
    if calls.len() == 0 {
        0
    } else if stops_at(max_cycles, max_duration, calls[0], i) {
        0
    } else {
        1 + first_stop(max_cycles, max_duration, calls.drop_first(), i + 1)
    }
}

proof fn lemma_ended_calls(c: CyclesModel, calls: Seq<(bool, std::time::Duration)>)
    requires
        c.ending is Some,
    ensures
        run_calls(c, calls).0 == c,
        run_calls(c, calls).1.len() == calls.len(),
        forall|t: int| 0 <= t < calls.len() ==> run_calls(c, calls).1[t] is None,
    decreases calls.len(),
{
    if calls.len() > 0 {
        lemma_ended_calls(c, calls.drop_first());
    }
}

proof fn lemma_calls_from(c: CyclesModel, calls: Seq<(bool, std::time::Duration)>)
    requires
        c.ending is None,
    ensures
        ({
            let k = first_stop(c.max_cycles, c.max_duration, calls, c.completed);
            let (cf, outs) = run_calls(c, calls);
            &&& k <= calls.len()
            &&& outs.len() == calls.len()
            &&& forall|t: int| 0 <= t < k ==> outs[t] == Some((c.completed + t + 1) as nat)
            &&& forall|t: int| k <= t < calls.len() ==> outs[t] is None
            &&& cf.completed == c.completed + k
            &&& cf.max_cycles == c.max_cycles
            &&& cf.max_duration == c.max_duration
            &&& cf.ending == if k < calls.len() {
                Some(stop_reason(c.max_cycles, c.max_duration, calls[k as int]))
            } else {
                None
            }
        }),
    decreases calls.len(),
{
    if calls.len() > 0 {
        let (c1, o) = next_cycle(c, calls[0].0, calls[0].1);
        let rest = calls.drop_first();
        if stops_at(c.max_cycles, c.max_duration, calls[0], c.completed) {
            lemma_ended_calls(c1, rest);
        } else {
            lemma_calls_from(c1, rest);
            assert forall|t: int| 1 <= t < calls.len() implies rest[t - 1] == calls[t] by {}
        }
    }
}

/// A loop runs its cycles one by one and stops at the first call where a
/// stop was requested, the time budget is exceeded, or the cycle budget is
/// spent (checked in that order): the calls before it give 1, 2, 3, …, that
/// call and every later one give `None`, and the loop ends with that call's
/// reason; if no call stops it, every call gives the next cycle.
pub proof fn law_cycles_run_until_the_first_stop(
    max_cycles: Option<usize>,
    max_duration: Option<std::time::Duration>,
    calls: Seq<(bool, std::time::Duration)>,
)
    ensures
        ({
            let fresh = CyclesModel { max_cycles, max_duration, completed: 0, ending: None };
            let k = first_stop(max_cycles, max_duration, calls, 0);
            let (after, outs) = run_calls(fresh, calls);
            &&& k <= calls.len()
            &&& outs.len() == calls.len()
            &&& forall|t: int| 0 <= t < k ==> outs[t] == Some((t + 1) as nat)
            &&& forall|t: int| k <= t < calls.len() ==> outs[t] is None
            &&& after.completed == k
            &&& after.ending == if k < calls.len() {
                Some(stop_reason(max_cycles, max_duration, calls[k as int]))
            } else {
                None
            }
        }),
{
    let fresh = CyclesModel { max_cycles, max_duration, completed: 0, ending: None };
    lemma_calls_from(fresh, calls);
}

/// What a guarded section reports, given how its body and its cleanup
/// ended: the body's error wins, a cleanup error is reported when the body
/// succeeded, and a cleanup error that the body's error hides is handed
/// back too, so that the caller can still log it.
pub fn guard_outcome<T>(body: Result<T, SpmError>, cleanup: Result<(), SpmError>) -> (r: (
    Result<T, SpmError>,
    Option<SpmError>,
))
    ensures
        body is Ok && cleanup is Ok ==> r.0 == body && r.1 is None,
        body is Ok && cleanup is Err ==> r.0 == Err::<T, SpmError>(cleanup->Err_0) && r.1 is None,
        body is Err && cleanup is Ok ==> r.0 == body && r.1 is None,
        body is Err && cleanup is Err ==> r.0 == body && r.1 == Some(cleanup->Err_0),
{
    match (body, cleanup) {
        (Ok(value), Ok(())) => (Ok(value), None),
        (Ok(_), Err(cleanup_err)) => (Err(cleanup_err), None),
        (Err(body_err), Ok(())) => (Err(body_err), None),
        (Err(body_err), Err(cleanup_err)) => (Err(body_err), Some(cleanup_err)),
    }
}

/// A capability's name, as its `Debug` rendering spells it.
pub open spec fn capability_name(c: Capability) -> Seq<char> {
    match c {
        Capability::Signals => "Signals"@,
        Capability::Bias => "Bias"@,
        Capability::ZController => "ZController"@,
        Capability::PiezoPosition => "PiezoPosition"@,
        Capability::Motor => "Motor"@,
        Capability::Scanning => "Scanning"@,
        Capability::Oscilloscope => "Oscilloscope"@,
        Capability::TipShaper => "TipShaper"@,
        Capability::Pll => "Pll"@,
        Capability::DataStream => "DataStream"@,
        Capability::SafeTip => "SafeTip"@,
    }
}

fn capability_str(c: Capability) -> (r: &'static str)
    ensures
        r@ == capability_name(c),
{
    match c {
        Capability::Signals => "Signals",
        Capability::Bias => "Bias",
        Capability::ZController => "ZController",
        Capability::PiezoPosition => "PiezoPosition",
        Capability::Motor => "Motor",
        Capability::Scanning => "Scanning",
        Capability::Oscilloscope => "Oscilloscope",
        Capability::TipShaper => "TipShaper",
        Capability::Pll => "Pll",
        Capability::DataStream => "DataStream",
        Capability::SafeTip => "SafeTip",
    }
}

/// A subsystem is available when the controller has its capability;
/// otherwise `"controller does not support the {cap:?} subsystem"`.
pub fn require(capabilities: &[Capability], cap: Capability) -> (r: Result<(), SpmError>)
    ensures
        capabilities@.contains(cap) ==> r is Ok,
        !capabilities@.contains(cap) ==> (r matches Err(SpmError::Unsupported(m)) && m@
            == "controller does not support the "@ + capability_name(cap) + " subsystem"@),
{
    let mut i: usize = 0;
    while i < capabilities.len()
        invariant
            i <= capabilities@.len(),
            forall|j: int| 0 <= j < i ==> capabilities@[j] != cap,
        decreases capabilities@.len() - i,
    {
        if capabilities[i] == cap {
            return Ok(());
        }
        i = i + 1;
    }
    let mut m = String::from_str("controller does not support the ");
    m.append(capability_str(cap));
    m.append(" subsystem");
    Err(SpmError::Unsupported(m))
}

} // verus!
