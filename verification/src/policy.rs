//! Policy decisions and the rule-based policy.
use vstd::prelude::*;
use vstd::string::*;

verus! {

/// Policy decisions based on the classification of the tip state.
#[derive(Debug, Clone, Copy, PartialEq, Eq, Structural)]
pub enum PolicyDecision {
    /// Tip state is classified as good
    Good,
    /// Tip state is classified as bad
    Bad,
    /// Tip state is classified as stable
    Stable,
}

/// How the tip state was classified.
#[derive(Debug, Clone, Copy, PartialEq, Eq, Structural)]
pub enum TipState {
    Good,
    Bad,
    Stable,
}

/// Simple rule-based policy that makes decisions based on tip state
/// classifications
pub struct RuleBasedPolicy {
    name: String,
}

impl View for RuleBasedPolicy {
    type V = Seq<char>;

    closed spec fn view(&self) -> Seq<char> {
        self.name@
    }
}

impl RuleBasedPolicy {
    pub fn new(name: String) -> (r: Self)
        ensures
            r@ == name@,
    {
        Self { name }
    }

    /// Map the classification straight to a decision.
    pub fn decide(&mut self, classification: TipState) -> (r: PolicyDecision)
        ensures
            *final(self) == *old(self),
            classification == TipState::Good ==> r == PolicyDecision::Good,
            classification == TipState::Bad ==> r == PolicyDecision::Bad,
            classification == TipState::Stable ==> r == PolicyDecision::Stable,
    {
        match classification {
            TipState::Good => PolicyDecision::Good,
            TipState::Bad => PolicyDecision::Bad,
            TipState::Stable => PolicyDecision::Stable,
        }
    }

    pub fn get_name(&self) -> (r: &str)
        ensures
            r@ == self@,
    {
        self.name.as_str()
    }
}

/// A policy: from the classified tip state to a decision.
pub trait PolicyEngine {
    /// Decide on the classified tip state.
    fn decide(&mut self, classification: TipState) -> PolicyDecision;

    fn get_name(&self) -> &str;
}

/// A policy engine that learns from the outcomes of its decisions.
pub trait LearningPolicyEngine: PolicyEngine {

}

/// A policy engine that can explain its decisions.
pub trait ExplainablePolicyEngine: PolicyEngine {

}

impl PolicyEngine for RuleBasedPolicy {
    fn decide(&mut self, classification: TipState) -> (r: PolicyDecision)
        ensures
            *final(self) == *old(self),
            classification == TipState::Good ==> r == PolicyDecision::Good,
            classification == TipState::Bad ==> r == PolicyDecision::Bad,
            classification == TipState::Stable ==> r == PolicyDecision::Stable,
    {
        RuleBasedPolicy::decide(self, classification)
    }

    fn get_name(&self) -> (r: &str)
        ensures
            r@ == self@,
    {
        RuleBasedPolicy::get_name(self)
    }
}

} // verus!
