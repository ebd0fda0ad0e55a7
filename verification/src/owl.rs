//! OWL 2 modelling and reasoning.
//!
//! Concrete reasoners sit behind [`Reasoner`] and are never called directly from application
//! code. [`Profile::Dl`] exists so that work no available engine can do is refused rather than
//! silently under-reasoned.

use vstd::prelude::*;

use crate::text::{push_str, string_of};

verus! {

/// An OWL 2 profile.
#[derive(Debug, Clone, Copy, PartialEq, Eq)]
pub enum Profile {
    /// RDFS entailment only.
    Rdfs,
    /// OWL 2 EL: tractable, covers large biomedical terminologies.
    El,
    /// OWL 2 RL: rule-based, suits forward-chaining materialisation.
    Rl,
    /// Full OWL 2 DL. Not currently supported by any available reasoner.
    Dl,
}

/// A profile's name, as a message spells it.
pub open spec fn profile_name(profile: Profile) -> Seq<char> {
    match profile {
        Profile::Rdfs => "Rdfs"@,
        Profile::El => "El"@,
        Profile::Rl => "Rl"@,
        Profile::Dl => "Dl"@,
    }
}

impl Profile {
    /// The profile's name, as a message spells it.
    pub fn name(&self) -> (name: &'static str)
        ensures
            name@ == profile_name(*self),
    {
        match self {
            Profile::Rdfs => "Rdfs",
            Profile::El => "El",
            Profile::Rl => "Rl",
            Profile::Dl => "Dl",
        }
    }
}

/// A single step in the derivation of an inferred statement.
#[derive(Debug, Clone)]
pub struct DerivationStep {
    /// The rule or axiom that licensed this step.
    pub rule: String,
    /// The statements this step consumed.
    pub premises: Vec<String>,
    /// The statement this step produced.
    pub conclusion: String,
}

/// Why an inference holds: the full derivation chain. A [`Reasoner`] cannot report an inference
/// without being able to produce one.
#[derive(Debug, Clone)]
pub struct Explanation {
    /// The statement being explained.
    pub conclusion: String,
    /// The derivation, ordered from premises to conclusion.
    pub steps: Vec<DerivationStep>,
}

/// Errors raised while reasoning.
#[derive(Debug)]
pub enum ReasoningError {
    /// The ontology is outside the profile this reasoner supports.
    OutOfProfile(Profile, String),
    /// The ontology is logically inconsistent.
    Inconsistent(String),
    /// The underlying engine failed.
    Engine(String),
}

/// What a reasoning error says.
pub open spec fn reasoning_message(error: ReasoningError) -> Seq<char> {
    match error {
        ReasoningError::OutOfProfile(profile, why) => "ontology is not in the "@ + profile_name(
            profile,
        ) + " profile: "@ + why@,
        ReasoningError::Inconsistent(why) => "ontology is inconsistent: "@ + why@,
        ReasoningError::Engine(why) => "reasoning engine failed: "@ + why@,
    }
}

impl ReasoningError {
    /// What the error says.
    pub fn to_string(&self) -> (message: String)
        ensures
            message@ == reasoning_message(*self),
    {
        match self {
            ReasoningError::OutOfProfile(profile, why) => {
                let mut out = string_of("ontology is not in the ");
                push_str(&mut out, profile.name());
                push_str(&mut out, " profile: ");
                push_str(&mut out, why.as_str());
                out
            },
            ReasoningError::Inconsistent(why) => {
                let mut out = string_of("ontology is inconsistent: ");
                push_str(&mut out, why.as_str());
                out
            },
            ReasoningError::Engine(why) => {
                let mut out = string_of("reasoning engine failed: ");
                push_str(&mut out, why.as_str());
                out
            },
        }
    }
}

/// A reasoning engine over an ontology graph.
pub trait Reasoner {
    /// The profile this engine reasons in.
    fn profile(&self) -> Profile;

    /// Materialise entailed statements for the named graph, returning their count.
    fn materialise(&self, graph: &str) -> Result<usize, ReasoningError>;

    /// Explain why `statement` is entailed in the named graph: `Ok(None)` when it is not
    /// entailed at all.
    fn explain(&self, graph: &str, statement: &str) -> Result<Option<Explanation>, ReasoningError>;
}

/// A reasoner that entails nothing: it reports [`Profile::Rdfs`] and derives nothing, so a
/// caller that depends on inference sees zero results rather than silently wrong ones.
#[derive(Debug, Default, Clone, Copy)]
pub struct NullReasoner;

impl Reasoner for NullReasoner {
    fn profile(&self) -> (profile: Profile)
        ensures
            profile == Profile::Rdfs,
    {
        Profile::Rdfs
    }

    fn materialise(&self, graph: &str) -> (count: Result<usize, ReasoningError>)
        ensures
            count matches Ok(0),
    {
        Ok(0)
    }

    fn explain(&self, graph: &str, statement: &str) -> (explanation: Result<
        Option<Explanation>,
        ReasoningError,
    >)
        ensures
            explanation matches Ok(None),
    {
        Ok(None)
    }
}

} // verus!
