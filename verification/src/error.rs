//! The ways in which a generation run can fail.

use vstd::prelude::*;

verus! {

/// A forward pass that failed, or logits that do not fit the vocabulary. The
/// cache is in an unknown state afterwards, so the run it happened in is over.
#[derive(Debug, Clone, PartialEq, Eq)]
pub struct ModelError {
    pub message: String,
}

/// Everything that ends a run or keeps it from starting. Reaching a step or
/// length cap is none of these: it is one of the two ordinary ways to stop.
#[derive(Debug, Clone, PartialEq, Eq)]
pub enum GenError {
    /// The model failed; nothing is retried.
    Model(ModelError),
    /// A control token that the decoder needs is not in the vocabulary.
    UnknownToken(String),
    /// A setting that no run can work with.
    InvalidConfig,
}

impl ModelError {
    /// An error with the given message.
    pub fn new(message: &str) -> (e: ModelError)
        ensures
            e.message@ == message@,
    {
        ModelError { message: message.to_owned() }
    }
}

} // verus!
