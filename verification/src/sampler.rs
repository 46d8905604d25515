//! Choosing the next token from logits.
//!
//! A generation loop knows a sampler only as something that turns logits into
//! a token id, so one sampler can be put in place of another without touching
//! the loop. Greedy choice is defined and proved here. A stochastic sampler
//! divides by a temperature and draws from a seeded generator that it owns;
//! what this module settles for it is which temperatures are fit for use.

use crate::error::{GenError, ModelError};
use crate::score::Score;
use vstd::prelude::*;

verus! {

/// `choice` is the index of the largest score, and of several equal largest
/// scores the first.
pub open spec fn is_argmax(logits: Seq<Score>, choice: int) -> bool {
    &&& 0 <= choice < logits.len()
    &&& forall|j: int| 0 <= j < logits.len() ==> logits[j] <= logits[choice]
    &&& forall|j: int| 0 <= j < choice ==> logits[j] < logits[choice]
}

/// The index of the largest score; none for empty logits.
pub fn argmax(logits: &Vec<Score>) -> (choice: Option<usize>)
    ensures
        choice is None <==> logits@.len() == 0,
        choice is Some ==> is_argmax(logits@, choice->Some_0 as int),
{
    if logits.len() == 0 {
        return None;
    }
    let mut best: usize = 0;
    let mut j: usize = 1;
    while j < logits.len()
        invariant
            1 <= j <= logits.len(),
            is_argmax(logits@.take(j as int), best as int),
        decreases logits.len() - j,
    {
        if logits[j] > logits[best] {
            best = j;
        }
        j = j + 1;
    }
    assert(logits@.take(j as int) == logits@);
    Some(best)
}

/// Logits have one greedy choice at most.
pub proof fn lemma_argmax_unique(logits: Seq<Score>, first: int, second: int)
    requires
        is_argmax(logits, first),
        is_argmax(logits, second),
    ensures
        first == second,
{
    if first < second {
        assert(logits[first] < logits[second]);
        assert(logits[second] <= logits[first]);
    } else if second < first {
        assert(logits[second] < logits[first]);
        assert(logits[first] <= logits[second]);
    }
}

/// The one capability a generation loop asks of a sampler. `L` is the form in
/// which the model hands out its logits. A sampler that draws at random
/// advances its generator by one draw per call.
pub trait Sample<L> {
    fn sample(&mut self, logits: &L) -> Result<u32, ModelError>;
}

/// What greedy sampling may answer for given logits: the id of the largest
/// score, or a failure where no id of 32 bits names it (there is no score, or
/// the largest lies beyond the ids).
pub open spec fn greedy_outcome(logits: Seq<Score>, outcome: Result<u32, ModelError>) -> bool {
    match outcome {
        Ok(token) => is_argmax(logits, token as int),
        Err(_) => forall|choice: int| is_argmax(logits, choice) ==> choice > u32::MAX,
    }
}

/// The sampler that always takes the likeliest token. It has no state.
#[derive(Clone, Copy, Debug)]
pub struct Greedy;

impl Sample<Vec<Score>> for Greedy {
    fn sample(&mut self, logits: &Vec<Score>) -> (outcome: Result<u32, ModelError>)
        ensures
            greedy_outcome(logits@, outcome),
    {
        match argmax(logits) {
            None => Err(ModelError::new("no score to choose from")),
            Some(choice) => {
                if choice <= u32::MAX as usize {
                    Ok(choice as u32)
                } else {
                    proof {
                        assert forall|other: int| is_argmax(logits@, other) implies other
                            > u32::MAX by {
                            lemma_argmax_unique(logits@, other, choice as int);
                        }
                    }
                    Err(ModelError::new("the likeliest score lies beyond the token ids"))
                }
            },
        }
    }
}

/// Greedy sampling is a function of the logits: two calls on equal logits
/// agree on whether there is a token and on which it is.
pub proof fn lemma_greedy_deterministic(
    logits: Seq<Score>,
    first: Result<u32, ModelError>,
    second: Result<u32, ModelError>,
)
    requires
        greedy_outcome(logits, first),
        greedy_outcome(logits, second),
    ensures
        first is Ok <==> second is Ok,
        first is Ok ==> first->Ok_0 == second->Ok_0,
{
    if first is Ok && second is Ok {
        lemma_argmax_unique(logits, first->Ok_0 as int, second->Ok_0 as int);
    }
}

/// Whether a double-precision bit pattern is a number above zero. Positive
/// infinity is one; zero of either sign, anything negative and anything that
/// is not a number are not.
pub open spec fn is_positive_bits(bits: u64) -> bool {
    0 < bits <= 0x7FF0_0000_0000_0000
}

/// A temperature by which logits are divided before a draw, held as the bit
/// pattern of a double-precision number. Every value of this type is above
/// zero.
#[derive(Clone, Copy, Debug, PartialEq, Eq)]
pub struct Temperature {
    bits: u64,
}

impl View for Temperature {
    type V = u64;

    closed spec fn view(&self) -> u64 {
        self.bits
    }
}

impl Temperature {
    /// Accepts a bit pattern as a temperature if it is a number above zero.
    pub fn from_bits(bits: u64) -> (r: Result<Temperature, GenError>)
        ensures
            is_positive_bits(bits) ==> r is Ok && r->Ok_0@ == bits,
            !is_positive_bits(bits) ==> r == Err::<Temperature, GenError>(GenError::InvalidConfig),
    {
        if 0 < bits && bits <= 0x7FF0_0000_0000_0000 {
            Ok(Temperature { bits })
        } else {
            Err(GenError::InvalidConfig)
        }
    }

    /// The bit pattern of the temperature.
    pub fn bits(&self) -> (bits: u64)
        ensures
            bits == self@,
            is_positive_bits(bits),
    {
        proof {
            use_type_invariant(self);
        }
        self.bits
    }

    #[verifier::type_invariant]
    spec fn positive(self) -> bool {
        is_positive_bits(self.bits)
    }
}

/// The closed set of sampling strategies.
#[derive(Clone, Copy, Debug, PartialEq, Eq)]
pub enum Strategy {
    /// Take the largest score; of equal ones the first.
    Greedy,
    /// Divide the logits by the temperature, turn them into probabilities and
    /// draw one id from a generator seeded with `seed`.
    Temperature { temperature: Temperature, seed: u64 },
}

} // verus!
