//! The suppression mask: one additive bias per vocabulary id, zero for a token
//! that may be chosen and negative infinity for one that may not.
//!
//! The mask is built once from the forbidden ids and only read afterwards, so
//! any number of decode steps, and any number of runs, can share it.

use crate::error::ModelError;
use crate::score::{Score, NEG_INFINITY, NEG_ZERO, ZERO};
use vstd::prelude::*;

verus! {

/// One entry of the mask.
#[derive(Clone, Copy, Debug, PartialEq, Eq, Structural)]
pub enum Bias {
    /// Added to a score, leaves its value as it is.
    Zero,
    /// Added to a score, leaves negative infinity.
    NegInfinity,
}

/// What a score becomes under a bias. Under a zero it is the sum of the two:
/// the score itself, and positive zero for negative zero, so that the two
/// zeros tie as they do after an addition. Under negative infinity it is
/// negative infinity whatever the score was. That is the sum for every finite
/// score and for negative infinity; for positive infinity and for a score
/// that is not a number the sum of floating-point arithmetic is not a number,
/// and here it is negative infinity all the same: a forbidden id is never
/// ranked above an allowed one.
pub open spec fn add_bias(score: Score, bias: Bias) -> Score {
    match bias {
        Bias::Zero => if score == NEG_ZERO {
            ZERO
        } else {
            score
        },
        Bias::NegInfinity => NEG_INFINITY,
    }
}

/// The ids that occur in a list, as a set of integers.
pub open spec fn id_set(ids: Seq<u32>) -> Set<int> {
    Set::new(|id: int| exists|k: int| 0 <= k < ids.len() && ids[k] == id)
}

/// The mask for a vocabulary of `vocab_size` ids of which `forbidden` are not
/// to be chosen. Forbidden ids outside the vocabulary have no entry.
pub open spec fn mask_of(vocab_size: nat, forbidden: Set<int>) -> Seq<Bias> {
    Seq::new(
        vocab_size,
        |i: int|
            if forbidden.contains(i) {
                Bias::NegInfinity
            } else {
                Bias::Zero
            },
    )
}

/// How many entries of a mask are `which`.
pub open spec fn count_bias(biases: Seq<Bias>, which: Bias) -> nat
    decreases biases.len(),
{
    if biases.len() == 0 {
        0
    } else {
        count_bias(biases.drop_last(), which) + if biases.last() == which {
            1nat
        } else {
            0nat
        }
    }
}

/// Whether logits of `logits_len` scores are whole rows of `mask_len` scores
/// each, so that the mask can be laid over every row.
pub open spec fn broadcasts(logits_len: nat, mask_len: nat) -> bool {
    if mask_len == 0 {
        logits_len == 0
    } else {
        logits_len % mask_len == 0
    }
}

/// Logits with the mask added to each row: the last dimension is the
/// vocabulary, every dimension before it is a batch or a position.
pub open spec fn masked(logits: Seq<Score>, mask: Seq<Bias>) -> Seq<Score> {
    Seq::new(logits.len(), |j: int| add_bias(logits[j], mask[j % (mask.len() as int)]))
}

/// A suppression mask over a vocabulary.
pub struct SuppressionMask {
    biases: Vec<Bias>,
}

impl View for SuppressionMask {
    type V = Seq<Bias>;

    closed spec fn view(&self) -> Seq<Bias> {
        self.biases@
    }
}

impl SuppressionMask {
    /// Builds the mask for `vocab_size` ids. An id may be listed more than
    /// once; one that lies outside the vocabulary is passed over.
    pub fn build(vocab_size: usize, forbidden: &Vec<u32>) -> (mask: SuppressionMask)
        ensures
            mask@ == mask_of(vocab_size as nat, id_set(forbidden@)),
    {
        let mut biases: Vec<Bias> = Vec::new();
        let mut i: usize = 0;
        while i < vocab_size
            invariant
                i <= vocab_size,
                biases@.len() == i,
                forall|j: int| 0 <= j < i ==> biases@[j] == Bias::Zero,
            decreases vocab_size - i,
        {
            biases.push(Bias::Zero);
            i = i + 1;
        }
        let mut k: usize = 0;
        while k < forbidden.len()
            invariant
                k <= forbidden.len(),
                biases@ == mask_of(vocab_size as nat, id_set(forbidden@.take(k as int))),
            decreases forbidden.len() - k,
        {
            let id: usize = forbidden[k] as usize;
            proof {
                lemma_id_set_step(forbidden@, k as int);
            }
            if id < vocab_size {
                biases.set(id, Bias::NegInfinity);
            }
            k = k + 1;
        }
        assert(forbidden@.take(k as int) == forbidden@);
        SuppressionMask { biases }
    }

    /// The number of entries, which is the size of the vocabulary.
    pub fn len(&self) -> (n: usize)
        ensures
            n == self@.len(),
    {
        self.biases.len()
    }

    /// The bias of one id, if the vocabulary has that id.
    pub fn get(&self, id: usize) -> (bias: Option<Bias>)
        ensures
            bias == (if id < self@.len() {
                Some(self@[id as int])
            } else {
                None
            }),
    {
        if id < self.biases.len() {
            Some(self.biases[id])
        } else {
            None
        }
    }

    /// Lays the mask over logits, row by row: every score becomes what
    /// `add_bias` makes of it under the bias of its id. Logits that are not
    /// whole rows of the vocabulary's size are a shape mismatch.
    pub fn apply(&self, logits: &Vec<Score>) -> (r: Result<Vec<Score>, ModelError>)
        ensures
            r is Ok <==> broadcasts(logits@.len(), self@.len()),
            r is Ok ==> r->Ok_0@ == masked(logits@, self@),
    {
        let width = self.biases.len();
        if width == 0 {
            if logits.len() == 0 {
                return Ok(Vec::new());
            }
            return Err(ModelError::new("logits for an empty vocabulary"));
        }
        if logits.len() % width != 0 {
            return Err(ModelError::new("logits are not rows of the vocabulary's size"));
        }
        let mut out: Vec<Score> = Vec::new();
        let mut j: usize = 0;
        while j < logits.len()
            invariant
                j <= logits.len(),
                width == self.biases@.len(),
                width > 0,
                out@.len() == j,
                forall|i: int|
                    0 <= i < j ==> out@[i] == add_bias(
                        logits@[i],
                        self.biases@[i % (width as int)],
                    ),
            decreases logits.len() - j,
        {
            let score = match self.biases[j % width] {
                Bias::Zero => if logits[j] == NEG_ZERO {
                    ZERO
                } else {
                    logits[j]
                },
                Bias::NegInfinity => NEG_INFINITY,
            };
            out.push(score);
            j = j + 1;
        }
        Ok(out)
    }
}

/// The ids among the first `k + 1` of a list are those among the first `k`
/// and the one at `k`.
proof fn lemma_id_set_step(ids: Seq<u32>, k: int)
    requires
        0 <= k < ids.len(),
    ensures
        id_set(ids.take(k + 1)) == id_set(ids.take(k)).insert(ids[k] as int),
{
    let longer = ids.take(k + 1);
    let shorter = ids.take(k);
    assert forall|id: int| id_set(longer).contains(id) implies id_set(shorter).insert(
        ids[k] as int,
    ).contains(id) by {
        let at = choose|at: int| 0 <= at < longer.len() && longer[at] == id;
        if at < k {
            assert(shorter[at] == id);
        }
    }
    assert forall|id: int| id_set(shorter).insert(ids[k] as int).contains(id) implies id_set(
        longer,
    ).contains(id) by {
        if id == ids[k] as int {
            assert(longer[k] == id);
        } else {
            let at = choose|at: int| 0 <= at < shorter.len() && shorter[at] == id;
            assert(longer[at] == id);
        }
    }
    assert(id_set(longer) =~= id_set(shorter).insert(ids[k] as int));
}

/// A mask over `vocab_size` ids has one entry of negative infinity for each
/// forbidden id and a zero for every other id.
pub proof fn lemma_mask_counts(vocab_size: nat, forbidden: Set<int>)
    requires
        forall|id: int| forbidden.contains(id) ==> 0 <= id < vocab_size,
    ensures
        forbidden.finite(),
        mask_of(vocab_size, forbidden).len() == vocab_size,
        count_bias(mask_of(vocab_size, forbidden), Bias::NegInfinity) == forbidden.len(),
        count_bias(mask_of(vocab_size, forbidden), Bias::Zero) == vocab_size - forbidden.len(),
    decreases vocab_size,
{
    let mask = mask_of(vocab_size, forbidden);
    if vocab_size == 0 {
        assert(forbidden =~= Set::<int>::empty());
    } else {
        let top = vocab_size - 1;
        let rest = forbidden.remove(top);
        lemma_mask_counts(top as nat, rest);
        assert(mask.drop_last() =~= mask_of(top as nat, rest));
        if forbidden.contains(top) {
            assert(forbidden =~= rest.insert(top));
        } else {
            assert(forbidden =~= rest);
        }
    }
}

} // verus!
