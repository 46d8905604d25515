//! Scores: the integers by which logits are ordered.
//!
//! A model hands out single-precision logits. Nothing in the generation loops
//! needs their magnitude, only their order, so a logit crosses into this crate
//! as its IEEE 754 bit pattern and is turned into a signed key whose integer
//! order is the total order of the numbers behind it.

use vstd::prelude::*;

verus! {

/// A logit, as the key that orders it: a larger score is a likelier token.
pub type Score = i32;

/// Bit pattern of single-precision negative infinity.
pub const NEG_INFINITY_BITS: u32 = 0xFF80_0000;

/// The score of negative infinity. Only patterns that are not numbers (with
/// the sign bit set) lie below it.
pub const NEG_INFINITY: Score = -2139095041;

/// The score of negative zero, the largest of the negative scores.
pub const NEG_ZERO: Score = -1;

/// The score of positive zero.
pub const ZERO: Score = 0;

/// Whether the sign bit of a pattern is set.
pub open spec fn sign_bit(bits: u32) -> bool {
    bits >= 0x8000_0000
}

/// The pattern without its sign bit: exponent and fraction read as one number.
pub open spec fn magnitude(bits: u32) -> int {
    if sign_bit(bits) {
        bits - 0x8000_0000
    } else {
        bits as int
    }
}

/// The total order of IEEE 754 on bit patterns: every negative pattern lies
/// below every positive one, positive patterns grow with their magnitude and
/// negative ones fall with it.
pub open spec fn total_lt(a: u32, b: u32) -> bool {
    if sign_bit(a) != sign_bit(b) {
        sign_bit(a)
    } else if sign_bit(a) {
        magnitude(a) > magnitude(b)
    } else {
        magnitude(a) < magnitude(b)
    }
}

/// The key of a bit pattern.
pub open spec fn order_key(bits: u32) -> int {
    if sign_bit(bits) {
        -magnitude(bits) - 1
    } else {
        magnitude(bits)
    }
}

/// Turns the bit pattern of a logit into its score.
pub fn score_from_bits(bits: u32) -> (score: Score)
    ensures
        score == order_key(bits),
{
    if bits >= 0x8000_0000 {
        let below: i64 = 0x7FFF_FFFF - (bits as i64);
        below as i32
    } else {
        bits as i32
    }
}

/// Turns a score back into the bit pattern it came from.
pub fn score_to_bits(score: Score) -> (bits: u32)
    ensures
        order_key(bits) == score,
{
    if score < 0 {
        let pattern: i64 = 0x7FFF_FFFF - (score as i64);
        pattern as u32
    } else {
        score as u32
    }
}

/// Scores are ordered as the numbers behind them, and no two patterns share a
/// score.
pub proof fn lemma_order_key_monotone(a: u32, b: u32)
    ensures
        total_lt(a, b) <==> order_key(a) < order_key(b),
        order_key(a) == order_key(b) <==> a == b,
{
}

/// Negative infinity has the score `NEG_INFINITY`, and the two zeros have the
/// scores `NEG_ZERO` and `ZERO`.
pub proof fn lemma_named_keys()
    ensures
        order_key(NEG_INFINITY_BITS) == NEG_INFINITY,
        order_key(0x8000_0000) == NEG_ZERO,
        order_key(0) == ZERO,
{
}

} // verus!
