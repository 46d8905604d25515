//! Looking tokens up in a tokenizer's vocabulary.

use crate::error::GenError;
use tokenizers::Tokenizer;
use vstd::prelude::*;

verus! {

/// The tokenizer of the tokenizers crate. Nothing of what is inside it is
/// seen here; it is known by its vocabulary alone.
#[verifier::external_type_specification]
#[verifier::external_body]
pub struct ExTokenizer(Tokenizer);

/// What a tokenizer's vocabulary holds: the id of every token that it knows,
/// those that were added to its model included.
pub uninterp spec fn vocabulary(tokenizer: Tokenizer) -> Map<Seq<char>, u32>;

/// Calls `Tokenizer::token_to_id` of the tokenizers crate. What is said of
/// the answer is not proved but read off that crate: the tokenizer looks the
/// token up among its added tokens and then in its model, and answers with
/// the id that it finds there or with `None`.
#[verifier::external_body]
fn token_to_id(tokenizer: &Tokenizer, token: &str) -> (id: Option<u32>)
    ensures
        id == (if vocabulary(*tokenizer).contains_key(token@) {
            Some(vocabulary(*tokenizer)[token@])
        } else {
            None
        }),
{
    tokenizer.token_to_id(token)
}

/// The id of a token that the decoder cannot do without.
pub fn token_id(tokenizer: &Tokenizer, token: &str) -> (r: Result<u32, GenError>)
    ensures
        match r {
            Ok(id) => vocabulary(*tokenizer).contains_key(token@) && id == vocabulary(
                *tokenizer,
            )[token@],
            Err(e) => {
                &&& !vocabulary(*tokenizer).contains_key(token@)
                &&& e matches GenError::UnknownToken(name)
                &&& name@ == token@
            },
        },
{
    match token_to_id(tokenizer, token) {
        None => Err(GenError::UnknownToken(token.to_owned())),
        Some(id) => Ok(id),
    }
}

} // verus!
