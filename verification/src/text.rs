//! The causal generation loop: one token sequence that grows by one token per
//! step over a model with an incremental cache.
//!
//! Each step hands the model the part of the sequence that its cache has not
//! seen (the whole prompt at first, afterwards the one token appended last)
//! together with the position at which that part begins, takes the logits of
//! the last position, samples a token and appends it. The run stops when the
//! token is an end-of-sequence id or when the step limit is reached.

use crate::error::{GenError, ModelError};
use crate::sampler::Sample;
use vstd::prelude::*;
use vstd::slice::slice_subrange;

verus! {

/// The ids that end a sequence: one, or a small set (which may be empty).
#[derive(Clone, Debug, PartialEq, Eq)]
pub enum EosTokens {
    Single(u32),
    Multiple(Vec<u32>),
}

impl EosTokens {
    /// Whether `token` ends a sequence.
    pub open spec fn ends(&self, token: u32) -> bool {
        match self {
            EosTokens::Single(id) => *id == token,
            EosTokens::Multiple(ids) => ids@.contains(token),
        }
    }

    /// Whether `token` ends a sequence.
    pub fn is_end(&self, token: u32) -> (r: bool)
        ensures
            r == self.ends(token),
    {
        match self {
            EosTokens::Single(id) => *id == token,
            EosTokens::Multiple(ids) => {
                let mut k: usize = 0;
                while k < ids.len()
                    invariant
                        k <= ids.len(),
                        self.ends(token) == ids@.contains(token),
                        forall|j: int| 0 <= j < k ==> ids@[j] != token,
                    decreases ids.len() - k,
                {
                    if ids[k] == token {
                        assert(ids@[k as int] == token);
                        return true;
                    }
                    k = k + 1;
                }
                false
            },
        }
    }
}

/// Why a run came to rest. Both are ordinary ends of a run, neither is an
/// error.
#[derive(Clone, Copy, Debug, PartialEq, Eq, Structural)]
pub enum StopReason {
    /// The token appended last ends the sequence.
    EndToken,
    /// The cap on steps or on length was reached before an end token came.
    Limit,
}

/// The tokens of a run grow by the rule: they begin with the prompt, at most
/// `max_steps` tokens follow it, and none of those but the last ends a
/// sequence.
pub open spec fn follows_rule(
    prompt: Seq<u32>,
    tokens: Seq<u32>,
    max_steps: nat,
    eos: EosTokens,
) -> bool {
    &&& prompt.len() <= tokens.len() <= prompt.len() + max_steps
    &&& tokens.take(prompt.len() as int) == prompt
    &&& forall|i: int| prompt.len() <= i < tokens.len() - 1 ==> !eos.ends(#[trigger] tokens[i])
}

/// Why a run with these tokens is at rest, if it is: an end token that was
/// generated goes before the step limit.
pub open spec fn stop_of(
    prompt_len: nat,
    tokens: Seq<u32>,
    max_steps: nat,
    eos: EosTokens,
) -> Option<StopReason> {
    if tokens.len() > prompt_len && eos.ends(tokens.last()) {
        Some(StopReason::EndToken)
    } else if tokens.len() >= prompt_len + max_steps {
        Some(StopReason::Limit)
    } else {
        None
    }
}

/// Why a run with these tokens is at rest, or `None` while it has a step to
/// take. `prompt_len` is the number of tokens that the run began with.
pub fn stop_reason_of(
    prompt_len: usize,
    tokens: &Vec<u32>,
    max_steps: usize,
    eos: &EosTokens,
) -> (reason: Option<StopReason>)
    ensures
        reason == stop_of(prompt_len as nat, tokens@, max_steps as nat, *eos),
{
    let len = tokens.len();
    if len > prompt_len && eos.is_end(tokens[len - 1]) {
        Some(StopReason::EndToken)
    } else if len >= prompt_len && len - prompt_len >= max_steps {
        Some(StopReason::Limit)
    } else {
        None
    }
}

/// Where the part of the sequence begins that the cache has not seen: at the
/// start as long as nothing was generated, afterwards at the last token.
pub open spec fn unseen_from(prompt_len: nat, len: nat) -> nat {
    if len <= prompt_len {
        0
    } else {
        (len - 1) as nat
    }
}

/// A causal run between two steps, as contracts see it.
pub struct TextState {
    /// The prompt and what was generated after it.
    pub tokens: Seq<u32>,
    /// The number of tokens that the run began with.
    pub prompt_len: nat,
    /// The most steps that the run may take.
    pub max_steps: nat,
    /// The ids that end the run.
    pub eos: EosTokens,
}

impl TextState {
    /// The prompt that the run began with.
    pub open spec fn prompt(self) -> Seq<u32> {
        self.tokens.take(self.prompt_len as int)
    }

    /// The steps taken so far.
    pub open spec fn steps(self) -> nat {
        if self.tokens.len() >= self.prompt_len {
            (self.tokens.len() - self.prompt_len) as nat
        } else {
            0
        }
    }

    /// Why the run is at rest, if it is.
    pub open spec fn stopped(self) -> Option<StopReason> {
        stop_of(self.prompt_len, self.tokens, self.max_steps, self.eos)
    }

    /// The state after one more token.
    pub open spec fn with(self, token: u32) -> TextState {
        TextState { tokens: self.tokens.push(token), ..self }
    }

    /// What holds of every run between two steps: its tokens follow the
    /// rule.
    pub open spec fn wf(self) -> bool {
        &&& self.prompt_len <= self.tokens.len()
        &&& follows_rule(self.prompt(), self.tokens, self.max_steps, self.eos)
    }
}

/// The state of one causal run between two steps. The run owns its token
/// sequence; the length of that sequence is the position up to which the
/// cache will have been filled after the next forward pass.
pub struct TextRun {
    tokens: Vec<u32>,
    prompt_len: usize,
    max_steps: usize,
    eos: EosTokens,
}

impl View for TextRun {
    type V = TextState;

    closed spec fn view(&self) -> TextState {
        TextState {
            tokens: self.tokens@,
            prompt_len: self.prompt_len as nat,
            max_steps: self.max_steps as nat,
            eos: self.eos,
        }
    }
}

impl TextRun {
    /// A run that has taken no step yet.
    pub fn new(prompt: Vec<u32>, max_steps: usize, eos: EosTokens) -> (run: TextRun)
        ensures
            run@.wf(),
            run@ == (TextState {
                tokens: prompt@,
                prompt_len: prompt@.len(),
                max_steps: max_steps as nat,
                eos,
            }),
    {
        let prompt_len = prompt.len();
        assert(prompt@.take(prompt_len as int) == prompt@);
        TextRun { tokens: prompt, prompt_len, max_steps, eos }
    }

    /// Why the run is at rest, or `None` while it has a step to take.
    pub fn stop_reason(&self) -> (reason: Option<StopReason>)
        ensures
            reason == self@.stopped(),
    {
        stop_reason_of(self.prompt_len, &self.tokens, self.max_steps, &self.eos)
    }

    /// What the next forward pass is to be given: the tokens that the cache
    /// has not seen and the position of the first of them. `None` when the
    /// run is at rest.
    pub fn unseen(&self) -> (request: Option<(&[u32], usize)>)
        ensures
            request is None <==> self@.stopped() is Some,
            request is Some ==> {
                let (suffix, position) = request->Some_0;
                &&& position == unseen_from(self@.prompt_len, self@.tokens.len())
                &&& suffix@ == self@.tokens.skip(position as int)
            },
    {
        if self.stop_reason().is_some() {
            return None;
        }
        let len = self.tokens.len();
        let position = if len <= self.prompt_len {
            0
        } else {
            len - 1
        };
        let suffix = slice_subrange(self.tokens.as_slice(), position, len);
        assert(suffix@ == self.tokens@.skip(position as int));
        Some((suffix, position))
    }

    /// Takes the sampled token into the sequence. A run at rest stays as it
    /// is and answers `false`.
    pub fn accept(&mut self, token: u32) -> (taken: bool)
        ensures
            taken == (old(self)@.stopped() is None),
            taken ==> final(self)@ == old(self)@.with(token),
            !taken ==> final(self)@ == old(self)@,
            old(self)@.wf() ==> final(self)@.wf(),
    {
        if self.stop_reason().is_some() {
            return false;
        }
        let ghost before = self.tokens@;
        self.tokens.push(token);
        proof {
            if old(self)@.wf() {
                let after = self.tokens@;
                assert(after.take(self.prompt_len as int) == before.take(self.prompt_len as int));
                assert forall|i: int| self.prompt_len <= i < after.len() - 1 implies !self.eos.ends(
                    #[trigger] after[i],
                ) by {
                    assert(after[i] == before[i]);
                }
            }
        }
        true
    }

    /// The number of steps taken.
    pub fn step_count(&self) -> (n: usize)
        ensures
            n == self@.steps(),
    {
        if self.tokens.len() >= self.prompt_len {
            self.tokens.len() - self.prompt_len
        } else {
            0
        }
    }

    /// Ends the run and hands out its tokens: the prompt and what was
    /// generated after it.
    pub fn into_tokens(self) -> (tokens: Vec<u32>)
        ensures
            tokens@ == self@.tokens,
    {
        self.tokens
    }
}

/// A causal language model with an incremental cache, as far as a run needs
/// to know it. `tokens` is the part of the sequence that the cache has not
/// seen and `position` the index of its first token in the sequence; the
/// answer is the logits of the last position. A failure leaves the cache in
/// an unknown state.
pub trait CausalModel {
    type Logits;

    fn forward(&mut self, tokens: &[u32], position: usize) -> Result<Self::Logits, ModelError>;
}

/// Generates text: runs the model and the sampler in turn until an end token
/// is sampled or `max_steps` tokens were appended, and returns the prompt
/// with what was generated after it. The first failure of the model or of the
/// sampler ends the run; nothing is tried again.
pub fn generate_text<M: CausalModel, S: Sample<M::Logits>>(
    model: &mut M,
    sampler: &mut S,
    prompt: Vec<u32>,
    max_steps: usize,
    eos: EosTokens,
) -> (r: Result<Vec<u32>, GenError>)
    ensures
        max_steps == 0 ==> {
            &&& r is Ok
            &&& r->Ok_0@ == prompt@
            &&& *final(model) == *old(model)
            &&& *final(sampler) == *old(sampler)
        },
        match r {
            Ok(tokens) => {
                &&& follows_rule(prompt@, tokens@, max_steps as nat, eos)
                &&& stop_of(prompt@.len(), tokens@, max_steps as nat, eos) is Some
            },
            Err(e) => e is Model,
        },
{
    let mut run = TextRun::new(prompt, max_steps, eos);
    let ghost start = run@;
    loop
        invariant
            run@.wf(),
            run@ == (TextState { tokens: run@.tokens, ..start }),
            start.prompt_len == prompt@.len(),
            start.max_steps == max_steps,
            start.eos == eos,
            run@.prompt() == prompt@,
            max_steps == 0 ==> run@.stopped() is Some,
            max_steps == 0 ==> *model == *old(model) && *sampler == *old(sampler),
        ensures
            run@.wf(),
            run@ == (TextState { tokens: run@.tokens, ..start }),
            run@.prompt() == prompt@,
            run@.stopped() is Some,
            max_steps == 0 ==> *model == *old(model) && *sampler == *old(sampler),
        decreases max_steps - run@.steps(),
    {
        let logits = match run.unseen() {
            None => {
                break ;
            },
            Some((suffix, position)) => match model.forward(suffix, position) {
                Ok(logits) => logits,
                Err(e) => {
                    return Err(GenError::Model(e));
                },
            },
        };
        let token = match sampler.sample(&logits) {
            Ok(token) => token,
            Err(e) => {
                return Err(GenError::Model(e));
            },
        };
        let ghost before = run@;
        run.accept(token);
        assert(run@.prompt() == before.prompt());
    }
    Ok(run.into_tokens())
}

/// A run with no step to take returns the prompt as it is.
pub proof fn lemma_no_steps(prompt: Seq<u32>, tokens: Seq<u32>, eos: EosTokens)
    requires
        follows_rule(prompt, tokens, 0, eos),
    ensures
        tokens == prompt,
{
    assert(tokens.take(prompt.len() as int) == tokens);
}

/// Where the first sampled token ends the sequence, the result is the prompt
/// and that one token.
pub proof fn lemma_first_token_ends(
    prompt: Seq<u32>,
    tokens: Seq<u32>,
    max_steps: nat,
    eos: EosTokens,
)
    requires
        follows_rule(prompt, tokens, max_steps, eos),
        tokens.len() > prompt.len(),
        eos.ends(tokens[prompt.len() as int]),
    ensures
        tokens == prompt.push(tokens[prompt.len() as int]),
{
    if tokens.len() > prompt.len() + 1 {
        assert(!eos.ends(tokens[prompt.len() as int]));
    }
    assert(tokens =~= tokens.take(prompt.len() as int).push(tokens[prompt.len() as int]));
}

} // verus!
