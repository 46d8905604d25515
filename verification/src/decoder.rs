//! The speech decoder: a windowed loop over a recording and, for each window,
//! an inner loop that grows the window's token sequence.
//!
//! The inner loop starts from three control tokens, asks the model for the
//! logits of the last position, adds the suppression mask, takes the likeliest
//! token and appends it. It stops at the end-of-transcript token or when the
//! sequence fills the model's target positions, whichever comes first. The
//! outer loop takes the windows of the recording in order and keeps what each
//! of them gave.

use crate::error::{GenError, ModelError};
use crate::mask::{id_set, mask_of, masked, Bias, SuppressionMask};
use crate::sampler::{greedy_outcome, Greedy, Sample};
use crate::score::Score;
use crate::text::StopReason;
use crate::vocab::{token_id, vocabulary};
use crate::window::{lemma_windows_unfold, next_window, windows_from, windows_of, Window};
use tokenizers::Tokenizer;
use vstd::prelude::*;

verus! {

/// The token that opens every transcript.
pub const SOT_TOKEN: &'static str = "<|startoftranscript|>";

/// The token that names the language of the transcript.
pub const LANGUAGE_TOKEN: &'static str = "<|en|>";

/// The token that asks for a transcript rather than a translation.
pub const TRANSCRIBE_TOKEN: &'static str = "<|transcribe|>";

/// The token that closes a transcript.
pub const EOT_TOKEN: &'static str = "<|endoftext|>";

/// What a decoder takes from the configuration of its model.
#[derive(Clone, Debug, PartialEq, Eq)]
pub struct DecoderSettings {
    /// The number of ids in the vocabulary.
    pub vocab_size: usize,
    /// The ids that are never to be chosen.
    pub suppress_tokens: Vec<u32>,
    /// The most positions that the model's decoder has.
    pub max_target_positions: usize,
    /// The most frames that the model's encoder takes at once.
    pub max_frames: usize,
}

/// The rules of a decoder, as contracts see them.
pub struct Rules {
    /// The suppression mask.
    pub mask: Seq<Bias>,
    /// The control tokens that every window's sequence begins with: start of
    /// transcript, language, task.
    pub seed: Seq<u32>,
    /// The end-of-transcript token.
    pub eot: u32,
    /// The number of positions that the model's decoder has.
    pub max_target_positions: nat,
    /// The cap on the size of a window.
    pub max_frames: usize,
}

impl Rules {
    /// The tokens of one window grow by the rule: they begin with the control
    /// tokens, what follows those does not outgrow the target positions, and
    /// none of it but the last is the end-of-transcript token.
    pub open spec fn decoded(self, tokens: Seq<u32>) -> bool {
        &&& self.seed.len() <= tokens.len()
        &&& tokens.len() > self.seed.len() ==> tokens.len() <= self.max_target_positions
        &&& tokens.take(self.seed.len() as int) == self.seed
        &&& forall|i: int|
            self.seed.len() <= i < tokens.len() - 1 ==> #[trigger] tokens[i] != self.eot
    }

    /// Why the inner loop is at rest with these tokens, if it is: the token
    /// appended last closes the transcript, or the sequence fills the target
    /// positions. The control tokens alone never close a transcript.
    pub open spec fn stop(self, tokens: Seq<u32>) -> Option<StopReason> {
        if tokens.len() > self.seed.len() && tokens.last() == self.eot {
            Some(StopReason::EndToken)
        } else if tokens.len() >= self.max_target_positions {
            Some(StopReason::Limit)
        } else {
            None
        }
    }

    /// Whether the next step is the first of its window, the one before which
    /// the model is to forget what it has cached.
    pub open spec fn first_step(self, tokens: Seq<u32>) -> bool {
        tokens.len() == self.seed.len()
    }

    /// What choosing under the mask may answer: the greedy choice among the
    /// masked logits, or a failure where the logits are not one row of the
    /// vocabulary.
    pub open spec fn choice(self, logits: Seq<Score>, outcome: Result<u32, ModelError>) -> bool {
        if logits.len() == self.mask.len() {
            greedy_outcome(masked(logits, self.mask), outcome)
        } else {
            outcome is Err
        }
    }

    /// The tokens of a window that is done.
    pub open spec fn finished(self, tokens: Seq<u32>) -> bool {
        self.decoded(tokens) && self.stop(tokens) is Some
    }
}

/// The first of the four control tokens that a vocabulary lacks.
pub open spec fn first_unknown(vocab: Map<Seq<char>, u32>) -> Option<Seq<char>> {
    if !vocab.contains_key(SOT_TOKEN@) {
        Some(SOT_TOKEN@)
    } else if !vocab.contains_key(LANGUAGE_TOKEN@) {
        Some(LANGUAGE_TOKEN@)
    } else if !vocab.contains_key(TRANSCRIBE_TOKEN@) {
        Some(TRANSCRIBE_TOKEN@)
    } else if !vocab.contains_key(EOT_TOKEN@) {
        Some(EOT_TOKEN@)
    } else {
        None
    }
}

/// The rules that a decoder is to have for given settings and a given
/// vocabulary, which holds all four control tokens.
pub open spec fn rules_for(settings: DecoderSettings, vocab: Map<Seq<char>, u32>) -> Rules {
    Rules {
        mask: mask_of(settings.vocab_size as nat, id_set(settings.suppress_tokens@)),
        seed: seq![vocab[SOT_TOKEN@], vocab[LANGUAGE_TOKEN@], vocab[TRANSCRIBE_TOKEN@]],
        eot: vocab[EOT_TOKEN@],
        max_target_positions: settings.max_target_positions as nat,
        max_frames: settings.max_frames,
    }
}

/// Everything that the two loops decide by, fixed when the decoder is made:
/// the mask, the control tokens and the limits.
pub struct DecodeRules {
    mask: SuppressionMask,
    sot_token: u32,
    language_token: u32,
    transcribe_token: u32,
    eot_token: u32,
    max_target_positions: usize,
    max_frames: usize,
}

impl View for DecodeRules {
    type V = Rules;

    closed spec fn view(&self) -> Rules {
        Rules {
            mask: self.mask@,
            seed: seq![self.sot_token, self.language_token, self.transcribe_token],
            eot: self.eot_token,
            max_target_positions: self.max_target_positions as nat,
            max_frames: self.max_frames,
        }
    }
}

impl DecodeRules {
    /// No rules are made with a cap of zero frames.
    #[verifier::type_invariant]
    spec fn cap_is_positive(self) -> bool {
        self.max_frames > 0
    }

    /// Makes the rules from the model's settings and the ids of the control
    /// tokens. A cap of zero frames is refused: no recording could be walked
    /// with it.
    pub fn new(
        settings: &DecoderSettings,
        sot_token: u32,
        language_token: u32,
        transcribe_token: u32,
        eot_token: u32,
    ) -> (r: Result<DecodeRules, GenError>)
        ensures
            settings.max_frames == 0 ==> r matches Err(GenError::InvalidConfig),
            settings.max_frames > 0 ==> r is Ok && r->Ok_0@ == (Rules {
                mask: mask_of(settings.vocab_size as nat, id_set(settings.suppress_tokens@)),
                seed: seq![sot_token, language_token, transcribe_token],
                eot: eot_token,
                max_target_positions: settings.max_target_positions as nat,
                max_frames: settings.max_frames,
            }),
    {
        if settings.max_frames == 0 {
            return Err(GenError::InvalidConfig);
        }
        let mask = SuppressionMask::build(settings.vocab_size, &settings.suppress_tokens);
        Ok(
            DecodeRules {
                mask,
                sot_token,
                language_token,
                transcribe_token,
                eot_token,
                max_target_positions: settings.max_target_positions,
                max_frames: settings.max_frames,
            },
        )
    }

    /// Every decoder has three control tokens.
    pub proof fn lemma_three_control_tokens(&self)
        ensures
            self@.seed.len() == 3,
    {
    }

    /// The sequence that a window starts from: start of transcript, language,
    /// task.
    pub fn begin(&self) -> (tokens: Vec<u32>)
        ensures
            tokens@ == self@.seed,
            tokens@.len() == 3,
    {
        let mut tokens: Vec<u32> = Vec::new();
        tokens.push(self.sot_token);
        tokens.push(self.language_token);
        tokens.push(self.transcribe_token);
        assert(tokens@ =~= self@.seed);
        tokens
    }

    /// Why the inner loop is at rest with these tokens, or `None` while it
    /// has a step to take.
    pub fn stop_reason(&self, tokens: &Vec<u32>) -> (reason: Option<StopReason>)
        ensures
            reason == self@.stop(tokens@),
    {
        let len = tokens.len();
        if len > 3 && tokens[len - 1] == self.eot_token {
            Some(StopReason::EndToken)
        } else if len >= self.max_target_positions {
            Some(StopReason::Limit)
        } else {
            None
        }
    }

    /// Whether the next step is the first of its window.
    pub fn is_first_step(&self, tokens: &Vec<u32>) -> (first: bool)
        ensures
            first == self@.first_step(tokens@),
            first == (tokens@.len() == self@.seed.len()),
    {
        tokens.len() == 3
    }

    /// Chooses the next token from the logits of the last position: adds the
    /// mask and takes the largest score, of equal ones the first.
    pub fn select(&self, logits: &Vec<Score>) -> (outcome: Result<u32, ModelError>)
        ensures
            self@.choice(logits@, outcome),
    {
        if logits.len() != self.mask.len() {
            return Err(ModelError::new("logits are not one row of the vocabulary"));
        }
        proof {
            if logits@.len() > 0 {
                assert(logits@.len() as int % logits@.len() as int == 0) by (nonlinear_arith)
                    requires
                        logits@.len() > 0,
                ;
            }
        }
        match self.mask.apply(logits) {
            Ok(scores) => {
                let mut greedy = Greedy;
                greedy.sample(&scores)
            },
            Err(e) => {
                assert(false);
                Err(e)
            },
        }
    }

    /// Takes one step of the inner loop: chooses the next token from the
    /// logits of the last position, appends it, and tells whether the loop is
    /// at rest now. Where no token can be chosen the sequence stays as it is.
    pub fn advance(&self, tokens: &mut Vec<u32>, logits: &Vec<Score>) -> (r: Result<
        Option<StopReason>,
        ModelError,
    >)
        ensures
            match r {
                Ok(reason) => {
                    &&& final(tokens)@.len() == old(tokens)@.len() + 1
                    &&& final(tokens)@.drop_last() == old(tokens)@
                    &&& self@.choice(logits@, Ok::<u32, ModelError>(final(tokens)@.last()))
                    &&& reason == self@.stop(final(tokens)@)
                },
                Err(e) => final(tokens)@ == old(tokens)@ && self@.choice(
                    logits@,
                    Err::<u32, ModelError>(e),
                ),
            },
    {
        let next = match self.select(logits) {
            Ok(next) => next,
            Err(e) => {
                return Err(e);
            },
        };
        tokens.push(next);
        assert(tokens@.drop_last() == old(tokens)@);
        Ok(self.stop_reason(tokens))
    }

    /// The cap on the size of a window, which is never zero.
    pub fn window_cap(&self) -> (cap: usize)
        ensures
            cap == self@.max_frames,
            cap > 0,
    {
        proof {
            use_type_invariant(self);
        }
        self.max_frames
    }
}

/// An encoder-decoder speech model, as far as the decoder needs to know it.
/// `Audio` is a recording's features or a run of their frames, `Encoding` what
/// the encoder makes of one window. The decoder's answer is the scores of the
/// last position of the token sequence, one per vocabulary id. `flush` asks the
/// model to forget what it has cached. A failure leaves the model's caches in
/// an unknown state.
pub trait SpeechModel {
    type Audio;

    type Encoding;

    fn narrow(&self, audio: &Self::Audio, start: usize, len: usize) -> Result<
        Self::Audio,
        ModelError,
    >;

    fn encoder_forward(&mut self, segment: &Self::Audio, flush: bool) -> Result<
        Self::Encoding,
        ModelError,
    >;

    fn decoder_forward(&mut self, tokens: &[u32], encoding: &Self::Encoding, flush: bool) -> Result<
        Vec<Score>,
        ModelError,
    >;
}

/// What one window gave.
#[derive(Clone, Debug, PartialEq, Eq)]
pub struct Segment {
    /// The frames that were decoded.
    pub window: Window,
    /// The tokens decoded from them, control tokens included.
    pub tokens: Vec<u32>,
}

/// The windows that a list of segments was decoded from.
pub open spec fn windows_in(segments: Seq<Segment>) -> Seq<Window> {
    Seq::new(segments.len(), |i: int| segments[i].window)
}

/// The tokens of a list of segments, one segment after the other.
pub open spec fn joined(segments: Seq<Segment>) -> Seq<u32>
    decreases segments.len(),
{
    if segments.len() == 0 {
        Seq::empty()
    } else {
        joined(segments.drop_last()) + segments.last().tokens@
    }
}

/// The token stream of a transcript: what each window gave, in the order of
/// the windows, control tokens included.
pub fn transcript(segments: &Vec<Segment>) -> (tokens: Vec<u32>)
    ensures
        tokens@ == joined(segments@),
{
    let mut tokens: Vec<u32> = Vec::new();
    let mut i: usize = 0;
    assert(segments@.take(0) == Seq::<Segment>::empty());
    while i < segments.len()
        invariant
            i <= segments.len(),
            tokens@ == joined(segments@.take(i as int)),
        decreases segments.len() - i,
    {
        let part = &segments[i].tokens;
        let ghost before = tokens@;
        let mut k: usize = 0;
        while k < part.len()
            invariant
                k <= part.len(),
                tokens@ == before + part@.take(k as int),
            decreases part.len() - k,
        {
            tokens.push(part[k]);
            assert(part@.take(k + 1) == part@.take(k as int).push(part@[k as int]));
            k = k + 1;
        }
        assert(part@.take(k as int) == part@);
        assert(segments@.take(i + 1).drop_last() == segments@.take(i as int));
        assert(segments@.take(i + 1).last() == segments@[i as int]);
        i = i + 1;
    }
    assert(segments@.take(i as int) == segments@);
    tokens
}

/// `tokens` is the transcript of a recording of `content_frames` frames that
/// was decoded in the given segments: the segments are those of the windows of
/// the recording, each is a window's finished sequence, and the tokens are
/// theirs, joined.
pub open spec fn is_transcript(
    rules: Rules,
    content_frames: usize,
    segments: Seq<Segment>,
    tokens: Seq<u32>,
) -> bool {
    &&& windows_in(segments) == windows_of(content_frames, rules.max_frames)
    &&& forall|i: int| 0 <= i < segments.len() ==> rules.finished((#[trigger] segments[i]).tokens@)
    &&& tokens == joined(segments)
}

/// `tokens` is the transcript of a recording of `content_frames` frames, in
/// whatever segments it was decoded.
pub open spec fn transcribes(rules: Rules, content_frames: usize, tokens: Seq<u32>) -> bool {
    exists|segments: Seq<Segment>| is_transcript(rules, content_frames, segments, tokens)
}

/// A speech decoder, as contracts see it.
pub struct DecoderState<M> {
    /// The model that the decoder runs.
    pub model: M,
    /// The tokenizer that the decoder was made with.
    pub tokenizer: Tokenizer,
    /// The rules that the decoder works by.
    pub rules: Rules,
}

/// A speech decoder over a model.
pub struct Decoder<M> {
    model: M,
    tokenizer: Tokenizer,
    rules: DecodeRules,
}

impl<M> View for Decoder<M> {
    type V = DecoderState<M>;

    closed spec fn view(&self) -> DecoderState<M> {
        DecoderState { model: self.model, tokenizer: self.tokenizer, rules: self.rules@ }
    }
}

impl<M: SpeechModel> Decoder<M> {
    /// Makes a decoder: builds the suppression mask once and looks the
    /// control tokens up in the tokenizer's vocabulary. A cap of zero frames
    /// is refused first, then the first control token that the vocabulary
    /// lacks.
    pub fn new(model: M, tokenizer: Tokenizer, settings: &DecoderSettings) -> (r: Result<
        Self,
        GenError,
    >)
        ensures
            settings.max_frames == 0 ==> r matches Err(GenError::InvalidConfig),
            settings.max_frames > 0 ==> match first_unknown(vocabulary(tokenizer)) {
                Some(missing) => r matches Err(GenError::UnknownToken(name)) && name@ == missing,
                None => r is Ok && r->Ok_0@ == (DecoderState {
                    model,
                    tokenizer,
                    rules: rules_for(*settings, vocabulary(tokenizer)),
                }),
            },
    {
        if settings.max_frames == 0 {
            return Err(GenError::InvalidConfig);
        }
        let sot_token = match token_id(&tokenizer, SOT_TOKEN) {
            Ok(id) => id,
            Err(e) => {
                return Err(e);
            },
        };
        let language_token = match token_id(&tokenizer, LANGUAGE_TOKEN) {
            Ok(id) => id,
            Err(e) => {
                return Err(e);
            },
        };
        let transcribe_token = match token_id(&tokenizer, TRANSCRIBE_TOKEN) {
            Ok(id) => id,
            Err(e) => {
                return Err(e);
            },
        };
        let eot_token = match token_id(&tokenizer, EOT_TOKEN) {
            Ok(id) => id,
            Err(e) => {
                return Err(e);
            },
        };
        match DecodeRules::new(settings, sot_token, language_token, transcribe_token, eot_token) {
            Ok(rules) => Ok(Decoder { model, tokenizer, rules }),
            Err(e) => Err(e),
        }
    }

    /// The rules that the decoder works by.
    pub fn rules(&self) -> (rules: &DecodeRules)
        ensures
            rules@ == self@.rules,
    {
        &self.rules
    }

    /// The tokenizer that the decoder was made with.
    pub fn tokenizer(&self) -> (tokenizer: &Tokenizer)
        ensures
            *tokenizer == self@.tokenizer,
    {
        &self.tokenizer
    }

    /// Decodes one window. The encoder runs once; every step of the loop
    /// runs the decoder over the whole sequence so far. The loop ends at the
    /// end-of-transcript token or when the sequence fills the model's target
    /// positions, and takes no step where the control tokens fill them
    /// already. The first failure of the model ends the run.
    pub fn decode(&mut self, segment: &M::Audio) -> (r: Result<Vec<u32>, GenError>)
        ensures
            final(self)@.rules == old(self)@.rules,
            final(self)@.tokenizer == old(self)@.tokenizer,
            old(self)@.rules.seed.len() == 3,
            match r {
                Ok(tokens) => {
                    &&& old(self)@.rules.finished(tokens@)
                    &&& old(self)@.rules.max_target_positions >= 3 ==> tokens@.len() <= old(
                        self,
                    )@.rules.max_target_positions
                },
                Err(e) => e is Model,
            },
    {
        let encoding = match self.model.encoder_forward(segment, true) {
            Ok(encoding) => encoding,
            Err(e) => {
                return Err(GenError::Model(e));
            },
        };
        let mut tokens = self.rules.begin();
        let ghost rules = self@.rules;
        assert(tokens@.take(rules.seed.len() as int) == rules.seed);
        loop
            invariant
                self@.rules == rules,
                self@.tokenizer == old(self)@.tokenizer,
                rules == old(self)@.rules,
                rules.seed.len() == 3,
                rules.decoded(tokens@),
            ensures
                self@.rules == rules,
                self@.tokenizer == old(self)@.tokenizer,
                rules.finished(tokens@),
            decreases rules.max_target_positions - tokens@.len(),
        {
            if self.rules.stop_reason(&tokens).is_some() {
                break ;
            }
            let flush = self.rules.is_first_step(&tokens);
            let scores = match self.model.decoder_forward(tokens.as_slice(), &encoding, flush) {
                Ok(scores) => scores,
                Err(e) => {
                    return Err(GenError::Model(e));
                },
            };
            let ghost before = tokens@;
            match self.rules.advance(&mut tokens, &scores) {
                Ok(_) => {},
                Err(e) => {
                    return Err(GenError::Model(e));
                },
            }
            proof {
                let after = tokens@;
                assert(after.take(rules.seed.len() as int) == before.take(
                    rules.seed.len() as int,
                ));
                assert forall|i: int| rules.seed.len() <= i < after.len() - 1 implies #[trigger] after[i]
                    != rules.eot by {
                    assert(after[i] == before[i]);
                }
            }
        }
        Ok(tokens)
    }

    /// Transcribes a recording of `content_frames` frames: takes its windows
    /// in order, decodes each one and keeps what it gave. No window is taken
    /// twice. The first failure of the model ends the run.
    pub fn run(&mut self, audio: &M::Audio, content_frames: usize) -> (r: Result<
        Vec<Segment>,
        GenError,
    >)
        ensures
            final(self)@.rules == old(self)@.rules,
            final(self)@.tokenizer == old(self)@.tokenizer,
            old(self)@.rules.seed.len() == 3,
            content_frames == 0 ==> r is Ok && final(self)@ == old(self)@,
            match r {
                Ok(segments) => {
                    &&& windows_in(segments@) == windows_of(
                        content_frames,
                        old(self)@.rules.max_frames,
                    )
                    &&& forall|i: int|
                        0 <= i < segments@.len() ==> old(self)@.rules.finished(
                            (#[trigger] segments@[i]).tokens@,
                        )
                },
                Err(e) => e is Model,
            },
    {
        let cap = self.rules.window_cap();
        let ghost rules = self@.rules;
        let mut segments: Vec<Segment> = Vec::new();
        let mut seek: usize = 0;
        assert(windows_in(segments@) + windows_from(content_frames, cap, seek) == windows_of(
            content_frames,
            cap,
        ));
        loop
            invariant
                self@.rules == rules,
                self@.tokenizer == old(self)@.tokenizer,
                rules == old(self)@.rules,
                content_frames == 0 ==> self@ == old(self)@,
                cap == rules.max_frames,
                cap > 0,
                seek <= content_frames,
                windows_in(segments@) + windows_from(content_frames, cap, seek) == windows_of(
                    content_frames,
                    cap,
                ),
                forall|i: int|
                    0 <= i < segments@.len() ==> rules.finished((#[trigger] segments@[i]).tokens@),
            ensures
                self@.rules == rules,
                self@.tokenizer == old(self)@.tokenizer,
                content_frames == 0 ==> self@ == old(self)@,
                windows_in(segments@) == windows_of(content_frames, cap),
                forall|i: int|
                    0 <= i < segments@.len() ==> rules.finished((#[trigger] segments@[i]).tokens@),
            decreases content_frames - seek,
        {
            let window = match next_window(content_frames, cap, seek) {
                None => {
                    assert(windows_from(content_frames, cap, seek) == Seq::<Window>::empty());
                    assert(windows_in(segments@) + Seq::<Window>::empty() == windows_in(
                        segments@,
                    ));
                    break ;
                },
                Some(window) => window,
            };
            proof {
                lemma_windows_unfold(content_frames, cap, seek);
            }
            let part = match self.model.narrow(audio, window.start, window.len) {
                Ok(part) => part,
                Err(e) => {
                    return Err(GenError::Model(e));
                },
            };
            let tokens = match self.decode(&part) {
                Ok(tokens) => tokens,
                Err(e) => {
                    return Err(e);
                },
            };
            let ghost before = segments@;
            segments.push(Segment { window, tokens });
            proof {
                let after = segments@;
                assert(windows_in(after) == windows_in(before) + seq![window]);
                assert(windows_in(after) + windows_from(
                    content_frames,
                    cap,
                    (seek + window.len) as usize,
                ) == windows_in(before) + (seq![window] + windows_from(
                    content_frames,
                    cap,
                    (seek + window.len) as usize,
                )));
                assert forall|i: int| 0 <= i < after.len() implies rules.finished(
                    (#[trigger] after[i]).tokens@,
                ) by {
                    if i < before.len() {
                        assert(after[i] == before[i]);
                    }
                }
            }
            seek = seek + window.len;
        }
        Ok(segments)
    }

    /// Transcribes a recording of `content_frames` frames into one stream of
    /// tokens: what `run` gives for each window, joined in the order of the
    /// windows.
    pub fn transcribe(&mut self, audio: &M::Audio, content_frames: usize) -> (r: Result<
        Vec<u32>,
        GenError,
    >)
        ensures
            final(self)@.rules == old(self)@.rules,
            final(self)@.tokenizer == old(self)@.tokenizer,
            old(self)@.rules.seed.len() == 3,
            content_frames == 0 ==> r is Ok && r->Ok_0@.len() == 0 && final(self)@ == old(self)@,
            match r {
                Ok(tokens) => transcribes(old(self)@.rules, content_frames, tokens@),
                Err(e) => e is Model,
            },
    {
        let segments = match self.run(audio, content_frames) {
            Ok(segments) => segments,
            Err(e) => {
                return Err(e);
            },
        };
        let tokens = transcript(&segments);
        proof {
            assert(is_transcript(old(self)@.rules, content_frames, segments@, tokens@));
            if content_frames == 0 {
                assert(windows_in(segments@).len() == 0);
            }
        }
        Ok(tokens)
    }
}

/// A decoder whose model has room for the three control tokens never hands
/// out a sequence longer than the model's target positions, whether or not the
/// end-of-transcript token comes.
pub proof fn lemma_decode_within_positions(rules: Rules, tokens: Seq<u32>)
    requires
        rules.decoded(tokens),
        rules.seed.len() == 3,
        rules.max_target_positions >= 3,
    ensures
        tokens.len() <= rules.max_target_positions,
{
}

/// A window is done for one of two reasons and no other: its last token,
/// which is not a control token, closes the transcript, or its sequence
/// fills the target positions exactly.
pub proof fn lemma_decode_ends(rules: Rules, tokens: Seq<u32>)
    requires
        rules.finished(tokens),
        rules.seed.len() <= rules.max_target_positions,
    ensures
        (tokens.len() > rules.seed.len() && tokens.last() == rules.eot) || tokens.len()
            == rules.max_target_positions,
{
}

} // verus!
