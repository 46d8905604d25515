use seqgen::decoder::{
    transcript, DecodeRules, Decoder, DecoderSettings, Segment, SpeechModel, EOT_TOKEN,
    LANGUAGE_TOKEN, SOT_TOKEN, TRANSCRIBE_TOKEN,
};
use seqgen::error::{GenError, ModelError};
use seqgen::score::{score_from_bits, Score};
use seqgen::text::StopReason;
use seqgen::vocab::token_id;
use seqgen::window::Window;
use std::cell::RefCell;
use std::rc::Rc;
use tokenizers::Tokenizer;

const EOT: u32 = 3;
const SOT: u32 = 4;
const EN: u32 = 5;
const TRANSCRIBE: u32 = 6;

fn tokenizer_with(vocab: &[(&str, u32)], added: &[(&str, u32)]) -> Tokenizer {
    let entries: Vec<String> = vocab
        .iter()
        .map(|(token, id)| format!("\"{}\": {}", token, id))
        .collect();
    let extra: Vec<String> = added
        .iter()
        .map(|(token, id)| {
            format!(
                "{{\"id\": {}, \"content\": \"{}\", \"single_word\": false, \"lstrip\": false, \
                 \"rstrip\": false, \"normalized\": false, \"special\": true}}",
                id, token
            )
        })
        .collect();
    let json = format!(
        "{{\"version\": \"1.0\", \"truncation\": null, \"padding\": null, \"added_tokens\": [{}], \
         \"normalizer\": null, \"pre_tokenizer\": null, \"post_processor\": null, \
         \"decoder\": null, \"model\": {{\"type\": \"WordLevel\", \"vocab\": {{{}}}, \
         \"unk_token\": \"<unk>\"}}}}",
        extra.join(", "),
        entries.join(", ")
    );
    Tokenizer::from_bytes(json.as_bytes()).unwrap()
}

/// A tokenizer whose control tokens were added to its model; a tokenizer
/// numbers such tokens on from the ids of the model.
fn whisper_tokenizer() -> Tokenizer {
    tokenizer_with(
        &[("<unk>", 0), ("hello", 1), ("world", 2)],
        &[(EOT_TOKEN, EOT), (SOT_TOKEN, SOT), (LANGUAGE_TOKEN, EN), (TRANSCRIBE_TOKEN, TRANSCRIBE)],
    )
}

fn small_tokenizer() -> Tokenizer {
    tokenizer_with(
        &[("<unk>", 0), (SOT_TOKEN, 1), (LANGUAGE_TOKEN, 2), (TRANSCRIBE_TOKEN, 3), (EOT_TOKEN, 4)],
        &[],
    )
}

fn settings(vocab_size: usize, suppress: &[u32], positions: usize, frames: usize) -> DecoderSettings {
    DecoderSettings {
        vocab_size,
        suppress_tokens: suppress.to_vec(),
        max_target_positions: positions,
        max_frames: frames,
    }
}

#[derive(Default)]
struct Log {
    narrowed: Vec<(usize, usize)>,
    encoded: Vec<((usize, usize), bool)>,
    decoded: Vec<(Vec<u32>, usize, bool)>,
}

/// A model that keeps what it was asked. Its decoder answers with the scores
/// of `loud` at 10 and of the scripted id at 9, every other id at 0.
struct Stub {
    vocab: usize,
    script: Vec<u32>,
    loud: Option<u32>,
    fail_encoder_at: Option<usize>,
    fail_decoder_at: Option<usize>,
    log: Rc<RefCell<Log>>,
}

impl Stub {
    fn new(vocab: usize, script: &[u32]) -> (Stub, Rc<RefCell<Log>>) {
        let log = Rc::new(RefCell::new(Log::default()));
        let stub = Stub {
            vocab,
            script: script.to_vec(),
            loud: None,
            fail_encoder_at: None,
            fail_decoder_at: None,
            log: log.clone(),
        };
        (stub, log)
    }
}

impl SpeechModel for Stub {
    type Audio = (usize, usize);
    type Encoding = usize;

    fn narrow(&self, audio: &(usize, usize), start: usize, len: usize) -> Result<(usize, usize), ModelError> {
        if start + len > audio.1 {
            return Err(ModelError::new("the window leaves the recording"));
        }
        self.log.borrow_mut().narrowed.push((start, len));
        Ok((audio.0 + start, len))
    }

    fn encoder_forward(&mut self, segment: &(usize, usize), flush: bool) -> Result<usize, ModelError> {
        let mut log = self.log.borrow_mut();
        if self.fail_encoder_at == Some(log.encoded.len()) {
            return Err(ModelError::new("the encoder failed"));
        }
        log.encoded.push((*segment, flush));
        Ok(log.encoded.len())
    }

    fn decoder_forward(&mut self, tokens: &[u32], encoding: &usize, flush: bool) -> Result<Vec<Score>, ModelError> {
        let mut log = self.log.borrow_mut();
        let call = log.decoded.len();
        if self.fail_decoder_at == Some(call) {
            return Err(ModelError::new("the decoder failed"));
        }
        log.decoded.push((tokens.to_vec(), *encoding, flush));
        let wanted = self.script[call % self.script.len()];
        Ok((0..self.vocab as u32)
            .map(|id| {
                let value: f32 = if Some(id) == self.loud {
                    10.0
                } else if id == wanted {
                    9.0
                } else {
                    0.0
                };
                score_from_bits(value.to_bits())
            })
            .collect())
    }
}

fn decoder(script: &[u32], suppress: &[u32], positions: usize, frames: usize) -> (Decoder<Stub>, Rc<RefCell<Log>>) {
    let (stub, log) = Stub::new(10, script);
    let made = Decoder::new(stub, small_tokenizer(), &settings(10, suppress, positions, frames));
    (made.ok().unwrap(), log)
}

#[test]
fn token_id_finds_a_token_of_the_model() {
    let tokenizer = whisper_tokenizer();
    assert_eq!(token_id(&tokenizer, "hello"), Ok(1));
    assert_eq!(token_id(&tokenizer, "world"), Ok(2));
}

#[test]
fn token_id_finds_an_added_token() {
    let tokenizer = whisper_tokenizer();
    assert_eq!(token_id(&tokenizer, SOT_TOKEN), Ok(SOT));
    assert_eq!(token_id(&tokenizer, EOT_TOKEN), Ok(EOT));
    assert_eq!(token_id(&tokenizer, "<|transcribe|>"), Ok(6));
}

#[test]
fn token_id_names_the_token_that_is_missing() {
    let tokenizer = whisper_tokenizer();
    assert_eq!(
        token_id(&tokenizer, "<|translate|>"),
        Err(GenError::UnknownToken("<|translate|>".to_string()))
    );
    assert_eq!(token_id(&tokenizer, ""), Err(GenError::UnknownToken(String::new())));
    assert_eq!(token_id(&tokenizer, "Hello"), Err(GenError::UnknownToken("Hello".to_string())));
}

#[test]
fn control_tokens_have_their_names() {
    assert_eq!(SOT_TOKEN, "<|startoftranscript|>");
    assert_eq!(LANGUAGE_TOKEN, "<|en|>");
    assert_eq!(TRANSCRIBE_TOKEN, "<|transcribe|>");
    assert_eq!(EOT_TOKEN, "<|endoftext|>");
}

#[test]
fn decoder_refuses_a_cap_of_zero_frames() {
    let (stub, _) = Stub::new(10, &[5]);
    let made = Decoder::new(stub, small_tokenizer(), &settings(10, &[], 8, 0));
    assert!(matches!(made, Err(GenError::InvalidConfig)));
}

#[test]
fn decoder_refuses_zero_frames_before_it_looks_for_tokens() {
    let (stub, _) = Stub::new(10, &[5]);
    let empty = tokenizer_with(&[("<unk>", 0)], &[]);
    let made = Decoder::new(stub, empty, &settings(10, &[], 8, 0));
    assert!(matches!(made, Err(GenError::InvalidConfig)));
}

#[test]
fn decoder_names_the_first_control_token_that_is_missing() {
    let all = [(SOT_TOKEN, 1u32), (LANGUAGE_TOKEN, 2), (TRANSCRIBE_TOKEN, 3), (EOT_TOKEN, 4)];
    for missing in 0..all.len() {
        let mut vocab = vec![("<unk>", 0u32)];
        vocab.extend(all.iter().enumerate().filter(|(i, _)| *i != missing).map(|(_, e)| *e));
        let (stub, _) = Stub::new(10, &[5]);
        let made = Decoder::new(stub, tokenizer_with(&vocab, &[]), &settings(10, &[], 8, 3000));
        match made {
            Err(GenError::UnknownToken(name)) => assert_eq!(name, all[missing].0),
            _ => panic!("a decoder was made without {}", all[missing].0),
        }
    }
    let (stub, _) = Stub::new(10, &[5]);
    let none = tokenizer_with(&[("<unk>", 0)], &[]);
    match Decoder::new(stub, none, &settings(10, &[], 8, 3000)) {
        Err(GenError::UnknownToken(name)) => assert_eq!(name, SOT_TOKEN),
        _ => panic!("a decoder was made without any control token"),
    }
}

#[test]
fn decoder_takes_its_control_tokens_from_the_vocabulary() {
    let (stub, _) = Stub::new(10, &[5]);
    let made = Decoder::new(stub, whisper_tokenizer(), &settings(51865, &[], 448, 3000));
    let decoder = made.ok().unwrap();
    assert_eq!(decoder.rules().begin(), vec![SOT, EN, TRANSCRIBE]);
    assert_eq!(decoder.rules().window_cap(), 3000);
    assert_eq!(token_id(decoder.tokenizer(), EOT_TOKEN), Ok(EOT));
}

#[test]
fn decode_stops_at_the_end_of_transcript() {
    let (mut decoder, log) = decoder(&[5, 6, 4, 7], &[], 448, 3000);
    assert_eq!(decoder.decode(&(0, 3000)), Ok(vec![1, 2, 3, 5, 6, 4]));
    assert_eq!(log.borrow().decoded.len(), 3);
}

#[test]
fn decode_stops_at_once_if_the_first_token_ends_the_transcript() {
    let (mut decoder, log) = decoder(&[4], &[], 448, 3000);
    assert_eq!(decoder.decode(&(0, 3000)), Ok(vec![1, 2, 3, 4]));
    assert_eq!(log.borrow().decoded.len(), 1);
}

#[test]
fn decode_stops_when_the_sequence_fills_the_positions() {
    let (mut decoder, log) = decoder(&[5], &[], 8, 3000);
    assert_eq!(decoder.decode(&(0, 3000)), Ok(vec![1, 2, 3, 5, 5, 5, 5, 5]));
    assert_eq!(log.borrow().decoded.len(), 5);
    let (mut odd, _) = self::decoder(&[5], &[], 9, 3000);
    assert_eq!(odd.decode(&(0, 3000)).unwrap().len(), 9);
}

#[test]
fn decode_stays_within_the_target_positions() {
    for positions in 3..40usize {
        let (mut decoder, _) = decoder(&[5, 6, 7], &[], positions, 3000);
        let tokens = decoder.decode(&(0, 3000)).unwrap();
        assert!(tokens.len() <= positions);
        assert_eq!(tokens.len(), positions);
    }
}

#[test]
fn decode_with_four_positions_takes_one_step() {
    let (stub, log) = Stub::new(2, &[1]);
    let tokenizer = tokenizer_with(
        &[(EOT_TOKEN, 0), (SOT_TOKEN, 1), (LANGUAGE_TOKEN, 2), (TRANSCRIBE_TOKEN, 3)],
        &[],
    );
    let mut decoder = Decoder::new(stub, tokenizer, &settings(2, &[], 4, 3000)).ok().unwrap();
    assert_eq!(decoder.decode(&(0, 3000)), Ok(vec![1, 2, 3, 1]));
    assert_eq!(log.borrow().decoded.len(), 1);
    let (mut four, _) = self::decoder(&[5], &[], 4, 3000);
    assert_eq!(four.decode(&(0, 3000)), Ok(vec![1, 2, 3, 5]));
}

#[test]
fn decode_without_room_for_a_step_returns_the_control_tokens() {
    for positions in [0usize, 1, 2, 3] {
        let (mut decoder, log) = decoder(&[5], &[], positions, 3000);
        assert_eq!(decoder.decode(&(0, 3000)), Ok(vec![1, 2, 3]));
        assert_eq!(log.borrow().encoded.len(), 1);
        assert!(log.borrow().decoded.is_empty());
    }
}

#[test]
fn decode_ends_at_the_end_token_or_at_the_limit_and_nowhere_else() {
    for positions in 3..20usize {
        for ends_at in 0..20usize {
            let mut script = vec![5u32; ends_at];
            script.push(4);
            script.extend(vec![5u32; 40]);
            let (mut decoder, _) = decoder(&script, &[], positions, 3000);
            let tokens = decoder.decode(&(0, 3000)).unwrap();
            let ended = tokens.len() > 3 && tokens[tokens.len() - 1] == 4;
            assert!(ended || tokens.len() == positions);
            assert!(tokens.len() <= positions);
            let inner = tokens.len().saturating_sub(1).max(3);
            assert!(tokens[3..inner].iter().all(|t| *t != 4));
        }
    }
}

#[test]
fn decode_never_takes_a_suppressed_token() {
    let (stub, _) = Stub::new(10, &[5, 6, 4]);
    let stub = Stub { loud: Some(7), ..stub };
    let mut masked = Decoder::new(stub, small_tokenizer(), &settings(10, &[7], 448, 3000))
        .ok()
        .unwrap();
    assert_eq!(masked.decode(&(0, 3000)), Ok(vec![1, 2, 3, 5, 6, 4]));
    let (stub, _) = Stub::new(10, &[5, 6, 4]);
    let stub = Stub { loud: Some(7), ..stub };
    let mut open = Decoder::new(stub, small_tokenizer(), &settings(10, &[], 8, 3000))
        .ok()
        .unwrap();
    assert_eq!(open.decode(&(0, 3000)), Ok(vec![1, 2, 3, 7, 7, 7, 7, 7]));
}

#[test]
fn decode_can_be_kept_from_the_end_of_transcript() {
    let (mut decoder, _) = decoder(&[4], &[4], 8, 3000);
    assert_eq!(decoder.decode(&(0, 3000)), Ok(vec![1, 2, 3, 0, 0, 0, 0, 0]));
}

#[test]
fn decode_runs_the_encoder_once_and_the_decoder_over_the_whole_sequence() {
    let (mut decoder, log) = decoder(&[5, 6, 4], &[], 448, 3000);
    decoder.decode(&(40, 100)).unwrap();
    let log = log.borrow();
    assert_eq!(log.encoded, vec![((40, 100), true)]);
    assert_eq!(
        log.decoded,
        vec![
            (vec![1, 2, 3], 1, true),
            (vec![1, 2, 3, 5], 1, false),
            (vec![1, 2, 3, 5, 6], 1, false),
        ]
    );
}

#[test]
fn decode_fails_when_the_encoder_fails() {
    let (stub, log) = Stub::new(10, &[5]);
    let stub = Stub { fail_encoder_at: Some(0), ..stub };
    let mut decoder = Decoder::new(stub, small_tokenizer(), &settings(10, &[], 8, 3000))
        .ok()
        .unwrap();
    assert_eq!(
        decoder.decode(&(0, 3000)),
        Err(GenError::Model(ModelError::new("the encoder failed")))
    );
    assert!(log.borrow().decoded.is_empty());
}

#[test]
fn decode_fails_when_the_decoder_fails() {
    let (stub, log) = Stub::new(10, &[5]);
    let stub = Stub { fail_decoder_at: Some(2), ..stub };
    let mut decoder = Decoder::new(stub, small_tokenizer(), &settings(10, &[], 20, 3000))
        .ok()
        .unwrap();
    assert_eq!(
        decoder.decode(&(0, 3000)),
        Err(GenError::Model(ModelError::new("the decoder failed")))
    );
    assert_eq!(log.borrow().decoded.len(), 2);
}

#[test]
fn decode_fails_on_logits_of_another_size() {
    let (stub, _) = Stub::new(9, &[5]);
    let mut decoder = Decoder::new(stub, small_tokenizer(), &settings(10, &[], 8, 3000))
        .ok()
        .unwrap();
    assert!(matches!(decoder.decode(&(0, 3000)), Err(GenError::Model(_))));
}

#[test]
fn run_decodes_each_window_in_turn() {
    let (mut decoder, log) = decoder(&[5, 4], &[], 448, 3000);
    let segments = decoder.run(&(0, 7000), 7000).unwrap();
    assert_eq!(
        segments,
        vec![
            Segment { window: Window { start: 0, len: 3000 }, tokens: vec![1, 2, 3, 5, 4] },
            Segment { window: Window { start: 3000, len: 3000 }, tokens: vec![1, 2, 3, 5, 4] },
            Segment { window: Window { start: 6000, len: 1000 }, tokens: vec![1, 2, 3, 5, 4] },
        ]
    );
    let log = log.borrow();
    assert_eq!(log.narrowed, vec![(0, 3000), (3000, 3000), (6000, 1000)]);
    assert_eq!(
        log.encoded,
        vec![((0, 3000), true), ((3000, 3000), true), ((6000, 1000), true)]
    );
    let sizes: usize = segments.iter().map(|s| s.window.len).sum();
    assert_eq!(sizes, 7000);
}

#[test]
fn run_takes_one_full_window_for_a_multiple_of_the_cap() {
    let (mut decoder, _) = decoder(&[4], &[], 448, 3000);
    let segments = decoder.run(&(0, 6000), 6000).unwrap();
    let windows: Vec<Window> = segments.iter().map(|s| s.window).collect();
    assert_eq!(
        windows,
        vec![Window { start: 0, len: 3000 }, Window { start: 3000, len: 3000 }]
    );
}

#[test]
fn run_over_no_frames_decodes_nothing() {
    let (mut decoder, log) = decoder(&[5, 4], &[], 448, 3000);
    assert_eq!(decoder.run(&(0, 0), 0), Ok(vec![]));
    assert!(log.borrow().encoded.is_empty());
}

#[test]
fn run_fails_at_the_first_window_that_fails() {
    let (stub, log) = Stub::new(10, &[5, 4]);
    let stub = Stub { fail_encoder_at: Some(1), ..stub };
    let mut decoder = Decoder::new(stub, small_tokenizer(), &settings(10, &[], 448, 3000))
        .ok()
        .unwrap();
    assert_eq!(
        decoder.run(&(0, 7000), 7000),
        Err(GenError::Model(ModelError::new("the encoder failed")))
    );
    assert_eq!(log.borrow().narrowed, vec![(0, 3000), (3000, 3000)]);
}

#[test]
fn run_fails_when_a_window_cannot_be_cut() {
    let (mut decoder, _) = decoder(&[5, 4], &[], 448, 3000);
    assert_eq!(
        decoder.run(&(0, 10), 7000),
        Err(GenError::Model(ModelError::new("the window leaves the recording")))
    );
}

#[test]
fn run_twice_gives_the_same_segments() {
    let (mut decoder, _) = decoder(&[5, 4], &[], 448, 2);
    let first = decoder.run(&(0, 5), 5).unwrap();
    let second = decoder.run(&(0, 5), 5).unwrap();
    assert_eq!(first.len(), 3);
    assert_eq!(first, second);
}

#[test]
fn rules_refuse_a_cap_of_zero_frames() {
    assert!(matches!(
        DecodeRules::new(&settings(10, &[], 8, 0), 1, 2, 3, 4),
        Err(GenError::InvalidConfig)
    ));
}

#[test]
fn rules_select_the_best_allowed_id() {
    let rules = DecodeRules::new(&settings(5, &[2], 8, 3000), 1, 2, 3, 4).ok().unwrap();
    let logits: Vec<Score> = [1.0f32, 5.0, 9.0, 3.0, 2.0]
        .iter()
        .map(|v| score_from_bits(v.to_bits()))
        .collect();
    assert_eq!(rules.select(&logits), Ok(1));
    let open = DecodeRules::new(&settings(5, &[], 8, 3000), 1, 2, 3, 4).ok().unwrap();
    assert_eq!(open.select(&logits), Ok(2));
}

#[test]
fn rules_refuse_logits_that_are_not_one_row() {
    let rules = DecodeRules::new(&settings(5, &[2], 8, 3000), 1, 2, 3, 4).ok().unwrap();
    assert!(rules.select(&vec![0; 4]).is_err());
    assert!(rules.select(&vec![0; 10]).is_err());
    assert!(rules.select(&vec![]).is_err());
    let empty = DecodeRules::new(&settings(0, &[], 8, 3000), 1, 2, 3, 4).ok().unwrap();
    assert!(empty.select(&vec![]).is_err());
}

#[test]
fn rules_tell_why_a_window_is_done() {
    let rules = DecodeRules::new(&settings(10, &[], 8, 3000), 1, 2, 3, 4).ok().unwrap();
    assert_eq!(rules.stop_reason(&vec![1, 2, 3]), None);
    assert_eq!(rules.stop_reason(&vec![1, 2, 3, 5]), None);
    assert_eq!(rules.stop_reason(&vec![1, 2, 3, 4]), Some(StopReason::EndToken));
    assert_eq!(rules.stop_reason(&vec![1, 2, 4]), None);
    assert_eq!(rules.stop_reason(&vec![1, 2, 3, 5, 5, 5, 5]), None);
    assert_eq!(rules.stop_reason(&vec![1, 2, 3, 5, 5, 5, 5, 5]), Some(StopReason::Limit));
    assert_eq!(rules.stop_reason(&vec![1, 2, 3, 5, 5, 5, 5, 4]), Some(StopReason::EndToken));
    let four = DecodeRules::new(&settings(10, &[], 4, 3000), 1, 2, 3, 4).ok().unwrap();
    assert_eq!(four.stop_reason(&vec![1, 2, 3]), None);
    assert_eq!(four.stop_reason(&vec![1, 2, 3, 5]), Some(StopReason::Limit));
    let short = DecodeRules::new(&settings(10, &[], 3, 3000), 1, 2, 3, 4).ok().unwrap();
    assert_eq!(short.stop_reason(&vec![1, 2, 3]), Some(StopReason::Limit));
    let none = DecodeRules::new(&settings(10, &[], 1, 3000), 1, 2, 3, 4).ok().unwrap();
    assert_eq!(none.stop_reason(&vec![1, 2, 3]), Some(StopReason::Limit));
}

#[test]
fn transcript_joins_the_segments_in_order() {
    let segments = vec![
        Segment { window: Window { start: 0, len: 2 }, tokens: vec![1, 2, 3, 5, 4] },
        Segment { window: Window { start: 2, len: 2 }, tokens: vec![] },
        Segment { window: Window { start: 4, len: 1 }, tokens: vec![1, 2, 3, 4] },
    ];
    assert_eq!(transcript(&segments), vec![1, 2, 3, 5, 4, 1, 2, 3, 4]);
    assert_eq!(transcript(&vec![]), Vec::<u32>::new());
}

#[test]
fn transcript_of_a_run_holds_every_window() {
    let (mut decoder, _) = decoder(&[5, 4], &[], 448, 3000);
    let segments = decoder.run(&(0, 7000), 7000).unwrap();
    assert_eq!(
        transcript(&segments),
        vec![1, 2, 3, 5, 4, 1, 2, 3, 5, 4, 1, 2, 3, 5, 4]
    );
}

#[test]
fn rules_advance_appends_the_choice_and_tells_when_to_stop() {
    let rules = DecodeRules::new(&settings(5, &[2], 8, 3000), 1, 2, 3, 4).ok().unwrap();
    let towards = |best: usize| -> Vec<Score> {
        (0..5)
            .map(|id| score_from_bits(if id == best { 1.0f32 } else { 0.0f32 }.to_bits()))
            .collect()
    };
    let mut tokens = rules.begin();
    assert_eq!(rules.advance(&mut tokens, &towards(1)), Ok(None));
    assert_eq!(tokens, vec![1, 2, 3, 1]);
    assert_eq!(rules.advance(&mut tokens, &towards(2)), Ok(None));
    assert_eq!(tokens, vec![1, 2, 3, 1, 0]);
    assert_eq!(rules.advance(&mut tokens, &towards(4)), Ok(Some(StopReason::EndToken)));
    assert_eq!(tokens, vec![1, 2, 3, 1, 0, 4]);
    let mut capped = vec![1, 2, 3, 0, 0, 0, 0];
    assert_eq!(rules.advance(&mut capped, &towards(3)), Ok(Some(StopReason::Limit)));
    assert_eq!(capped, vec![1, 2, 3, 0, 0, 0, 0, 3]);
}

#[test]
fn rules_advance_leaves_the_tokens_where_no_token_can_be_chosen() {
    let rules = DecodeRules::new(&settings(5, &[2], 8, 3000), 1, 2, 3, 4).ok().unwrap();
    let mut tokens = rules.begin();
    assert!(rules.advance(&mut tokens, &vec![0; 4]).is_err());
    assert_eq!(tokens, vec![1, 2, 3]);
}

#[test]
fn transcribe_joins_what_the_windows_gave() {
    let (mut decoder, log) = decoder(&[5, 4], &[], 448, 3000);
    assert_eq!(
        decoder.transcribe(&(0, 7000), 7000),
        Ok(vec![1, 2, 3, 5, 4, 1, 2, 3, 5, 4, 1, 2, 3, 5, 4])
    );
    assert_eq!(log.borrow().narrowed, vec![(0, 3000), (3000, 3000), (6000, 1000)]);
}

#[test]
fn transcribe_of_no_frames_is_empty() {
    let (mut decoder, log) = decoder(&[5, 4], &[], 448, 3000);
    assert_eq!(decoder.transcribe(&(0, 0), 0), Ok(vec![]));
    assert!(log.borrow().encoded.is_empty());
}

#[test]
fn transcribe_fails_when_the_model_fails() {
    let (stub, _) = Stub::new(10, &[5, 4]);
    let stub = Stub { fail_decoder_at: Some(3), ..stub };
    let mut decoder = Decoder::new(stub, small_tokenizer(), &settings(10, &[], 448, 3000))
        .ok()
        .unwrap();
    assert_eq!(
        decoder.transcribe(&(0, 7000), 7000),
        Err(GenError::Model(ModelError::new("the decoder failed")))
    );
}

#[test]
fn rules_tell_the_first_step_of_a_window() {
    let rules = DecodeRules::new(&settings(10, &[], 8, 3000), 1, 2, 3, 4).ok().unwrap();
    assert!(rules.is_first_step(&rules.begin()));
    assert!(!rules.is_first_step(&vec![1, 2, 3, 5]));
    assert!(!rules.is_first_step(&vec![1, 2]));
}
