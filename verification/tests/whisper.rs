//! Language segments, tokens, greedy decoding, and the pool of model instances.

use std::cell::RefCell;

use rustyecho::transcribe::{TranscribeError, TranscriptionResult};
use rustyecho::whisper::choice::{detected_language, likeliest, score_rank};
use rustyecho::whisper::decode::{
    decode, decode_segment, decode_segment_with, generate, GreedyDecoder, Progress, Step,
};
use rustyecho::whisper::language::{
    merge_windows, segment_by_language, window_boundaries, Detection, Segment, Window,
    ENCODER_POSITIONS_PER_SEC, LANGUAGE_WINDOW_POSITIONS, MIN_LANGUAGE_WINDOW_POSITIONS,
};
use rustyecho::whisper::pool::{
    transcription, WhisperTranscriber, DEFAULT_MODEL_ID, DEFAULT_POOL_SIZE, DEFAULT_REVISION,
};
use rustyecho::whisper::tokens::{
    check_mel_bins, decoder_takes_any_tokens, language_token_ids, suppress_mask, token_id, SpecialTokens, TokenNames,
};
use tokenizers::Tokenizer;

const EN: u32 = 50;
const ID: u32 = 51;
const FR: u32 = 52;

fn sure(token: u32) -> Detection {
    Detection { token, confident: true }
}

fn doubtful(token: u32) -> Detection {
    Detection { token, confident: false }
}

fn windows(detections: &[Detection]) -> Vec<Window> {
    detections
        .iter()
        .enumerate()
        .map(|(i, &detection)| Window { start: i * 75, end: i * 75 + 75, detection })
        .collect()
}

fn segment(start: usize, end: usize, token: u32) -> Segment {
    Segment { start, end, token }
}

#[test]
fn windows_last_one_and_a_half_seconds() {
    assert_eq!(ENCODER_POSITIONS_PER_SEC, 50);
    assert_eq!(LANGUAGE_WINDOW_POSITIONS, 75);
    assert_eq!(MIN_LANGUAGE_WINDOW_POSITIONS, 25);
    assert_eq!(window_boundaries(0), [0]);
    assert_eq!(window_boundaries(1), [0, 1]);
    assert_eq!(window_boundaries(24), [0, 24]);
    assert_eq!(window_boundaries(75), [0, 75]);
    assert_eq!(window_boundaries(76), [0, 76]);
    assert_eq!(window_boundaries(99), [0, 99]);
    assert_eq!(window_boundaries(100), [0, 75, 100]);
    assert_eq!(window_boundaries(150), [0, 75, 150]);
    assert_eq!(window_boundaries(174), [0, 75, 174]);
    assert_eq!(window_boundaries(250), [0, 75, 150, 225, 250]);
    assert_eq!(window_boundaries(249), [0, 75, 150, 249]);
}

#[test]
fn neighbouring_windows_of_one_language_are_merged() {
    assert!(merge_windows(&vec![]).is_empty());
    assert_eq!(
        merge_windows(&windows(&[sure(EN), sure(EN), sure(ID), sure(ID), sure(EN)])),
        [segment(0, 150, EN), segment(150, 300, ID), segment(300, 375, EN)]
    );
}

#[test]
fn doubtful_detections_do_not_change_the_language() {
    assert_eq!(
        merge_windows(&windows(&[sure(EN), doubtful(FR), sure(EN), doubtful(ID)])),
        [segment(0, 300, EN)]
    );
    assert_eq!(
        merge_windows(&windows(&[doubtful(FR), doubtful(EN), sure(EN), doubtful(FR)])),
        [segment(0, 150, FR), segment(150, 300, EN)]
    );
}

#[test]
fn every_window_is_detected_in_order() {
    let asked = RefCell::new(Vec::new());
    let segments = segment_by_language(174, |start: usize, end: usize| {
        asked.borrow_mut().push((start, end));
        Ok(sure(if start == 0 { EN } else { ID }))
    })
    .unwrap();
    assert_eq!(*asked.borrow(), [(0, 75), (75, 174)]);
    assert_eq!(segments, [segment(0, 75, EN), segment(75, 174, ID)]);
}

#[test]
fn a_failed_detection_ends_the_segmentation() {
    let asked = RefCell::new(0);
    let res = segment_by_language(300, |start: usize, _: usize| {
        *asked.borrow_mut() += 1;
        if start < 75 {
            Ok(sure(EN))
        } else {
            Err("out of memory".to_string())
        }
    });
    assert_eq!(res, Err("out of memory".to_string()));
    assert_eq!(*asked.borrow(), 2);
}

#[test]
fn scores_are_ranked_in_total_order() {
    let ordered = [
        f32::NEG_INFINITY,
        f32::MIN,
        -1.5,
        -f32::MIN_POSITIVE,
        -0.0,
        0.0,
        f32::MIN_POSITIVE,
        0.6,
        1.5,
        f32::MAX,
        f32::INFINITY,
        f32::NAN,
    ];
    for a in ordered {
        for b in ordered {
            assert_eq!(
                score_rank(a.to_bits()).cmp(&score_rank(b.to_bits())),
                a.total_cmp(&b),
                "{a} {b}"
            );
        }
    }
    assert_eq!(score_rank(0x8000_0000), -1);
    assert_eq!(score_rank(0xffff_ffff), -0x8000_0000);
}

fn bits(scores: &[f32]) -> Vec<u32> {
    scores.iter().map(|s| s.to_bits()).collect()
}

#[test]
fn the_last_of_the_likeliest_scores_is_chosen() {
    assert_eq!(likeliest(&bits(&[])), None);
    assert_eq!(likeliest(&bits(&[-3.0])), Some(0));
    assert_eq!(likeliest(&bits(&[0.1, 0.7, 0.7, 0.2])), Some(2));
    assert_eq!(likeliest(&bits(&[-1.0, f32::NEG_INFINITY, -0.5, -2.0])), Some(2));
    assert_eq!(likeliest(&bits(&[0.0, -0.0])), Some(0));
}

#[test]
fn the_likeliest_language_is_detected() {
    let languages = vec![EN, ID, FR];
    assert_eq!(detected_language(&languages, &bits(&[0.1, 0.8, 0.1])), Some((1, ID)));
    assert_eq!(detected_language(&languages, &bits(&[])), None);
}

fn tokenizer(vocab: &[&str]) -> Tokenizer {
    tokenizer_with(vocab, "null")
}

fn tokenizer_with(vocab: &[&str], decoder: &str) -> Tokenizer {
    let entries: Vec<String> = vocab
        .iter()
        .enumerate()
        .map(|(i, token)| format!("\"{token}\":{}", i + 10))
        .collect();
    let json = format!(
        "{{\"version\":\"1.0\",\"truncation\":null,\"padding\":null,\"added_tokens\":[],\
         \"normalizer\":null,\"pre_tokenizer\":null,\"post_processor\":null,\"decoder\":{decoder},\
         \"model\":{{\"type\":\"WordLevel\",\"vocab\":{{{}}},\"unk_token\":\"<unk>\"}}}}",
        entries.join(",")
    );
    Tokenizer::from_bytes(json.as_bytes()).unwrap()
}

fn names() -> TokenNames<'static> {
    TokenNames {
        sot: "<|startoftranscript|>",
        eot: "<|endoftext|>",
        transcribe: "<|transcribe|>",
        no_timestamps: "<|notimestamps|>",
        no_speech: vec!["<|nocaptions|>", "<|nospeech|>"],
    }
}

const SPECIAL: [&str; 6] = [
    "<|startoftranscript|>",
    "<|endoftext|>",
    "<|transcribe|>",
    "<|notimestamps|>",
    "<|nospeech|>",
    "<|startofprev|>",
];

#[test]
fn tokens_are_looked_up_in_the_vocabulary() {
    let t = tokenizer(&["<unk>", "hello"]);
    assert_eq!(token_id(&t, "hello"), Ok(11));
    assert_eq!(token_id(&t, "world"), Err("no token id for world".to_string()));
}

#[test]
fn added_tokens_are_looked_up_too() {
    let mut t = tokenizer(&["<unk>", "hello"]);
    t.add_special_tokens(&[tokenizers::AddedToken::from("<|de|>", true)]);
    let id = token_id(&t, "<|de|>").unwrap();
    assert_eq!(Some(id), t.token_to_id("<|de|>"));
    assert_eq!(language_token_ids(&t), [id]);
}

#[test]
fn special_tokens_of_an_english_tokenizer() {
    let t = tokenizer(&SPECIAL);
    let tokens = SpecialTokens::resolve(&t, &names()).unwrap();
    assert_eq!(
        (tokens.sot, tokens.eot, tokens.transcribe, tokens.no_timestamps),
        (10, 11, 12, 13)
    );
    assert_eq!((tokens.no_speech, tokens.prev), (14, 15));
    assert!(tokens.languages.is_empty());
    assert!(language_token_ids(&t).is_empty());
}

#[test]
fn language_tokens_come_in_the_order_of_languages() {
    let mut vocab = SPECIAL.to_vec();
    vocab.extend(["<|su|>", "<|en|>", "<|haw|>", "<|xx|>", "<|zh|>"]);
    let tokens = SpecialTokens::resolve(&tokenizer(&vocab), &names()).unwrap();
    assert_eq!(tokens.languages, [17, 20, 18, 16]);
}

#[test]
fn the_preferred_spelling_of_silence_is_taken() {
    let mut vocab = SPECIAL.to_vec();
    vocab.push("<|nocaptions|>");
    let tokens = SpecialTokens::resolve(&tokenizer(&vocab), &names()).unwrap();
    assert_eq!(tokens.no_speech, 16);
}

#[test]
fn missing_special_tokens_are_named() {
    let expected = [
        "no token id for <|startoftranscript|>",
        "no token id for <|endoftext|>",
        "no token id for <|transcribe|>",
        "no token id for <|notimestamps|>",
        "no no-speech token found in tokenizer vocab",
        "no token id for <|startofprev|>",
    ];
    for (i, message) in expected.iter().enumerate() {
        let mut vocab = SPECIAL.to_vec();
        vocab.remove(i);
        let err = SpecialTokens::resolve(&tokenizer(&vocab), &names()).unwrap_err();
        assert_eq!(err, *message);
    }
}

#[test]
fn only_eighty_mel_bins_are_supported() {
    assert_eq!(check_mel_bins(80), Ok(()));
    assert_eq!(
        check_mel_bins(128),
        Err("model expects 128 mel bins, but only the bundled 80-bin filter bank is supported"
            .to_string())
    );
}

#[test]
fn suppressed_tokens_are_marked() {
    assert_eq!(suppress_mask(4, &vec![2, 9, 0]), [true, false, true, false]);
    assert!(suppress_mask(0, &vec![0]).is_empty());
}

fn special() -> SpecialTokens {
    SpecialTokens {
        sot: 1,
        eot: 2,
        transcribe: 3,
        no_timestamps: 4,
        no_speech: 5,
        prev: 6,
        languages: vec![],
    }
}

fn said(next_token: u32) -> Step {
    Step { no_speech: false, next_token }
}

#[test]
fn the_prompt_starts_a_transcript() {
    let d = GreedyDecoder::new(&special(), None, None, 448);
    assert_eq!(*d.tokens(), [1, 3, 4]);
    let d = GreedyDecoder::new(&special(), Some(EN), None, 448);
    assert_eq!(*d.tokens(), [1, EN, 3, 4]);
    assert_eq!(d.progress(), Progress::Running);
    assert_eq!(d.steps(), 0);
}

#[test]
fn the_prompt_carries_the_end_of_earlier_text() {
    let d = GreedyDecoder::new(&special(), Some(EN), Some(vec![100, 101]), 448);
    assert_eq!(*d.tokens(), [6, 100, 101, 1, EN, 3, 4]);
    let d = GreedyDecoder::new(&special(), None, Some(vec![100, 101, 102]), 20);
    assert_eq!(*d.tokens(), [6, 101, 102, 1, 3, 4]);
    let d = GreedyDecoder::new(&special(), None, Some(vec![100]), 10);
    assert_eq!(*d.tokens(), [6, 1, 3, 4]);
    assert_eq!(d.transcript(), [1, 3, 4]);
}

#[test]
fn end_of_text_completes_a_transcript() {
    let mut d = GreedyDecoder::new(&special(), None, Some(vec![100]), 448);
    d.advance(said(70));
    assert_eq!(d.progress(), Progress::Running);
    d.advance(said(2));
    assert_eq!(d.progress(), Progress::Complete);
    assert_eq!(d.transcript(), [1, 3, 4, 70, 2]);
}

#[test]
fn the_limit_completes_a_transcript() {
    let mut d = GreedyDecoder::new(&special(), None, None, 7);
    let asked = RefCell::new(Vec::new());
    generate(&mut d, |tokens: &Vec<u32>, probe: Option<usize>| {
        asked.borrow_mut().push((tokens.len(), probe));
        Ok(said(9))
    })
    .unwrap();
    assert_eq!(*asked.borrow(), [(3, Some(0)), (4, None), (5, None)]);
    assert_eq!(d.transcript(), [1, 3, 4, 9, 9, 9]);
    let d = GreedyDecoder::new(&special(), None, None, 1);
    assert_eq!(d.progress(), Progress::Complete);
}

#[test]
fn silence_counts_at_the_first_step_only() {
    let silent = Step { no_speech: true, next_token: 9 };
    let mut d = GreedyDecoder::new(&special(), None, None, 448);
    d.advance(silent);
    assert_eq!(d.progress(), Progress::Silent);
    assert_eq!(*d.tokens(), [1, 3, 4]);
    let mut d = GreedyDecoder::new(&special(), None, None, 448);
    d.advance(said(8));
    d.advance(silent);
    assert_eq!(d.progress(), Progress::Running);
    assert_eq!(*d.tokens(), [1, 3, 4, 8, 9]);
}

fn spelled(ids: &Vec<u32>) -> Result<String, String> {
    Ok(format!("{ids:?}"))
}

#[test]
fn a_segment_is_decoded_without_earlier_text() {
    let text = decode_segment(
        &special(),
        448,
        Some(EN),
        Some("  so my \n"),
        |text: &str| {
            assert_eq!(text, "so my");
            Ok(vec![100, 101])
        },
        |tokens: &Vec<u32>, probe: Option<usize>| {
            if let Some(at) = probe {
                assert_eq!(*tokens, [6, 100, 101, 1, EN, 3, 4]);
                assert_eq!(tokens[at], 1);
                Ok(said(70))
            } else {
                Ok(said(2))
            }
        },
        spelled,
    );
    assert_eq!(text, Ok(format!("[1, {EN}, 3, 4, 70, 2]")));
}

#[test]
fn a_transcript_is_spelled_by_the_tokenizer() {
    let said_ids = [16, 17, 11];
    let mut vocab = SPECIAL.to_vec();
    vocab.extend(["fellow", "Americans"]);
    for (decoder, expected) in [
        ("null", "fellow Americans"),
        ("{\"type\":\"Fuse\"}", "fellowAmericans"),
        ("{\"type\":\"WordPiece\",\"prefix\":\"##\",\"cleanup\":false}", "fellow Americans"),
    ] {
        let mut t = tokenizer_with(&vocab, decoder);
        let special: Vec<tokenizers::AddedToken> =
            SPECIAL.iter().map(|s| tokenizers::AddedToken::from(*s, true)).collect();
        t.add_special_tokens(&special);
        assert!(decoder_takes_any_tokens(&t));
        let tokens = SpecialTokens::resolve(&t, &names()).unwrap();
        let text = decode_segment_with(
            &t,
            &tokens,
            448,
            None,
            Some("my "),
            |text: &str| {
                assert_eq!(text, "my");
                Ok(vec![16])
            },
            |tokens: &Vec<u32>, _: Option<usize>| {
                assert_eq!(tokens[..5], [15, 16, 10, 12, 13]);
                Ok(said(said_ids[tokens.len() - 5]))
            },
        );
        assert_eq!(text, Some(Ok(expected.to_string())));
    }
}

#[test]
fn decoders_that_do_not_take_any_tokens_are_not_used() {
    for decoder in [
        "{\"type\":\"BPEDecoder\",\"suffix\":\"</w>\"}",
        "{\"type\":\"Strip\",\"content\":\"x\",\"start\":0,\"stop\":1}",
        "{\"type\":\"Replace\",\"pattern\":{\"String\":\"x\"},\"content\":\" \"}",
        "{\"type\":\"Sequence\",\"decoders\":[{\"type\":\"Fuse\"}]}",
    ] {
        let t = tokenizer_with(&SPECIAL, decoder);
        assert!(!decoder_takes_any_tokens(&t));
        let text = decode_segment_with(
            &t,
            &special(),
            448,
            None,
            None,
            |_: &str| panic!("nothing to encode"),
            |_: &Vec<u32>, _: Option<usize>| panic!("no step"),
        );
        assert_eq!(text, None);
    }
}

#[test]
fn blank_earlier_text_is_not_encoded() {
    for earlier in [None, Some(""), Some(" \u{3000}\t")] {
        let text = decode_segment(
            &special(),
            448,
            None,
            earlier,
            |_: &str| panic!("nothing to encode"),
            |tokens: &Vec<u32>, _: Option<usize>| {
                assert_eq!(*tokens, [1, 3, 4]);
                Ok(said(2))
            },
            spelled,
        );
        assert_eq!(text, Ok("[1, 3, 4, 2]".to_string()));
    }
}

#[test]
fn a_silent_segment_has_no_text() {
    let text = decode_segment(
        &special(),
        448,
        None,
        None,
        |_: &str| panic!("nothing to encode"),
        |_: &Vec<u32>, _: Option<usize>| Ok(Step { no_speech: true, next_token: 70 }),
        |_: &Vec<u32>| panic!("nothing to decode"),
    );
    assert_eq!(text, Ok(String::new()));
}

#[test]
fn the_first_failure_of_a_segment_is_the_result() {
    let encode_fails = decode_segment(
        &special(),
        448,
        None,
        Some("a"),
        |_: &str| Err("encode".to_string()),
        |_: &Vec<u32>, _: Option<usize>| panic!("no step"),
        spelled,
    );
    assert_eq!(encode_fails, Err("encode".to_string()));
    let step_fails = decode_segment(
        &special(),
        448,
        None,
        None,
        |_: &str| Ok(vec![]),
        |_: &Vec<u32>, probe: Option<usize>| if probe.is_some() { Ok(said(9)) } else { Err("step".to_string()) },
        spelled,
    );
    assert_eq!(step_fails, Err("step".to_string()));
    let decode_fails = decode_segment(
        &special(),
        448,
        None,
        None,
        |_: &str| Ok(vec![]),
        |_: &Vec<u32>, _: Option<usize>| Ok(said(2)),
        |_: &Vec<u32>| Err("decode".to_string()),
    );
    assert_eq!(decode_fails, Err("decode".to_string()));
}

#[test]
fn english_chunks_are_decoded_at_once() {
    let text = decode(
        &vec![],
        1500,
        20,
        Some("before"),
        |_: usize, _: usize| panic!("nothing to detect"),
        |start: usize, end: usize, token: Option<u32>, earlier: Option<&str>| {
            Ok(format!(" {start} {end} {token:?} {earlier:?} "))
        },
    );
    assert_eq!(text, Ok(" 0 1500 None Some(\"before\") ".to_string()));
}

#[test]
fn chunks_are_decoded_segment_by_segment() {
    let text = decode(
        &vec![EN, ID],
        1500,
        250,
        Some("before"),
        |start: usize, _: usize| Ok(sure(if start < 150 { EN } else { ID })),
        |start: usize, end: usize, token: Option<u32>, earlier: Option<&str>| {
            Ok(format!(" {start}..{end} {token:?} {earlier:?}\n"))
        },
    );
    assert_eq!(
        text,
        Ok("0..150 Some(50) Some(\"before\") 150..1500 Some(51) None".to_string())
    );
}

#[test]
fn silent_segments_leave_no_trace() {
    let text = decode(
        &vec![EN, ID],
        1500,
        225,
        None,
        |start: usize, _: usize| Ok(sure(if start == 75 { ID } else { EN })),
        |start: usize, _: usize, _: Option<u32>, _: Option<&str>| {
            Ok(if start == 75 { " \t".to_string() } else { format!(" part {start} ") })
        },
    );
    assert_eq!(text, Ok("part 0 part 150".to_string()));
}

#[test]
fn the_estimate_is_held_within_the_positions() {
    for (estimate, asked_end) in [(0, 1), (1, 1), (40, 40), (100, 60)] {
        let asked = RefCell::new(Vec::new());
        let text = decode(
            &vec![EN],
            60,
            estimate,
            None,
            |start: usize, end: usize| {
                asked.borrow_mut().push((start, end));
                Ok(sure(EN))
            },
            |start: usize, end: usize, _: Option<u32>, _: Option<&str>| {
                Ok(format!("{start}..{end}"))
            },
        );
        assert_eq!(text, Ok("0..60".to_string()));
        assert_eq!(*asked.borrow(), [(0, asked_end)]);
    }
}

#[test]
fn failures_end_the_decoding_of_a_chunk() {
    let res = decode(
        &vec![EN],
        60,
        60,
        None,
        |_: usize, _: usize| Err("detect".to_string()),
        |_: usize, _: usize, _: Option<u32>, _: Option<&str>| panic!("nothing to decode"),
    );
    assert_eq!(res, Err("detect".to_string()));
    let res = decode(
        &vec![EN, ID],
        300,
        300,
        None,
        |start: usize, _: usize| Ok(sure(if start < 150 { EN } else { ID })),
        |start: usize, _: usize, _: Option<u32>, _: Option<&str>| {
            if start == 0 {
                Ok("a".to_string())
            } else {
                Err("decode".to_string())
            }
        },
    );
    assert_eq!(res, Err("decode".to_string()));
}

#[test]
fn requests_are_dealt_out_in_turn() {
    let loaded = RefCell::new(0u32);
    let pool = WhisperTranscriber::load_pool("model", "main", 3, |id: &str, revision: &str| {
        assert_eq!((id, revision), ("model", "main"));
        *loaded.borrow_mut() += 1;
        Ok(*loaded.borrow())
    });
    let mut pool = match pool {
        Ok(pool) => pool,
        Err(e) => panic!("{e}"),
    };
    let mut in_turn = Vec::new();
    for _ in 0..7 {
        let turn = pool.take_turn();
        in_turn.push(*pool.worker(turn));
    }
    assert_eq!(in_turn, [1, 2, 3, 1, 2, 3, 1]);
    let dealt: Vec<u32> = (5..11).map(|ticket| *pool.worker(ticket)).collect();
    assert_eq!(dealt, [3, 1, 2, 3, 1, 2]);
    assert_eq!(*loaded.borrow(), 3);
}

#[test]
fn a_pool_has_at_least_one_instance() {
    for pool in [
        WhisperTranscriber::load_pool("m", "r", 0, |_: &str, _: &str| Ok('w')),
        WhisperTranscriber::load("m", "r", |_: &str, _: &str| Ok('w')),
    ] {
        match pool {
            Ok(pool) => {
                assert_eq!(*pool.worker(0), 'w');
                assert_eq!(*pool.worker(1), 'w');
            }
            Err(e) => panic!("{e}"),
        }
    }
    assert_eq!(DEFAULT_POOL_SIZE, 2);
}

#[test]
fn the_first_failure_to_load_is_the_result() {
    let tried = RefCell::new(0);
    let pool = WhisperTranscriber::load_pool("m", "r", 4, |_: &str, _: &str| {
        *tried.borrow_mut() += 1;
        if *tried.borrow() < 2 {
            Ok('w')
        } else {
            Err("no weights".to_string())
        }
    });
    assert!(matches!(pool, Err(e) if e == "no weights"));
    assert_eq!(*tried.borrow(), 2);
}

#[test]
fn outcomes_of_loading_make_a_pool_or_the_first_failure() {
    let all: Vec<Result<char, String>> = vec![Ok('a'), Ok('b')];
    match WhisperTranscriber::from_outcomes(all) {
        Ok(mut pool) => {
            assert_eq!((*pool.worker(0), *pool.worker(1), *pool.worker(2)), ('a', 'b', 'a'));
            assert_eq!((pool.take_turn(), pool.take_turn(), pool.take_turn()), (0, 1, 0));
        }
        Err(e) => panic!("{e}"),
    }
    let some: Vec<Result<char, String>> =
        vec![Ok('a'), Err("first".to_string()), Err("second".to_string()), Ok('d')];
    assert!(matches!(WhisperTranscriber::from_outcomes(some), Err(e) if e == "first"));
}

#[test]
fn the_default_model_is_pinned() {
    assert_eq!((DEFAULT_MODEL_ID, DEFAULT_REVISION), ("openai/whisper-base", "refs/pr/22"));
}

#[test]
fn decoded_texts_are_final_transcriptions() {
    let result: TranscriptionResult<f32> = transcription(Ok(Ok("text".to_string()))).unwrap();
    assert_eq!(result.text, "text");
    assert!(result.is_final && result.confidence.is_none());
    let failed: Result<TranscriptionResult<f32>, TranscribeError> =
        transcription(Ok(Err("no device".to_string())));
    assert!(matches!(failed, Err(TranscribeError::Backend(e)) if e == "no device"));
    let panicked: Result<TranscriptionResult<f32>, TranscribeError> =
        transcription(Err("task panicked".to_string()));
    assert!(matches!(panicked, Err(TranscribeError::Backend(e)) if e == "task panicked"));
}
