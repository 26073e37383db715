//! Greedy decoding: the prompt that the decoder starts from, the tokens that it
//! adds, and the text of a whole chunk.
//!
//! The acoustic model itself is not part of this module. It is handed in as
//! functions: one that judges a window's language, one that takes a decoding step,
//! and two that turn text into token ids and back.

use vstd::prelude::*;

use crate::text::join_with_spaces;
use crate::text::joined;
use crate::text::texts;
use crate::text::trimmed;
use crate::whisper::language::detected;
use crate::whisper::language::boundaries;
use crate::whisper::language::consecutive_segments;
use crate::whisper::language::law_segments_partition;
use crate::whisper::language::law_windows_cover_positions;
use crate::whisper::language::merged;
use crate::whisper::language::segment_by_language;
use crate::whisper::language::window_count;
use crate::whisper::language::windows_of;
use crate::whisper::language::Detection;
use crate::whisper::language::Segment;
use crate::whisper::tokens::decode_ids;
use crate::whisper::tokens::decoded_text;
use crate::whisper::tokens::decoder_of;
use crate::whisper::tokens::decoder_takes_any_tokens;
use crate::whisper::tokens::takes_any_tokens;
use crate::whisper::tokens::text_view;
use crate::whisper::tokens::SpecialTokens;

verus! {

/// What the model says after a decoding step: whether the audio seems to hold no
/// speech, and which token is the likeliest to come next.
#[derive(Debug, Clone, Copy, PartialEq, Eq, Structural)]
pub struct Step {
    pub no_speech: bool,
    pub next_token: u32,
}

/// How far decoding has come: it goes on, it was given up because nothing was
/// said, or it is complete.
#[derive(Debug, Clone, Copy, PartialEq, Eq, Structural)]
pub enum Progress {
    Running,
    Silent,
    Complete,
}

/// How many tokens may be generated where the decoder has `positions` positions.
pub open spec fn generation_limit(positions: nat) -> nat {
    positions / 2
}

/// How many tokens of earlier text fit in front of the prompt.
pub open spec fn context_limit(positions: nat) -> nat {
    if generation_limit(positions) >= 8 {
        (generation_limit(positions) - 8) as nat
    } else {
        0
    }
}

/// The last `n` of `ids`, or all of them where there are no more.
pub open spec fn last_of(ids: Seq<u32>, n: nat) -> Seq<u32> {
    if ids.len() <= n {
        ids
    } else {
        ids.skip(ids.len() - n)
    }
}

/// The ids that a vector holds, where there is one.
pub open spec fn ids_of(ids: Option<Vec<u32>>) -> Option<Seq<u32>> {
    match ids {
        Some(v) => Some(v@),
        None => None,
    }
}

/// The part of the prompt that carries earlier text.
pub open spec fn context(tokens: SpecialTokens, earlier: Option<Seq<u32>>, positions: nat) -> Seq<
    u32,
> {
    match earlier {
        Some(ids) => seq![tokens.prev] + last_of(ids, context_limit(positions)),
        None => Seq::empty(),
    }
}

/// The part of the prompt that starts the transcript.
pub open spec fn opening(tokens: SpecialTokens, language: Option<u32>) -> Seq<u32> {
    match language {
        Some(l) => seq![tokens.sot, l, tokens.transcribe, tokens.no_timestamps],
        None => seq![tokens.sot, tokens.transcribe, tokens.no_timestamps],
    }
}

/// The state of a decoder. `tokens` from `sot_index` on are the transcript; what
/// stands before them is earlier text.
#[verifier::ext_equal]
pub struct DecoderState {
    pub tokens: Seq<u32>,
    pub sot_index: nat,
    pub steps: nat,
    pub limit: nat,
    pub eot: u32,
    pub progress: Progress,
}

/// A decoder that has its prompt and has taken no step.
pub open spec fn prompted(
    tokens: SpecialTokens,
    language: Option<u32>,
    earlier: Option<Seq<u32>>,
    positions: nat,
) -> DecoderState {
    DecoderState {
        tokens: context(tokens, earlier, positions) + opening(tokens, language),
        sot_index: context(tokens, earlier, positions).len(),
        steps: 0,
        limit: generation_limit(positions),
        eot: tokens.eot,
        progress: if generation_limit(positions) == 0 {
            Progress::Complete
        } else {
            Progress::Running
        },
    }
}

/// The state after one more step. Silence counts only at the first step; the
/// end-of-text token, and the last step that there is room for, complete the
/// transcript.
pub open spec fn advanced(s: DecoderState, step: Step) -> DecoderState {
    if s.steps == 0 && step.no_speech {
        DecoderState { progress: Progress::Silent, ..s }
    } else {
        DecoderState {
            tokens: s.tokens.push(step.next_token),
            steps: s.steps + 1,
            progress: if step.next_token == s.eot || s.steps + 1 >= s.limit {
                Progress::Complete
            } else {
                Progress::Running
            },
            ..s
        }
    }
}

/// The state after all of `steps`.
pub open spec fn advanced_by(s: DecoderState, steps: Seq<Step>) -> DecoderState
    decreases steps.len(),
{
    if steps.len() == 0 {
        s
    } else {
        advanced(advanced_by(s, steps.drop_last()), steps.last())
    }
}

/// The tokens of the transcript.
pub open spec fn transcript(s: DecoderState) -> Seq<u32> {
    s.tokens.skip(s.sot_index as int)
}

/// A greedy decoder of one stretch of audio.
pub struct GreedyDecoder {
    tokens: Vec<u32>,
    sot_index: usize,
    steps: usize,
    limit: usize,
    eot: u32,
    progress: Progress,
}

impl View for GreedyDecoder {
    type V = DecoderState;

    closed spec fn view(&self) -> DecoderState {
        DecoderState {
            tokens: self.tokens@,
            sot_index: self.sot_index as nat,
            steps: self.steps as nat,
            limit: self.limit as nat,
            eot: self.eot,
            progress: self.progress,
        }
    }
}

impl GreedyDecoder {
    /// What holds of every decoder.
    pub open spec fn valid(self) -> bool {
        &&& self@.sot_index <= self@.tokens.len()
        &&& self@.progress is Running ==> self@.steps < self@.limit
        &&& self@.limit <= usize::MAX
    }

    /// A decoder for audio in `language`, with the token ids of `earlier` text to
    /// continue from, of which only as many of the last are kept as leave room for
    /// the transcript in `positions` decoder positions.
    pub fn new(
        tokens: &SpecialTokens,
        language: Option<u32>,
        earlier: Option<Vec<u32>>,
        positions: usize,
    ) -> (decoder: GreedyDecoder)
        ensures
            decoder.valid(),
            decoder@ == prompted(
                *tokens,
                language,
                ids_of(earlier),
                positions as nat,
            ),
    {
        let limit: usize = positions / 2;
        let mut all: Vec<u32> = Vec::new();
        if let Some(ids) = &earlier {
            let room: usize = if limit >= 8 {
                limit - 8
            } else {
                0
            };
            let first: usize = if ids.len() > room {
                ids.len() - room
            } else {
                0
            };
            all.push(tokens.prev);
            let mut i: usize = first;
            while i < ids.len()
                invariant
                    first <= i <= ids.len(),
                    all@ == seq![tokens.prev] + ids@.subrange(first as int, i as int),
                decreases ids.len() - i,
            {
                all.push(ids[i]);
                i += 1;
                assert(all@ =~= seq![tokens.prev] + ids@.subrange(first as int, i as int));
            }
            assert(ids@.subrange(first as int, i as int) =~= last_of(ids@, room as nat));
        }
        let sot_index: usize = all.len();
        let ghost before = all@;
        all.push(tokens.sot);
        if let Some(l) = language {
            all.push(l);
        }
        all.push(tokens.transcribe);
        all.push(tokens.no_timestamps);
        assert(all@ =~= before + opening(*tokens, language));
        let progress = if limit == 0 {
            Progress::Complete
        } else {
            Progress::Running
        };
        GreedyDecoder { tokens: all, sot_index, steps: 0, limit, eot: tokens.eot, progress }
    }

    /// The prompt and what was generated so far.
    pub fn tokens(&self) -> (tokens: &Vec<u32>)
        ensures
            tokens@ == self@.tokens,
    {
        &self.tokens
    }

    /// How many tokens were generated.
    pub fn steps(&self) -> (steps: usize)
        ensures
            steps == self@.steps,
    {
        self.steps
    }

    /// Where silence is listened for at the next step: where the transcript starts, at the
    /// first step only.
    pub fn silence_probe(&self) -> (probe: Option<usize>)
        ensures
            probe == silence_probe(self@),
    {
        if self.steps == 0 {
            Some(self.sot_index)
        } else {
            None
        }
    }

    /// How far decoding has come.
    pub fn progress(&self) -> (progress: Progress)
        ensures
            progress == self@.progress,
    {
        self.progress
    }

    /// Takes what the model said about the tokens so far.
    pub fn advance(&mut self, step: Step)
        requires
            old(self).valid(),
            old(self)@.progress is Running,
        ensures
            final(self).valid(),
            final(self)@ == advanced(old(self)@, step),
    {
        let ghost before = self@;
        if self.steps == 0 && step.no_speech {
            self.progress = Progress::Silent;
        } else {
            self.tokens.push(step.next_token);
            self.steps += 1;
            self.progress =
            if step.next_token == self.eot || self.steps >= self.limit {
                Progress::Complete
            } else {
                Progress::Running
            };
        }
        assert(self@ =~= advanced(before, step));
    }

    /// The transcript so far, without earlier text.
    pub fn transcript(&self) -> (ids: Vec<u32>)
        requires
            self.valid(),
        ensures
            ids@ == transcript(self@),
    {
        let mut ids: Vec<u32> = Vec::new();
        let mut i: usize = self.sot_index;
        while i < self.tokens.len()
            invariant
                self.sot_index <= i <= self.tokens.len(),
                ids@ == self.tokens@.subrange(self.sot_index as int, i as int),
            decreases self.tokens.len() - i,
        {
            ids.push(self.tokens[i]);
            i += 1;
            assert(ids@ =~= self.tokens@.subrange(self.sot_index as int, i as int));
        }
        assert(ids@ =~= transcript(self@));
        ids
    }
}

/// Where a decoder listens for silence: at the first step, where the transcript starts.
pub open spec fn silence_probe(s: DecoderState) -> Option<usize> {
    if s.steps == 0 {
        Some(s.sot_index as usize)
    } else {
        None
    }
}

/// Whether `step`, asked about the tokens `tokens` and to listen for silence at `probe`,
/// may have answered `answer`.
pub open spec fn answered<S: Fn(&Vec<u32>, Option<usize>) -> Result<Step, String>>(
    step: S,
    tokens: Seq<u32>,
    probe: Option<usize>,
    answer: Result<Step, String>,
) -> bool {
    exists|v: Vec<u32>| v@ == tokens && #[trigger] call_ensures(step, (&v, probe), answer)
}

/// Whether a decoder in the state `s`, driven by `step`, may have taken `steps`:
/// it was running before each of them.
pub open spec fn drove<S: Fn(&Vec<u32>, Option<usize>) -> Result<Step, String>>(
    step: S,
    s: DecoderState,
    steps: Seq<Step>,
) -> bool
    decreases steps.len(),
{
    steps.len() == 0 || {
        let before = advanced_by(s, steps.drop_last());
        &&& drove(step, s, steps.drop_last())
        &&& before.progress is Running
        &&& answered(step, before.tokens, silence_probe(before), Ok(steps.last()))
    }
}

/// Lets the model take steps until the decoder is done. `step` is given all tokens
/// so far and, the first time, the place at which to listen for silence; its first
/// failure ends the work.
pub fn generate<S: Fn(&Vec<u32>, Option<usize>) -> Result<Step, String>>(
    decoder: &mut GreedyDecoder,
    step: S,
) -> (res: Result<(), String>)
    requires
        old(decoder).valid(),
        forall|v: &Vec<u32>, probe: Option<usize>| #[trigger] call_requires(step, (v, probe)),
    ensures
        final(decoder).valid(),
        exists|steps: Seq<Step>|
            {
                let end = #[trigger] advanced_by(old(decoder)@, steps);
                &&& drove(step, old(decoder)@, steps)
                &&& final(decoder)@ == end
                &&& match res {
                    Ok(_) => !(end.progress is Running),
                    Err(e) => end.progress is Running && answered(
                        step,
                        end.tokens,
                        silence_probe(end),
                        Err(e),
                    ),
                }
            },
{
    let ghost start = decoder@;
    let ghost mut steps: Seq<Step> = Seq::empty();
    while decoder.progress() == Progress::Running
        invariant
            forall|v: &Vec<u32>, probe: Option<usize>| #[trigger] call_requires(step, (v, probe)),
            decoder.valid(),
            start == old(decoder)@,
            decoder@ == advanced_by(start, steps),
            drove(step, start, steps),
        decreases decoder@.limit - decoder@.steps, (if decoder@.progress is Running { 1int } else { 0int }),
    {
        let probe = decoder.silence_probe();
        let answer = step(decoder.tokens(), probe);
        match answer {
            Ok(s) => {
                assert(answered(step, advanced_by(start, steps).tokens, probe, Ok(s)));
                proof {
                    assert(steps.push(s).drop_last() =~= steps);
                    steps = steps.push(s);
                }
                decoder.advance(s);
            },
            Err(e) => {
                assert(answered(step, advanced_by(start, steps).tokens, probe, Err(e)));
                return Err(e);
            },
        }
    }
    Ok(())
}

/// Whether `encode` may have turned `text`, trimmed, into `ids`; there are none
/// where there is no text or nothing but white space.
pub open spec fn encoded<E: Fn(&str) -> Result<Vec<u32>, String>>(
    encode: E,
    text: Option<&str>,
    ids: Option<Seq<u32>>,
) -> bool {
    match text {
        Some(t) if trimmed(t@).len() > 0 => exists|s: &str, v: Vec<u32>|
            s@ == trimmed(t@) && #[trigger] call_ensures(encode, (s,), Ok::<Vec<u32>, String>(v))
                && ids == Some(v@),
        _ => ids is None,
    }
}

/// Whether `encode` may have refused `text`, trimmed, with `e`.
pub open spec fn encoding_failed<E: Fn(&str) -> Result<Vec<u32>, String>>(
    encode: E,
    text: Option<&str>,
    e: String,
) -> bool {
    match text {
        Some(t) if trimmed(t@).len() > 0 => exists|s: &str|
            s@ == trimmed(t@) && #[trigger] call_ensures(encode, (s,), Err::<Vec<u32>, String>(e)),
        _ => false,
    }
}

/// Whether `res` may have come of a decoder in the state `start` that `step` drove
/// through `steps`: the failure of the step that followed, no text for silence, or
/// what `decode` made of the complete transcript.
pub open spec fn came_of<
    S: Fn(&Vec<u32>, Option<usize>) -> Result<Step, String>,
    D: Fn(&Vec<u32>) -> Result<String, String>,
>(start: DecoderState, step: S, decode: D, steps: Seq<Step>, res: Result<String, String>) -> bool {
    let end = advanced_by(start, steps);
    &&& drove(step, start, steps)
    &&& match end.progress {
        Progress::Running => res matches Err(e) && answered(
            step,
            end.tokens,
            silence_probe(end),
            Err(e),
        ),
        Progress::Silent => res matches Ok(text) && text@ == Seq::<char>::empty(),
        Progress::Complete => exists|v: Vec<u32>|
            v@ == transcript(end) && #[trigger] call_ensures(decode, (&v,), res),
    }
}

/// Decodes one stretch of audio in one language.
///
/// `earlier`, trimmed, is text to continue from; `positions` is how many positions
/// the decoder has. `step` is the model, `encode` and `decode` turn text into
/// token ids and back. Where the model hears no speech the text is empty. The first
/// failure of any of the three is the result.
///
/// What `encode` answers is taken as it comes: a tokenizer that drops merges at random
/// encodes one text in several ways, and whether it panics on a text depends on settings
/// of its parts that cannot be looked at.
pub fn decode_segment<
    E: Fn(&str) -> Result<Vec<u32>, String>,
    S: Fn(&Vec<u32>, Option<usize>) -> Result<Step, String>,
    D: Fn(&Vec<u32>) -> Result<String, String>,
>(
    tokens: &SpecialTokens,
    positions: usize,
    language: Option<u32>,
    earlier: Option<&str>,
    encode: E,
    step: S,
    decode: D,
) -> (res: Result<String, String>)
    requires
        forall|s: &str| #[trigger] call_requires(encode, (s,)),
        forall|v: &Vec<u32>, probe: Option<usize>| #[trigger] call_requires(step, (v, probe)),
        forall|v: &Vec<u32>| #[trigger] call_requires(decode, (v,)),
    ensures
        (res matches Err(e) && encoding_failed(encode, earlier, e)) || exists|
            ids: Option<Seq<u32>>,
            steps: Seq<Step>,
        |
            #[trigger] encoded(encode, earlier, ids) && #[trigger] came_of(
                prompted(*tokens, language, ids, positions as nat),
                step,
                decode,
                steps,
                res,
            ),
{
    let mut ids: Option<Vec<u32>> = None;
    if let Some(text) = earlier {
        let text = text.trim();
        if !text.is_empty() {
            match encode(text) {
                Ok(v) => {
                    ids = Some(v);
                },
                Err(e) => {
                    return Err(e);
                },
            }
        }
    }
    let ghost id_seq = ids_of(ids);
    assert(encoded(encode, earlier, id_seq));
    let mut decoder = GreedyDecoder::new(tokens, language, ids, positions);
    let ghost start = decoder@;
    let generated = generate(&mut decoder, step);
    let ghost steps = choose|steps: Seq<Step>|
        {
            let end = #[trigger] advanced_by(start, steps);
            &&& drove(step, start, steps)
            &&& decoder@ == end
            &&& match generated {
                Ok(_) => !(end.progress is Running),
                Err(e) => end.progress is Running && answered(
                    step,
                    end.tokens,
                    silence_probe(end),
                    Err(e),
                ),
            }
        };
    assert(drove(step, start, steps));
    let res = match generated {
        Ok(_) => if decoder.progress() == Progress::Silent {
            Ok(String::new())
        } else {
            decode(&decoder.transcript())
        },
        Err(e) => Err(e),
    };
    assert(came_of(start, step, decode, steps, res));
    res
}

/// Whether `res` may have come of a decoder in the state `start` that `step` drove
/// through `steps`, where a complete transcript is turned into text by `tokenizer`.
pub open spec fn came_with<S: Fn(&Vec<u32>, Option<usize>) -> Result<Step, String>>(
    tokenizer: tokenizers::Tokenizer,
    start: DecoderState,
    step: S,
    steps: Seq<Step>,
    res: Result<String, String>,
) -> bool {
    let end = advanced_by(start, steps);
    &&& drove(step, start, steps)
    &&& match end.progress {
        Progress::Running => res matches Err(e) && answered(
            step,
            end.tokens,
            silence_probe(end),
            Err(e),
        ),
        Progress::Silent => res matches Ok(text) && text@ == Seq::<char>::empty(),
        Progress::Complete => text_view(res) == decoded_text(tokenizer, transcript(end)),
    }
}

/// Decodes one stretch of audio in one language, with `tokenizer` to turn the transcript
/// into text. Nothing is returned where the tokenizer's decoder does not take any tokens.
pub fn decode_segment_with<
    E: Fn(&str) -> Result<Vec<u32>, String>,
    S: Fn(&Vec<u32>, Option<usize>) -> Result<Step, String>,
>(
    tokenizer: &tokenizers::Tokenizer,
    tokens: &SpecialTokens,
    positions: usize,
    language: Option<u32>,
    earlier: Option<&str>,
    encode: E,
    step: S,
) -> (res: Option<Result<String, String>>)
    requires
        forall|s: &str| #[trigger] call_requires(encode, (s,)),
        forall|v: &Vec<u32>, probe: Option<usize>| #[trigger] call_requires(step, (v, probe)),
    ensures
        match res {
            None => !takes_any_tokens(decoder_of(*tokenizer)),
            Some(r) => takes_any_tokens(decoder_of(*tokenizer)) && ((r matches Err(e)
                && encoding_failed(encode, earlier, e)) || exists|
                ids: Option<Seq<u32>>,
                steps: Seq<Step>,
            |
                #[trigger] encoded(encode, earlier, ids) && #[trigger] came_with(
                    *tokenizer,
                    prompted(*tokens, language, ids, positions as nat),
                    step,
                    steps,
                    r,
                )),
        },
{
    if !decoder_takes_any_tokens(tokenizer) {
        return None;
    }
    let decode = |ids: &Vec<u32>| -> (r: Result<String, String>)
        ensures
            text_view(r) == decoded_text(*tokenizer, ids@),
        { decode_ids(tokenizer, ids) };
    let r = decode_segment(tokens, positions, language, earlier, encode, step, decode);
    proof {
        if !(r is Err && encoding_failed(encode, earlier, r->Err_0)) {
            let (ids, steps) = choose|ids: Option<Seq<u32>>, steps: Seq<Step>|
                #[trigger] encoded(encode, earlier, ids) && #[trigger] came_of(
                    prompted(*tokens, language, ids, positions as nat),
                    step,
                    decode,
                    steps,
                    r,
                );
            assert(came_with(
                *tokenizer,
                prompted(*tokens, language, ids, positions as nat),
                step,
                steps,
                r,
            ));
        }
    }
    Some(r)
}

/// Whether a decoder in the state `s` can be taken through `steps`: it runs before
/// each of them.
pub open spec fn possible(s: DecoderState, steps: Seq<Step>) -> bool
    decreases steps.len(),
{
    steps.len() == 0 || {
        &&& possible(s, steps.drop_last())
        &&& advanced_by(s, steps.drop_last()).progress is Running
    }
}

/// The tokens that `steps` propose.
pub open spec fn proposed(steps: Seq<Step>) -> Seq<u32> {
    steps.map_values(|s: Step| s.next_token)
}

/// Only possible steps are ever taken.
pub proof fn law_only_running_decoders_are_driven<
    S: Fn(&Vec<u32>, Option<usize>) -> Result<Step, String>,
>(step: S, s: DecoderState, steps: Seq<Step>)
    requires
        drove(step, s, steps),
    ensures
        possible(s, steps),
    decreases steps.len(),
{
    if steps.len() > 0 {
        law_only_running_decoders_are_driven(step, s, steps.drop_last());
    }
}

proof fn lemma_after_steps(s: DecoderState, steps: Seq<Step>)
    requires
        s.steps == 0,
        s.progress is Running ==> s.limit > 0,
        s.progress is Complete || s.progress is Running,
        possible(s, steps),
    ensures
        ({
            let end = advanced_by(s, steps);
            &&& end.sot_index == s.sot_index
            &&& end.limit == s.limit
            &&& end.eot == s.eot
            &&& !(end.progress is Silent) ==> end.tokens == s.tokens + proposed(steps) && end.steps
                == steps.len()
            &&& end.progress is Running ==> steps.len() < s.limit
            &&& end.progress is Silent ==> steps.len() == 1 && steps[0].no_speech && end.tokens
                == s.tokens
        }),
    decreases steps.len(),
{
    if steps.len() > 0 {
        lemma_after_steps(s, steps.drop_last());
        let before = advanced_by(s, steps.drop_last());
        let end = advanced_by(s, steps);
        assert(proposed(steps) =~= proposed(steps.drop_last()).push(steps.last().next_token));
        if !(end.progress is Silent) {
            assert(end.tokens =~= s.tokens + proposed(steps));
        }
    } else {
        assert(proposed(steps) =~= Seq::empty());
        assert(s.tokens + proposed(steps) =~= s.tokens);
    }
}

/// What the model is asked about always fits its positions: the earlier text, the
/// prompt and the generated tokens together never exceed them. This needs at least
/// eight positions.
pub proof fn law_tokens_fit_positions(
    tokens: SpecialTokens,
    language: Option<u32>,
    earlier: Option<Seq<u32>>,
    positions: nat,
    steps: Seq<Step>,
)
    requires
        positions >= 8,
        possible(prompted(tokens, language, earlier, positions), steps),
        advanced_by(prompted(tokens, language, earlier, positions), steps).progress is Running,
    ensures
        advanced_by(prompted(tokens, language, earlier, positions), steps).tokens.len()
            <= positions,
{
    lemma_after_steps(prompted(tokens, language, earlier, positions), steps);
}

/// A complete transcript is the opening of the prompt followed by what was
/// generated, whatever earlier text the prompt carried.
pub proof fn law_earlier_text_is_not_repeated(
    tokens: SpecialTokens,
    language: Option<u32>,
    earlier: Option<Seq<u32>>,
    positions: nat,
    steps: Seq<Step>,
)
    requires
        possible(prompted(tokens, language, earlier, positions), steps),
        advanced_by(prompted(tokens, language, earlier, positions), steps).progress is Complete,
    ensures
        transcript(advanced_by(prompted(tokens, language, earlier, positions), steps)) == opening(
            tokens,
            language,
        ) + proposed(steps),
{
    let start = prompted(tokens, language, earlier, positions);
    lemma_after_steps(start, steps);
    assert(transcript(advanced_by(start, steps)) =~= opening(tokens, language) + proposed(steps));
}

/// The end-of-text token ends a transcript: it is only ever the last token, and a
/// complete transcript ends with it or has reached the limit of generated tokens.
pub proof fn law_end_of_text_ends_transcript(
    tokens: SpecialTokens,
    language: Option<u32>,
    earlier: Option<Seq<u32>>,
    positions: nat,
    steps: Seq<Step>,
)
    requires
        possible(prompted(tokens, language, earlier, positions), steps),
    ensures
        steps.len() <= generation_limit(positions),
        forall|i: int| 0 <= i < steps.len() - 1 ==> (#[trigger] steps[i]).next_token != tokens.eot,
        advanced_by(prompted(tokens, language, earlier, positions), steps).progress is Complete
            && steps.len() > 0 ==> steps.last().next_token == tokens.eot || steps.len()
            == generation_limit(positions),
    decreases steps.len(),
{
    let start = prompted(tokens, language, earlier, positions);
    lemma_after_steps(start, steps);
    if steps.len() > 0 {
        let shorter = steps.drop_last();
        law_end_of_text_ends_transcript(tokens, language, earlier, positions, shorter);
        lemma_after_steps(start, shorter);
        assert forall|i: int| 0 <= i < steps.len() - 1 implies (#[trigger] steps[i]).next_token
            != tokens.eot by {
            if i < shorter.len() - 1 {
                assert(shorter[i] == steps[i]);
            } else {
                assert(shorter.last() == steps[i]);
                assert(possible(start, shorter));
                assert(possible(start, shorter.drop_last()));
                lemma_after_steps(start, shorter.drop_last());
            }
        }
    }
}

/// Silence is decided at the first step and at no other: a decoder gives up exactly
/// when its first step hears no speech.
pub proof fn law_silence_is_decided_first(
    tokens: SpecialTokens,
    language: Option<u32>,
    earlier: Option<Seq<u32>>,
    positions: nat,
    steps: Seq<Step>,
)
    requires
        possible(prompted(tokens, language, earlier, positions), steps),
        steps.len() > 0,
    ensures
        advanced_by(prompted(tokens, language, earlier, positions), steps).progress is Silent
            <==> steps[0].no_speech,
{
    let start = prompted(tokens, language, earlier, positions);
    lemma_after_steps(start, steps);
    if steps[0].no_speech {
        if steps.len() > 1 {
            lemma_possible_prefix(start, steps, 1);
            assert(steps.take(1).drop_last() =~= Seq::empty());
            assert(steps.take(1).last() == steps[0]);
            assert(advanced_by(start, steps.take(1).drop_last()) == start);
            assert(advanced_by(start, steps.take(1)) == advanced(start, steps[0]));
        } else {
            assert(steps.drop_last() =~= Seq::empty());
        }
    }
}

proof fn lemma_possible_prefix(s: DecoderState, steps: Seq<Step>, n: int)
    requires
        possible(s, steps),
        0 <= n < steps.len(),
    ensures
        advanced_by(s, steps.take(n)).progress is Running,
    decreases steps.len(),
{
    if n == steps.len() - 1 {
        assert(steps.take(n) =~= steps.drop_last());
    } else {
        lemma_possible_prefix(s, steps.drop_last(), n);
        assert(steps.drop_last().take(n) =~= steps.take(n));
    }
}

/// Silence is listened for at the start-of-transcript token, wherever earlier text has
/// moved it to.
pub proof fn law_silence_is_heard_at_start_of_transcript(
    tokens: SpecialTokens,
    language: Option<u32>,
    earlier: Option<Seq<u32>>,
    positions: nat,
)
    ensures
        ({
            let s = prompted(tokens, language, earlier, positions);
            &&& s.sot_index < s.tokens.len()
            &&& s.tokens[s.sot_index as int] == tokens.sot
            &&& s.sot_index <= usize::MAX ==> silence_probe(s) == Some(s.sot_index as usize)
        }),
{
}

/// The prompt carries the end of the earlier text: as many of its last tokens as
/// there is room for.
pub proof fn law_context_is_end_of_earlier_text(ids: Seq<u32>, n: nat)
    ensures
        last_of(ids, n).len() == if ids.len() <= n {
            ids.len()
        } else {
            n
        },
        ids == ids.take(ids.len() - last_of(ids, n).len()) + last_of(ids, n),
{
    assert(ids =~= ids.take(ids.len() - last_of(ids, n).len()) + last_of(ids, n));
}

/// How many encoder positions of a chunk are worked on: the estimate, held within
/// the positions that there are.
pub open spec fn worked_positions(estimate: nat, total: nat) -> nat {
    if estimate < 1 {
        1
    } else if estimate > total {
        total
    } else {
        estimate
    }
}

/// The segments with the last one lengthened to `total`.
pub open spec fn lengthened(segments: Seq<Segment>, total: usize) -> Seq<Segment> {
    if segments.len() == 0 {
        segments
    } else {
        segments.update(segments.len() - 1, Segment { end: total, ..segments.last() })
    }
}

/// The segments of a chunk whose windows were detected as `detections`.
pub open spec fn chunk_segments(
    estimate: nat,
    total: usize,
    detections: Seq<Detection>,
) -> Seq<Segment> {
    lengthened(merged(windows_of(worked_positions(estimate, total as nat), detections)), total)
}

/// The texts of `parts`, trimmed, without those of which nothing is left.
pub open spec fn spoken(parts: Seq<Seq<char>>) -> Seq<Seq<char>>
    decreases parts.len(),
{
    if parts.len() == 0 {
        Seq::empty()
    } else if trimmed(parts.last()).len() > 0 {
        spoken(parts.drop_last()).push(trimmed(parts.last()))
    } else {
        spoken(parts.drop_last())
    }
}

/// Whether `decode`, given the first segments of `segments` in order, may have
/// returned `parts`. Only the first segment continues from `earlier` text.
pub open spec fn decoded<F: Fn(usize, usize, Option<u32>, Option<&str>) -> Result<String, String>>(
    decode: F,
    segments: Seq<Segment>,
    earlier: Option<&str>,
    parts: Seq<String>,
) -> bool {
    &&& parts.len() <= segments.len()
    &&& forall|i: int|
        #![trigger parts[i]]
        0 <= i < parts.len() ==> asked(decode, segments, earlier, i, Ok(parts[i]))
}

/// Whether `decode`, given segment `i`, may have returned `res`.
pub open spec fn asked<F: Fn(usize, usize, Option<u32>, Option<&str>) -> Result<String, String>>(
    decode: F,
    segments: Seq<Segment>,
    earlier: Option<&str>,
    i: int,
    res: Result<String, String>,
) -> bool {
    call_ensures(
        decode,
        (
            segments[i].start,
            segments[i].end,
            Some(segments[i].token),
            if i == 0 {
                earlier
            } else {
                None
            },
        ),
        res,
    )
}

/// Whether `res` may have come of decoding the segments of a chunk.
pub open spec fn chunk_came_of<
    F: Fn(usize, usize, Option<u32>, Option<&str>) -> Result<String, String>,
>(
    decode: F,
    segments: Seq<Segment>,
    earlier: Option<&str>,
    parts: Seq<String>,
    res: Result<String, String>,
) -> bool {
    &&& decoded(decode, segments, earlier, parts)
    &&& match res {
        Ok(text) => parts.len() == segments.len() && text@ == joined(spoken(texts(parts))),
        Err(e) => parts.len() < segments.len() && asked(
            decode,
            segments,
            earlier,
            parts.len() as int,
            Err(e),
        ),
    }
}

fn decode_segments<F: Fn(usize, usize, Option<u32>, Option<&str>) -> Result<String, String>>(
    segments: &Vec<Segment>,
    earlier: Option<&str>,
    decode: F,
) -> (res: Result<String, String>)
    requires
        forall|start: usize, end: usize, token: Option<u32>, text: Option<&str>| #[trigger]
            call_requires(decode, (start, end, token, text)),
    ensures
        exists|parts: Seq<String>| #[trigger]
            chunk_came_of(decode, segments@, earlier, parts, res),
{
    let mut pieces: Vec<String> = Vec::new();
    let ghost mut parts: Seq<String> = Seq::empty();
    let mut i: usize = 0;
    assert(texts(parts) =~= Seq::empty());
    assert(texts(pieces@) =~= Seq::empty());
    while i < segments.len()
        invariant
            forall|start: usize, end: usize, token: Option<u32>, text: Option<&str>| #[trigger]
                call_requires(decode, (start, end, token, text)),
            i <= segments.len(),
            parts.len() == i,
            decoded(decode, segments@, earlier, parts),
            texts(pieces@) == spoken(texts(parts)),
        decreases segments.len() - i,
    {
        let segment = segments[i];
        let context = if i == 0 {
            earlier
        } else {
            None
        };
        match decode(segment.start, segment.end, Some(segment.token), context) {
            Ok(part) => {
                let text = part.as_str().trim();
                let ghost longer = parts.push(part);
                assert(texts(longer).drop_last() =~= texts(parts));
                assert(texts(longer).last() == part@);
                if !text.is_empty() {
                    let ghost before = pieces@;
                    let piece = text.to_owned();
                    pieces.push(piece);
                    assert(texts(pieces@) =~= texts(before).push(piece@));
                }
                proof {
                    assert forall|k: int| 0 <= k < longer.len() implies asked(
                        decode,
                        segments@,
                        earlier,
                        k,
                        Ok(#[trigger] longer[k]),
                    ) by {
                        if k < parts.len() {
                            assert(longer[k] == parts[k]);
                        }
                    }
                    parts = longer;
                }
            },
            Err(e) => {
                let res = Err(e);
                assert(chunk_came_of(decode, segments@, earlier, parts, res));
                return res;
            },
        }
        i += 1;
    }
    let res = Ok(join_with_spaces(&pieces));
    assert(chunk_came_of(decode, segments@, earlier, parts, res));
    res
}

/// Decodes a chunk of audio of which the encoder has made `total` positions.
///
/// Where the tokenizer has no `languages` the whole chunk is decoded at once.
/// Otherwise the positions that hold real audio, `estimate` of them, are split by
/// language with `detect`. Every segment is decoded by itself, the last one up to
/// the end of the encoder's positions, and what is left of the texts once they are
/// trimmed is joined with single spaces. `earlier` text is only handed to the first
/// segment. `decode_part` is given where a segment starts and ends, its language token
/// and the text to continue from.
pub fn decode<
    D: Fn(usize, usize) -> Result<Detection, String>,
    F: Fn(usize, usize, Option<u32>, Option<&str>) -> Result<String, String>,
>(
    languages: &Vec<u32>,
    total: usize,
    estimate: usize,
    earlier: Option<&str>,
    detect: D,
    decode_part: F,
) -> (res: Result<String, String>)
    requires
        languages.len() > 0 ==> total >= 1,
        forall|start: usize, end: usize| #[trigger] call_requires(detect, (start, end)),
        forall|start: usize, end: usize, token: Option<u32>, text: Option<&str>| #[trigger]
            call_requires(decode_part, (start, end, token, text)),
    ensures
        languages.len() == 0 ==> call_ensures(decode_part, (0usize, total, None::<u32>, earlier), res),
        languages.len() > 0 ==> {
            let n = worked_positions(estimate as nat, total as nat);
            ||| exists|detections: Seq<Detection>, parts: Seq<String>|
                detections.len() == window_count(n) && #[trigger] detected(detect, n, detections)
                    && #[trigger] chunk_came_of(
                    decode_part,
                    chunk_segments(estimate as nat, total, detections),
                    earlier,
                    parts,
                    res,
                )
            ||| res matches Err(e) && exists|detections: Seq<Detection>|
                {
                    let i = detections.len() as int;
                    &&& i < window_count(n)
                    &&& #[trigger] detected(detect, n, detections)
                    &&& call_ensures(
                        detect,
                        (boundaries(n)[i] as usize, boundaries(n)[i + 1] as usize),
                        Err::<Detection, String>(e),
                    )
                }
        },
{
    if languages.len() == 0 {
        return decode_part(0, total, None, earlier);
    }
    let worked: usize = if estimate < 1 {
        1
    } else if estimate > total {
        total
    } else {
        estimate
    };
    assert(worked as nat == worked_positions(estimate as nat, total as nat));
    let mut segments = match segment_by_language(worked, detect) {
        Ok(segments) => segments,
        Err(e) => {
            return Err(e);
        },
    };
    let ghost detections = choose|detections: Seq<Detection>|
        {
            &&& detections.len() == window_count(worked as nat)
            &&& detected(detect, worked as nat, detections)
            &&& segments@ == #[trigger] merged(windows_of(worked as nat, detections))
        };
    let n: usize = segments.len();
    if n > 0 {
        let last = segments[n - 1];
        segments.set(n - 1, Segment { start: last.start, end: total, token: last.token });
    }
    assert(segments@ =~= chunk_segments(estimate as nat, total, detections));
    let res = decode_segments(&segments, earlier, decode_part);
    assert(exists|parts: Seq<String>| #[trigger]
        chunk_came_of(
            decode_part,
            chunk_segments(estimate as nat, total, detections),
            earlier,
            parts,
            res,
        ));
    res
}

/// The segments of a chunk cover all of the encoder's positions, from the first to
/// the last, without gap or overlap, and neighbours differ in language.
pub proof fn law_chunk_segments_cover_positions(
    estimate: nat,
    total: usize,
    detections: Seq<Detection>,
)
    requires
        total >= 1,
        detections.len() == window_count(worked_positions(estimate, total as nat)),
    ensures
        chunk_segments(estimate, total, detections).len() > 0,
        chunk_segments(estimate, total, detections).first().start == 0,
        chunk_segments(estimate, total, detections).last().end == total,
        consecutive_segments(chunk_segments(estimate, total, detections)),
{
    let n = worked_positions(estimate, total as nat) as usize;
    let windows = windows_of(n as nat, detections);
    law_windows_cover_positions(n, detections);
    law_segments_partition(windows);
    let before = merged(windows);
    let after = chunk_segments(estimate, total, detections);
    assert(before[before.len() - 1].start < before[before.len() - 1].end);
    assert(after =~= lengthened(before, total));
    assert forall|i: int, j: int|
        0 <= i && j == i + 1 && j < after.len() implies (#[trigger] after[i]).end == (
    #[trigger] after[j]).start && after[i].token != after[j].token by {
        assert(before[i].end == before[j].start && before[i].token != before[j].token);
    }
    assert forall|i: int| 0 <= i < after.len() implies (#[trigger] after[i]).start
        < after[i].end by {
        assert(before[i].start < before[i].end);
    }
}

/// Segments in which nothing was said leave no trace in the text of a chunk.
pub proof fn law_silent_segments_leave_no_text(parts: Seq<Seq<char>>)
    requires
        forall|i: int| 0 <= i < parts.len() ==> trimmed(#[trigger] parts[i]).len() == 0,
    ensures
        joined(spoken(parts)) == Seq::<char>::empty(),
    decreases parts.len(),
{
    if parts.len() > 0 {
        assert(trimmed(parts[parts.len() - 1]).len() == 0);
        law_silent_segments_leave_no_text(parts.drop_last());
    }
}

/// The prompt, token by token. It ends with start of transcript, the language where one is
/// given, transcribe, and no timestamps. Before that stand, where there is earlier text,
/// the token for it and the last tokens of the text: as many as half of the positions less
/// eight, or all where there are no more.
pub proof fn law_prompts_are_exact(
    tokens: SpecialTokens,
    language: Option<u32>,
    earlier: Option<Seq<u32>>,
    positions: nat,
    kept: int,
)
    requires
        earlier matches Some(ids) ==> kept == if positions / 2 < 8 {
            0
        } else if ids.len() + 8 < positions / 2 {
            ids.len() as int
        } else {
            positions / 2 - 8
        },
    ensures
        prompted(tokens, language, earlier, positions).tokens == (match earlier {
            Some(ids) => seq![tokens.prev] + ids.skip(ids.len() - kept),
            None => Seq::empty(),
        }) + (match language {
            Some(l) => seq![tokens.sot, l, tokens.transcribe, tokens.no_timestamps],
            None => seq![tokens.sot, tokens.transcribe, tokens.no_timestamps],
        }),
        prompted(tokens, language, earlier, positions).steps == 0,
        transcript(prompted(tokens, language, earlier, positions)) == (match language {
            Some(l) => seq![tokens.sot, l, tokens.transcribe, tokens.no_timestamps],
            None => seq![tokens.sot, tokens.transcribe, tokens.no_timestamps],
        }),
{
    let s = prompted(tokens, language, earlier, positions);
    match earlier {
        Some(ids) => {
            if ids.len() + 8 == positions / 2 {
                assert(kept == ids.len());
            }
            assert(last_of(ids, context_limit(positions)) =~= ids.skip(ids.len() - kept));
        },
        None => {},
    }
    assert(transcript(s) =~= opening(tokens, language));
}

/// Decoding goes on until the model proposes end of text, or until half of the positions,
/// rounded down, were generated. Where none of the tokens proposed so far is end of text,
/// the first step did not hear silence, and fewer than half of the positions were
/// generated, decoding still runs, and what was proposed was added token by token.
pub proof fn law_decoding_goes_on(
    tokens: SpecialTokens,
    language: Option<u32>,
    earlier: Option<Seq<u32>>,
    positions: nat,
    steps: Seq<Step>,
)
    requires
        steps.len() < positions / 2,
        steps.len() > 0 ==> !steps[0].no_speech,
        forall|i: int| 0 <= i < steps.len() ==> (#[trigger] steps[i]).next_token != tokens.eot,
    ensures
        possible(prompted(tokens, language, earlier, positions), steps),
        advanced_by(prompted(tokens, language, earlier, positions), steps).progress is Running,
        advanced_by(prompted(tokens, language, earlier, positions), steps).tokens == prompted(
            tokens,
            language,
            earlier,
            positions,
        ).tokens + Seq::new(steps.len(), |i: int| steps[i].next_token),
    decreases steps.len(),
{
    let start = prompted(tokens, language, earlier, positions);
    if steps.len() > 0 {
        let shorter = steps.drop_last();
        assert forall|i: int| 0 <= i < shorter.len() implies (#[trigger] shorter[i]).next_token
            != tokens.eot by {
            assert(shorter[i] == steps[i]);
        }
        law_decoding_goes_on(tokens, language, earlier, positions, shorter);
        lemma_after_steps(start, shorter);
        assert(steps[steps.len() - 1].next_token != tokens.eot);
    }
    lemma_after_steps(start, steps);
    assert(proposed(steps) =~= Seq::new(steps.len(), |i: int| steps[i].next_token));
}

/// Decoding stops where it has to: at silence, if the first step heard any; at the
/// end-of-text token; or once half of the positions, rounded down, were generated. It stops
/// nowhere else.
pub proof fn law_decoding_stops_exactly(
    tokens: SpecialTokens,
    language: Option<u32>,
    earlier: Option<Seq<u32>>,
    positions: nat,
    steps: Seq<Step>,
)
    requires
        possible(prompted(tokens, language, earlier, positions), steps),
    ensures
        steps.len() <= positions / 2,
        advanced_by(prompted(tokens, language, earlier, positions), steps).progress is Silent
            <==> steps.len() > 0 && steps[0].no_speech,
        steps.len() > 0 && steps[0].no_speech ==> steps.len() == 1,
        advanced_by(prompted(tokens, language, earlier, positions), steps).progress is Complete
            <==> !(steps.len() > 0 && steps[0].no_speech) && (steps.len() == positions / 2 || (
        steps.len() > 0 && steps.last().next_token == tokens.eot)),
        forall|i: int| 0 <= i < steps.len() - 1 ==> (#[trigger] steps[i]).next_token != tokens.eot,
{
    let start = prompted(tokens, language, earlier, positions);
    lemma_after_steps(start, steps);
    law_end_of_text_ends_transcript(tokens, language, earlier, positions, steps);
    if steps.len() > 0 {
        law_silence_is_decided_first(tokens, language, earlier, positions, steps);
        lemma_after_steps(start, steps.drop_last());
    }
}

proof fn lemma_drove<S: Fn(&Vec<u32>, Option<usize>) -> Result<Step, String>>(
    step: S,
    s: DecoderState,
    steps: Seq<Step>,
    i: int,
)
    requires
        drove(step, s, steps),
        0 <= i < steps.len(),
    ensures
        possible(s, steps.take(i)),
        answered(
            step,
            advanced_by(s, steps.take(i)).tokens,
            silence_probe(advanced_by(s, steps.take(i))),
            Ok(steps[i]),
        ),
    decreases steps.len(),
{
    if i == steps.len() - 1 {
        assert(steps.take(i) =~= steps.drop_last());
        law_only_running_decoders_are_driven(step, s, steps.drop_last());
    } else {
        lemma_drove(step, s, steps.drop_last(), i);
        assert(steps.drop_last().take(i) =~= steps.take(i));
    }
}

/// Step `i` of a decoder that `step` drove is an answer to the question about the whole
/// prompt and all tokens before. Silence is asked about at the first step only, at the
/// start of the transcript.
pub proof fn law_steps_are_answers<S: Fn(&Vec<u32>, Option<usize>) -> Result<Step, String>>(
    tokens: SpecialTokens,
    language: Option<u32>,
    earlier: Option<Seq<u32>>,
    positions: nat,
    step: S,
    steps: Seq<Step>,
    i: int,
    probe: Option<usize>,
)
    requires
        drove(step, prompted(tokens, language, earlier, positions), steps),
        0 <= i < steps.len(),
        probe == if i == 0 {
            Some(prompted(tokens, language, earlier, positions).sot_index as usize)
        } else {
            None
        },
    ensures
        exists|v: Vec<u32>|
            v@ == prompted(tokens, language, earlier, positions).tokens + Seq::new(
                i as nat,
                |k: int| steps[k].next_token,
            ) && #[trigger] call_ensures(
                step,
                (&v, probe),
                Ok::<Step, String>(steps[i]),
            ),
{
    let start = prompted(tokens, language, earlier, positions);
    let before = steps.take(i);
    lemma_drove(step, start, steps, i);
    lemma_after_steps(start, before);
    lemma_possible_prefix_of_driven(step, start, steps, i);
    assert(start.tokens + proposed(before) =~= start.tokens + Seq::new(
        i as nat,
        |k: int| steps[k].next_token,
    ));
}

proof fn lemma_possible_prefix_of_driven<S: Fn(&Vec<u32>, Option<usize>) -> Result<Step, String>>(
    step: S,
    s: DecoderState,
    steps: Seq<Step>,
    i: int,
)
    requires
        drove(step, s, steps),
        0 <= i < steps.len(),
    ensures
        advanced_by(s, steps.take(i)).progress is Running,
{
    law_only_running_decoders_are_driven(step, s, steps);
    lemma_possible_prefix(s, steps, i);
}

/// What a segment decodes to, in terms of the answers of the model. Silence at the first
/// step gives no text. A transcript that ended, with end of text or with half of the
/// positions generated, is turned into text by `decode`, from start of transcript on and
/// with everything that was proposed. Otherwise the step that followed failed, and its
/// failure is the result.
pub proof fn law_segments_are_decoded_exactly<
    S: Fn(&Vec<u32>, Option<usize>) -> Result<Step, String>,
    D: Fn(&Vec<u32>) -> Result<String, String>,
>(
    tokens: SpecialTokens,
    language: Option<u32>,
    earlier: Option<Seq<u32>>,
    positions: nat,
    step: S,
    decode: D,
    steps: Seq<Step>,
    res: Result<String, String>,
    probe: Option<usize>,
)
    requires
        came_of(prompted(tokens, language, earlier, positions), step, decode, steps, res),
        probe == if steps.len() == 0 {
            Some(prompted(tokens, language, earlier, positions).sot_index as usize)
        } else {
            None
        },
    ensures
        steps.len() > 0 && steps[0].no_speech ==> (res matches Ok(text) && text@.len() == 0),
        !(steps.len() > 0 && steps[0].no_speech) && (steps.len() == positions / 2 || (steps.len()
            > 0 && steps.last().next_token == tokens.eot)) ==> exists|v: Vec<u32>|
            v@ == (match language {
                Some(l) => seq![tokens.sot, l, tokens.transcribe, tokens.no_timestamps],
                None => seq![tokens.sot, tokens.transcribe, tokens.no_timestamps],
            }) + Seq::new(steps.len(), |i: int| steps[i].next_token) && #[trigger] call_ensures(
                decode,
                (&v,),
                res,
            ),
        !(steps.len() > 0 && steps[0].no_speech) && steps.len() < positions / 2 && !(steps.len() > 0
            && steps.last().next_token == tokens.eot) ==> (res matches Err(e) && exists|v: Vec<u32>|
            v@ == prompted(tokens, language, earlier, positions).tokens + Seq::new(
                steps.len(),
                |i: int| steps[i].next_token,
            ) && #[trigger] call_ensures(
                step,
                (&v, probe),
                Err::<Step, String>(e),
            )),
{
    let start = prompted(tokens, language, earlier, positions);
    let end = advanced_by(start, steps);
    law_only_running_decoders_are_driven(step, start, steps);
    law_decoding_stops_exactly(tokens, language, earlier, positions, steps);
    lemma_after_steps(start, steps);
    assert(proposed(steps) =~= Seq::new(steps.len(), |i: int| steps[i].next_token));
    if end.progress is Complete {
        law_earlier_text_is_not_repeated(tokens, language, earlier, positions, steps);
    }
}

/// With a tokenizer, a segment decodes to what it decodes to otherwise, and a transcript
/// that ended is turned into text by the tokenizer.
pub proof fn law_segments_are_spelled_exactly<
    S: Fn(&Vec<u32>, Option<usize>) -> Result<Step, String>,
>(
    tokenizer: tokenizers::Tokenizer,
    tokens: SpecialTokens,
    language: Option<u32>,
    earlier: Option<Seq<u32>>,
    positions: nat,
    step: S,
    steps: Seq<Step>,
    res: Result<String, String>,
)
    requires
        came_with(tokenizer, prompted(tokens, language, earlier, positions), step, steps, res),
    ensures
        steps.len() > 0 && steps[0].no_speech ==> (res matches Ok(text) && text@.len() == 0),
        !(steps.len() > 0 && steps[0].no_speech) && (steps.len() == positions / 2 || (steps.len()
            > 0 && steps.last().next_token == tokens.eot)) ==> (match res {
            Ok(text) => Ok::<Seq<char>, Seq<char>>(text@),
            Err(e) => Err::<Seq<char>, Seq<char>>(e@),
        }) == decoded_text(
            tokenizer,
            (match language {
                Some(l) => seq![tokens.sot, l, tokens.transcribe, tokens.no_timestamps],
                None => seq![tokens.sot, tokens.transcribe, tokens.no_timestamps],
            }) + Seq::new(steps.len(), |i: int| steps[i].next_token),
        ),
        !(steps.len() > 0 && steps[0].no_speech) && steps.len() < positions / 2 && !(steps.len() > 0
            && steps.last().next_token == tokens.eot) ==> res is Err,
{
    let start = prompted(tokens, language, earlier, positions);
    let end = advanced_by(start, steps);
    law_only_running_decoders_are_driven(step, start, steps);
    law_decoding_stops_exactly(tokens, language, earlier, positions, steps);
    lemma_after_steps(start, steps);
    assert(proposed(steps) =~= Seq::new(steps.len(), |i: int| steps[i].next_token));
    if end.progress is Complete {
        law_earlier_text_is_not_repeated(tokens, language, earlier, positions, steps);
    }
}

/// Earlier text is handed to the tokenizer without the white space around it, and not at
/// all where nothing else is in it.
pub proof fn law_earlier_text_is_encoded_trimmed<E: Fn(&str) -> Result<Vec<u32>, String>>(
    encode: E,
    text: Option<&str>,
    ids: Option<Seq<u32>>,
)
    requires
        encoded(encode, text, ids),
    ensures
        text is None ==> ids is None,
        text matches Some(t) ==> (trimmed(t@).len() == 0 <==> ids is None),
        text matches Some(t) ==> (ids matches Some(i) ==> exists|s: &str, v: Vec<u32>|
            s@ == trimmed(t@) && v@ == i && #[trigger] call_ensures(
                encode,
                (s,),
                Ok::<Vec<u32>, String>(v),
            )),
{
}

/// Where encoding fails, it was the trimmed text that could not be encoded.
pub proof fn law_encoding_fails_on_trimmed_text<E: Fn(&str) -> Result<Vec<u32>, String>>(
    encode: E,
    text: Option<&str>,
    e: String,
)
    requires
        encoding_failed(encode, text, e),
    ensures
        text matches Some(t) && trimmed(t@).len() > 0 && exists|s: &str|
            s@ == trimmed(t@) && #[trigger] call_ensures(encode, (s,), Err::<Vec<u32>, String>(e)),
{
}

/// The positions of real audio that are worked on: the estimate, but at least one and not
/// more than there are.
pub proof fn law_worked_positions_are_clamped(estimate: nat, total: nat)
    requires
        total >= 1,
    ensures
        1 <= worked_positions(estimate, total) <= total,
        1 <= estimate <= total ==> worked_positions(estimate, total) == estimate,
        estimate > total ==> worked_positions(estimate, total) == total,
        estimate == 0 ==> worked_positions(estimate, total) == 1,
{
}

/// The segments of a chunk are those of its windows; only the last one is longer, up to the
/// last position.
pub proof fn law_chunk_segments_are_those_of_windows(
    estimate: nat,
    total: usize,
    detections: Seq<Detection>,
    j: int,
)
    requires
        0 <= j < chunk_segments(estimate, total, detections).len(),
    ensures
        chunk_segments(estimate, total, detections).len() == merged(
            windows_of(worked_positions(estimate, total as nat), detections),
        ).len(),
        chunk_segments(estimate, total, detections)[j].start == merged(
            windows_of(worked_positions(estimate, total as nat), detections),
        )[j].start,
        chunk_segments(estimate, total, detections)[j].token == merged(
            windows_of(worked_positions(estimate, total as nat), detections),
        )[j].token,
        chunk_segments(estimate, total, detections)[j].end == if j < chunk_segments(
            estimate,
            total,
            detections,
        ).len() - 1 {
            merged(windows_of(worked_positions(estimate, total as nat), detections))[j].end
        } else {
            total
        },
{
}

/// The text of a chunk is that of its segments in order: every segment is decoded where it
/// lies and in its language, only the first with earlier text; what is left of the texts
/// once they are trimmed, where anything is, is joined with single spaces; and the first
/// failure is the result.
pub proof fn law_chunks_are_decoded_exactly<
    F: Fn(usize, usize, Option<u32>, Option<&str>) -> Result<String, String>,
>(
    decode: F,
    segments: Seq<Segment>,
    earlier: Option<&str>,
    parts: Seq<String>,
    res: Result<String, String>,
    i: int,
)
    requires
        chunk_came_of(decode, segments, earlier, parts, res),
    ensures
        0 <= i < parts.len() ==> call_ensures(
            decode,
            (
                segments[i].start,
                segments[i].end,
                Some(segments[i].token),
                if i == 0 {
                    earlier
                } else {
                    None
                },
            ),
            Ok::<String, String>(parts[i]),
        ),
        match res {
            Ok(text) => parts.len() == segments.len() && text@ == joined(
                parts.map_values(|p: String| trimmed(p@)).filter(|t: Seq<char>| t.len() > 0),
            ),
            Err(e) => parts.len() < segments.len() && call_ensures(
                decode,
                (
                    segments[parts.len() as int].start,
                    segments[parts.len() as int].end,
                    Some(segments[parts.len() as int].token),
                    if parts.len() == 0 {
                        earlier
                    } else {
                        None
                    },
                ),
                Err::<String, String>(e),
            ),
        },
{
    if 0 <= i < parts.len() {
        assert(asked(decode, segments, earlier, i, Ok(parts[i])));
    }
    lemma_spoken(parts);
}

proof fn lemma_spoken(parts: Seq<String>)
    ensures
        spoken(texts(parts)) == parts.map_values(|p: String| trimmed(p@)).filter(
            |t: Seq<char>| t.len() > 0,
        ),
    decreases parts.len(),
{
    reveal(Seq::filter);
    let trimmed_parts = parts.map_values(|p: String| trimmed(p@));
    if parts.len() > 0 {
        lemma_spoken(parts.drop_last());
        assert(texts(parts).drop_last() =~= texts(parts.drop_last()));
        assert(trimmed_parts.drop_last() =~= parts.drop_last().map_values(
            |p: String| trimmed(p@),
        ));
    } else {
        assert(texts(parts) =~= Seq::empty());
        assert(trimmed_parts =~= Seq::empty());
    }
}

} // verus!
