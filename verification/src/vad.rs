//! Voice activity: where a stream of audio is cut into chunks for transcription.
//!
//! Audio is judged in frames of 20 ms. A chunk is cut once speech has been followed
//! by enough silence, or once so much audio is buffered that it cannot wait longer. No
//! chunk lasts longer than five seconds.

use vstd::prelude::*;

use vstd::slice::slice_subrange;

use crate::transcribe::TARGET_SAMPLE_RATE;

verus! {

/// Samples in a frame: 20 ms at the target sample rate.
pub const FRAME_SAMPLES: usize = 320;

/// Frames of silence, 400 ms of them, that end a chunk in which there was speech.
pub const SILENCE_HANG_FRAMES: usize = 20;

/// Samples that are buffered at most, five seconds at the target sample rate, so that
/// speech without a pause is cut too.
pub const MAX_BUFFER_SAMPLES: usize = 80_000;

/// The 16-bit sample whose lower byte is `lo` and whose upper byte is `hi`.
pub open spec fn sample_of(lo: u8, hi: u8) -> i16 {
    let unsigned = lo as int + 256 * hi as int;
    if unsigned < 32768 {
        unsigned as i16
    } else {
        (unsigned - 65536) as i16
    }
}

/// The 16-bit samples, lower byte first, that `bytes` hold. A byte that is left over at
/// the end is no sample.
pub open spec fn pcm16le(bytes: Seq<u8>) -> Seq<i16> {
    Seq::new(bytes.len() / 2, |i: int| sample_of(bytes[2 * i], bytes[2 * i + 1]))
}

/// Appends the samples that `bytes` hold.
pub fn append_pcm16le(buf: &mut Vec<i16>, bytes: &[u8])
    ensures
        final(buf)@ == old(buf)@ + pcm16le(bytes@),
{
    let ghost before = buf@;
    let n: usize = bytes.len() / 2;
    let mut i: usize = 0;
    assert(pcm16le(bytes@).take(0) =~= Seq::empty());
    while i < n
        invariant
            i <= n,
            n == bytes@.len() / 2,
            2 * n <= usize::MAX,
            buf@ =~= before + pcm16le(bytes@).take(i as int),
        decreases n - i,
    {
        let unsigned: i32 = bytes[2 * i] as i32 + 256 * (bytes[2 * i + 1] as i32);
        let sample: i16 = if unsigned < 32768 {
            unsigned as i16
        } else {
            (unsigned - 65536) as i16
        };
        assert(sample == pcm16le(bytes@)[i as int]);
        buf.push(sample);
        i += 1;
    }
    assert(pcm16le(bytes@).take(n as int) =~= pcm16le(bytes@));
}

/// The state of a voice activity detector: the samples that were not handed out yet,
/// how many of them were judged, whether there was speech among these, and how many
/// silent frames they end with.
#[verifier::ext_equal]
pub struct VadState {
    pub buf: Seq<i16>,
    pub analyzed: nat,
    pub has_speech: bool,
    pub silent: nat,
}

impl VadState {
    /// The state at the beginning of a chunk.
    pub open spec fn empty() -> VadState {
        VadState { buf: Seq::empty(), analyzed: 0, has_speech: false, silent: 0 }
    }

    /// What holds of every state.
    pub open spec fn valid(self) -> bool {
        &&& self.analyzed <= self.buf.len()
        &&& self.silent * 320 <= self.analyzed
    }

    /// How many complete frames are waiting to be judged.
    pub open spec fn waiting(self) -> nat {
        ((self.buf.len() - self.analyzed) / 320) as nat
    }

    /// The samples of waiting frame `i`.
    pub open spec fn frame(self, i: int) -> Seq<i16> {
        self.buf.subrange(self.analyzed + 320 * i, self.analyzed + 320 * i + 320)
    }

    /// The state with more samples.
    pub open spec fn appended(self, samples: Seq<i16>) -> VadState {
        VadState { buf: self.buf + samples, ..self }
    }

    /// The state once the next frame was judged to hold speech or not.
    pub open spec fn judged(self, speech: bool) -> VadState {
        VadState {
            analyzed: self.analyzed + 320,
            has_speech: self.has_speech || speech,
            silent: if speech {
                0
            } else {
                self.silent + 1
            },
            ..self
        }
    }

    /// The state once as many frames were judged as there are verdicts.
    pub open spec fn judged_all(self, verdicts: Seq<bool>) -> VadState
        decreases verdicts.len(),
    {
        if verdicts.len() == 0 {
            self
        } else {
            self.judged_all(verdicts.drop_last()).judged(verdicts.last())
        }
    }

    /// Whether a chunk is to be cut: speech was followed by enough silence, or the
    /// buffer is full.
    pub open spec fn cut_due(self) -> bool {
        (self.has_speech && self.silent >= SILENCE_HANG_FRAMES) || self.buf.len()
            >= MAX_BUFFER_SAMPLES
    }

    /// How many samples a chunk takes that is cut now: all that are buffered, but never
    /// more than five seconds of them.
    pub open spec fn cut_len(self) -> int {
        if self.buf.len() <= MAX_BUFFER_SAMPLES {
            self.buf.len() as int
        } else {
            MAX_BUFFER_SAMPLES as int
        }
    }

    /// The chunk that is cut now.
    pub open spec fn first(self) -> Seq<i16> {
        self.buf.take(self.cut_len())
    }

    /// The state once a chunk was cut: what is left begins a new one, of which nothing
    /// was judged.
    pub open spec fn rest(self) -> VadState {
        VadState { buf: self.buf.skip(self.cut_len()), ..VadState::empty() }
    }

    /// The state once chunks were cut, one after each of the rounds in which the waiting
    /// frames were judged.
    pub open spec fn cut_after(self, rounds: Seq<Seq<bool>>) -> VadState
        decreases rounds.len(),
    {
        if rounds.len() == 0 {
            self
        } else {
            self.cut_after(rounds.drop_last()).judged_all(rounds.last()).rest()
        }
    }

    /// The chunks that were cut, one after each round.
    pub open spec fn chunks_after(self, rounds: Seq<Seq<bool>>) -> Seq<Seq<i16>>
        decreases rounds.len(),
    {
        if rounds.len() == 0 {
            Seq::empty()
        } else {
            self.chunks_after(rounds.drop_last()).push(
                self.cut_after(rounds.drop_last()).judged_all(rounds.last()).first(),
            )
        }
    }

    /// Whether every round judges all waiting frames and makes a chunk due.
    pub open spec fn due_after(self, rounds: Seq<Seq<bool>>) -> bool
        decreases rounds.len(),
    {
        rounds.len() == 0 || {
            let before = self.cut_after(rounds.drop_last());
            &&& self.due_after(rounds.drop_last())
            &&& rounds.last().len() == before.waiting()
            &&& before.judged_all(rounds.last()).cut_due()
        }
    }

    /// Whether chunks are cut until none is due: every round but the last makes a chunk
    /// due.
    pub open spec fn settled_by(self, rounds: Seq<Seq<bool>>) -> bool {
        let before = self.cut_after(rounds.drop_last());
        &&& rounds.len() > 0
        &&& self.due_after(rounds.drop_last())
        &&& rounds.last().len() == before.waiting()
        &&& !before.judged_all(rounds.last()).cut_due()
    }

    /// The state after `bytes` arrived and everything that was due was cut.
    pub open spec fn pushed(self, bytes: Seq<u8>, rounds: Seq<Seq<bool>>) -> VadState {
        self.appended(pcm16le(bytes)).cut_after(rounds.drop_last()).judged_all(rounds.last())
    }

    /// The chunks that are cut when `bytes` arrive, in order.
    pub open spec fn chunks(self, bytes: Seq<u8>, rounds: Seq<Seq<bool>>) -> Seq<Seq<i16>> {
        self.appended(pcm16le(bytes)).chunks_after(rounds.drop_last())
    }
}

/// Whether every complete frame was judged and no chunk is due. This holds between any
/// two messages.
pub open spec fn settled(s: VadState) -> bool {
    s.valid() && s.waiting() == 0 && !s.cut_due()
}

/// Whether `is_speech`, asked about the waiting frames of `s` in order, may have given
/// `verdicts`.
pub open spec fn judges<F: Fn(&[i16]) -> bool>(
    is_speech: F,
    s: VadState,
    verdicts: Seq<bool>,
) -> bool {
    forall|i: int|
        #![trigger verdicts[i]]
        0 <= i < verdicts.len() ==> judges_frame(is_speech, s.frame(i), verdicts[i])
}

/// Whether `is_speech`, asked about the frames that wait in each of the rounds, may have
/// given their verdicts.
pub open spec fn judges_rounds<F: Fn(&[i16]) -> bool>(
    is_speech: F,
    s: VadState,
    rounds: Seq<Seq<bool>>,
) -> bool
    decreases rounds.len(),
{
    rounds.len() == 0 || {
        &&& judges_rounds(is_speech, s, rounds.drop_last())
        &&& judges(is_speech, s.cut_after(rounds.drop_last()), rounds.last())
    }
}

/// What the chunks of a vector hold.
pub open spec fn views(chunks: Seq<Vec<i16>>) -> Seq<Seq<i16>> {
    chunks.map_values(|c: Vec<i16>| c@)
}

/// Whether `is_speech` may have given `verdict` on a frame.
pub open spec fn judges_frame<F: Fn(&[i16]) -> bool>(
    is_speech: F,
    frame: Seq<i16>,
    verdict: bool,
) -> bool {
    exists|f: &[i16]| f@ == frame && #[trigger] call_ensures(is_speech, (f,), verdict)
}

/// Judging frames leaves the samples as they are and moves on by one frame for each
/// verdict.
proof fn lemma_judged_all(s: VadState, verdicts: Seq<bool>)
    requires
        s.valid(),
    ensures
        s.judged_all(verdicts).buf == s.buf,
        s.judged_all(verdicts).analyzed == s.analyzed + 320 * verdicts.len(),
        s.judged_all(verdicts).silent * 320 <= s.judged_all(verdicts).analyzed,
        s.judged_all(verdicts).silent <= s.silent + verdicts.len(),
    decreases verdicts.len(),
{
    if verdicts.len() > 0 {
        lemma_judged_all(s, verdicts.drop_last());
    }
}

/// A voice activity detector by energy.
pub struct EnergyVad {
    buf: Vec<i16>,
    analyzed_samples: usize,
    has_speech: bool,
    trailing_silence_frames: usize,
}

impl View for EnergyVad {
    type V = VadState;

    closed spec fn view(&self) -> VadState {
        VadState {
            buf: self.buf@,
            analyzed: self.analyzed_samples as nat,
            has_speech: self.has_speech,
            silent: self.trailing_silence_frames as nat,
        }
    }
}

impl EnergyVad {
    /// A detector that has heard nothing.
    pub fn new() -> (vad: EnergyVad)
        ensures
            settled(vad@),
            vad@ == VadState::empty(),
    {
        let vad = EnergyVad {
            buf: Vec::new(),
            analyzed_samples: 0,
            has_speech: false,
            trailing_silence_frames: 0,
        };
        assert(vad@ =~= VadState::empty());
        vad
    }

    /// Appends the samples that `bytes` hold.
    fn append(&mut self, bytes: &[u8])
        requires
            old(self)@.valid(),
        ensures
            final(self)@.valid(),
            final(self)@ == old(self)@.appended(pcm16le(bytes@)),
    {
        append_pcm16le(&mut self.buf, bytes);
    }

    /// The next frame that is waiting to be judged.
    fn next_frame(&self) -> (frame: Option<&[i16]>)
        requires
            self@.valid(),
        ensures
            match frame {
                Some(f) => self@.waiting() > 0 && f@ == self@.frame(0),
                None => self@.waiting() == 0,
            },
    {
        if self.buf.len() - self.analyzed_samples >= FRAME_SAMPLES {
            Some(
                slice_subrange(
                    self.buf.as_slice(),
                    self.analyzed_samples,
                    self.analyzed_samples + FRAME_SAMPLES,
                ),
            )
        } else {
            None
        }
    }

    /// Takes the verdict on the next frame: whether it holds speech.
    fn judge(&mut self, speech: bool)
        requires
            old(self)@.valid(),
            old(self)@.waiting() > 0,
        ensures
            final(self)@.valid(),
            final(self)@ == old(self)@.judged(speech),
    {
        let ghost before = self@;
        assert(self.analyzed_samples + FRAME_SAMPLES <= self.buf.len());
        self.analyzed_samples += FRAME_SAMPLES;
        if speech {
            self.has_speech = true;
            self.trailing_silence_frames = 0;
        } else {
            self.trailing_silence_frames += 1;
        }
        assert(self@ =~= before.judged(speech));
    }

    /// Judges every frame that waits.
    fn judge_waiting<F: Fn(&[i16]) -> bool>(&mut self, is_speech: &F)
        requires
            old(self)@.valid(),
            forall|f: &[i16]| #[trigger] call_requires(*is_speech, (f,)),
        ensures
            final(self)@.valid(),
            exists|verdicts: Seq<bool>|
                {
                    &&& verdicts.len() == old(self)@.waiting()
                    &&& judges(*is_speech, old(self)@, verdicts)
                    &&& final(self)@ == #[trigger] old(self)@.judged_all(verdicts)
                },
    {
        let ghost all = self@;
        let ghost mut verdicts: Seq<bool> = Seq::empty();
        let mut more: bool = true;
        while more
            invariant
                forall|f: &[i16]| #[trigger] call_requires(*is_speech, (f,)),
                self@.valid(),
                all.valid(),
                self@ == all.judged_all(verdicts),
                self@.waiting() + verdicts.len() == all.waiting(),
                judges(*is_speech, all, verdicts),
                !more ==> self@.waiting() == 0,
            decreases self@.waiting(), (if more { 1int } else { 0int }),
        {
            proof {
                lemma_judged_all(all, verdicts);
            }
            match self.next_frame() {
                Some(frame) => {
                    let speech: bool = is_speech(frame);
                    proof {
                        assert(frame@ =~= all.frame(verdicts.len() as int));
                        assert(judges_frame(*is_speech, all.frame(verdicts.len() as int), speech));
                        let longer = verdicts.push(speech);
                        assert(longer.drop_last() =~= verdicts);
                        assert forall|i: int| 0 <= i < longer.len() implies judges_frame(
                            *is_speech,
                            all.frame(i),
                            #[trigger] longer[i],
                        ) by {
                            if i < verdicts.len() {
                                assert(longer[i] == verdicts[i]);
                            }
                        }
                        verdicts = longer;
                    }
                    self.judge(speech);
                },
                None => {
                    more = false;
                },
            }
        }
    }

    /// Cuts a chunk of at most five seconds if one is due. What is left begins a new
    /// chunk.
    fn cut(&mut self) -> (chunk: Option<Vec<i16>>)
        requires
            old(self)@.valid(),
        ensures
            final(self)@.valid(),
            match chunk {
                Some(c) => old(self)@.cut_due() && c@ == old(self)@.first() && final(self)@
                    == old(self)@.rest(),
                None => !old(self)@.cut_due() && final(self)@ == old(self)@,
            },
    {
        let silence_hang_reached: bool = self.has_speech && self.trailing_silence_frames
            >= SILENCE_HANG_FRAMES;
        let hard_cap_reached: bool = self.buf.len() >= MAX_BUFFER_SAMPLES;
        if silence_hang_reached || hard_cap_reached {
            let ghost before = self@;
            let n: usize = if self.buf.len() <= MAX_BUFFER_SAMPLES {
                self.buf.len()
            } else {
                MAX_BUFFER_SAMPLES
            };
            let mut rest = self.buf.split_off(n);
            let chunk = self.take_all();
            std::mem::swap(&mut rest, &mut self.buf);
            assert(chunk@ =~= before.first());
            assert(self@ =~= before.rest());
            Some(chunk)
        } else {
            None
        }
    }

    /// Takes raw 16-bit samples and hands out every chunk that is to be cut, in order.
    /// `is_speech` judges the frames that are complete.
    pub fn push<F: Fn(&[i16]) -> bool>(&mut self, bytes: &[u8], is_speech: F) -> (chunks: Vec<
        Vec<i16>,
    >)
        requires
            settled(old(self)@),
            forall|f: &[i16]| #[trigger] call_requires(is_speech, (f,)),
        ensures
            settled(final(self)@),
            exists|rounds: Seq<Seq<bool>>|
                {
                    let all = old(self)@.appended(pcm16le(bytes@));
                    &&& all.settled_by(rounds)
                    &&& judges_rounds(is_speech, all, rounds)
                    &&& final(self)@ == #[trigger] old(self)@.pushed(bytes@, rounds)
                    &&& views(chunks@) == old(self)@.chunks(bytes@, rounds)
                },
            forall|i: int|
                0 <= i < chunks@.len() ==> (#[trigger] chunks@[i])@.len() <= MAX_BUFFER_SAMPLES,
    {
        let ghost start = self@;
        self.append(bytes);
        let ghost all = self@;
        let mut chunks: Vec<Vec<i16>> = Vec::new();
        let ghost mut cut_rounds: Seq<Seq<bool>> = Seq::empty();
        let ghost mut rounds: Seq<Seq<bool>> = Seq::empty();
        let mut more: bool = true;
        assert(views(chunks@) =~= Seq::empty());
        while more
            invariant
                forall|f: &[i16]| #[trigger] call_requires(is_speech, (f,)),
                self@.valid(),
                all.due_after(cut_rounds),
                judges_rounds(is_speech, all, cut_rounds),
                views(chunks@) == all.chunks_after(cut_rounds),
                forall|i: int|
                    0 <= i < chunks@.len() ==> (#[trigger] chunks@[i])@.len()
                        <= MAX_BUFFER_SAMPLES,
                more ==> self@ == all.cut_after(cut_rounds),
                !more ==> {
                    &&& settled(self@)
                    &&& rounds.drop_last() == cut_rounds
                    &&& all.settled_by(rounds)
                    &&& judges_rounds(is_speech, all, rounds)
                    &&& self@ == all.cut_after(cut_rounds).judged_all(rounds.last())
                },
            decreases self@.buf.len(), (if more { 1int } else { 0int }),
        {
            let ghost before = self@;
            self.judge_waiting(&is_speech);
            let ghost verdicts = choose|verdicts: Seq<bool>|
                {
                    &&& verdicts.len() == before.waiting()
                    &&& judges(is_speech, before, verdicts)
                    &&& self@ == #[trigger] before.judged_all(verdicts)
                };
            let ghost longer = cut_rounds.push(verdicts);
            proof {
                lemma_judged_all(before, verdicts);
                assert(longer.drop_last() =~= cut_rounds);
            }
            match self.cut() {
                Some(chunk) => {
                    let ghost earlier = chunks@;
                    chunks.push(chunk);
                    assert(views(chunks@) =~= views(earlier).push(chunk@));
                    proof {
                        cut_rounds = longer;
                    }
                },
                None => {
                    more = false;
                    proof {
                        rounds = longer;
                    }
                },
            }
        }
        assert(self@ == start.pushed(bytes@, rounds));
        chunks
    }

    fn take_all(&mut self) -> (chunk: Vec<i16>)
        ensures
            chunk@ == old(self)@.buf,
            final(self)@ == VadState::empty(),
    {
        self.analyzed_samples = 0;
        self.has_speech = false;
        self.trailing_silence_frames = 0;
        let mut chunk: Vec<i16> = Vec::new();
        std::mem::swap(&mut chunk, &mut self.buf);
        assert(self@ =~= VadState::empty());
        chunk
    }

    /// Hands out everything that is buffered, less than five seconds, and begins a new
    /// chunk.
    pub fn take(&mut self) -> (chunk: Vec<i16>)
        requires
            settled(old(self)@),
        ensures
            chunk@ == old(self)@.buf,
            chunk@.len() < MAX_BUFFER_SAMPLES,
            final(self)@ == VadState::empty(),
            settled(final(self)@),
    {
        self.take_all()
    }
}

/// The samples of `parts`, one after the other.
pub open spec fn concatenated(parts: Seq<Seq<i16>>) -> Seq<i16>
    decreases parts.len(),
{
    if parts.len() == 0 {
        Seq::empty()
    } else {
        concatenated(parts.drop_last()) + parts.last()
    }
}

/// Concatenating more parts appends what they hold.
pub proof fn lemma_concatenated(a: Seq<Seq<i16>>, b: Seq<Seq<i16>>)
    ensures
        concatenated(a + b) == concatenated(a) + concatenated(b),
    decreases b.len(),
{
    if b.len() == 0 {
        assert(a + b =~= a);
        assert(concatenated(a) + concatenated(b) =~= concatenated(a));
    } else {
        lemma_concatenated(a, b.drop_last());
        assert((a + b).drop_last() =~= a + b.drop_last());
        assert(concatenated(a + b) =~= concatenated(a) + concatenated(b));
    }
}

/// What holds after every round: the state is valid, no sample is lost, and every chunk
/// holds samples, but not more than five seconds of them.
proof fn lemma_rounds(s: VadState, rounds: Seq<Seq<bool>>)
    requires
        s.valid(),
        s.due_after(rounds),
    ensures
        s.cut_after(rounds).valid(),
        s.chunks_after(rounds).len() == rounds.len(),
        concatenated(s.chunks_after(rounds)) + s.cut_after(rounds).buf == s.buf,
        forall|i: int|
            0 <= i < rounds.len() ==> 0 < (#[trigger] s.chunks_after(rounds)[i]).len()
                <= MAX_BUFFER_SAMPLES,
    decreases rounds.len(),
{
    if rounds.len() == 0 {
        assert(concatenated(s.chunks_after(rounds)) + s.buf =~= s.buf);
    } else {
        let earlier = rounds.drop_last();
        lemma_rounds(s, earlier);
        let before = s.cut_after(earlier);
        lemma_judged_all(before, rounds.last());
        let chunks = s.chunks_after(rounds);
        assert(chunks.drop_last() =~= s.chunks_after(earlier));
        assert(before.buf =~= before.judged_all(rounds.last()).first() + s.cut_after(rounds).buf);
        assert(concatenated(chunks) + s.cut_after(rounds).buf =~= concatenated(
            s.chunks_after(earlier),
        ) + before.buf);
    }
}

/// The first of the rounds that make chunks due makes one due.
proof fn lemma_first_round(s: VadState, rounds: Seq<Seq<bool>>)
    requires
        s.due_after(rounds),
        rounds.len() > 0,
    ensures
        rounds[0].len() == s.waiting(),
        s.judged_all(rounds[0]).cut_due(),
        s.chunks_after(rounds).len() == rounds.len(),
        s.chunks_after(rounds)[0] == s.judged_all(rounds[0]).first(),
    decreases rounds.len(),
{
    let earlier = rounds.drop_last();
    if earlier.len() > 0 {
        lemma_first_round(s, earlier);
        assert(earlier[0] == rounds[0]);
    } else {
        assert(s.cut_after(earlier) == s);
        assert(s.chunks_after(earlier) =~= Seq::empty());
    }
}

/// Whether the first round makes a chunk due decides whether there are further rounds.
proof fn lemma_one_round(s: VadState, rounds: Seq<Seq<bool>>)
    requires
        s.settled_by(rounds),
    ensures
        rounds[0].len() == s.waiting(),
        rounds.len() == 1 <==> !s.judged_all(rounds[0]).cut_due(),
{
    if rounds.len() > 1 {
        lemma_first_round(s, rounds.drop_last());
    } else {
        assert(s.cut_after(rounds.drop_last()) == s);
    }
}

/// What is left once everything that was due was cut is settled.
pub proof fn lemma_pushed(s: VadState, bytes: Seq<u8>, rounds: Seq<Seq<bool>>)
    requires
        s.valid(),
        s.appended(pcm16le(bytes)).settled_by(rounds),
    ensures
        settled(s.pushed(bytes, rounds)),
{
    let all = s.appended(pcm16le(bytes));
    lemma_rounds(all, rounds.drop_last());
    lemma_judged_all(all.cut_after(rounds.drop_last()), rounds.last());
}

/// A message neither loses nor repeats audio: what was buffered, followed by what the
/// message brings, is what the chunks hold that are cut, followed by what is buffered
/// then.
pub proof fn law_push_keeps_audio(s: VadState, bytes: Seq<u8>, rounds: Seq<Seq<bool>>)
    requires
        s.valid(),
        s.appended(pcm16le(bytes)).settled_by(rounds),
    ensures
        s.buf + pcm16le(bytes) == concatenated(s.chunks(bytes, rounds)) + s.pushed(
            bytes,
            rounds,
        ).buf,
{
    let all = s.appended(pcm16le(bytes));
    lemma_rounds(all, rounds.drop_last());
    lemma_judged_all(all.cut_after(rounds.drop_last()), rounds.last());
}

/// The chunks that are cut while `messages` arrive, one after the other; each message
/// comes with the rounds in which frames were judged.
pub open spec fn stream_chunks(messages: Seq<(Seq<u8>, Seq<Seq<bool>>)>) -> Seq<Seq<i16>>
    decreases messages.len(),
{
    if messages.len() == 0 {
        Seq::empty()
    } else {
        stream_chunks(messages.drop_last()) + stream_state(messages.drop_last()).chunks(
            messages.last().0,
            messages.last().1,
        )
    }
}

/// The state of a new detector after `messages` arrived.
pub open spec fn stream_state(messages: Seq<(Seq<u8>, Seq<Seq<bool>>)>) -> VadState
    decreases messages.len(),
{
    if messages.len() == 0 {
        VadState::empty()
    } else {
        stream_state(messages.drop_last()).pushed(messages.last().0, messages.last().1)
    }
}

/// The samples of `messages`, one after the other.
pub open spec fn stream_samples(messages: Seq<(Seq<u8>, Seq<Seq<bool>>)>) -> Seq<i16>
    decreases messages.len(),
{
    if messages.len() == 0 {
        Seq::empty()
    } else {
        stream_samples(messages.drop_last()) + pcm16le(messages.last().0)
    }
}

/// Whether after every message chunks were cut until none was due.
pub open spec fn stream_settled(messages: Seq<(Seq<u8>, Seq<Seq<bool>>)>) -> bool
    decreases messages.len(),
{
    messages.len() == 0 || {
        &&& stream_settled(messages.drop_last())
        &&& stream_state(messages.drop_last()).appended(
            pcm16le(messages.last().0),
        ).settled_by(messages.last().1)
    }
}

proof fn lemma_stream_step(
    chunks: Seq<Seq<i16>>,
    s: VadState,
    samples: Seq<i16>,
    bytes: Seq<u8>,
    rounds: Seq<Seq<bool>>,
)
    requires
        s.valid(),
        s.appended(pcm16le(bytes)).settled_by(rounds),
        concatenated(chunks) + s.buf == samples,
    ensures
        concatenated(chunks + s.chunks(bytes, rounds)) + s.pushed(bytes, rounds).buf == samples
            + pcm16le(bytes),
{
    law_push_keeps_audio(s, bytes, rounds);
    lemma_concatenated(chunks, s.chunks(bytes, rounds));
    assert(concatenated(chunks) + concatenated(s.chunks(bytes, rounds)) + s.pushed(
        bytes,
        rounds,
    ).buf =~= concatenated(chunks) + (s.buf + pcm16le(bytes)));
    assert(concatenated(chunks) + (s.buf + pcm16le(bytes)) =~= samples + pcm16le(bytes));
}

/// A stream is cut into chunks without losing, repeating or reordering anything: all
/// chunks one after the other, and then what is still buffered, are all samples of the
/// stream.
pub proof fn law_stream_is_kept(messages: Seq<(Seq<u8>, Seq<Seq<bool>>)>)
    requires
        stream_settled(messages),
    ensures
        concatenated(stream_chunks(messages)) + stream_state(messages).buf == stream_samples(
            messages,
        ),
        settled(stream_state(messages)),
    decreases messages.len(),
{
    if messages.len() > 0 {
        let shorter = messages.drop_last();
        let (bytes, rounds) = messages.last();
        law_stream_is_kept(shorter);
        lemma_stream_step(
            stream_chunks(shorter),
            stream_state(shorter),
            stream_samples(shorter),
            bytes,
            rounds,
        );
        lemma_pushed(stream_state(shorter), bytes, rounds);
    } else {
        assert(concatenated(stream_chunks(messages)) + stream_state(messages).buf
            =~= stream_samples(messages));
    }
}

/// Between messages less than five seconds of audio are buffered.
pub proof fn law_buffer_is_bounded(s: VadState, bytes: Seq<u8>, rounds: Seq<Seq<bool>>)
    requires
        s.appended(pcm16le(bytes)).settled_by(rounds),
    ensures
        s.pushed(bytes, rounds).buf.len() < MAX_BUFFER_SAMPLES,
{
}

/// Every chunk holds audio, and lasts at most five seconds, however much audio a message
/// brings.
pub proof fn law_chunks_last_at_most_five_seconds(
    s: VadState,
    bytes: Seq<u8>,
    rounds: Seq<Seq<bool>>,
    i: int,
)
    requires
        s.valid(),
        s.appended(pcm16le(bytes)).settled_by(rounds),
        0 <= i < s.chunks(bytes, rounds).len(),
    ensures
        0 < s.chunks(bytes, rounds)[i].len() <= MAX_BUFFER_SAMPLES,
        s.chunks(bytes, rounds)[i].len() <= 5 * TARGET_SAMPLE_RATE,
{
    lemma_rounds(s.appended(pcm16le(bytes)), rounds.drop_last());
}

/// Full buffers are always cut, whether or not anything was said: the first chunk is
/// the first five seconds.
pub proof fn law_full_buffer_is_cut(s: VadState, bytes: Seq<u8>, rounds: Seq<Seq<bool>>)
    requires
        s.valid(),
        s.appended(pcm16le(bytes)).settled_by(rounds),
        s.buf.len() + pcm16le(bytes).len() >= MAX_BUFFER_SAMPLES,
    ensures
        s.chunks(bytes, rounds).len() > 0,
        s.chunks(bytes, rounds)[0] == (s.buf + pcm16le(bytes)).take(MAX_BUFFER_SAMPLES as int),
{
    let all = s.appended(pcm16le(bytes));
    lemma_one_round(all, rounds);
    lemma_judged_all(all, rounds[0]);
    lemma_first_round(all, rounds.drop_last());
}

/// Silence by itself is never cut out before the buffer is full.
pub proof fn law_silence_is_not_cut(s: VadState, bytes: Seq<u8>, rounds: Seq<Seq<bool>>)
    requires
        s.valid(),
        !s.has_speech,
        s.appended(pcm16le(bytes)).settled_by(rounds),
        forall|i: int| 0 <= i < rounds[0].len() ==> !(#[trigger] rounds[0][i]),
        s.buf.len() + pcm16le(bytes).len() < MAX_BUFFER_SAMPLES,
    ensures
        s.chunks(bytes, rounds).len() == 0,
{
    let all = s.appended(pcm16le(bytes));
    lemma_one_round(all, rounds);
    lemma_judged_all(all, rounds[0]);
    lemma_no_speech(all, rounds[0]);
}

proof fn lemma_no_speech(s: VadState, verdicts: Seq<bool>)
    requires
        !s.has_speech,
        forall|i: int| 0 <= i < verdicts.len() ==> !(#[trigger] verdicts[i]),
    ensures
        !s.judged_all(verdicts).has_speech,
    decreases verdicts.len(),
{
    if verdicts.len() > 0 {
        lemma_no_speech(s, verdicts.drop_last());
        assert(!verdicts[verdicts.len() - 1]);
    }
}

/// How many silent frames there were since the last frame with speech, where that is
/// the frame before frame `spoken` of those that `verdicts` judge, or lies before all of
/// them.
pub open spec fn pause(s: VadState, verdicts: Seq<bool>, spoken: int) -> int {
    if spoken == 0 {
        (s.silent + verdicts.len()) as int
    } else {
        verdicts.len() - spoken
    }
}

/// As long as the buffer is not full, the pause decides: once there was speech, in an
/// earlier message or in this one, the chunk is cut if 400 ms of silence, 20 frames, have
/// followed it, and not before. It is then the whole buffer.
pub proof fn law_pause_ends_a_chunk(
    s: VadState,
    bytes: Seq<u8>,
    rounds: Seq<Seq<bool>>,
    spoken: int,
)
    requires
        s.valid(),
        s.appended(pcm16le(bytes)).settled_by(rounds),
        0 <= spoken <= rounds[0].len(),
        if spoken == 0 {
            s.has_speech
        } else {
            rounds[0][spoken - 1]
        },
        forall|i: int| spoken <= i < rounds[0].len() ==> !(#[trigger] rounds[0][i]),
        s.buf.len() + pcm16le(bytes).len() < MAX_BUFFER_SAMPLES,
    ensures
        s.chunks(bytes, rounds) == if pause(s, rounds[0], spoken) >= 20 {
            seq![s.buf + pcm16le(bytes)]
        } else {
            Seq::empty()
        },
{
    let all = s.appended(pcm16le(bytes));
    let cut_rounds = rounds.drop_last();
    lemma_one_round(all, rounds);
    lemma_judged_all(all, rounds[0]);
    lemma_pause(all, rounds[0], spoken);
    lemma_rounds(all, cut_rounds);
    let chunks = all.chunks_after(cut_rounds);
    if cut_rounds.len() > 0 {
        lemma_first_round(all, cut_rounds);
        assert(chunks[0] =~= all.buf);
        lemma_rest_of_whole(chunks, all.cut_after(cut_rounds).buf, all.buf);
    }
}

/// Where the first part already is the whole, and no part is empty, there is no other.
proof fn lemma_rest_of_whole(parts: Seq<Seq<i16>>, left: Seq<i16>, whole: Seq<i16>)
    requires
        parts.len() > 0,
        parts[0] == whole,
        concatenated(parts) + left == whole,
        forall|i: int| 0 <= i < parts.len() ==> (#[trigger] parts[i]).len() > 0,
    ensures
        parts == seq![whole],
{
    let head = seq![parts[0]];
    let tail = parts.drop_first();
    assert(parts =~= head + tail);
    lemma_concatenated(head, tail);
    assert(head.drop_last() =~= Seq::empty());
    assert(concatenated(head) =~= whole);
    if tail.len() > 0 {
        assert(parts[parts.len() - 1].len() > 0);
        assert(tail.last() == parts[parts.len() - 1]);
        assert(concatenated(tail).len() > 0);
        assert((concatenated(parts) + left).len() > whole.len());
    }
    assert(parts =~= seq![whole]);
}

proof fn lemma_pause(s: VadState, verdicts: Seq<bool>, spoken: int)
    requires
        0 <= spoken <= verdicts.len(),
        if spoken == 0 {
            s.has_speech
        } else {
            verdicts[spoken - 1]
        },
        forall|i: int| spoken <= i < verdicts.len() ==> !(#[trigger] verdicts[i]),
    ensures
        s.judged_all(verdicts).has_speech,
        s.judged_all(verdicts).silent == pause(s, verdicts, spoken),
    decreases verdicts.len(),
{
    if spoken < verdicts.len() {
        assert(!verdicts[verdicts.len() - 1]);
        lemma_pause(s, verdicts.drop_last(), spoken);
    }
}

/// Raw samples may be split anywhere between two samples.
pub proof fn law_samples_may_be_split(a: Seq<u8>, b: Seq<u8>)
    requires
        a.len() % 2 == 0,
    ensures
        pcm16le(a + b) == pcm16le(a) + pcm16le(b),
{
    let n = a.len() / 2;
    assert forall|i: int| 0 <= i < pcm16le(a + b).len() implies #[trigger] pcm16le(a + b)[i] == (
    pcm16le(a) + pcm16le(b))[i] by {
        if i >= n {
            assert((a + b)[2 * i] == b[2 * (i - n)]);
            assert((a + b)[2 * i + 1] == b[2 * (i - n) + 1]);
        }
    }
    assert(pcm16le(a + b) =~= pcm16le(a) + pcm16le(b));
}

proof fn lemma_judged_in_two(s: VadState, u: Seq<bool>, v: Seq<bool>)
    ensures
        s.judged_all(u + v) == s.judged_all(u).judged_all(v),
    decreases v.len(),
{
    if v.len() == 0 {
        assert(u + v =~= u);
    } else {
        lemma_judged_in_two(s, u, v.drop_last());
        assert((u + v).drop_last() =~= u + v.drop_last());
    }
}

proof fn lemma_judged_then_appended(s: VadState, verdicts: Seq<bool>, samples: Seq<i16>)
    ensures
        s.judged_all(verdicts).appended(samples) == s.appended(samples).judged_all(verdicts),
    decreases verdicts.len(),
{
    if verdicts.len() > 0 {
        lemma_judged_then_appended(s, verdicts.drop_last(), samples);
    }
}

/// Rounds in which `earlier` verdicts come before those of the first.
pub open spec fn joined_rounds(earlier: Seq<bool>, rounds: Seq<Seq<bool>>) -> Seq<Seq<bool>> {
    rounds.update(0, earlier + rounds[0])
}

/// Where some frames of the first round were judged before, the rounds come out the same.
proof fn lemma_rounds_in_two(s: VadState, earlier: Seq<bool>, rounds: Seq<Seq<bool>>)
    requires
        s.valid(),
        earlier.len() <= s.waiting(),
        rounds.len() > 0,
    ensures
        s.cut_after(joined_rounds(earlier, rounds)) == s.judged_all(earlier).cut_after(rounds),
        s.chunks_after(joined_rounds(earlier, rounds)) == s.judged_all(earlier).chunks_after(
            rounds,
        ),
        s.due_after(joined_rounds(earlier, rounds)) == s.judged_all(earlier).due_after(rounds),
    decreases rounds.len(),
{
    let joined = joined_rounds(earlier, rounds);
    let t = s.judged_all(earlier);
    lemma_judged_all(s, earlier);
    if rounds.len() > 1 {
        lemma_rounds_in_two(s, earlier, rounds.drop_last());
        assert(joined.drop_last() =~= joined_rounds(earlier, rounds.drop_last()));
        assert(joined.last() == rounds.last());
    } else {
        lemma_judged_in_two(s, earlier, rounds[0]);
        assert(joined.drop_last() =~= Seq::empty());
        assert(rounds.drop_last() =~= Seq::empty());
        assert(s.cut_after(joined.drop_last()) == s);
        assert(t.cut_after(rounds.drop_last()) == t);
        assert(s.chunks_after(joined.drop_last()) =~= t.chunks_after(rounds.drop_last()));
        assert(s.due_after(joined.drop_last()) && t.due_after(rounds.drop_last()));
        assert(s.waiting() == t.waiting() + earlier.len());
    }
}

/// How audio is split over messages does not matter as long as no chunk is due in
/// between: two messages, the first of which holds whole samples and makes no chunk due,
/// lead to the same chunks and leave the same state as one message with the audio of
/// both, each frame being judged alike.
pub proof fn law_split_over_messages_does_not_matter(
    s: VadState,
    a: Seq<u8>,
    b: Seq<u8>,
    verdicts: Seq<bool>,
    rounds: Seq<Seq<bool>>,
)
    requires
        s.valid(),
        a.len() % 2 == 0,
        s.appended(pcm16le(a)).settled_by(seq![verdicts]),
        s.pushed(a, seq![verdicts]).appended(pcm16le(b)).settled_by(rounds),
    ensures
        s.chunks(a, seq![verdicts]).len() == 0,
        s.appended(pcm16le(a + b)).settled_by(joined_rounds(verdicts, rounds)),
        s.chunks(a + b, joined_rounds(verdicts, rounds)) == s.pushed(a, seq![verdicts]).chunks(
            b,
            rounds,
        ),
        s.pushed(a + b, joined_rounds(verdicts, rounds)) == s.pushed(a, seq![verdicts]).pushed(
            b,
            rounds,
        ),
{
    let first = s.appended(pcm16le(a));
    let all = s.appended(pcm16le(a + b));
    let joined = joined_rounds(verdicts, rounds);
    let cut_rounds = rounds.drop_last();
    assert(seq![verdicts].drop_last() =~= Seq::empty());
    assert(first.cut_after(seq![verdicts].drop_last()) == first);
    assert(s.pushed(a, seq![verdicts]) == first.judged_all(verdicts));
    law_samples_may_be_split(a, b);
    assert(all =~= first.appended(pcm16le(b)));
    lemma_judged_then_appended(first, verdicts, pcm16le(b));
    let t = all.judged_all(verdicts);
    assert(t == s.pushed(a, seq![verdicts]).appended(pcm16le(b)));
    assert(verdicts.len() <= all.waiting());
    lemma_judged_all(all, verdicts);
    if cut_rounds.len() > 0 {
        lemma_rounds_in_two(all, verdicts, cut_rounds);
        assert(joined.drop_last() =~= joined_rounds(verdicts, cut_rounds));
        assert(joined.last() == rounds.last());
    } else {
        lemma_judged_in_two(all, verdicts, rounds[0]);
        assert(joined.drop_last() =~= Seq::empty());
        assert(all.cut_after(joined.drop_last()) == all);
        assert(t.cut_after(cut_rounds) == t);
        assert(all.chunks_after(joined.drop_last()) =~= t.chunks_after(cut_rounds));
        assert(all.waiting() == t.waiting() + verdicts.len());
    }
}

/// What one of the rounds that make chunks due leads to.
proof fn lemma_round(s: VadState, rounds: Seq<Seq<bool>>, j: int)
    requires
        s.due_after(rounds),
        0 <= j < rounds.len(),
    ensures
        s.due_after(rounds.take(j)),
        rounds[j].len() == s.cut_after(rounds.take(j)).waiting(),
        s.cut_after(rounds.take(j)).judged_all(rounds[j]).cut_due(),
        s.chunks_after(rounds).len() == rounds.len(),
        s.chunks_after(rounds)[j] == s.cut_after(rounds.take(j)).judged_all(rounds[j]).first(),
        s.chunks_after(rounds).take(j) == s.chunks_after(rounds.take(j)),
    decreases rounds.len(),
{
    let earlier = rounds.drop_last();
    lemma_chunk_count(s, rounds);
    lemma_chunk_count(s, earlier);
    if j == rounds.len() - 1 {
        assert(rounds.take(j) =~= earlier);
        assert(s.chunks_after(rounds).take(j) =~= s.chunks_after(earlier));
    } else {
        lemma_round(s, earlier, j);
        assert(earlier.take(j) =~= rounds.take(j));
        assert(s.chunks_after(rounds).take(j) =~= s.chunks_after(earlier).take(j));
    }
}

proof fn lemma_chunk_count(s: VadState, rounds: Seq<Seq<bool>>)
    ensures
        s.chunks_after(rounds).len() == rounds.len(),
    decreases rounds.len(),
{
    if rounds.len() > 0 {
        lemma_chunk_count(s, rounds.drop_last());
    }
}

/// How many of the last verdicts are silent.
spec fn trailing(verdicts: Seq<bool>) -> nat
    decreases verdicts.len(),
{
    if verdicts.len() == 0 || verdicts.last() {
        0
    } else {
        trailing(verdicts.drop_last()) + 1
    }
}

/// Whether a state remembers of `verdicts` what it has to.
spec fn remembers(s: VadState, verdicts: Seq<bool>) -> bool {
    &&& s.analyzed == 320 * verdicts.len()
    &&& s.has_speech == verdicts.contains(true)
    &&& s.silent == trailing(verdicts)
}

proof fn lemma_remembers(s: VadState, before: Seq<bool>, verdicts: Seq<bool>)
    requires
        remembers(s, before),
    ensures
        remembers(s.judged_all(verdicts), before + verdicts),
    decreases verdicts.len(),
{
    if verdicts.len() == 0 {
        assert(before + verdicts =~= before);
    } else {
        let shorter = before + verdicts.drop_last();
        let all = before + verdicts;
        lemma_remembers(s, before, verdicts.drop_last());
        assert(all.drop_last() =~= shorter);
        assert(all.contains(true) == (shorter.contains(true) || all.last())) by {
            if shorter.contains(true) {
                let i = choose|i: int| 0 <= i < shorter.len() && shorter[i] == true;
                assert(all[i] == true);
            }
            if all.contains(true) && !all.last() {
                let i = choose|i: int| 0 <= i < all.len() && all[i] == true;
                assert(shorter[i] == true);
            }
        }
    }
}

proof fn lemma_trailing(verdicts: Seq<bool>, n: int)
    requires
        n >= 0,
    ensures
        trailing(verdicts) <= verdicts.len(),
        trailing(verdicts) >= n <==> verdicts.len() >= n && forall|k: int|
            verdicts.len() - n <= k < verdicts.len() ==> !(#[trigger] verdicts[k]),
    decreases verdicts.len(),
{
    if verdicts.len() > 0 && n > 0 {
        let shorter = verdicts.drop_last();
        lemma_trailing(shorter, n - 1);
        if trailing(verdicts) >= n {
            assert forall|k: int| verdicts.len() - n <= k < verdicts.len() implies !(
            #[trigger] verdicts[k]) by {
                if k < verdicts.len() - 1 {
                    assert(!shorter[k]);
                }
            }
        }
        if verdicts.len() >= n && forall|k: int|
            verdicts.len() - n <= k < verdicts.len() ==> !(#[trigger] verdicts[k]) {
            assert(!verdicts[verdicts.len() - 1]);
            assert forall|k: int| shorter.len() - (n - 1) <= k < shorter.len() implies !(
            #[trigger] shorter[k]) by {
                assert(!verdicts[k]);
            }
        }
    } else if verdicts.len() > 0 {
        lemma_trailing(verdicts.drop_last(), 0);
    }
}

/// The verdicts on the frames since the last cut, after `messages` arrived.
pub open spec fn since_cut(messages: Seq<(Seq<u8>, Seq<Seq<bool>>)>) -> Seq<bool>
    decreases messages.len(),
{
    if messages.len() == 0 {
        Seq::empty()
    } else if messages.last().1.len() <= 1 {
        since_cut(messages.drop_last()) + messages.last().1.last()
    } else {
        messages.last().1.last()
    }
}

/// The verdicts on the frames since the last cut, in round `j` after the last of
/// `messages` arrived.
pub open spec fn verdicts_in_round(messages: Seq<(Seq<u8>, Seq<Seq<bool>>)>, j: int) -> Seq<bool> {
    if j == 0 {
        since_cut(messages.drop_last()) + messages.last().1[0]
    } else {
        messages.last().1[j]
    }
}

/// The audio since the last cut, in round `j` after the last of `messages` arrived: all
/// audio of the stream but what the chunks before hold.
pub open spec fn audio_in_round(messages: Seq<(Seq<u8>, Seq<Seq<bool>>)>, j: int) -> Seq<i16> {
    stream_samples(messages).skip(
        concatenated(
            stream_chunks(messages.drop_last()) + stream_state(messages.drop_last()).chunks(
                messages.last().0,
                messages.last().1,
            ).take(j),
        ).len() as int,
    )
}

proof fn lemma_round_of_stream(messages: Seq<(Seq<u8>, Seq<Seq<bool>>)>, j: int)
    requires
        stream_settled(messages),
        messages.len() > 0,
        0 <= j < messages.last().1.len(),
        remembers(
            stream_state(messages.drop_last()),
            since_cut(messages.drop_last()),
        ),
    ensures
        ({
            let rounds = messages.last().1;
            let all = stream_state(messages.drop_last()).appended(pcm16le(messages.last().0));
            let before = all.cut_after(rounds.take(j));
            &&& before.valid()
            &&& rounds[j].len() == before.waiting()
            &&& remembers(before.judged_all(rounds[j]), verdicts_in_round(messages, j))
            &&& before.buf == audio_in_round(messages, j)
            &&& before.judged_all(rounds[j]).cut_due() <==> j < rounds.len() - 1
        }),
{
    let shorter = messages.drop_last();
    let (bytes, rounds) = messages.last();
    let s = stream_state(shorter);
    let all = s.appended(pcm16le(bytes));
    let cut_rounds = rounds.drop_last();
    law_stream_is_kept(shorter);
    let before = all.cut_after(rounds.take(j));
    if j < rounds.len() - 1 {
        lemma_round(all, cut_rounds, j);
        assert(cut_rounds.take(j) =~= rounds.take(j));
        assert(cut_rounds[j] == rounds[j]);
    } else {
        assert(rounds.take(j) =~= cut_rounds);
        assert(rounds[j] == rounds.last());
        lemma_chunk_count(all, cut_rounds);
        assert(all.chunks_after(cut_rounds).take(j) =~= all.chunks_after(cut_rounds));
    }
    lemma_rounds(all, rounds.take(j));
    if j == 0 {
        assert(rounds.take(0) =~= Seq::empty());
        assert(before == all);
        lemma_remembers(all, since_cut(shorter), rounds[0]);
    } else {
        let nothing: Seq<bool> = Seq::empty();
        assert(rounds.take(j).len() > 0);
        assert(before.analyzed == 0 && !before.has_speech && before.silent == 0);
        assert(remembers(before, nothing));
        lemma_remembers(before, nothing, rounds[j]);
        assert(nothing + rounds[j] =~= rounds[j]);
    }
    let cut = all.chunks_after(rounds.take(j));
    lemma_concatenated(stream_chunks(shorter), cut);
    assert(stream_samples(messages) =~= concatenated(stream_chunks(shorter) + cut) + before.buf)
        by {
        assert(stream_samples(messages) =~= concatenated(stream_chunks(shorter)) + s.buf + pcm16le(
            bytes,
        ));
        assert(concatenated(stream_chunks(shorter)) + s.buf + pcm16le(bytes) =~= concatenated(
            stream_chunks(shorter),
        ) + all.buf);
        assert(concatenated(stream_chunks(shorter)) + (concatenated(cut) + before.buf)
            =~= concatenated(stream_chunks(shorter)) + concatenated(cut) + before.buf);
    }
    assert(before.buf =~= audio_in_round(messages, j));
}

proof fn lemma_stream_remembers(messages: Seq<(Seq<u8>, Seq<Seq<bool>>)>)
    requires
        stream_settled(messages),
    ensures
        remembers(stream_state(messages), since_cut(messages)),
    decreases messages.len(),
{
    if messages.len() > 0 {
        let rounds = messages.last().1;
        lemma_stream_remembers(messages.drop_last());
        lemma_round_of_stream(messages, rounds.len() - 1);
        assert(rounds.take(rounds.len() - 1) =~= rounds.drop_last());
        if rounds.len() == 1 {
            assert(rounds.last() == rounds[0]);
        }
    } else {
        assert(since_cut(messages) =~= Seq::empty());
    }
}

/// A stream is cut exactly where it has to be. In every round, with `audio` the audio
/// since the last cut and `verdicts` those on its frames: each complete frame of 320
/// samples was judged once; a chunk is cut if a frame held speech and the last 20 did not,
/// or if there are 80 000 samples, and else none is; and the chunk is the audio since the
/// last cut, up to 80 000 samples of it.
pub proof fn law_streams_are_cut_exactly(
    messages: Seq<(Seq<u8>, Seq<Seq<bool>>)>,
    j: int,
    audio: Seq<i16>,
    verdicts: Seq<bool>,
)
    requires
        stream_settled(messages),
        messages.len() > 0,
        0 <= j < messages.last().1.len(),
        audio == audio_in_round(messages, j),
        verdicts == verdicts_in_round(messages, j),
    ensures
        verdicts.len() == audio.len() / 320,
        j < stream_state(messages.drop_last()).chunks(
            messages.last().0,
            messages.last().1,
        ).len() <==> {
            ||| audio.len() >= 80_000
            ||| {
                &&& verdicts.contains(true)
                &&& verdicts.len() >= 20
                &&& forall|k: int|
                    verdicts.len() - 20 <= k < verdicts.len() ==> !(#[trigger] verdicts[k])
            }
        },
        j < stream_state(messages.drop_last()).chunks(messages.last().0, messages.last().1).len()
            ==> stream_state(messages.drop_last()).chunks(messages.last().0, messages.last().1)[j]
            == if audio.len() >= 80_000 {
            audio.take(80_000)
        } else {
            audio
        },
{
    let rounds = messages.last().1;
    let all = stream_state(messages.drop_last()).appended(pcm16le(messages.last().0));
    let cut_rounds = rounds.drop_last();
    let before = all.cut_after(rounds.take(j));
    lemma_stream_remembers(messages.drop_last());
    lemma_round_of_stream(messages, j);
    lemma_trailing(verdicts, 20);
    lemma_judged_all(before, rounds[j]);
    lemma_chunk_count(all, cut_rounds);
    if j < rounds.len() - 1 {
        lemma_round(all, cut_rounds, j);
        assert(cut_rounds.take(j) =~= rounds.take(j));
        assert(before.buf.take(before.buf.len() as int) =~= before.buf);
    }
}

/// Every chunk shorter than five seconds holds speech: one of its frames, all of which were
/// judged since the cut before it, was judged to hold some. So after a cut nothing is cut
/// out of silence before the buffer is full.
pub proof fn law_short_chunks_hold_speech(
    messages: Seq<(Seq<u8>, Seq<Seq<bool>>)>,
    j: int,
)
    requires
        stream_settled(messages),
        messages.len() > 0,
        0 <= j < stream_state(messages.drop_last()).chunks(
            messages.last().0,
            messages.last().1,
        ).len(),
        stream_state(messages.drop_last()).chunks(messages.last().0, messages.last().1)[j].len()
            < 80_000,
    ensures
        exists|k: int|
            0 <= k < verdicts_in_round(messages, j).len() && #[trigger] verdicts_in_round(
                messages,
                j,
            )[k],
{
    let rounds = messages.last().1;
    let all = stream_state(messages.drop_last()).appended(pcm16le(messages.last().0));
    lemma_chunk_count(all, rounds.drop_last());
    let verdicts = verdicts_in_round(messages, j);
    law_streams_are_cut_exactly(messages, j, audio_in_round(messages, j), verdicts);
    let k = choose|k: int| 0 <= k < verdicts.len() && verdicts[k] == true;
    assert(verdicts_in_round(messages, j)[k]);
}

/// Once a chunk was cut, the detector is as new with what is left: it cuts what a new
/// detector cuts that is given the samples that are left.
pub proof fn law_a_cut_begins_anew(s: VadState, rounds: Seq<Seq<bool>>)
    ensures
        s.rest().buf.len() == if s.buf.len() > 80_000 {
            s.buf.len() - 80_000
        } else {
            0
        },
        s.first() + s.rest().buf == s.buf,
        s.rest().cut_after(rounds) == VadState::empty().appended(s.rest().buf).cut_after(rounds),
        s.rest().chunks_after(rounds) == VadState::empty().appended(s.rest().buf).chunks_after(
            rounds,
        ),
{
    assert(s.first() + s.rest().buf =~= s.buf);
    assert(VadState::empty().appended(s.rest().buf) =~= s.rest());
}

/// Raw samples are 16-bit numbers in two's complement, lower byte first, and a byte that
/// is left over is none.
pub proof fn law_samples_are_little_endian(bytes: Seq<u8>, i: int)
    requires
        0 <= i < bytes.len() / 2,
    ensures
        pcm16le(bytes).len() == bytes.len() / 2,
        (pcm16le(bytes)[i] as int) % 65536 == bytes[2 * i] as int + 256 * (bytes[2 * i + 1] as int),
{
}

proof fn lemma_judges_round<F: Fn(&[i16]) -> bool>(
    is_speech: F,
    s: VadState,
    rounds: Seq<Seq<bool>>,
    j: int,
)
    requires
        judges_rounds(is_speech, s, rounds),
        0 <= j < rounds.len(),
    ensures
        judges(is_speech, s.cut_after(rounds.take(j)), rounds[j]),
    decreases rounds.len(),
{
    if j < rounds.len() - 1 {
        lemma_judges_round(is_speech, s, rounds.drop_last(), j);
        assert(rounds.drop_last().take(j) =~= rounds.take(j));
    } else {
        assert(rounds.take(j) =~= rounds.drop_last());
    }
}

/// A detector asks about each frame: verdict `i` of round `j` is an answer to the question
/// about samples `320 * i` to `320 * i + 320` of those that wait to be judged then.
pub proof fn law_verdicts_are_on_their_frames<F: Fn(&[i16]) -> bool>(
    is_speech: F,
    s: VadState,
    rounds: Seq<Seq<bool>>,
    j: int,
    i: int,
)
    requires
        s.valid(),
        s.settled_by(rounds),
        judges_rounds(is_speech, s, rounds),
        0 <= j < rounds.len(),
        0 <= i < rounds[j].len(),
    ensures
        exists|f: &[i16]|
            f@ == s.cut_after(rounds.take(j)).buf.skip(
                s.cut_after(rounds.take(j)).analyzed as int,
            ).subrange(320 * i, 320 * i + 320) && #[trigger] call_ensures(
                is_speech,
                (f,),
                rounds[j][i],
            ),
{
    let before = s.cut_after(rounds.take(j));
    lemma_judges_round(is_speech, s, rounds, j);
    if j < rounds.len() - 1 {
        lemma_round(s, rounds.drop_last(), j);
        assert(rounds.drop_last().take(j) =~= rounds.take(j));
    } else {
        assert(rounds.take(j) =~= rounds.drop_last());
    }
    lemma_rounds(s, rounds.take(j));
    let verdict = rounds[j][i];
    assert(judges_frame(is_speech, before.frame(i), verdict));
    let f = choose|f: &[i16]|
        f@ == before.frame(i) && #[trigger] call_ensures(is_speech, (f,), verdict);
    assert(f@ =~= before.buf.skip(before.analyzed as int).subrange(320 * i, 320 * i + 320));
    assert(call_ensures(is_speech, (f,), rounds[j][i]));
}

} // verus!
