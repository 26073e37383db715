//! What a transcriber takes and gives: audio, results and errors.

use vstd::prelude::*;

use std::sync::Arc;
use std::time::Duration;

use crate::text::decimal;
use crate::text::decimal_string;

verus! {

/// Samples per second of the audio that every transcriber takes.
pub const TARGET_SAMPLE_RATE: u32 = 16_000;

/// Channels of the audio that every transcriber takes.
pub const TARGET_CHANNELS: u16 = 1;

/// Sample rate and channel count of a [`PcmBuffer`].
#[derive(Debug, Clone, Copy, PartialEq, Eq, Structural)]
pub struct AudioFormat {
    pub sample_rate: u32,
    pub channels: u16,
}

impl AudioFormat {
    /// The format that every buffer is brought to before it reaches a transcriber.
    #[verifier::allow_in_spec]
    pub fn target() -> AudioFormat
        returns
            (AudioFormat { sample_rate: TARGET_SAMPLE_RATE, channels: TARGET_CHANNELS }),
    {
        AudioFormat { sample_rate: TARGET_SAMPLE_RATE, channels: TARGET_CHANNELS }
    }
}

/// Audio in samples of the type `S`, interleaved as `format` says.
#[derive(Debug)]
pub struct PcmBuffer<S> {
    pub samples: Vec<S>,
    pub format: AudioFormat,
}

/// How many milliseconds `samples` interleaved samples last.
pub open spec fn milliseconds(samples: nat, format: AudioFormat) -> nat {
    if format.sample_rate == 0 || format.channels == 0 {
        0
    } else {
        ((samples / format.channels as nat) * 1000 / format.sample_rate as nat) as nat
    }
}

impl<S> PcmBuffer<S> {
    /// Whether a thousand times the number of frames still is a 64-bit number.
    pub open spec fn measurable(&self) -> bool {
        self.format.sample_rate == 0 || self.format.channels == 0 || (self.samples@.len()
            / self.format.channels as nat) * 1000 <= u64::MAX
    }

    /// Tests whether the buffer is short enough for its duration to be computed.
    pub fn is_measurable(&self) -> (r: bool)
        ensures
            r == self.measurable(),
    {
        if self.format.sample_rate == 0 || self.format.channels == 0 {
            return true;
        }
        let frames: u64 = self.samples.len() as u64 / self.format.channels as u64;
        frames <= u64::MAX / 1000
    }

    /// How long the audio lasts, in whole milliseconds. A buffer without channels or
    /// without a sample rate lasts no time.
    pub fn duration_ms(&self) -> (ms: u64)
        requires
            self.measurable(),
        ensures
            ms == milliseconds(self.samples@.len(), self.format),
    {
        if self.format.sample_rate == 0 || self.format.channels == 0 {
            return 0;
        }
        let frames: u64 = self.samples.len() as u64 / self.format.channels as u64;
        frames * 1000 / self.format.sample_rate as u64
    }
}

/// Whole seconds of audio last a thousand milliseconds each, whatever the sample
/// rate and the number of channels.
pub proof fn law_seconds_last_a_thousand_milliseconds(seconds: nat, format: AudioFormat)
    requires
        format.sample_rate > 0,
        format.channels > 0,
    ensures
        milliseconds(seconds * format.sample_rate as nat * format.channels as nat, format)
            == seconds * 1000,
{
    let r = format.sample_rate as int;
    let c = format.channels as int;
    let n = seconds as int;
    assert((n * r * c) / c == n * r) by (nonlinear_arith)
        requires
            c > 0,
    ;
    assert((n * r * 1000) / r == n * 1000) by (nonlinear_arith)
        requires
            r > 0,
    ;
}

/// More samples never last a shorter time.
pub proof fn law_longer_audio_lasts_no_less(samples: nat, more: nat, format: AudioFormat)
    requires
        samples <= more,
    ensures
        milliseconds(samples, format) <= milliseconds(more, format),
{
    if format.sample_rate != 0 && format.channels != 0 {
        let r = format.sample_rate as int;
        let c = format.channels as int;
        vstd::arithmetic::div_mod::lemma_div_is_ordered(samples as int, more as int, c);
        vstd::arithmetic::div_mod::lemma_div_is_ordered(
            (samples as int / c) * 1000,
            (more as int / c) * 1000,
            r,
        );
    }
}

/// A transcript. `confidence`, where it is known, is a number of the type `C`.
#[derive(Debug)]
pub struct TranscriptionResult<C> {
    pub text: String,
    pub is_final: bool,
    pub confidence: Option<C>,
}

/// Why a transcription failed.
#[derive(Debug)]
pub enum TranscribeError {
    Backend(String),
    Overloaded,
}

impl TranscribeError {
    /// What is said of the error.
    pub open spec fn text(self) -> Seq<char> {
        match self {
            TranscribeError::Backend(e) => "transcription backend error: "@ + e@,
            TranscribeError::Overloaded => "transcription backend is overloaded"@,
        }
    }

    /// The error in words.
    pub fn message(&self) -> (m: String)
        ensures
            m@ == self.text(),
    {
        match self {
            TranscribeError::Backend(e) => {
                let mut m = "transcription backend error: ".to_owned();
                m.append(e.as_str());
                m
            },
            TranscribeError::Overloaded => "transcription backend is overloaded".to_owned(),
        }
    }
}

/// A transcriber that hears nothing and says how long it listened.
#[derive(Debug, Clone, Copy)]
pub struct MockTranscriber;

impl MockTranscriber {
    /// What the mock says of `ms` milliseconds of audio.
    pub open spec fn text_of(ms: nat) -> Seq<char> {
        "[mock transcription of "@ + decimal(ms) + "ms audio]"@
    }

    /// Answers every chunk with a final text that gives its duration.
    pub fn transcribe<S, C>(&self, chunk: PcmBuffer<S>) -> (res: Result<
        TranscriptionResult<C>,
        TranscribeError,
    >)
        requires
            chunk.measurable(),
        ensures
            res matches Ok(r) && r.text@ == Self::text_of(
                milliseconds(chunk.samples@.len(), chunk.format),
            ) && r.is_final && r.confidence is None,
    {
        let mut text = "[mock transcription of ".to_owned();
        text.append(decimal_string(chunk.duration_ms()).as_str());
        text.append("ms audio]");
        Ok(TranscriptionResult { text, is_final: true, confidence: None })
    }
}

/// The semaphore of the `tokio` crate.
#[verifier::external_type_specification]
#[verifier::external_body]
pub struct ExSemaphore(tokio::sync::Semaphore);

/// How many permits a semaphore was made with.
pub uninterp spec fn semaphore_size(semaphore: tokio::sync::Semaphore) -> nat;

/// `Semaphore::new`: a semaphore with `permits` permits. It takes at most an eighth
/// of the range of `usize`.
#[verifier::external_body]
fn new_semaphore(permits: usize) -> (semaphore: tokio::sync::Semaphore)
    requires
        permits <= usize::MAX / 8,
    ensures
        semaphore_size(semaphore) == permits,
{
    tokio::sync::Semaphore::new(permits)
}

/// A transcriber with a hard cap on the requests that it works on at once.
///
/// A request first needs a permit. It waits for one up to a time limit; if none has
/// become free by then it is refused, so a burst beyond the cap fails fast instead
/// of queueing without bound.
pub struct BoundedTranscriber<T> {
    inner: T,
    semaphore: Arc<tokio::sync::Semaphore>,
    acquire_timeout: Duration,
}

/// How many requests are worked on at once where `max_in_flight` are asked for: at least
/// one.
pub open spec fn slots(max_in_flight: nat) -> nat {
    if max_in_flight == 0 {
        1
    } else {
        max_in_flight
    }
}

impl<T> BoundedTranscriber<T> {
    /// The transcriber that does the work.
    pub closed spec fn inner(self) -> T {
        self.inner
    }

    /// The semaphore that the permits come from.
    pub closed spec fn permits(self) -> tokio::sync::Semaphore {
        *self.semaphore
    }

    /// How many requests are worked on at once.
    pub open spec fn capacity(self) -> nat {
        semaphore_size(self.permits())
    }

    /// How long a request waits for a permit.
    pub closed spec fn patience(self) -> Duration {
        self.acquire_timeout
    }

    /// Lets `inner` work on up to `max_in_flight` requests at once, on one where
    /// that is zero.
    pub fn new(inner: T, max_in_flight: usize, acquire_timeout: Duration) -> (bounded: Self)
        requires
            max_in_flight <= usize::MAX / 8,
        ensures
            bounded.inner() == inner,
            bounded.capacity() == slots(max_in_flight as nat),
            bounded.patience() == acquire_timeout,
    {
        let permits: usize = if max_in_flight == 0 {
            1
        } else {
            max_in_flight
        };
        BoundedTranscriber {
            inner,
            semaphore: Arc::new(new_semaphore(permits)),
            acquire_timeout,
        }
    }

    /// The semaphore that the permits come from, the same one at every call.
    pub fn semaphore(&self) -> (semaphore: &tokio::sync::Semaphore)
        ensures
            *semaphore == self.permits(),
            semaphore_size(*semaphore) == self.capacity(),
    {
        &self.semaphore
    }

    /// How long a request waits for a permit.
    pub fn acquire_timeout(&self) -> (d: Duration)
        ensures
            d == self.patience(),
    {
        self.acquire_timeout
    }

    /// Lets a request through to the transcriber once it was found out whether it
    /// got a permit in time.
    pub fn enter(&self, acquired: bool) -> (res: Result<&T, TranscribeError>)
        ensures
            res == if acquired {
                Ok::<&T, TranscribeError>(&self.inner())
            } else {
                Err::<&T, TranscribeError>(TranscribeError::Overloaded)
            },
    {
        if acquired {
            Ok(&self.inner)
        } else {
            Err(TranscribeError::Overloaded)
        }
    }
}

/// What happens to the requests of a bounded transcriber.
pub enum RequestEvent {
    /// A request got a permit in time and is let through, as [`BoundedTranscriber::enter`]
    /// does with it.
    Entered,
    /// A request got no permit in time and is refused.
    Refused,
    /// A request that was let through has its result, or its error, and gives its permit
    /// back.
    Ended,
}

/// How many requests are worked on after a course of events.
pub open spec fn in_flight(course: Seq<RequestEvent>) -> int
    decreases course.len(),
{
    if course.len() == 0 {
        0
    } else {
        in_flight(course.drop_last()) + match course.last() {
            RequestEvent::Entered => 1int,
            RequestEvent::Refused => 0,
            RequestEvent::Ended => -1,
        }
    }
}

/// Whether a course of events can happen where permits come from a semaphore that was
/// made with `permits` of them: a request is let through only while a permit is free,
/// and only a request that was let through ends.
pub open spec fn permitted(permits: nat, course: Seq<RequestEvent>) -> bool
    decreases course.len(),
{
    course.len() == 0 || {
        let before = in_flight(course.drop_last());
        &&& permitted(permits, course.drop_last())
        &&& course.last() is Entered ==> before < permits
        &&& course.last() is Ended ==> before > 0
    }
}

/// At every moment at most as many requests are worked on as were asked for, one where
/// that is zero. A refusal takes no permit, every request that ends gives its permit back,
/// and once no request is worked on all permits are free, so that the next request can be
/// let through.
pub proof fn law_requests_in_flight_are_capped<T>(
    bounded: BoundedTranscriber<T>,
    max_in_flight: nat,
    course: Seq<RequestEvent>,
)
    requires
        bounded.capacity() == slots(max_in_flight),
        permitted(bounded.capacity(), course),
    ensures
        0 <= in_flight(course) <= slots(max_in_flight),
        in_flight(course.push(RequestEvent::Refused)) == in_flight(course),
        in_flight(course) > 0 ==> permitted(
            bounded.capacity(),
            course.push(RequestEvent::Ended),
        ) && in_flight(course.push(RequestEvent::Ended)) == in_flight(course) - 1,
        in_flight(course.push(RequestEvent::Entered)) == in_flight(course) + 1,
        permitted(bounded.capacity(), course.push(RequestEvent::Entered)) <==> in_flight(course)
            < slots(max_in_flight),
        permitted(bounded.capacity(), course.push(RequestEvent::Refused)),
        in_flight(course) == 0 ==> permitted(
            bounded.capacity(),
            course.push(RequestEvent::Entered),
        ),
    decreases course.len(),
{
    if course.len() > 0 {
        law_requests_in_flight_are_capped(bounded, max_in_flight, course.drop_last());
    }
    assert(course.push(RequestEvent::Refused).drop_last() =~= course);
    assert(course.push(RequestEvent::Ended).drop_last() =~= course);
    assert(course.push(RequestEvent::Entered).drop_last() =~= course);
}

/// The duration is rounded down: so many milliseconds of audio are not more than there are,
/// and one more would be. Audio without a rate or without channels lasts no time.
pub proof fn law_duration_is_rounded_down(samples: nat, format: AudioFormat)
    ensures
        format.sample_rate > 0 && format.channels > 0 ==> milliseconds(samples, format)
            * format.sample_rate <= (samples / format.channels as nat) * 1000 < (milliseconds(
            samples,
            format,
        ) + 1) * format.sample_rate,
        format.sample_rate == 0 || format.channels == 0 ==> milliseconds(samples, format) == 0,
{
    if format.sample_rate > 0 && format.channels > 0 {
        let x = (samples / format.channels as nat) * 1000;
        let r = format.sample_rate as int;
        let q = x as int / r;
        vstd::arithmetic::div_mod::lemma_fundamental_div_mod(x as int, r);
        vstd::arithmetic::div_mod::lemma_mod_bound(x as int, r);
        assert(q * r <= x < (q + 1) * r) by (nonlinear_arith)
            requires
                x as int == r * q + x as int % r,
                0 <= x as int % r < r,
        ;
        assert(milliseconds(samples, format) == q);
    }
}

/// A bounded transcriber lets exactly as many requests through at once as were asked for,
/// and one where none were.
pub proof fn law_slots_are_as_asked_for(max_in_flight: nat)
    ensures
        max_in_flight >= 1 ==> slots(max_in_flight) == max_in_flight,
        max_in_flight == 0 ==> slots(max_in_flight) == 1,
{
}

/// The target format is 16 000 samples per second in one channel.
pub proof fn law_target_is_16k_mono()
    ensures
        AudioFormat::target().sample_rate == 16_000,
        AudioFormat::target().channels == 1,
{
}

/// The mock says how many milliseconds it listened.
pub proof fn law_mock_says_the_duration(ms: nat)
    ensures
        MockTranscriber::text_of(ms) == "[mock transcription of "@ + decimal(ms) + "ms audio]"@,
{
}

/// What is said of an error of a transcriber carries the reason in full.
pub proof fn law_reasons_are_passed_on(e: TranscribeError)
    ensures
        match e {
            TranscribeError::Backend(reason) => e.text() == "transcription backend error: "@
                + reason@,
            TranscribeError::Overloaded => e.text() == "transcription backend is overloaded"@,
        },
{
}

} // verus!
