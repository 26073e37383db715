//! Reading WAV files: 16-bit PCM in any number of channels and at any sample rate
//! becomes mono audio at the rate that transcribers take.

use vstd::prelude::*;

use crate::error::GatewayError;
use crate::error::GatewayErrorView;
use crate::text::decimal;
use crate::text::decimal_string;
use crate::transcribe::AudioFormat;
use crate::transcribe::PcmBuffer;
use crate::transcribe::TARGET_SAMPLE_RATE;

verus! {

/// Size of the largest file that is decoded, in megabytes.
pub const MAX_FILE_MB: u64 = 25;

/// Size of the largest file that is decoded, in bytes.
pub const MAX_FILE_BYTES: usize = 25 * 1024 * 1024;

/// How the samples of a WAV file are stored.
#[derive(Debug, Clone, Copy, PartialEq, Eq, Structural)]
pub enum SampleFormat {
    Int,
    Float,
}

/// What the header of a WAV file says of its audio.
#[derive(Debug, Clone, Copy, PartialEq, Eq, Structural)]
pub struct WavSpec {
    pub channels: u16,
    pub sample_rate: u32,
    pub bits_per_sample: u16,
    pub sample_format: SampleFormat,
}

/// The two bytes of `x`, the lower one first.
pub open spec fn le16(x: int) -> Seq<u8> {
    seq![(x % 256) as u8, ((x / 256) % 256) as u8]
}

/// The four bytes of `x`, the lowest one first.
pub open spec fn le32(x: int) -> Seq<u8> {
    le16(x % 65536) + le16(x / 65536)
}

/// The bytes of 16-bit samples.
pub open spec fn pcm16_bytes(samples: Seq<i16>) -> Seq<u8> {
    Seq::new(samples.len() * 2, |i: int| le16(samples[i / 2] as int % 65536)[i % 2])
}

/// A plain WAV file of 16-bit PCM: a header, a format chunk of 16 bytes, and a data
/// chunk with the interleaved samples.
pub open spec fn pcm16_file(channels: u16, sample_rate: u32, samples: Seq<i16>) -> Seq<u8> {
    seq![0x52u8, 0x49, 0x46, 0x46] + le32(36 + 2 * samples.len() as int) + seq![
        0x57u8,
        0x41,
        0x56,
        0x45,
        0x66,
        0x6d,
        0x74,
        0x20,
        16,
        0,
        0,
        0,
        1,
        0,
    ] + le16(channels as int) + le32(sample_rate as int) + le32(
        sample_rate as int * (2 * channels),
    ) + le16(2 * channels) + seq![16u8, 0, 0x64, 0x61, 0x74, 0x61] + le32(
        2 * samples.len() as int,
    ) + pcm16_bytes(samples)
}

/// Whether the lengths in a plain WAV file are within the widths of its fields, and
/// every frame is complete.
pub open spec fn fileable(channels: u16, sample_rate: u32, samples: Seq<i16>) -> bool {
    &&& 1 <= channels <= 32767
    &&& sample_rate as int * (2 * channels) <= u32::MAX
    &&& 36 + 2 * samples.len() <= u32::MAX
    &&& samples.len() % channels as nat == 0
}

/// Whether `bytes` begin with the tags of a WAV file.
pub open spec fn wav_tagged(bytes: Seq<u8>) -> bool {
    &&& bytes.len() >= 12
    &&& bytes.subrange(0, 4) == seq![0x52u8, 0x49, 0x46, 0x46]
    &&& bytes.subrange(8, 12) == seq![0x57u8, 0x41, 0x56, 0x45]
}

/// What `hound::WavReader::new` makes of `bytes`: the description of the audio, or
/// the text of the error.
pub uninterp spec fn wav_header(bytes: Seq<u8>) -> Result<WavSpec, Seq<char>>;

/// What reading all samples of `bytes` as 16-bit numbers with
/// `hound::WavReader::samples` gives: the interleaved samples, or the text of the
/// first error.
pub uninterp spec fn wav_samples(bytes: Seq<u8>) -> Result<Seq<i16>, Seq<char>>;

/// What was read of a header, with an error's text as a sequence of characters.
pub open spec fn header_view(res: Result<WavSpec, String>) -> Result<WavSpec, Seq<char>> {
    match res {
        Ok(spec) => Ok(spec),
        Err(e) => Err(e@),
    }
}

/// What was read of the samples, as sequences.
pub open spec fn samples_view(res: Result<Vec<i16>, String>) -> Result<Seq<i16>, Seq<char>> {
    match res {
        Ok(samples) => Ok(samples@),
        Err(e) => Err(e@),
    }
}

/// If `bytes` are a plain file of 16-bit PCM, the header is read as it was written.
pub open spec fn plain_header_read(
    bytes: Seq<u8>,
    header: Result<WavSpec, Seq<char>>,
) -> bool {
    forall|channels: u16, sample_rate: u32, samples: Seq<i16>|
        bytes == #[trigger] pcm16_file(channels, sample_rate, samples) && fileable(
            channels,
            sample_rate,
            samples,
        ) ==> header == Ok::<WavSpec, Seq<char>>(
            WavSpec { channels, sample_rate, bits_per_sample: 16, sample_format: SampleFormat::Int },
        )
}

/// If `bytes` are a plain file of 16-bit PCM, the samples are read as they were
/// written.
pub open spec fn plain_samples_read(
    bytes: Seq<u8>,
    read: Result<Seq<i16>, Seq<char>>,
) -> bool {
    forall|channels: u16, sample_rate: u32, samples: Seq<i16>|
        bytes == #[trigger] pcm16_file(channels, sample_rate, samples) && fileable(
            channels,
            sample_rate,
            samples,
        ) ==> read == Ok::<Seq<i16>, Seq<char>>(samples)
}

/// Samples come only from bytes whose header is accepted, in complete frames, and
/// those of 16 bits from two bytes each.
pub open spec fn samples_within(bytes: Seq<u8>, read: Result<Seq<i16>, Seq<char>>) -> bool {
    read matches Ok(samples) ==> (wav_header(bytes) matches Ok(spec) && samples.len()
        % spec.channels as nat == 0 && (spec.bits_per_sample == 16 ==> 2 * samples.len()
        <= bytes.len()))
}

/// `hound::WavReader::new` on a byte slice, and `WavReader::spec` of the reader.
///
/// The result is `wav_header` of the bytes. Bytes without the tags of a WAV file are
/// refused, no header that is accepted has zero channels, and the header of a plain
/// file of 16-bit PCM is read as it was written.
#[verifier::external_body]
fn read_header(bytes: &[u8]) -> (res: Result<WavSpec, String>)
    ensures
        header_view(res) == wav_header(bytes@),
        res matches Ok(spec) ==> wav_tagged(bytes@) && spec.channels >= 1,
        plain_header_read(bytes@, header_view(res)),
{
    match hound::WavReader::new(std::io::Cursor::new(bytes)) {
        Ok(reader) => {
            let spec = reader.spec();
            let sample_format = match spec.sample_format {
                hound::SampleFormat::Int => SampleFormat::Int,
                hound::SampleFormat::Float => SampleFormat::Float,
            };
            let (channels, sample_rate) = (spec.channels, spec.sample_rate);
            Ok(WavSpec { channels, sample_rate, bits_per_sample: spec.bits_per_sample, sample_format })
        },
        Err(e) => Err(e.to_string()),
    }
}

/// `hound::WavReader::samples::<i16>` of the reader of a byte slice, run to its end.
///
/// The result is `wav_samples` of the bytes. Samples come only from bytes whose
/// header is accepted, in complete frames, and those of 16 bits from two bytes each;
/// the samples of a plain file of 16-bit PCM are read as they were written.
#[verifier::external_body]
fn read_samples(bytes: &[u8]) -> (res: Result<Vec<i16>, String>)
    ensures
        samples_view(res) == wav_samples(bytes@),
        samples_within(bytes@, samples_view(res)),
        plain_samples_read(bytes@, samples_view(res)),
{
    let mut reader = match hound::WavReader::new(std::io::Cursor::new(bytes)) {
        Ok(reader) => reader,
        Err(e) => return Err(e.to_string()),
    };
    let samples: Result<Vec<i16>, hound::Error> = reader.samples::<i16>().collect();
    match samples {
        Ok(samples) => Ok(samples),
        Err(e) => Err(e.to_string()),
    }
}

/// The name of a sample format in messages.
pub open spec fn format_name(format: SampleFormat) -> Seq<char> {
    match format {
        SampleFormat::Int => "Int"@,
        SampleFormat::Float => "Float"@,
    }
}

/// Why audio as `spec` describes it is not decoded, if it is not: only 16-bit PCM is.
pub open spec fn refusal(spec: WavSpec) -> Option<Seq<char>> {
    if spec.sample_format != SampleFormat::Int || spec.bits_per_sample != 16 {
        Some(
            "expected 16-bit PCM, got "@ + format_name(spec.sample_format) + " "@ + decimal(
                spec.bits_per_sample as nat,
            ) + "-bit"@,
        )
    } else if spec.channels == 0 {
        Some("zero channels"@)
    } else {
        None
    }
}

/// Accepts the header of a file of 16-bit PCM, whatever was read of it.
pub fn accept_header(header: Result<WavSpec, String>) -> (res: Result<WavSpec, GatewayError>)
    ensures
        match header {
            Err(e) => res matches Err(g) && g@ == GatewayErrorView::DecodeFailed(e@),
            Ok(spec) => match refusal(spec) {
                Some(m) => res matches Err(g) && g@ == GatewayErrorView::InvalidAudioFormat(m),
                None => res == Ok::<WavSpec, GatewayError>(spec),
            },
        },
{
    let spec = match header {
        Ok(spec) => spec,
        Err(e) => return Err(GatewayError::DecodeFailed(e)),
    };
    if spec.sample_format != SampleFormat::Int || spec.bits_per_sample != 16 {
        let mut m = "expected 16-bit PCM, got ".to_owned();
        m.append(
            match spec.sample_format {
                SampleFormat::Int => "Int",
                SampleFormat::Float => "Float",
            },
        );
        m.append(" ");
        m.append(decimal_string(spec.bits_per_sample as u64).as_str());
        m.append("-bit");
        return Err(GatewayError::InvalidAudioFormat(m));
    }
    if spec.channels == 0 {
        return Err(GatewayError::InvalidAudioFormat("zero channels".to_owned()));
    }
    Ok(spec)
}

/// The sum of samples.
pub open spec fn sum(samples: Seq<i16>) -> int
    decreases samples.len(),
{
    if samples.len() == 0 {
        0
    } else {
        sum(samples.drop_last()) + samples.last()
    }
}

/// The mean of the samples of a frame, rounded towards zero.
pub open spec fn mean(frame: Seq<i16>) -> int {
    if sum(frame) >= 0 {
        sum(frame) / frame.len() as int
    } else {
        -((-sum(frame)) / frame.len() as int)
    }
}

/// Frame `k` of interleaved samples.
pub open spec fn frame(samples: Seq<i16>, channels: u16, k: int) -> Seq<i16> {
    samples.subrange(k * channels, k * channels + channels)
}

/// Interleaved samples brought to one channel: the mean of every complete frame.
pub open spec fn downmixed(samples: Seq<i16>, channels: u16) -> Seq<i16> {
    if channels <= 1 {
        samples
    } else {
        Seq::new(
            samples.len() / channels as nat,
            |k: int| mean(frame(samples, channels, k)) as i16,
        )
    }
}

proof fn lemma_sum_bounds(samples: Seq<i16>)
    ensures
        -32768 * samples.len() <= sum(samples) <= 32767 * samples.len(),
    decreases samples.len(),
{
    if samples.len() > 0 {
        lemma_sum_bounds(samples.drop_last());
    }
}

proof fn lemma_mean_bounds(frame: Seq<i16>)
    requires
        frame.len() > 0,
    ensures
        -32768 <= mean(frame) <= 32767,
{
    lemma_sum_bounds(frame);
    let t = sum(frame);
    let n = frame.len() as int;
    if t >= 0 {
        assert(0 <= t / n <= 32767) by (nonlinear_arith)
            requires
                0 <= t <= 32767 * n,
                n > 0,
        ;
    } else {
        assert(0 <= (-t) / n <= 32768) by (nonlinear_arith)
            requires
                0 <= -t <= 32768 * n,
                n > 0,
        ;
    }
}

/// The mean of the frame of `channels` samples that begins at `at`.
fn frame_mean(samples: &[i16], at: usize, channels: usize) -> (m: i16)
    requires
        1 <= channels <= 65535,
        at + channels <= samples@.len(),
    ensures
        m == mean(samples@.subrange(at as int, at + channels)),
{
    let len: usize = samples.len();
    let mut total: i32 = 0;
    let mut i: usize = 0;
    assert(samples@.subrange(at as int, at as int) =~= Seq::empty());
    while i < channels
        invariant
            i <= channels <= 65535,
            at + channels <= len,
            len == samples@.len(),
            total == sum(samples@.subrange(at as int, at + i)),
        decreases channels - i,
    {
        proof {
            let longer = samples@.subrange(at as int, at + i + 1);
            assert(longer.drop_last() =~= samples@.subrange(at as int, at + i));
            lemma_sum_bounds(longer.drop_last());
            lemma_sum_bounds(longer);
        }
        total = total + samples[at + i] as i32;
        i += 1;
    }
    let ghost whole = samples@.subrange(at as int, at + channels);
    proof {
        lemma_sum_bounds(whole);
        lemma_mean_bounds(whole);
    }
    let n: i32 = channels as i32;
    let m: i32 = if total >= 0 {
        total / n
    } else {
        -((-total) / n)
    };
    assert(m == mean(whole));
    m as i16
}

/// Brings interleaved samples to one channel.
pub fn downmix_to_mono(samples: &[i16], channels: u16) -> (mono: Vec<i16>)
    ensures
        mono@ == downmixed(samples@, channels),
{
    let mut mono: Vec<i16> = Vec::new();
    if channels <= 1 {
        let mut i: usize = 0;
        while i < samples.len()
            invariant
                i <= samples@.len(),
                mono@ == samples@.take(i as int),
            decreases samples@.len() - i,
        {
            mono.push(samples[i]);
            i += 1;
            assert(mono@ =~= samples@.take(i as int));
        }
        assert(mono@ =~= samples@);
        return mono;
    }
    let c: usize = channels as usize;
    let mut at: usize = 0;
    assert(0 * channels == 0) by (nonlinear_arith);
    while samples.len() - at >= c
        invariant
            c == channels,
            channels >= 2,
            at <= samples@.len(),
            at == mono.len() * channels,
            forall|k: int|
                0 <= k < mono.len() ==> #[trigger] mono@[k] == mean(
                    frame(samples@, channels, k),
                ) as i16,
        decreases samples@.len() - at,
    {
        let m = frame_mean(samples, at, c);
        proof {
            assert(frame(samples@, channels, mono.len() as int) =~= samples@.subrange(
                at as int,
                at + c,
            ));
            assert((mono.len() + 1) * channels == mono.len() * channels + channels)
                by (nonlinear_arith);
        }
        mono.push(m);
        at += c;
    }
    proof {
        vstd::arithmetic::div_mod::lemma_fundamental_div_mod_converse(
            samples@.len() as int,
            channels as int,
            mono.len() as int,
            samples@.len() - at,
        );
        assert(mono@ =~= downmixed(samples@, channels));
    }
    mono
}

/// Mono audio at the sample rate of the file that it came from.
#[derive(Debug)]
pub struct MonoAudio {
    pub samples: Vec<i16>,
    pub sample_rate: u32,
}

/// Brings the samples of an accepted file to one channel, whatever was read of them.
pub fn accept_samples(spec: WavSpec, samples: Result<Vec<i16>, String>) -> (res: Result<
    MonoAudio,
    GatewayError,
>)
    ensures
        match samples {
            Ok(s) => res matches Ok(audio) && audio.samples@ == downmixed(s@, spec.channels)
                && audio.sample_rate == spec.sample_rate,
            Err(e) => res matches Err(g) && g@ == GatewayErrorView::DecodeFailed(e@),
        },
{
    match samples {
        Ok(s) => Ok(
            MonoAudio {
                samples: downmix_to_mono(s.as_slice(), spec.channels),
                sample_rate: spec.sample_rate,
            },
        ),
        Err(e) => Err(GatewayError::DecodeFailed(e)),
    }
}

/// What a WAV file decodes to: the samples of its one channel, or of the mean of its
/// channels, and its sample rate.
pub open spec fn mono_of(bytes: Seq<u8>) -> Result<(Seq<i16>, u32), GatewayErrorView> {
    if bytes.len() > MAX_FILE_BYTES {
        Err(GatewayErrorView::FileTooLarge { max_mb: MAX_FILE_MB as nat })
    } else {
        match wav_header(bytes) {
            Err(m) => Err(GatewayErrorView::DecodeFailed(m)),
            Ok(spec) => match refusal(spec) {
                Some(m) => Err(GatewayErrorView::InvalidAudioFormat(m)),
                None => match wav_samples(bytes) {
                    Err(m) => Err(GatewayErrorView::DecodeFailed(m)),
                    Ok(samples) => Ok((downmixed(samples, spec.channels), spec.sample_rate)),
                },
            },
        }
    }
}

/// What is known of the decoding of `bytes` without looking at the WAV reader: bytes
/// without the tags of a WAV file cannot be decoded, and a plain file of 16-bit PCM
/// decodes to the samples that it holds.
pub open spec fn mono_facts(bytes: Seq<u8>) -> bool {
    &&& bytes.len() <= MAX_FILE_BYTES && !wav_tagged(bytes) ==> (mono_of(bytes) matches Err(e)
        && e is DecodeFailed)
    &&& forall|channels: u16, sample_rate: u32, samples: Seq<i16>|
        bytes.len() <= MAX_FILE_BYTES && bytes == #[trigger] pcm16_file(
            channels,
            sample_rate,
            samples,
        ) && fileable(channels, sample_rate, samples) ==> mono_of(bytes) == Ok::<
            (Seq<i16>, u32),
            GatewayErrorView,
        >((downmixed(samples, channels), sample_rate))
}

/// Decodes a WAV file to mono audio at its own sample rate.
///
/// A file that is too large is refused before anything of it is read, and one that
/// does not hold 16-bit PCM before its samples are.
pub fn decode_mono(bytes: &[u8]) -> (res: Result<MonoAudio, GatewayError>)
    ensures
        match res {
            Ok(audio) => mono_of(bytes@) == Ok::<(Seq<i16>, u32), GatewayErrorView>(
                (audio.samples@, audio.sample_rate),
            ) && 2 * audio.samples@.len() <= bytes@.len(),
            Err(g) => mono_of(bytes@) == Err::<(Seq<i16>, u32), GatewayErrorView>(g@),
        },
        mono_facts(bytes@),
{
    if bytes.len() > MAX_FILE_BYTES {
        return Err(GatewayError::FileTooLarge { max_mb: MAX_FILE_MB });
    }
    match accept_header(read_header(bytes)) {
        Ok(spec) => accept_samples(spec, read_samples(bytes)),
        Err(e) => Err(e),
    }
}

/// Whether `normalize` may have turned `samples` into `normalized`, one by one.
pub open spec fn normalized_as<S, N: Fn(i16) -> S>(
    normalize: N,
    samples: Seq<i16>,
    normalized: Seq<S>,
) -> bool {
    &&& normalized.len() == samples.len()
    &&& forall|i: int|
        0 <= i < samples.len() ==> call_ensures(
            normalize,
            (samples[i],),
            #[trigger] normalized[i],
        )
}

/// Turns samples, one by one, into what `normalize` makes of them.
pub fn normalize_i16<S, N: Fn(i16) -> S>(samples: &[i16], normalize: N) -> (normalized: Vec<S>)
    requires
        forall|s: i16| #[trigger] call_requires(normalize, (s,)),
    ensures
        normalized_as(normalize, samples@, normalized@),
{
    let mut normalized: Vec<S> = Vec::new();
    let mut i: usize = 0;
    while i < samples.len()
        invariant
            i <= samples@.len(),
            normalized.len() == i,
            forall|s: i16| #[trigger] call_requires(normalize, (s,)),
            forall|k: int|
                0 <= k < i ==> call_ensures(
                    normalize,
                    (samples@[k],),
                    #[trigger] normalized@[k],
                ),
        decreases samples@.len() - i,
    {
        normalized.push(normalize(samples[i]));
        i += 1;
    }
    normalized
}

/// Whether `resample` may have turned `samples` at the rate `from` into `res` at the
/// rate `to`. Without samples there is nothing to resample.
pub open spec fn resampled_as<S, R: Fn(&Vec<S>, u32, u32) -> Result<Vec<S>, String>>(
    resample: R,
    samples: Seq<S>,
    from: u32,
    to: u32,
    res: Result<Vec<S>, String>,
) -> bool {
    if samples.len() == 0 {
        res matches Ok(r) && r@ == samples
    } else {
        exists|v: Vec<S>| v@ == samples && #[trigger] call_ensures(resample, (&v, from, to), res)
    }
}

/// Brings samples from one rate to another with `resample_to`, which is only asked where
/// there are samples.
pub fn resample<S, R: Fn(&Vec<S>, u32, u32) -> Result<Vec<S>, String>>(
    samples: &Vec<S>,
    from_rate: u32,
    to_rate: u32,
    resample_to: R,
) -> (res: Result<Vec<S>, String>)
    requires
        forall|v: &Vec<S>, from: u32, to: u32| #[trigger] call_requires(resample_to, (v, from, to)),
    ensures
        resampled_as(resample_to, samples@, from_rate, to_rate, res),
{
    if samples.len() == 0 {
        let empty: Vec<S> = Vec::new();
        assert(empty@ =~= samples@);
        return Ok(empty);
    }
    resample_to(samples, from_rate, to_rate)
}

/// Whether `res` may be the buffer for mono samples at `sample_rate` that were turned
/// into `normalized`: these themselves where the rate is the target's already, else
/// what `resample` makes of them.
pub open spec fn buffered_as<S, R: Fn(&Vec<S>, u32, u32) -> Result<Vec<S>, String>>(
    normalized: Seq<S>,
    sample_rate: u32,
    resample: R,
    res: Result<PcmBuffer<S>, GatewayError>,
) -> bool {
    if sample_rate == TARGET_SAMPLE_RATE {
        res matches Ok(pcm) && pcm.samples@ == normalized && pcm.format == AudioFormat::target()
    } else {
        exists|r: Result<Vec<S>, String>|
            #[trigger] resampled_as(resample, normalized, sample_rate, TARGET_SAMPLE_RATE, r)
                && match r {
                Ok(samples) => res matches Ok(pcm) && pcm.samples == samples && pcm.format
                    == AudioFormat::target(),
                Err(e) => res == Err::<PcmBuffer<S>, GatewayError>(GatewayError::DecodeFailed(e)),
            }
    }
}

/// Brings mono audio to the format that transcribers take.
pub fn to_target<
    S,
    N: Fn(i16) -> S,
    R: Fn(&Vec<S>, u32, u32) -> Result<Vec<S>, String>,
>(audio: &MonoAudio, normalize: N, resample_to: R) -> (res: Result<PcmBuffer<S>, GatewayError>)
    requires
        forall|s: i16| #[trigger] call_requires(normalize, (s,)),
        forall|v: &Vec<S>, from: u32, to: u32| #[trigger] call_requires(resample_to, (v, from, to)),
    ensures
        exists|normalized: Seq<S>|
            #[trigger] normalized_as(normalize, audio.samples@, normalized) && buffered_as(
                normalized,
                audio.sample_rate,
                resample_to,
                res,
            ),
{
    let normalized = normalize_i16(audio.samples.as_slice(), normalize);
    let ghost n = normalized@;
    assert(normalized_as(normalize, audio.samples@, n));
    if audio.sample_rate == TARGET_SAMPLE_RATE {
        return Ok(PcmBuffer { samples: normalized, format: AudioFormat::target() });
    }
    let resampled = resample(&normalized, audio.sample_rate, TARGET_SAMPLE_RATE, resample_to);
    assert(resampled_as(resample_to, n, audio.sample_rate, TARGET_SAMPLE_RATE, resampled));
    match resampled {
        Ok(samples) => Ok(PcmBuffer { samples, format: AudioFormat::target() }),
        Err(e) => Err(GatewayError::DecodeFailed(e)),
    }
}

/// Decodes a WAV file into a buffer in the target format.
///
/// `normalize` turns a 16-bit sample into one of the buffer's samples, and
/// `resample_to` brings samples from one sample rate to another. Neither is asked
/// anything where the file cannot be decoded.
pub fn decode_wav<
    S,
    N: Fn(i16) -> S,
    R: Fn(&Vec<S>, u32, u32) -> Result<Vec<S>, String>,
>(bytes: &[u8], normalize: N, resample_to: R) -> (res: Result<PcmBuffer<S>, GatewayError>)
    requires
        forall|s: i16| #[trigger] call_requires(normalize, (s,)),
        forall|v: &Vec<S>, from: u32, to: u32| #[trigger] call_requires(resample_to, (v, from, to)),
    ensures
        match mono_of(bytes@) {
            Err(e) => res matches Err(g) && g@ == e,
            Ok((samples, sample_rate)) => exists|normalized: Seq<S>|
                #[trigger] normalized_as(normalize, samples, normalized) && buffered_as(
                    normalized,
                    sample_rate,
                    resample_to,
                    res,
                ),
        },
        mono_facts(bytes@),
{
    match decode_mono(bytes) {
        Ok(audio) => {
            let res = to_target(&audio, normalize, resample_to);
            assert(mono_of(bytes@)->Ok_0.0 == audio.samples@);
            res
        },
        Err(e) => Err(e),
    }
}

/// Every decoded buffer is in the target format.
pub proof fn law_decoded_audio_is_in_target_format<
    S,
    R: Fn(&Vec<S>, u32, u32) -> Result<Vec<S>, String>,
>(
    normalized: Seq<S>,
    sample_rate: u32,
    resample: R,
    res: Result<PcmBuffer<S>, GatewayError>,
)
    requires
        buffered_as(normalized, sample_rate, resample, res),
    ensures
        res matches Ok(pcm) ==> pcm.format == AudioFormat::target(),
{
}

/// Bringing audio to one channel gives one sample for every frame.
pub proof fn law_downmix_keeps_every_frame(samples: Seq<i16>, channels: u16)
    requires
        channels >= 1,
    ensures
        downmixed(samples, channels).len() == samples.len() / channels as nat,
{
}

/// Channels that carry the same sound lose nothing: where every channel of a frame
/// holds the same sample, that sample is what the frame becomes.
pub proof fn law_equal_channels_are_kept(samples: Seq<i16>, channels: u16, k: int)
    requires
        channels >= 1,
        0 <= k < samples.len() / channels as nat,
        forall|i: int|
            0 <= i < channels ==> #[trigger] frame(samples, channels, k)[i] == samples[k * channels],
    ensures
        downmixed(samples, channels)[k] == samples[k * channels],
{
    let c = channels as int;
    let x = samples[k * channels];
    assert(0 <= k * c && k * c + c <= samples.len()) by (nonlinear_arith)
        requires
            c >= 1,
            0 <= k < samples.len() as int / c,
    ;
    let f = frame(samples, channels, k);
    assert(f.len() == c);
    lemma_sum_of_equal(f, x);
    let t = x as int * c;
    if t >= 0 {
        assert(x >= 0 && t / c == x as int) by (nonlinear_arith)
            requires
                c >= 1,
                t == x as int * c,
                t >= 0,
        ;
    } else {
        assert((-t) / c == -(x as int)) by (nonlinear_arith)
            requires
                c >= 1,
                t == x as int * c,
        ;
    }
    assert(channels == 1 ==> k * c == k) by (nonlinear_arith)
        requires
            c == channels,
    ;
}

proof fn lemma_sum_of_equal(samples: Seq<i16>, x: i16)
    requires
        forall|i: int| 0 <= i < samples.len() ==> samples[i] == x,
    ensures
        sum(samples) == x as int * samples.len(),
    decreases samples.len(),
{
    if samples.len() > 0 {
        lemma_sum_of_equal(samples.drop_last(), x);
        assert(x as int * samples.len() == x as int * (samples.len() - 1) + x)
            by (nonlinear_arith);
    } else {
        assert(x as int * 0 == 0) by (nonlinear_arith);
    }
}

/// Only audio at exactly 16 000 samples per second is taken as it is. At every other rate,
/// lower or higher, the buffer holds what the resampler answered when it was asked to go
/// from that rate to 16 000, and its failure is the result.
pub proof fn law_other_rates_are_resampled<
    S,
    R: Fn(&Vec<S>, u32, u32) -> Result<Vec<S>, String>,
>(normalized: Seq<S>, sample_rate: u32, resample: R, res: Result<PcmBuffer<S>, GatewayError>)
    requires
        buffered_as(normalized, sample_rate, resample, res),
    ensures
        sample_rate == 16_000 ==> (res matches Ok(pcm) && pcm.samples@ == normalized),
        sample_rate != 16_000 && normalized.len() > 0 && res is Ok ==> exists|v: Vec<S>|
            v@ == normalized && #[trigger] call_ensures(
                resample,
                (&v, sample_rate, 16_000u32),
                Ok::<Vec<S>, String>(res->Ok_0.samples),
            ),
        sample_rate != 16_000 && normalized.len() > 0 && res is Err ==> res->Err_0 is DecodeFailed
            && exists|v: Vec<S>|
            v@ == normalized && #[trigger] call_ensures(
                resample,
                (&v, sample_rate, 16_000u32),
                Err::<Vec<S>, String>(res->Err_0->DecodeFailed_0),
            ),
        normalized.len() == 0 ==> (res matches Ok(pcm) && pcm.samples@.len() == 0),
        res matches Ok(pcm) ==> pcm.format.sample_rate == 16_000 && pcm.format.channels == 1,
{
    if sample_rate != 16_000 && normalized.len() > 0 {
        let r = choose|r: Result<Vec<S>, String>|
            #[trigger] resampled_as(resample, normalized, sample_rate, TARGET_SAMPLE_RATE, r)
                && match r {
                Ok(samples) => res matches Ok(pcm) && pcm.samples == samples && pcm.format
                    == AudioFormat::target(),
                Err(e) => res == Err::<PcmBuffer<S>, GatewayError>(GatewayError::DecodeFailed(e)),
            };
        let v = choose|v: Vec<S>|
            v@ == normalized && #[trigger] call_ensures(
                resample,
                (&v, sample_rate, TARGET_SAMPLE_RATE),
                r,
            );
        match res {
            Ok(pcm) => {
                assert(r == Ok::<Vec<S>, String>(pcm.samples));
                assert(call_ensures(
                    resample,
                    (&v, sample_rate, 16_000u32),
                    Ok::<Vec<S>, String>(pcm.samples),
                ));
            },
            Err(g) => {
                let e = r->Err_0;
                assert(g == GatewayError::DecodeFailed(e));
                assert(call_ensures(
                    resample,
                    (&v, sample_rate, 16_000u32),
                    Err::<Vec<S>, String>(res->Err_0->DecodeFailed_0),
                ));
            },
        }
    }
}

/// One second at any rate stays one second: if a resampler answers with as many samples as
/// the other rate has in the same time, whole seconds of audio at any rate become as many
/// seconds in the buffer.
pub proof fn law_seconds_stay_seconds<
    S,
    R: Fn(&Vec<S>, u32, u32) -> Result<Vec<S>, String>,
>(
    normalized: Seq<S>,
    sample_rate: u32,
    resample: R,
    pcm: PcmBuffer<S>,
    seconds: nat,
)
    requires
        buffered_as(normalized, sample_rate, resample, Ok(pcm)),
        sample_rate > 0,
        seconds > 0,
        normalized.len() == seconds * sample_rate,
        forall|v: Vec<S>, answer: Vec<S>| #[trigger]
            call_ensures(resample, (&v, sample_rate, 16_000u32), Ok::<Vec<S>, String>(answer))
                && v@.len() == seconds * sample_rate ==> answer@.len() == seconds * 16_000,
    ensures
        crate::transcribe::milliseconds(pcm.samples@.len(), pcm.format) == seconds * 1000,
{
    assert(seconds * sample_rate > 0) by (nonlinear_arith)
        requires
            seconds > 0,
            sample_rate > 0,
    ;
    law_other_rates_are_resampled(normalized, sample_rate, resample, Ok(pcm));
    assert(pcm.samples@.len() == seconds * 16_000);
    crate::transcribe::law_seconds_last_a_thousand_milliseconds(seconds, pcm.format);
    assert(seconds * 16_000 * 1 == seconds * 16_000);
}

/// The sum of samples is that of the samples before the last, and the last.
pub proof fn law_samples_add_up(samples: Seq<i16>, sample: i16)
    ensures
        sum(Seq::empty()) == 0,
        sum(samples.push(sample)) == sum(samples) + sample,
{
    assert(samples.push(sample).drop_last() =~= samples);
}

/// Every frame becomes its mean, rounded towards zero: `m` samples of that size, for each
/// channel one, are as much as the frame, but for less than one for each channel, and never
/// more than the frame in size.
pub proof fn law_frames_become_their_means(samples: Seq<i16>, channels: u16, k: int)
    requires
        channels >= 2,
        0 <= k < samples.len() / channels as nat,
    ensures
        ({
            let total = sum(samples.subrange(k * channels, k * channels + channels));
            let m = downmixed(samples, channels)[k] as int;
            &&& total >= 0 ==> 0 <= m * channels <= total < m * channels + channels
            &&& total <= 0 ==> m * channels - channels < total <= m * channels <= 0
        }),
{
    let f = frame(samples, channels, k);
    let total = sum(f);
    let c = channels as int;
    assert(0 <= k * c && k * c + c <= samples.len()) by (nonlinear_arith)
        requires
            0 <= k < samples.len() as int / c,
            c >= 2,
    ;
    lemma_mean_bounds(f);
    let m = mean(f);
    assert(f.len() == c);
    if total >= 0 {
        assert(0 <= m * c <= total < m * c + c) by (nonlinear_arith)
            requires
                m == total / c,
                c >= 2,
                total >= 0,
        ;
    } else {
        let q = (-total) / c;
        assert(0 <= q * c <= -total < q * c + c) by (nonlinear_arith)
            requires
                q == (-total) / c,
                c >= 2,
                -total >= 0,
        ;
        assert(m * c == -(q * c)) by (nonlinear_arith)
            requires
                m == -q,
        ;
    }
    assert(samples.subrange(k * channels, k * channels + channels) =~= f);
    assert(0 * c == 0);
}

/// Audio with one channel stays as it is, and a frame that is not complete is dropped.
pub proof fn law_mono_stays_as_it_is(samples: Seq<i16>, channels: u16)
    ensures
        channels <= 1 ==> downmixed(samples, channels) == samples,
        channels >= 2 ==> downmixed(samples, channels).len() == samples.len() / channels as nat,
{
}

/// Exactly 16-bit PCM with at least one channel is accepted.
pub proof fn law_exactly_pcm16_is_accepted(spec: WavSpec)
    ensures
        refusal(spec) is None <==> spec.sample_format == SampleFormat::Int && spec.bits_per_sample
            == 16 && spec.channels >= 1,
        spec.sample_format == SampleFormat::Int && spec.bits_per_sample == 16 && spec.channels == 0
            ==> refusal(spec) == Some("zero channels"@),
{
}

/// A file decodes exactly if it is not larger than 25 MB, its header and its samples can be
/// read, and it holds 16-bit PCM; it then decodes to its samples, brought to one channel,
/// at its own rate. The first of these that fails is the error.
pub proof fn law_files_decode_exactly(bytes: Seq<u8>)
    ensures
        bytes.len() > 26_214_400 <==> (mono_of(bytes) matches Err(e) && e is FileTooLarge),
        mono_of(bytes) matches Err(GatewayErrorView::FileTooLarge { max_mb }) ==> max_mb == 25,
        bytes.len() <= 26_214_400 ==> (wav_header(bytes) matches Err(m) ==> mono_of(bytes)
            == Err::<(Seq<i16>, u32), GatewayErrorView>(GatewayErrorView::DecodeFailed(m))),
        bytes.len() <= 26_214_400 ==> (wav_header(bytes) matches Ok(spec) ==> {
            &&& (mono_of(bytes) matches Err(e) && e is InvalidAudioFormat) <==> !(spec.sample_format
                == SampleFormat::Int && spec.bits_per_sample == 16 && spec.channels >= 1)
            &&& spec.sample_format == SampleFormat::Int && spec.bits_per_sample == 16
                && spec.channels >= 1 ==> mono_of(bytes) == match wav_samples(bytes) {
                Ok(samples) => Ok::<(Seq<i16>, u32), GatewayErrorView>(
                    (downmixed(samples, spec.channels), spec.sample_rate),
                ),
                Err(m) => Err::<(Seq<i16>, u32), GatewayErrorView>(
                    GatewayErrorView::DecodeFailed(m),
                ),
            }
        }),
{
}

/// What is said of audio that is not 16-bit PCM names what it is.
pub proof fn law_refusals_name_the_format(spec: WavSpec)
    requires
        spec.sample_format != SampleFormat::Int || spec.bits_per_sample != 16,
    ensures
        refusal(spec) == Some(
            "expected 16-bit PCM, got "@ + (if spec.sample_format == SampleFormat::Float {
                "Float"@
            } else {
                "Int"@
            }) + " "@ + decimal(spec.bits_per_sample as nat) + "-bit"@,
        ),
{
}

/// Samples are normalized one by one, each from its own.
pub proof fn law_samples_are_normalized_one_by_one<S, N: Fn(i16) -> S>(
    normalize: N,
    samples: Seq<i16>,
    normalized: Seq<S>,
    i: int,
)
    requires
        normalized_as(normalize, samples, normalized),
        0 <= i < samples.len(),
    ensures
        normalized.len() == samples.len(),
        call_ensures(normalize, (samples[i],), normalized[i]),
{
}

} // verus!
