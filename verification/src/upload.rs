//! The upload of a file for transcription: which field of the form holds the file,
//! and what the client is answered.

use vstd::prelude::*;

use crate::audio::buffered_as;
use crate::audio::decode_wav;
use crate::audio::mono_facts;
use crate::audio::mono_of;
use crate::audio::normalized_as;
use crate::error::GatewayError;
use crate::error::GatewayErrorView;
use crate::text::same_text;
use crate::transcribe::PcmBuffer;
use crate::transcribe::TranscribeError;
use crate::transcribe::TranscriptionResult;

verus! {

/// Whether a field of the form holds the file, going by its name.
pub open spec fn is_file(name: Option<Seq<char>>) -> bool {
    name == Some("file"@)
}

/// The content of the last field that holds a file, among the fields of a form.
pub open spec fn last_file(fields: Seq<(Option<Seq<char>>, Seq<u8>)>) -> Option<Seq<u8>>
    decreases fields.len(),
{
    if fields.len() == 0 {
        None
    } else if is_file(fields.last().0) {
        Some(fields.last().1)
    } else {
        last_file(fields.drop_last())
    }
}

/// A form that is being read, field by field.
pub struct Upload {
    file: Option<Vec<u8>>,
}

impl View for Upload {
    type V = Option<Seq<u8>>;

    /// The file, as far as one was found.
    closed spec fn view(&self) -> Option<Seq<u8>> {
        match self.file {
            Some(bytes) => Some(bytes@),
            None => None,
        }
    }
}

/// Whether `res` is the answer to the question for audio in a file that is there or is
/// not, where `normalize` and `resample` do the work on samples.
pub open spec fn decoded_as<
    S,
    N: Fn(i16) -> S,
    R: Fn(&Vec<S>, u32, u32) -> Result<Vec<S>, String>,
>(
    file: Option<Seq<u8>>,
    normalize: N,
    resample: R,
    res: Result<PcmBuffer<S>, GatewayError>,
) -> bool {
    match file {
        None => res matches Err(e) && e@ == GatewayErrorView::InvalidAudioFormat(
            "missing required multipart field 'file'"@,
        ),
        Some(bytes) => match mono_of(bytes) {
            Err(e) => res matches Err(g) && g@ == e,
            Ok((samples, sample_rate)) => exists|normalized: Seq<S>|
                #[trigger] normalized_as(normalize, samples, normalized) && buffered_as(
                    normalized,
                    sample_rate,
                    resample,
                    res,
                ),
        },
    }
}

impl Upload {
    /// A form of which nothing was read yet.
    pub fn new() -> (upload: Upload)
        ensures
            upload@ == last_file(Seq::empty()),
    {
        Upload { file: None }
    }

    /// Tests, by its name, whether a field holds the file. The others are not read.
    pub fn wants(name: Option<&str>) -> (r: bool)
        ensures
            r == is_file(
                match name {
                    Some(n) => Some(n@),
                    None => None,
                },
            ),
    {
        match name {
            Some(n) => same_text(n, "file"),
            None => false,
        }
    }

    /// Takes the content of a field that holds the file. A later one replaces it.
    pub fn store(&mut self, bytes: Vec<u8>)
        ensures
            final(self)@ == Some(bytes@),
    {
        self.file = Some(bytes);
    }

    /// The error for a form, or a field of it, that cannot be read.
    pub fn unreadable(why: String) -> (e: GatewayError)
        ensures
            e@ == GatewayErrorView::DecodeFailed(why@),
    {
        GatewayError::DecodeFailed(why)
    }

    /// Decodes the file once the form was read to its end.
    pub fn decode<
        S,
        N: Fn(i16) -> S,
        R: Fn(&Vec<S>, u32, u32) -> Result<Vec<S>, String>,
    >(self, normalize: N, resample_to: R) -> (res: Result<PcmBuffer<S>, GatewayError>)
        requires
            forall|s: i16| #[trigger] call_requires(normalize, (s,)),
            forall|v: &Vec<S>, from: u32, to: u32| #[trigger]
                call_requires(resample_to, (v, from, to)),
        ensures
            decoded_as(self@, normalize, resample_to, res),
            self@ matches Some(bytes) ==> mono_facts(bytes),
    {
        match self.file {
            Some(bytes) => decode_wav(bytes.as_slice(), normalize, resample_to),
            None => Err(
                GatewayError::InvalidAudioFormat(
                    "missing required multipart field 'file'".to_owned(),
                ),
            ),
        }
    }
}

/// What a client is answered whose file was transcribed.
#[derive(Debug)]
pub struct TranscriptionResponse {
    pub text: String,
    pub duration_ms: u64,
    pub request_id: String,
}

/// Answers a client: with the text, the duration of the audio and the identifier of the
/// request, or with the error of the transcriber in words.
pub fn respond<C>(
    outcome: Result<TranscriptionResult<C>, TranscribeError>,
    duration_ms: u64,
    request_id: String,
) -> (res: Result<TranscriptionResponse, GatewayError>)
    ensures
        match outcome {
            Ok(result) => res == Ok::<TranscriptionResponse, GatewayError>(
                TranscriptionResponse { text: result.text, duration_ms, request_id },
            ),
            Err(e) => res matches Err(g) && g@ == GatewayErrorView::TranscribeFailed(e.text()),
        },
{
    match outcome {
        Ok(result) => Ok(TranscriptionResponse { text: result.text, duration_ms, request_id }),
        Err(e) => Err(GatewayError::TranscribeFailed(e.message())),
    }
}

/// Of several files in a form the last one counts, and fields with another name, or
/// with none, do not matter: reading one more field either replaces the file or leaves
/// it as it is.
pub proof fn law_last_file_counts(
    fields: Seq<(Option<Seq<char>>, Seq<u8>)>,
    name: Option<Seq<char>>,
    bytes: Seq<u8>,
)
    ensures
        last_file(fields.push((name, bytes))) == if is_file(name) {
            Some(bytes)
        } else {
            last_file(fields)
        },
{
    assert(fields.push((name, bytes)).drop_last() =~= fields);
}

/// A form has no file exactly if none of its fields holds one.
pub proof fn law_file_is_missing_only_without_file_field(
    fields: Seq<(Option<Seq<char>>, Seq<u8>)>,
)
    ensures
        last_file(fields) is None <==> forall|i: int|
            0 <= i < fields.len() ==> !is_file((#[trigger] fields[i]).0),
    decreases fields.len(),
{
    if fields.len() > 0 {
        law_file_is_missing_only_without_file_field(fields.drop_last());
        assert(forall|i: int|
            0 <= i < fields.len() - 1 ==> (#[trigger] fields.drop_last()[i]) == fields[i]);
        assert(fields[fields.len() - 1] == fields.last());
        if !is_file(fields.last().0) && last_file(fields) is None {
            assert forall|i: int| 0 <= i < fields.len() implies !is_file(
                (#[trigger] fields[i]).0,
            ) by {
                if i < fields.len() - 1 {
                    assert(fields.drop_last()[i] == fields[i]);
                }
            }
        }
    }
}

/// The file is the content of the last field whose name is `file`, letter for letter.
pub proof fn law_the_last_field_named_file_counts(
    fields: Seq<(Option<Seq<char>>, Seq<u8>)>,
    i: int,
)
    requires
        0 <= i < fields.len(),
        fields[i].0 == Some("file"@),
        forall|k: int| i < k < fields.len() ==> (#[trigger] fields[k]).0 != Some("file"@),
    ensures
        last_file(fields) == Some(fields[i].1),
    decreases fields.len(),
{
    if i < fields.len() - 1 {
        let shorter = fields.drop_last();
        assert(fields[fields.len() - 1].0 != Some("file"@));
        assert forall|k: int| i < k < shorter.len() implies (#[trigger] shorter[k]).0 != Some(
            "file"@,
        ) by {
            assert(shorter[k] == fields[k]);
        }
        law_the_last_field_named_file_counts(shorter, i);
    }
}

/// Without a field whose name is `file` there is no file.
pub proof fn law_other_fields_are_no_files(fields: Seq<(Option<Seq<char>>, Seq<u8>)>)
    requires
        forall|k: int| 0 <= k < fields.len() ==> (#[trigger] fields[k]).0 != Some("file"@),
    ensures
        last_file(fields) is None,
    decreases fields.len(),
{
    if fields.len() > 0 {
        let shorter = fields.drop_last();
        assert(fields[fields.len() - 1].0 != Some("file"@));
        assert forall|k: int| 0 <= k < shorter.len() implies (#[trigger] shorter[k]).0 != Some(
            "file"@,
        ) by {
            assert(shorter[k] == fields[k]);
        }
        law_other_fields_are_no_files(shorter);
    }
}

/// A form without a file is refused and the field is named. A file that cannot be decoded
/// gives its error, and one that can gives its samples, normalized one by one, and resampled
/// exactly if their rate is not 16 000.
pub proof fn law_uploads_are_decoded_exactly<
    S,
    N: Fn(i16) -> S,
    R: Fn(&Vec<S>, u32, u32) -> Result<Vec<S>, String>,
>(
    file: Option<Seq<u8>>,
    normalize: N,
    resample: R,
    res: Result<PcmBuffer<S>, GatewayError>,
)
    requires
        decoded_as(file, normalize, resample, res),
    ensures
        file is None ==> (res matches Err(e) && e@ == GatewayErrorView::InvalidAudioFormat(
            "missing required multipart field 'file'"@,
        )),
        file matches Some(bytes) ==> (mono_of(bytes) matches Err(e) ==> (res matches Err(g) && g@
            == e)),
        file matches Some(bytes) ==> (mono_of(bytes) matches Ok((samples, rate)) ==> exists|
            normalized: Seq<S>,
        |
            #[trigger] normalized_as(normalize, samples, normalized) && buffered_as(
                normalized,
                rate,
                resample,
                res,
            )),
        file matches Some(bytes) ==> (mono_of(bytes) matches Ok((samples, rate)) ==> (rate == 16_000
            ==> (res matches Ok(pcm) && pcm.samples@.len() == samples.len() && forall|i: int|
            0 <= i < samples.len() ==> call_ensures(
                normalize,
                (samples[i],),
                #[trigger] pcm.samples@[i],
            )))),
{
}

} // verus!
