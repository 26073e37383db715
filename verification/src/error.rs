//! Errors of the gateway, and what a client is told of them.

use vstd::prelude::*;

use crate::text::decimal;
use crate::text::decimal_string;
use crate::transcribe::TranscribeError;

verus! {

/// Errors that the gateway reports to its clients.
#[derive(Debug)]
pub enum GatewayError {
    InvalidAudioFormat(String),
    FileTooLarge { max_mb: u64 },
    DecodeFailed(String),
    Timeout,
    TranscribeFailed(String),
    Overloaded,
}

/// An error of the gateway with its texts as sequences of characters.
pub enum GatewayErrorView {
    InvalidAudioFormat(Seq<char>),
    FileTooLarge { max_mb: nat },
    DecodeFailed(Seq<char>),
    Timeout,
    TranscribeFailed(Seq<char>),
    Overloaded,
}

impl View for GatewayError {
    type V = GatewayErrorView;

    open spec fn view(&self) -> GatewayErrorView {
        match self {
            GatewayError::InvalidAudioFormat(m) => GatewayErrorView::InvalidAudioFormat(m@),
            GatewayError::FileTooLarge { max_mb } => GatewayErrorView::FileTooLarge {
                max_mb: *max_mb as nat,
            },
            GatewayError::DecodeFailed(m) => GatewayErrorView::DecodeFailed(m@),
            GatewayError::Timeout => GatewayErrorView::Timeout,
            GatewayError::TranscribeFailed(m) => GatewayErrorView::TranscribeFailed(m@),
            GatewayError::Overloaded => GatewayErrorView::Overloaded,
        }
    }
}

impl GatewayErrorView {
    /// What is said of the error.
    pub open spec fn text(self) -> Seq<char> {
        match self {
            GatewayErrorView::InvalidAudioFormat(m) => "unsupported audio format: "@ + m,
            GatewayErrorView::FileTooLarge { max_mb } => "file exceeds maximum size of "@ + decimal(
                max_mb,
            ) + "MB"@,
            GatewayErrorView::DecodeFailed(m) => "failed to decode audio: "@ + m,
            GatewayErrorView::Timeout => "operation timed out"@,
            GatewayErrorView::TranscribeFailed(m) => "transcription failed: "@ + m,
            GatewayErrorView::Overloaded => "service overloaded, try again shortly"@,
        }
    }

    /// The HTTP status that answers a request which failed with the error.
    pub open spec fn status(self) -> u16 {
        match self {
            GatewayErrorView::InvalidAudioFormat(_) => 415,
            GatewayErrorView::FileTooLarge { .. } => 413,
            GatewayErrorView::DecodeFailed(_) => 400,
            GatewayErrorView::Timeout => 408,
            GatewayErrorView::TranscribeFailed(_) => 500,
            GatewayErrorView::Overloaded => 503,
        }
    }

    /// The code by which a client can tell the error.
    pub open spec fn code(self) -> Seq<char> {
        match self {
            GatewayErrorView::InvalidAudioFormat(_) => "INVALID_AUDIO_FORMAT"@,
            GatewayErrorView::FileTooLarge { .. } => "FILE_TOO_LARGE"@,
            GatewayErrorView::DecodeFailed(_) => "DECODE_FAILED"@,
            GatewayErrorView::Timeout => "TIMEOUT"@,
            GatewayErrorView::TranscribeFailed(_) => "TRANSCRIBE_FAILED"@,
            GatewayErrorView::Overloaded => "OVERLOADED"@,
        }
    }
}

impl GatewayError {
    /// The error in words.
    pub fn message(&self) -> (m: String)
        ensures
            m@ == self@.text(),
    {
        match self {
            GatewayError::InvalidAudioFormat(e) => {
                let mut m = "unsupported audio format: ".to_owned();
                m.append(e.as_str());
                m
            },
            GatewayError::FileTooLarge { max_mb } => {
                let mut m = "file exceeds maximum size of ".to_owned();
                m.append(decimal_string(*max_mb).as_str());
                m.append("MB");
                m
            },
            GatewayError::DecodeFailed(e) => {
                let mut m = "failed to decode audio: ".to_owned();
                m.append(e.as_str());
                m
            },
            GatewayError::Timeout => "operation timed out".to_owned(),
            GatewayError::TranscribeFailed(e) => {
                let mut m = "transcription failed: ".to_owned();
                m.append(e.as_str());
                m
            },
            GatewayError::Overloaded => "service overloaded, try again shortly".to_owned(),
        }
    }
}

/// The error of the gateway that an error of a transcriber becomes.
pub open spec fn gateway_error(err: TranscribeError) -> GatewayError {
    match err {
        TranscribeError::Overloaded => GatewayError::Overloaded,
        TranscribeError::Backend(m) => GatewayError::TranscribeFailed(m),
    }
}

impl From<TranscribeError> for GatewayError {
    fn from(err: TranscribeError) -> (e: Self) {
        match err {
            TranscribeError::Overloaded => GatewayError::Overloaded,
            TranscribeError::Backend(m) => GatewayError::TranscribeFailed(m),
        }
    }
}

impl vstd::std_specs::convert::FromSpecImpl<TranscribeError> for GatewayError {
    open spec fn obeys_from_spec() -> bool {
        true
    }

    open spec fn from_spec(err: TranscribeError) -> Self {
        gateway_error(err)
    }
}

/// An error on its way to an HTTP client.
#[derive(Debug)]
pub struct ApiError(pub GatewayError);

impl From<GatewayError> for ApiError {
    fn from(err: GatewayError) -> (e: Self) {
        ApiError(err)
    }
}

impl vstd::std_specs::convert::FromSpecImpl<GatewayError> for ApiError {
    open spec fn obeys_from_spec() -> bool {
        true
    }

    open spec fn from_spec(err: GatewayError) -> Self {
        ApiError(err)
    }
}

/// The HTTP answer to a request that failed.
#[derive(Debug)]
pub struct ErrorResponse {
    pub status: u16,
    pub code: String,
    pub message: String,
}

impl ApiError {
    /// The answer that tells a client of the error: a status, a code and a text,
    /// never the error itself.
    pub fn into_response(self) -> (response: ErrorResponse)
        ensures
            response.status == self.0@.status(),
            response.code@ == self.0@.code(),
            response.message@ == self.0@.text(),
    {
        let message = self.0.message();
        let (status, code): (u16, &str) = match &self.0 {
            GatewayError::InvalidAudioFormat(_) => (415, "INVALID_AUDIO_FORMAT"),
            GatewayError::FileTooLarge { .. } => (413, "FILE_TOO_LARGE"),
            GatewayError::DecodeFailed(_) => (400, "DECODE_FAILED"),
            GatewayError::Timeout => (408, "TIMEOUT"),
            GatewayError::TranscribeFailed(_) => (500, "TRANSCRIBE_FAILED"),
            GatewayError::Overloaded => (503, "OVERLOADED"),
        };
        ErrorResponse { status, code: code.to_owned(), message }
    }
}

/// Every error is answered with an HTTP error status.
pub proof fn law_errors_have_error_statuses(e: GatewayErrorView)
    ensures
        400 <= e.status() < 600,
{
}

/// Kinds of errors that differ have statuses and codes that differ.
pub proof fn law_codes_tell_errors_apart(a: GatewayErrorView, b: GatewayErrorView)
    ensures
        a.status() == b.status() <==> a.code() == b.code(),
        a.code() == b.code() <==> {
            ||| a is InvalidAudioFormat && b is InvalidAudioFormat
            ||| a is FileTooLarge && b is FileTooLarge
            ||| a is DecodeFailed && b is DecodeFailed
            ||| a is Timeout && b is Timeout
            ||| a is TranscribeFailed && b is TranscribeFailed
            ||| a is Overloaded && b is Overloaded
        },
{
    reveal_strlit("INVALID_AUDIO_FORMAT");
    reveal_strlit("FILE_TOO_LARGE");
    reveal_strlit("DECODE_FAILED");
    reveal_strlit("TIMEOUT");
    reveal_strlit("TRANSCRIBE_FAILED");
    reveal_strlit("OVERLOADED");
    assert("INVALID_AUDIO_FORMAT"@.len() == 20);
    assert("FILE_TOO_LARGE"@.len() == 14);
    assert("DECODE_FAILED"@.len() == 13);
    assert("TIMEOUT"@.len() == 7);
    assert("TRANSCRIBE_FAILED"@.len() == 17);
    assert("OVERLOADED"@.len() == 10);
}

/// Every error is answered with its own status and code, and with its reason in full.
pub proof fn law_answers_are_exact(e: GatewayErrorView)
    ensures
        match e {
            GatewayErrorView::InvalidAudioFormat(m) => e.status() == 415 && e.code()
                == "INVALID_AUDIO_FORMAT"@ && e.text() == "unsupported audio format: "@ + m,
            GatewayErrorView::FileTooLarge { max_mb } => e.status() == 413 && e.code()
                == "FILE_TOO_LARGE"@ && e.text() == "file exceeds maximum size of "@ + decimal(
                max_mb,
            ) + "MB"@,
            GatewayErrorView::DecodeFailed(m) => e.status() == 400 && e.code()
                == "DECODE_FAILED"@ && e.text() == "failed to decode audio: "@ + m,
            GatewayErrorView::Timeout => e.status() == 408 && e.code() == "TIMEOUT"@ && e.text()
                == "operation timed out"@,
            GatewayErrorView::TranscribeFailed(m) => e.status() == 500 && e.code()
                == "TRANSCRIBE_FAILED"@ && e.text() == "transcription failed: "@ + m,
            GatewayErrorView::Overloaded => e.status() == 503 && e.code() == "OVERLOADED"@
                && e.text() == "service overloaded, try again shortly"@,
        },
{
}

/// Overload stays overload, and a failure of the backend becomes a failed transcription
/// with the same reason.
pub proof fn law_transcriber_errors_keep_their_kind(err: TranscribeError)
    ensures
        match err {
            TranscribeError::Overloaded => gateway_error(err) == GatewayError::Overloaded,
            TranscribeError::Backend(reason) => gateway_error(err)
                == GatewayError::TranscribeFailed(reason),
        },
{
}

/// An error is taken for what it is.
pub proof fn law_errors_are_not_mistaken(e: GatewayError)
    ensures
        match e {
            GatewayError::InvalidAudioFormat(m) => e@ == GatewayErrorView::InvalidAudioFormat(m@),
            GatewayError::FileTooLarge { max_mb } => e@ == (GatewayErrorView::FileTooLarge {
                max_mb: max_mb as nat,
            }),
            GatewayError::DecodeFailed(m) => e@ == GatewayErrorView::DecodeFailed(m@),
            GatewayError::Timeout => e@ is Timeout,
            GatewayError::TranscribeFailed(m) => e@ == GatewayErrorView::TranscribeFailed(m@),
            GatewayError::Overloaded => e@ is Overloaded,
        },
{
}

} // verus!
