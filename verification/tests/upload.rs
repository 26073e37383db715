//! Uploads and settings.

use std::f32::consts::PI;
use std::io::Cursor;

use rustyecho::config::{listen_port, parse_port, DEFAULT_PORT};
use rustyecho::error::{ApiError, GatewayError};
use rustyecho::transcribe::{MockTranscriber, PcmBuffer, TranscribeError, TranscriptionResult};
use rustyecho::upload::{respond, TranscriptionResponse, Upload};

fn make_test_wav() -> Vec<u8> {
    let spec = hound::WavSpec {
        channels: 1,
        sample_rate: 16_000,
        bits_per_sample: 16,
        sample_format: hound::SampleFormat::Int,
    };
    let mut cursor = Cursor::new(Vec::new());
    {
        let mut writer = hound::WavWriter::new(&mut cursor, spec).unwrap();
        for i in 0..16_000u32 {
            let t = i as f32 / 16_000.0;
            let value = ((t * 440.0 * 2.0 * PI).sin() * i16::MAX as f32) as i16;
            writer.write_sample(value).unwrap();
        }
        writer.finalize().unwrap();
    }
    cursor.into_inner()
}

/// Reads a form and has its file transcribed by the mock.
fn create_transcription(fields: &[(Option<&str>, &[u8])]) -> Result<TranscriptionResponse, ApiError> {
    let mut upload = Upload::new();
    for (name, bytes) in fields {
        if Upload::wants(*name) {
            upload.store(bytes.to_vec());
        }
    }
    let pcm: PcmBuffer<f32> = upload.decode(
        |s: i16| s as f32 / i16::MAX as f32,
        |_: &Vec<f32>, _: u32, _: u32| Err("no resampling here".to_string()),
    )
    .map_err(ApiError::from)?;
    let duration_ms = pcm.duration_ms();
    let outcome: Result<TranscriptionResult<f32>, TranscribeError> =
        MockTranscriber.transcribe(pcm);
    respond(outcome, duration_ms, "request-1".to_string()).map_err(ApiError::from)
}

#[test]
fn upload_valid_wav_returns_mock_transcription() {
    let response = create_transcription(&[(Some("file"), &make_test_wav())]).unwrap();
    assert_eq!(response.duration_ms, 1000);
    assert!(response.text.contains("mock transcription"));
    assert_eq!(response.request_id, "request-1");
}

#[test]
fn missing_file_field_returns_structured_error() {
    let err = create_transcription(&[(Some("wrong_field"), b"not audio")]).unwrap_err();
    let response = err.into_response();
    assert_eq!(response.status, 415);
    assert_eq!(response.code, "INVALID_AUDIO_FORMAT");
    assert_eq!(
        response.message,
        "unsupported audio format: missing required multipart field 'file'"
    );
}

#[test]
fn corrupt_audio_returns_bad_request() {
    let err = create_transcription(&[(Some("file"), b"not a real wav file")]).unwrap_err();
    let response = err.into_response();
    assert_eq!(response.status, 400);
    assert_eq!(response.code, "DECODE_FAILED");
}

#[test]
fn the_last_file_of_a_form_counts() {
    let wav = make_test_wav();
    let response = create_transcription(&[
        (Some("file"), b"first"),
        (Some("language"), b"en"),
        (Some("file"), &wav),
        (None, b"unnamed"),
        (Some("File"), b"other"),
    ])
    .unwrap();
    assert_eq!(response.duration_ms, 1000);
    let err = create_transcription(&[(Some("file"), &wav), (Some("file"), b"second")]).unwrap_err();
    assert_eq!(err.into_response().code, "DECODE_FAILED");
}

#[test]
fn unreadable_forms_cannot_be_decoded() {
    let e = Upload::unreadable("incomplete form".to_string());
    assert!(matches!(&e, GatewayError::DecodeFailed(m) if m == "incomplete form"));
}

#[test]
fn failed_transcriptions_are_answered_in_words() {
    let outcome: Result<TranscriptionResult<f32>, TranscribeError> =
        Err(TranscribeError::Overloaded);
    let e = respond(outcome, 1, String::new()).unwrap_err();
    assert_eq!(e.message(), "transcription failed: transcription backend is overloaded");
}

#[test]
fn ports_are_read_like_numbers() {
    for (text, port) in [
        ("8080", Some(8080)),
        ("+80", Some(80)),
        ("0", Some(0)),
        ("00065535", Some(65535)),
        ("65536", None),
        ("99999999999999999999", None),
        ("", None),
        ("+", None),
        ("++1", None),
        ("-1", None),
        ("-0", None),
        (" 80", None),
        ("8a", None),
        ("٣", None),
    ] {
        assert_eq!(parse_port(text), port, "{text:?}");
        assert_eq!(parse_port(text), text.parse::<u16>().ok(), "{text:?}");
    }
}

#[test]
fn the_default_port_is_used_where_none_is_named() {
    assert_eq!(DEFAULT_PORT, 8080);
    assert_eq!(listen_port(None), 8080);
    assert_eq!(listen_port(Some("http")), 8080);
    assert_eq!(listen_port(Some("3000")), 3000);
}
