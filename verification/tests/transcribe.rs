//! Buffers, results, errors, and transcribers.

use std::sync::Arc;
use std::time::Duration;

use rustyecho::error::{ApiError, GatewayError};
use rustyecho::text::{decimal_string, join_with_spaces, same_text};
use rustyecho::transcribe::{
    AudioFormat, BoundedTranscriber, MockTranscriber, PcmBuffer, TranscribeError,
    TranscriptionResult, TARGET_CHANNELS, TARGET_SAMPLE_RATE,
};

fn runtime() -> tokio::runtime::Runtime {
    tokio::runtime::Builder::new_multi_thread()
        .enable_time()
        .build()
        .unwrap()
}

#[test]
fn duration_ms_mono() {
    let buf = PcmBuffer {
        samples: vec![0.0; 16_000],
        format: AudioFormat { sample_rate: 16_000, channels: 1 },
    };
    assert!(buf.is_measurable());
    assert_eq!(buf.duration_ms(), 1000);
}

#[test]
fn duration_ms_stereo() {
    let buf = PcmBuffer {
        samples: vec![0.0; 32_000], // 16_000 frames * 2 channels
        format: AudioFormat { sample_rate: 16_000, channels: 2 },
    };
    assert_eq!(buf.duration_ms(), 1000);
}

#[test]
fn duration_is_rounded_down() {
    let format = AudioFormat { sample_rate: 44_100, channels: 2 };
    let buf = PcmBuffer { samples: vec![0i16; 100], format };
    assert_eq!(buf.duration_ms(), 1);
    let buf = PcmBuffer { samples: vec![0i16; 87], format };
    assert_eq!(buf.duration_ms(), 0);
}

#[test]
fn duration_without_rate_or_channels_is_zero() {
    for format in [
        AudioFormat { sample_rate: 0, channels: 1 },
        AudioFormat { sample_rate: 16_000, channels: 0 },
    ] {
        let buf = PcmBuffer { samples: vec![0i16; 100], format };
        assert!(buf.is_measurable());
        assert_eq!(buf.duration_ms(), 0);
    }
}

#[test]
fn target_format_is_16k_mono() {
    assert_eq!(AudioFormat::target(), AudioFormat { sample_rate: 16_000, channels: 1 });
    assert_eq!((TARGET_SAMPLE_RATE, TARGET_CHANNELS), (16_000, 1));
}

#[test]
fn mock_transcriber_returns_final() {
    let t = MockTranscriber;
    let buf = PcmBuffer { samples: vec![0.0; 8_000], format: AudioFormat::target() };
    let result: TranscriptionResult<f32> = t.transcribe(buf).unwrap();
    assert!(result.is_final);
    assert_eq!(result.text, "[mock transcription of 500ms audio]");
    assert!(result.confidence.is_none());
}

struct SlowTranscriber {
    delay: Duration,
}

impl SlowTranscriber {
    async fn transcribe(
        &self,
        _chunk: PcmBuffer<f32>,
    ) -> Result<TranscriptionResult<f32>, TranscribeError> {
        tokio::time::sleep(self.delay).await;
        Ok(TranscriptionResult { text: String::new(), is_final: true, confidence: None })
    }
}

fn empty_buf() -> PcmBuffer<f32> {
    PcmBuffer { samples: vec![], format: AudioFormat::target() }
}

async fn bounded_transcribe(
    bounded: &BoundedTranscriber<SlowTranscriber>,
    chunk: PcmBuffer<f32>,
) -> Result<TranscriptionResult<f32>, TranscribeError> {
    let permit =
        tokio::time::timeout(bounded.acquire_timeout(), bounded.semaphore().acquire()).await;
    let inner = bounded.enter(permit.is_ok())?;
    inner.transcribe(chunk).await
}

#[test]
fn bounded_transcriber_rejects_when_saturated() {
    runtime().block_on(async {
        let bounded = Arc::new(BoundedTranscriber::new(
            SlowTranscriber { delay: Duration::from_millis(200) },
            1,                         // only one in-flight request allowed
            Duration::from_millis(50), // much shorter than the slow transcribe
        ));

        // Occupy the only slot for 200ms.
        let occupier = {
            let bounded = bounded.clone();
            tokio::spawn(async move { bounded_transcribe(&bounded, empty_buf()).await })
        };
        tokio::time::sleep(Duration::from_millis(20)).await;

        // A second request can't get a permit within 50ms, so it should fail fast with
        // Overloaded rather than waiting behind the first.
        let rejected = bounded_transcribe(&bounded, empty_buf()).await;
        assert!(matches!(rejected, Err(TranscribeError::Overloaded)));

        // The first request should still complete once its slot frees up: saturation
        // rejects new work, it doesn't break work already in flight.
        let occupier_result = occupier.await.unwrap();
        assert!(occupier_result.is_ok());
    });
}

#[test]
fn bounded_transcriber_has_as_many_permits_as_asked_for() {
    let patience = Duration::from_millis(5);
    let bounded = BoundedTranscriber::new(MockTranscriber, 3, patience);
    assert_eq!(bounded.semaphore().available_permits(), 3);
    let permit = bounded.semaphore().try_acquire().unwrap();
    assert_eq!(bounded.semaphore().available_permits(), 2);
    drop(permit);
    assert_eq!(bounded.semaphore().available_permits(), 3);
    assert_eq!(bounded.acquire_timeout(), patience);
    assert!(bounded.enter(true).is_ok());
    assert!(matches!(bounded.enter(false), Err(TranscribeError::Overloaded)));
}

#[test]
fn bounded_transcriber_has_at_least_one_permit() {
    let bounded = BoundedTranscriber::new(MockTranscriber, 0, Duration::from_secs(1));
    assert_eq!(bounded.semaphore().available_permits(), 1);
}

#[test]
fn transcriber_errors_become_gateway_errors() {
    let backend = TranscribeError::Backend("no model".to_string());
    assert_eq!(backend.message(), "transcription backend error: no model");
    assert_eq!(TranscribeError::Overloaded.message(), "transcription backend is overloaded");
    let e = GatewayError::from(backend);
    assert!(matches!(&e, GatewayError::TranscribeFailed(m) if m == "no model"));
    assert!(matches!(GatewayError::from(TranscribeError::Overloaded), GatewayError::Overloaded));
}

#[test]
fn every_error_is_answered() {
    let cases = [
        (
            GatewayError::InvalidAudioFormat("mp3".to_string()),
            415,
            "INVALID_AUDIO_FORMAT",
            "unsupported audio format: mp3",
        ),
        (
            GatewayError::FileTooLarge { max_mb: 25 },
            413,
            "FILE_TOO_LARGE",
            "file exceeds maximum size of 25MB",
        ),
        (
            GatewayError::DecodeFailed("eof".to_string()),
            400,
            "DECODE_FAILED",
            "failed to decode audio: eof",
        ),
        (GatewayError::Timeout, 408, "TIMEOUT", "operation timed out"),
        (
            GatewayError::TranscribeFailed("x".to_string()),
            500,
            "TRANSCRIBE_FAILED",
            "transcription failed: x",
        ),
        (
            GatewayError::Overloaded,
            503,
            "OVERLOADED",
            "service overloaded, try again shortly",
        ),
    ];
    for (error, status, code, message) in cases {
        assert_eq!(error.message(), message);
        let response = ApiError::from(error).into_response();
        assert_eq!(response.status, status);
        assert_eq!(response.code, code);
        assert_eq!(response.message, message);
    }
}

#[test]
fn numbers_are_written_in_decimal() {
    assert_eq!(decimal_string(0), "0");
    assert_eq!(decimal_string(9), "9");
    assert_eq!(decimal_string(10), "10");
    assert_eq!(decimal_string(9_876_543_210), "9876543210");
    assert_eq!(decimal_string(u64::MAX), "18446744073709551615");
}

#[test]
fn texts_are_joined_with_single_spaces() {
    assert_eq!(join_with_spaces(&vec![]), "");
    assert_eq!(join_with_spaces(&vec!["a".to_string()]), "a");
    assert_eq!(
        join_with_spaces(&vec!["so my".to_string(), "fellow".to_string(), "é".to_string()]),
        "so my fellow é"
    );
    assert!(same_text("file", "file"));
    assert!(!same_text("file", "File"));
}
