//! Streaming sessions and voice activity.

use rustyecho::stream::{
    emit_result, handshake, Action, ClientMessage, Event, Handshake, Phase, Received,
    ServerMessage, Session, IDLE_TIMEOUT_SECS,
};
use rustyecho::transcribe::{
    AudioFormat, MockTranscriber, PcmBuffer, TranscribeError, TranscriptionResult,
};
use rustyecho::vad::{
    append_pcm16le, EnergyVad, FRAME_SAMPLES, MAX_BUFFER_SAMPLES, SILENCE_HANG_FRAMES,
};

fn rms(frame: &[i16]) -> f32 {
    let sum_sq: f32 = frame
        .iter()
        .map(|&s| s as f32 / i16::MAX as f32)
        .map(|s| s * s)
        .sum();
    (sum_sq / frame.len() as f32).sqrt()
}

fn is_speech(frame: &[i16]) -> bool {
    rms(frame) >= 0.02
}

fn pcm16le_silence(duration_ms: u64) -> Vec<u8> {
    let n_samples = (16_000 * duration_ms / 1000) as usize;
    vec![0u8; n_samples * 2]
}

/// A sine tone well above the threshold of speech.
fn pcm16le_sine(duration_ms: u64, freq_hz: f32) -> Vec<u8> {
    let n_samples = (16_000 * duration_ms / 1000) as usize;
    let mut bytes = Vec::with_capacity(n_samples * 2);
    for i in 0..n_samples {
        let t = i as f32 / 16_000.0;
        let sample = (t * freq_hz * 2.0 * std::f32::consts::PI).sin() * 0.5;
        let value = (sample * i16::MAX as f32) as i16;
        bytes.extend_from_slice(&value.to_le_bytes());
    }
    bytes
}

fn samples(bytes: &[u8]) -> Vec<i16> {
    let mut buf = Vec::new();
    append_pcm16le(&mut buf, bytes);
    buf
}

fn step(session: &mut Session, event: Event) -> Action {
    assert!(session.expects(&event));
    session.step(event, is_speech)
}

fn receive(session: &mut Session, received: Received) -> Action {
    step(session, Event::Received(received))
}

fn start(sample_rate: u32, channels: u16) -> Received {
    Received::Text(Some(ClientMessage::Start { sample_rate, channels }))
}

fn stop() -> Received {
    Received::Text(Some(ClientMessage::Stop))
}

fn open() -> Session {
    let mut session = Session::new();
    assert!(matches!(receive(&mut session, start(16_000, 1)), Action::Receive));
    assert_eq!(session.phase(), Phase::Streaming);
    session
}

/// Transcribes a chunk with the mock and returns the message for the client.
fn transcribe(session: &mut Session, action: Action) -> ServerMessage {
    let chunk = match action {
        Action::Transcribe(chunk) => chunk,
        other => panic!("nothing to transcribe: {other:?}"),
    };
    assert_eq!(chunk.format, AudioFormat::target());
    let result: TranscriptionResult<f32> = MockTranscriber.transcribe(chunk).unwrap();
    match step(session, Event::Transcribed(Ok(result.text))) {
        Action::Send(message) => message,
        other => panic!("nothing to send: {other:?}"),
    }
}

fn chunk_of(action: Action) -> PcmBuffer<i16> {
    match action {
        Action::Transcribe(chunk) => chunk,
        other => panic!("nothing to transcribe: {other:?}"),
    }
}

fn sent_error(action: Action) -> (String, String) {
    match action {
        Action::Send(ServerMessage::Error { code, message }) => (code, message),
        other => panic!("no error: {other:?}"),
    }
}

#[test]
fn stream_emits_partial_after_silence_then_final_on_stop() {
    let mut session = open();

    // 500ms of speech followed by 500ms of silence, well past the 400ms that end a
    // chunk, should cut a chunk without waiting for stop.
    let mut audio = pcm16le_sine(500, 440.0);
    audio.extend(pcm16le_silence(500));
    let action = receive(&mut session, Received::Binary(audio));
    let partial = transcribe(&mut session, action);
    assert!(matches!(&partial, ServerMessage::Partial { text }
        if text == "[mock transcription of 1000ms audio]"));
    assert!(matches!(step(&mut session, Event::Sent(true)), Action::Receive));

    let action = receive(&mut session, stop());
    let last = transcribe(&mut session, action);
    assert!(matches!(&last, ServerMessage::Final { text }
        if text == "[mock transcription of 0ms audio]"));
    assert!(matches!(step(&mut session, Event::Sent(true)), Action::Close));
    assert_eq!(session.phase(), Phase::Closed);
}

#[test]
fn stream_hard_cap_cuts_continuous_speech_without_pause() {
    let mut session = open();

    // 5.5s of continuous speech with no pause: only the 5s hard cap forces a cut.
    let action = receive(&mut session, Received::Binary(pcm16le_sine(5_500, 440.0)));
    let partial = transcribe(&mut session, action);
    assert!(matches!(&partial, ServerMessage::Partial { text }
        if text == "[mock transcription of 5000ms audio]"));

    // What is beyond the cap begins the next chunk.
    assert!(matches!(step(&mut session, Event::Sent(true)), Action::Receive));
    let chunk = chunk_of(receive(&mut session, stop()));
    assert_eq!(chunk.samples, samples(&pcm16le_sine(5_500, 440.0))[80_000..]);
}

#[test]
fn long_messages_are_transcribed_chunk_by_chunk() {
    let mut session = open();
    let mut audio = pcm16le_sine(12_000, 440.0);
    audio.extend(pcm16le_silence(500));
    let sent = samples(&audio);

    let first = chunk_of(receive(&mut session, Received::Binary(audio)));
    assert_eq!(first.samples, sent[..80_000]);
    step(&mut session, Event::Transcribed(Ok(String::new())));
    // The next chunk comes before another message is received.
    let second = chunk_of(step(&mut session, Event::Sent(true)));
    assert_eq!(second.samples, sent[80_000..160_000]);
    step(&mut session, Event::Transcribed(Err(TranscribeError::Overloaded)));
    // The last two seconds of speech and the pause after them are a chunk too.
    let third = chunk_of(step(&mut session, Event::Sent(true)));
    assert_eq!(third.samples, sent[160_000..]);
    step(&mut session, Event::Transcribed(Ok(String::new())));
    assert!(matches!(step(&mut session, Event::Sent(true)), Action::Receive));
    assert_eq!(session.phase(), Phase::Streaming);
}

#[test]
fn pending_chunks_are_dropped_with_the_connection() {
    let mut session = open();
    chunk_of(receive(&mut session, Received::Binary(pcm16le_sine(12_000, 440.0))));
    step(&mut session, Event::Transcribed(Ok(String::new())));
    assert!(matches!(step(&mut session, Event::Sent(false)), Action::Close));
}

#[test]
fn stream_rejects_unsupported_format() {
    let mut session = Session::new();
    let (code, message) = sent_error(receive(&mut session, start(44_100, 2)));
    assert_eq!(code, "UNSUPPORTED_FORMAT");
    assert_eq!(message, "streaming only supports 16000Hz mono PCM16LE");
    assert!(matches!(step(&mut session, Event::Sent(true)), Action::Close));
}

#[test]
fn stream_rejects_missing_handshake() {
    let mut session = Session::new();

    // Sending binary audio before the start handshake is invalid.
    let action = receive(&mut session, Received::Binary(pcm16le_silence(100)));
    assert!(matches!(action, Action::Close));
    assert_eq!(session.phase(), Phase::Closed);
}

#[test]
fn handshake_accepts_the_target_format_only() {
    assert!(matches!(handshake(&start(16_000, 1)), Handshake::Accepted));
    for first in [start(16_000, 2), start(8_000, 1), start(0, 0)] {
        assert!(matches!(
            handshake(&first),
            Handshake::Refused(ServerMessage::Error { code, .. }) if code == "UNSUPPORTED_FORMAT"
        ));
    }
    for first in [stop(), Received::Text(None)] {
        assert!(matches!(
            handshake(&first),
            Handshake::Refused(ServerMessage::Error { code, message })
                if code == "INVALID_HANDSHAKE"
                    && message
                        == r#"first message must be {"type":"start","sample_rate":16000,"channels":1}"#
        ));
    }
    for first in [
        Received::Binary(vec![1, 2]),
        Received::Close,
        Received::Other,
        Received::Failed,
        Received::Ended,
        Received::TimedOut,
    ] {
        assert!(matches!(handshake(&first), Handshake::Dropped));
    }
}

#[test]
fn refused_clients_are_turned_away() {
    let mut session = Session::new();
    sent_error(receive(&mut session, Received::Text(None)));
    assert_eq!(session.phase(), Phase::Sending { last: true });
    assert!(!session.expects(&Event::Received(start(16_000, 1))));
    assert!(matches!(step(&mut session, Event::Sent(false)), Action::Close));
    assert!(!session.expects(&Event::Received(start(16_000, 1))));
}

#[test]
fn idle_clients_are_told_and_left() {
    assert_eq!(IDLE_TIMEOUT_SECS, 60);
    let mut session = open();
    let (code, message) = sent_error(receive(&mut session, Received::TimedOut));
    assert_eq!((code.as_str(), message.as_str()), ("TIMEOUT", "no data received within 60s"));
    assert!(matches!(step(&mut session, Event::Sent(true)), Action::Close));
}

#[test]
fn clients_may_leave_at_any_time() {
    for received in [Received::Close, Received::Failed, Received::Ended] {
        let mut session = open();
        assert!(matches!(receive(&mut session, received), Action::Close));
        assert_eq!(session.phase(), Phase::Closed);
        assert!(!session.expects(&Event::Received(Received::Other)));
        assert!(!session.expects(&Event::Sent(true)));
    }
}

#[test]
fn messages_that_mean_nothing_are_ignored() {
    let mut session = open();
    for received in [Received::Other, Received::Text(None), start(16_000, 1), start(1, 1)] {
        assert!(matches!(receive(&mut session, received), Action::Receive));
    }
    assert_eq!(session.phase(), Phase::Streaming);
}

#[test]
fn failed_transcriptions_are_reported_and_the_session_goes_on() {
    let mut session = open();
    chunk_of(receive(&mut session, Received::Binary(pcm16le_sine(5_000, 440.0))));
    let failure = Event::Transcribed(Err(TranscribeError::Backend("no model".to_string())));
    let (code, message) = sent_error(step(&mut session, failure));
    assert_eq!(code, "TRANSCRIBE_FAILED");
    assert_eq!(message, "transcription backend error: no model");
    assert!(matches!(step(&mut session, Event::Sent(true)), Action::Receive));
    assert_eq!(session.phase(), Phase::Streaming);
}

#[test]
fn a_lost_partial_ends_the_session() {
    let mut session = open();
    let action = receive(&mut session, Received::Binary(pcm16le_sine(5_000, 440.0)));
    transcribe(&mut session, action);
    assert!(matches!(step(&mut session, Event::Sent(false)), Action::Close));
}

#[test]
fn a_failed_last_chunk_is_reported_before_closing() {
    let mut session = open();
    receive(&mut session, Received::Binary(pcm16le_sine(100, 440.0)));
    let chunk = chunk_of(receive(&mut session, stop()));
    assert_eq!(chunk.samples, samples(&pcm16le_sine(100, 440.0)));
    let (code, message) =
        sent_error(step(&mut session, Event::Transcribed(Err(TranscribeError::Overloaded))));
    assert_eq!(code, "TRANSCRIBE_FAILED");
    assert_eq!(message, "transcription backend is overloaded");
    assert!(matches!(step(&mut session, Event::Sent(true)), Action::Close));
}

#[test]
fn results_are_partial_or_final() {
    assert!(matches!(emit_result(Ok("a".to_string()), false),
        ServerMessage::Partial { text } if text == "a"));
    assert!(matches!(emit_result(Ok("b".to_string()), true),
        ServerMessage::Final { text } if text == "b"));
    assert!(matches!(emit_result(Err(TranscribeError::Overloaded), true),
        ServerMessage::Error { code, .. } if code == "TRANSCRIBE_FAILED"));
}

#[test]
fn a_session_transcribes_all_audio_once() {
    let mut session = open();
    let mut sent: Vec<i16> = Vec::new();
    let mut transcribed: Vec<i16> = Vec::new();
    for i in 0..40u64 {
        let bytes = if i % 7 < 4 {
            pcm16le_sine(90 + 13 * i, 300.0 + i as f32)
        } else {
            pcm16le_silence(150 + 170 * i)
        };
        append_pcm16le(&mut sent, &bytes);
        let mut action = receive(&mut session, Received::Binary(bytes));
        while let Action::Transcribe(chunk) = action {
            assert!(chunk.samples.len() <= MAX_BUFFER_SAMPLES);
            transcribed.extend(chunk.samples);
            step(&mut session, Event::Transcribed(Ok(String::new())));
            action = step(&mut session, Event::Sent(true));
        }
        assert!(matches!(action, Action::Receive));
    }
    assert!(!transcribed.is_empty());
    transcribed.extend(chunk_of(receive(&mut session, stop())).samples);
    assert_eq!(transcribed, sent);
}

#[test]
fn raw_samples_are_little_endian() {
    assert_eq!(samples(&[0x01, 0x00, 0xff, 0x7f, 0x00, 0x80, 0xff, 0xff, 0x12]), [
        1, 32767, -32768, -1
    ]);
    assert!(samples(&[0x12]).is_empty());
}

#[test]
fn silence_alone_is_cut_at_the_cap_only() {
    let mut vad = EnergyVad::new();
    for _ in 0..49 {
        assert!(vad.push(&pcm16le_silence(100), is_speech).is_empty());
    }
    let chunks = vad.push(&pcm16le_silence(100), is_speech);
    assert_eq!(chunks, [vec![0; MAX_BUFFER_SAMPLES]]);
    assert!(vad.take().is_empty());
}

#[test]
fn speech_is_cut_after_exactly_twenty_silent_frames() {
    assert_eq!((FRAME_SAMPLES, SILENCE_HANG_FRAMES), (320, 20));
    let mut vad = EnergyVad::new();
    assert!(vad.push(&pcm16le_sine(20, 440.0), is_speech).is_empty());
    for _ in 0..19 {
        assert!(vad.push(&pcm16le_silence(20), is_speech).is_empty());
    }
    let chunks = vad.push(&pcm16le_silence(20), is_speech);
    assert_eq!(chunks.len(), 1);
    assert_eq!(chunks[0].len(), 21 * FRAME_SAMPLES);
}

#[test]
fn ongoing_speech_is_not_cut() {
    let mut vad = EnergyVad::new();
    for _ in 0..10 {
        let mut bytes = pcm16le_silence(380);
        bytes.extend(pcm16le_sine(20, 440.0));
        assert!(vad.push(&bytes, is_speech).is_empty());
    }
    assert_eq!(vad.take().len(), 64_000);
}

#[test]
fn no_chunk_lasts_longer_than_five_seconds() {
    for seconds in [5, 6, 10, 11, 17] {
        let mut vad = EnergyVad::new();
        let bytes = pcm16le_sine(1000 * seconds, 440.0);
        let chunks = vad.push(&bytes, is_speech);
        assert_eq!(chunks.len(), seconds as usize / 5);
        assert!(chunks.iter().all(|c| c.len() == MAX_BUFFER_SAMPLES));
        let mut all = chunks.concat();
        let left = vad.take();
        assert!(left.len() < MAX_BUFFER_SAMPLES);
        all.extend(left);
        assert_eq!(all, samples(&bytes));
    }
}

#[test]
fn what_is_left_of_a_long_message_is_judged_anew() {
    let mut vad = EnergyVad::new();
    // Speech and a long pause: the pause beyond the cap does not count as one after speech.
    let mut bytes = pcm16le_sine(4_900, 440.0);
    bytes.extend(pcm16le_silence(1_000));
    let chunks = vad.push(&bytes, is_speech);
    assert_eq!(chunks.len(), 1);
    assert_eq!(chunks[0].len(), MAX_BUFFER_SAMPLES);
    assert_eq!(vad.take().len(), 14_400);
}

#[test]
fn frames_are_judged_once_complete() {
    let judged = std::cell::RefCell::new(Vec::new());
    let judge = |frame: &[i16]| {
        judged.borrow_mut().push(frame.len());
        true
    };
    let mut vad = EnergyVad::new();
    assert!(vad.push(&pcm16le_silence(15), &judge).is_empty());
    assert!(judged.borrow().is_empty());
    assert!(vad.push(&pcm16le_silence(10), &judge).is_empty());
    assert_eq!(*judged.borrow(), [FRAME_SAMPLES]);
    assert!(vad.push(&pcm16le_silence(15), &judge).is_empty());
    assert_eq!(*judged.borrow(), [FRAME_SAMPLES, FRAME_SAMPLES]);
    assert_eq!(vad.take().len(), 640);
}

#[test]
fn the_split_over_messages_does_not_matter() {
    let mut audio = pcm16le_sine(700, 440.0);
    audio.extend(pcm16le_silence(410));
    let mut whole = EnergyVad::new();
    let expected = whole.push(&audio, is_speech);
    assert_eq!(expected.len(), 1);
    for split in [0, 2, 642, 10_000, 22_400, 35_000] {
        let mut vad = EnergyVad::new();
        assert!(vad.push(&audio[..split], is_speech).is_empty());
        assert_eq!(vad.push(&audio[split..], is_speech), expected);
        assert!(vad.take().is_empty());
    }
}
