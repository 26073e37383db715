//! Decoding WAV files.

use std::f32::consts::PI;
use std::io::Cursor;

use rubato::{
    Resampler, SincFixedIn, SincInterpolationParameters, SincInterpolationType, WindowFunction,
};
use rustyecho::audio::{
    accept_header, accept_samples, decode_mono, decode_wav, downmix_to_mono, normalize_i16,
    resample, to_target, MonoAudio, SampleFormat, WavSpec, MAX_FILE_BYTES, MAX_FILE_MB,
};
use rustyecho::error::GatewayError;
use rustyecho::transcribe::{AudioFormat, PcmBuffer};

fn normalized(s: i16) -> f32 {
    s as f32 / i16::MAX as f32
}

fn sinc(samples: &Vec<f32>, from: u32, to: u32) -> Result<Vec<f32>, String> {
    let params = SincInterpolationParameters {
        sinc_len: 256,
        f_cutoff: 0.95,
        interpolation: SincInterpolationType::Linear,
        oversampling_factor: 256,
        window: WindowFunction::BlackmanHarris2,
    };
    let mut resampler =
        SincFixedIn::<f32>::new(to as f64 / from as f64, 2.0, params, samples.len(), 1)
            .map_err(|e| e.to_string())?;
    let out = resampler
        .process(&vec![samples.to_vec()], None)
        .map_err(|e| e.to_string())?;
    Ok(out.into_iter().next().unwrap_or_default())
}

fn decode(bytes: &[u8]) -> Result<PcmBuffer<f32>, GatewayError> {
    decode_wav(bytes, normalized, sinc)
}

fn never(_: &Vec<i16>, _: u32, _: u32) -> Result<Vec<i16>, String> {
    panic!("nothing is to be resampled")
}

/// Generates an in-memory sine wave.
fn make_wav(sample_rate: u32, channels: u16, seconds: f32) -> Vec<u8> {
    let spec = hound::WavSpec {
        channels,
        sample_rate,
        bits_per_sample: 16,
        sample_format: hound::SampleFormat::Int,
    };
    let mut cursor = Cursor::new(Vec::new());
    {
        let mut writer = hound::WavWriter::new(&mut cursor, spec).unwrap();
        let n = (sample_rate as f32 * seconds) as u32;
        for i in 0..n {
            let t = i as f32 / sample_rate as f32;
            let sample = (t * 440.0 * 2.0 * PI).sin();
            let value = (sample * i16::MAX as f32) as i16;
            for _ in 0..channels {
                writer.write_sample(value).unwrap();
            }
        }
        writer.finalize().unwrap();
    }
    cursor.into_inner()
}

fn written(spec: hound::WavSpec, samples: &[i16]) -> Vec<u8> {
    let mut cursor = Cursor::new(Vec::new());
    {
        let mut writer = hound::WavWriter::new(&mut cursor, spec).unwrap();
        for &s in samples {
            writer.write_sample(s).unwrap();
        }
        writer.finalize().unwrap();
    }
    cursor.into_inner()
}

/// A plain file, byte by byte.
fn plain_file(channels: u16, sample_rate: u32, samples: &[i16]) -> Vec<u8> {
    let data = 2 * samples.len() as u32;
    let mut file = Vec::new();
    file.extend_from_slice(b"RIFF");
    file.extend_from_slice(&(36 + data).to_le_bytes());
    file.extend_from_slice(b"WAVEfmt ");
    file.extend_from_slice(&16u32.to_le_bytes());
    file.extend_from_slice(&1u16.to_le_bytes());
    file.extend_from_slice(&channels.to_le_bytes());
    file.extend_from_slice(&sample_rate.to_le_bytes());
    file.extend_from_slice(&(sample_rate * 2 * channels as u32).to_le_bytes());
    file.extend_from_slice(&(2 * channels).to_le_bytes());
    file.extend_from_slice(&16u16.to_le_bytes());
    file.extend_from_slice(b"data");
    file.extend_from_slice(&data.to_le_bytes());
    for s in samples {
        file.extend_from_slice(&s.to_le_bytes());
    }
    file
}

#[test]
fn decodes_mono_16k_to_target_format() {
    let wav = make_wav(16_000, 1, 1.0);
    let buf = decode(&wav).unwrap();
    assert_eq!(buf.format, AudioFormat::target());
    assert_eq!(buf.samples.len(), 16_000);
}

#[test]
fn downmixes_stereo_and_resamples() {
    let wav = make_wav(44_100, 2, 1.0);
    let buf = decode(&wav).unwrap();
    assert_eq!(buf.format, AudioFormat::target());
    let expected = 16_000i64;
    let actual = buf.samples.len() as i64;
    assert!((actual - expected).abs() < 200, "got {actual} samples");
}

#[test]
fn rejects_oversized_file() {
    let mut fake = vec![0u8; MAX_FILE_BYTES + 1];
    fake[0..4].copy_from_slice(b"RIFF");
    let err = decode(&fake).unwrap_err();
    assert!(matches!(err, GatewayError::FileTooLarge { .. }));
    assert_eq!(err.message(), "file exceeds maximum size of 25MB");
}

#[test]
fn rejects_corrupt_header() {
    let err = decode(&[0u8; 10]).unwrap_err();
    assert!(matches!(err, GatewayError::DecodeFailed(_)));
}

#[test]
fn largest_file_is_not_too_large() {
    assert_eq!(MAX_FILE_BYTES as u64, MAX_FILE_MB * 1024 * 1024);
    let fake = vec![0u8; MAX_FILE_BYTES];
    let err = decode(&fake).unwrap_err();
    assert!(matches!(err, GatewayError::DecodeFailed(_)));
}

#[test]
fn decoded_samples_are_those_of_the_file() {
    let samples = [0i16, 1, -1, 32767, -32768, 12345];
    let audio = decode_mono(&plain_file(1, 8_000, &samples)).unwrap();
    assert_eq!(audio.samples, samples);
    assert_eq!(audio.sample_rate, 8_000);

    let buf = decode_wav(&plain_file(1, 16_000, &samples), |s: i16| s, never).unwrap();
    assert_eq!(buf.samples, samples);
}

#[test]
fn plain_files_with_several_channels_are_averaged() {
    let samples = [10i16, 20, -3, -4, 32767, 32767, -32768, -32768];
    let audio = decode_mono(&plain_file(2, 44_100, &samples)).unwrap();
    assert_eq!(audio.samples, [15, -3, 32767, -32768]);
    assert_eq!(audio.sample_rate, 44_100);
}

#[test]
fn files_of_a_writer_and_plain_files_decode_alike() {
    let samples = [5i16, 7, -9, 11];
    let spec = hound::WavSpec {
        channels: 2,
        sample_rate: 22_050,
        bits_per_sample: 16,
        sample_format: hound::SampleFormat::Int,
    };
    let a = decode_mono(&written(spec, &samples)).unwrap();
    let b = decode_mono(&plain_file(2, 22_050, &samples)).unwrap();
    assert_eq!(a.samples, [6, 1]);
    assert_eq!(a.samples, b.samples);
    assert_eq!(a.sample_rate, b.sample_rate);
}

#[test]
fn rejects_other_bit_depths_and_floats() {
    let mut cursor = Cursor::new(Vec::new());
    {
        let spec = hound::WavSpec {
            channels: 1,
            sample_rate: 16_000,
            bits_per_sample: 24,
            sample_format: hound::SampleFormat::Int,
        };
        let mut writer = hound::WavWriter::new(&mut cursor, spec).unwrap();
        writer.write_sample(1i32).unwrap();
        writer.finalize().unwrap();
    }
    let err = decode(&cursor.into_inner()).unwrap_err();
    assert_eq!(
        err.message(),
        "unsupported audio format: expected 16-bit PCM, got Int 24-bit"
    );

    let mut cursor = Cursor::new(Vec::new());
    {
        let spec = hound::WavSpec {
            channels: 1,
            sample_rate: 16_000,
            bits_per_sample: 32,
            sample_format: hound::SampleFormat::Float,
        };
        let mut writer = hound::WavWriter::new(&mut cursor, spec).unwrap();
        writer.write_sample(0.5f32).unwrap();
        writer.finalize().unwrap();
    }
    let err = decode(&cursor.into_inner()).unwrap_err();
    assert_eq!(
        err.message(),
        "unsupported audio format: expected 16-bit PCM, got Float 32-bit"
    );
}

#[test]
fn rejects_truncated_samples() {
    let mut file = plain_file(1, 16_000, &[1, 2, 3, 4]);
    file.truncate(file.len() - 3);
    let err = decode(&file).unwrap_err();
    assert!(matches!(err, GatewayError::DecodeFailed(_)));
}

#[test]
fn headers_are_accepted_as_they_were_read() {
    let good = WavSpec {
        channels: 2,
        sample_rate: 48_000,
        bits_per_sample: 16,
        sample_format: SampleFormat::Int,
    };
    assert_eq!(accept_header(Ok(good)).unwrap(), good);
    let err = accept_header(Ok(WavSpec { channels: 0, ..good })).unwrap_err();
    assert_eq!(err.message(), "unsupported audio format: zero channels");
    let err = accept_header(Ok(WavSpec { bits_per_sample: 8, ..good })).unwrap_err();
    assert_eq!(
        err.message(),
        "unsupported audio format: expected 16-bit PCM, got Int 8-bit"
    );
    let err = accept_header(Err("no header".to_string())).unwrap_err();
    assert_eq!(err.message(), "failed to decode audio: no header");
}

#[test]
fn samples_are_accepted_as_they_were_read() {
    let spec = WavSpec {
        channels: 3,
        sample_rate: 11_025,
        bits_per_sample: 16,
        sample_format: SampleFormat::Int,
    };
    let audio = accept_samples(spec, Ok(vec![1, 2, 6, -1, -2, -6])).unwrap();
    assert_eq!(audio.samples, [3, -3]);
    assert_eq!(audio.sample_rate, 11_025);
    let err = accept_samples(spec, Err("cut short".to_string())).unwrap_err();
    assert_eq!(err.message(), "failed to decode audio: cut short");
}

#[test]
fn downmix_means_round_towards_zero_and_drop_incomplete_frames() {
    assert_eq!(downmix_to_mono(&[1, 2, 3], 1), [1, 2, 3]);
    assert_eq!(downmix_to_mono(&[1, 2, 3], 0), [1, 2, 3]);
    assert_eq!(downmix_to_mono(&[1, 2, -1, -2, 9], 2), [1, -1]);
    assert_eq!(downmix_to_mono(&[32767, 32767, 32766], 3), [32766]);
    assert_eq!(downmix_to_mono(&[], 2), [0i16; 0]);
}

#[test]
fn equal_channels_are_kept() {
    let samples = [4i16, 4, 4, -7, -7, -7, 32767, 32767, 32767];
    assert_eq!(downmix_to_mono(&samples, 3), [4, -7, 32767]);
}

#[test]
fn normalizes_sample_by_sample() {
    let n = normalize_i16(&[0, 32767, -32767], normalized);
    assert_eq!(n, [0.0, 1.0, -1.0]);
}

#[test]
fn resampling_is_skipped_without_samples() {
    let none: Vec<i16> = Vec::new();
    assert_eq!(resample(&none, 44_100, 16_000, never).unwrap(), none);
    let some = resample(&vec![1i16, 2], 8_000, 16_000, |v: &Vec<i16>, from: u32, to: u32| {
        Ok(v.iter().map(|s| s * (to / from) as i16).collect())
    });
    assert_eq!(some.unwrap(), [2, 4]);
}

#[test]
fn only_other_rates_are_resampled() {
    let audio = MonoAudio { samples: vec![1, 2, 3], sample_rate: 16_000 };
    let buf = to_target(&audio, |s: i16| s, never).unwrap();
    assert_eq!(buf.samples, [1, 2, 3]);

    let audio = MonoAudio { samples: vec![1, 2, 3], sample_rate: 32_000 };
    let buf = to_target(&audio, |s: i16| s, |v: &Vec<i16>, from: u32, to: u32| {
        assert_eq!((from, to), (32_000, 16_000));
        Ok(vec![v[0]])
    })
    .unwrap();
    assert_eq!(buf.samples, [1]);
    assert_eq!(buf.format, AudioFormat::target());

    let err = to_target(&audio, |s: i16| s, |_: &Vec<i16>, _: u32, _: u32| {
        Err("bad ratio".to_string())
    })
    .unwrap_err();
    assert_eq!(err.message(), "failed to decode audio: bad ratio");
}
