//! The logic of a speech-to-text gateway.
//!
//! Audio comes in as WAV files ([`audio`], [`upload`]) or as a stream ([`stream`]) that
//! is cut into chunks where the speaker pauses ([`vad`]). Transcribers ([`transcribe`])
//! turn chunks into text, Whisper among them ([`whisper`]). What goes wrong is reported
//! to clients ([`error`]).
//!
//! Nothing here waits, reads or sends. Floating point work on samples, and the acoustic
//! model, are handed in as functions.

pub mod audio;
pub mod config;
pub mod error;
pub mod stream;
pub mod text;
pub mod transcribe;
pub mod upload;
pub mod vad;
pub mod whisper;
