//! Speech to text with Whisper: which parts of a chunk are in which language,
//! what is fed to the decoder, and when decoding stops.

pub mod language;
pub mod tokens;
pub mod choice;
pub mod decode;
pub mod pool;
