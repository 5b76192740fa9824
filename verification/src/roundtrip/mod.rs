//! Speaking a text, transcribing the audio, and comparing the two.

pub mod lines;
pub mod tally;
pub mod transcript;
pub mod wer;
pub mod wer_laws;
