//! Text-to-speech: the text pipeline, the order in which a four-network speech model
//! runs, its networks as tensor programs, and the command lines around them.

pub mod audio;
pub mod cli;
pub mod digits;
pub mod golden;
pub mod model;
pub mod numbers;
pub mod roundtrip;
pub mod string_laws;
pub mod strings;
pub mod synthesis;
pub mod text;
