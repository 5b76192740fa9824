//! The speech model: its configuration, the latent it starts from, the order in which
//! its networks run, and what they compute.

pub mod candle;
pub mod config;
pub mod latent;
pub mod pipeline;
pub mod voice;

pub use self::config::Config;
pub use self::voice::VoiceStyle;
