//! The part of the model's configuration that is needed at run time.

use vstd::prelude::*;

verus! {

/// The configuration of the model.
#[derive(Debug, Clone, Copy, PartialEq, Eq, Structural)]
pub struct Config {
    pub ae: AeConfig,
    pub ttl: TtlConfig,
}

/// The configuration of the auto-encoder.
#[derive(Debug, Clone, Copy, PartialEq, Eq, Structural)]
pub struct AeConfig {
    /// Samples per second.
    pub sample_rate: i32,
    /// Samples that one frame of the uncompressed latent stands for.
    pub base_chunk_size: i32,
}

/// The configuration of the text-to-latent networks.
#[derive(Debug, Clone, Copy, PartialEq, Eq, Structural)]
pub struct TtlConfig {
    /// Channels of the uncompressed latent.
    pub latent_dim: i32,
    /// Frames of the uncompressed latent that are packed into one.
    pub chunk_compress_factor: i32,
}

} // verus!
