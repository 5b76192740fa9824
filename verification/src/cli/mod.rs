//! The command lines of the programs.

pub mod download;
pub mod laws;
pub mod options;
pub mod roundtrip;
pub mod speak;
