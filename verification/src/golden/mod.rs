//! Recorded results of the networks, and how they are compared with computed ones.

pub mod archive;
pub mod duration;
pub mod flow;
pub mod names;
pub mod text;
pub mod vocoder;
