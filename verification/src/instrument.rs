//! The instruments that a track can play.

pub mod sampler;
