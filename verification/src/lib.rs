//! A small groovebox core: notes and their timing, voice allocation, the
//! transport and recording state machine of the engine, the navigation of
//! the user interface, fixed-capacity containers, and the WAV reader of the
//! sampler.

pub mod engine;
pub mod input;
pub mod instrument;
pub mod midi;
pub mod plugin;
pub mod queue;
pub mod rng;
pub mod synth;
pub mod ui;
