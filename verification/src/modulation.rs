//! Modulation routing and step sequencing.

pub mod matrix;
pub mod sequencer;
