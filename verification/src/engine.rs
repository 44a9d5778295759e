//! Engine configuration, module ports and voice allocation.

pub mod config;
pub mod events;
pub mod module;
pub mod steal;
pub mod synth_voice;
pub mod voice;
