//! MIDI handling: parsing, controller numbers and state tracking.

pub mod cc;
pub mod parser;
pub mod state;
