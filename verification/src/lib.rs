//! A modular synthesizer's control logic: MIDI parsing and state tracking,
//! voice allocation, step sequencing and preset cataloguing.

pub mod audio;
pub mod effects;
pub mod engine;
pub mod midi;
pub mod modulation;
pub mod modules;
pub mod path;
pub mod preset;
pub mod text;

use vstd::prelude::*;
use vstd::string::StringExecFns;

verus! {

/// Errors of the synthesizer, each with a message.
#[derive(Debug)]
pub enum Error {
    Audio(String),
    Midi(String),
    Preset(String),
    Parameter(String),
}

/// The text shown for an error: a prefix naming its kind, then its message.
pub open spec fn spec_error_message(e: Error) -> Seq<char> {
    match e {
        Error::Audio(m) => "Audio error: "@ + m@,
        Error::Midi(m) => "MIDI error: "@ + m@,
        Error::Preset(m) => "Preset error: "@ + m@,
        Error::Parameter(m) => "Parameter error: "@ + m@,
    }
}

impl Error {
    /// Renders the error as text, e.g. "MIDI error: port not found".
    pub fn message(&self) -> (text: String)
        ensures
            text@ == spec_error_message(*self),
    {
        match self {
            Error::Audio(m) => {
                let mut s = String::from_str("Audio error: ");
                s.append(m.as_str());
                s
            },
            Error::Midi(m) => {
                let mut s = String::from_str("MIDI error: ");
                s.append(m.as_str());
                s
            },
            Error::Preset(m) => {
                let mut s = String::from_str("Preset error: ");
                s.append(m.as_str());
                s
            },
            Error::Parameter(m) => {
                let mut s = String::from_str("Parameter error: ");
                s.append(m.as_str());
                s
            },
        }
    }
}

} // verus!
