//! What a MIDI message asks of the voices.

use vstd::prelude::*;
use crate::midi::parser::MidiMessage;

verus! {

/// A note event for the voices: a key pressed with a velocity, or released.
#[derive(Debug, Clone, Copy, PartialEq, Eq, Structural)]
pub enum NoteEvent {
    On { note: u8, velocity: u8 },
    Off { note: u8 },
}

/// The note event a message carries: note-ons press and note-offs release
/// (a note-on of velocity zero arrives parsed as a note-off); every other
/// message only changes the MIDI state.
pub open spec fn spec_note_event(msg: MidiMessage) -> Option<NoteEvent> {
    match msg {
        MidiMessage::NoteOn { note, velocity, .. } => Some(NoteEvent::On { note, velocity }),
        MidiMessage::NoteOff { note, .. } => Some(NoteEvent::Off { note }),
        _ => None,
    }
}

/// The note event a message carries, if any.
pub fn note_event(msg: MidiMessage) -> (e: Option<NoteEvent>)
    ensures
        e == spec_note_event(msg),
{
    match msg {
        MidiMessage::NoteOn { note, velocity, .. } => Some(NoteEvent::On { note, velocity }),
        MidiMessage::NoteOff { note, .. } => Some(NoteEvent::Off { note }),
        _ => None,
    }
}

} // verus!
