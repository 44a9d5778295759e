use synthesis::engine::events::{note_event, NoteEvent};
use synthesis::midi::cc;
use synthesis::midi::parser::{note_name, parse_midi, MidiMessage};
use synthesis::midi::state::{MidiState, NoteState};

#[test]
fn test_parse_note_on() {
    let msg = parse_midi(&[0x90, 60, 100]);
    assert_eq!(msg, MidiMessage::NoteOn { channel: 0, note: 60, velocity: 100 });
}

#[test]
fn test_parse_note_off() {
    let msg = parse_midi(&[0x80, 60, 64]);
    assert_eq!(msg, MidiMessage::NoteOff { channel: 0, note: 60, velocity: 64 });
}

#[test]
fn test_parse_note_on_vel_zero() {
    let msg = parse_midi(&[0x90, 60, 0]);
    assert_eq!(msg, MidiMessage::NoteOff { channel: 0, note: 60, velocity: 0 });
}

#[test]
fn test_parse_cc() {
    let msg = parse_midi(&[0xB0, 1, 64]);
    assert_eq!(msg, MidiMessage::ControlChange { channel: 0, controller: 1, value: 64 });
}

#[test]
fn test_parse_pitch_bend() {
    let msg = parse_midi(&[0xE0, 0, 64]);
    if let MidiMessage::PitchBend { channel, value } = msg {
        assert_eq!(channel, 0);
        assert!(value.abs() < 100);
    } else {
        panic!("Expected PitchBend");
    }
}

#[test]
fn test_note_name() {
    assert_eq!(note_name(60), "C4");
    assert_eq!(note_name(69), "A4");
    assert_eq!(note_name(0), "C-1");
}

#[test]
fn parse_reads_channel_from_low_nibble() {
    assert_eq!(parse_midi(&[0x9F, 61, 1]), MidiMessage::NoteOn { channel: 15, note: 61, velocity: 1 });
    assert_eq!(parse_midi(&[0xA3, 40, 7]), MidiMessage::PolyAftertouch { channel: 3, note: 40, pressure: 7 });
    assert_eq!(parse_midi(&[0xC2, 9]), MidiMessage::ProgramChange { channel: 2, program: 9 });
    assert_eq!(parse_midi(&[0xD5, 33]), MidiMessage::Aftertouch { channel: 5, pressure: 33 });
}

#[test]
fn parse_pitch_bend_extremes() {
    assert_eq!(parse_midi(&[0xE0, 0, 0]), MidiMessage::PitchBend { channel: 0, value: -8192 });
    assert_eq!(parse_midi(&[0xE0, 127, 127]), MidiMessage::PitchBend { channel: 0, value: 8191 });
    assert_eq!(parse_midi(&[0xE1, 0, 64]), MidiMessage::PitchBend { channel: 1, value: 0 });
}

#[test]
fn parse_short_and_system_messages() {
    assert_eq!(parse_midi(&[]), MidiMessage::Unknown);
    assert_eq!(parse_midi(&[0x90, 60]), MidiMessage::Unknown);
    assert_eq!(parse_midi(&[0xC0]), MidiMessage::Unknown);
    assert_eq!(parse_midi(&[0x40, 1, 2]), MidiMessage::Unknown);
    assert_eq!(parse_midi(&[0xF8]), MidiMessage::SystemExclusive(0xF8));
    assert_eq!(parse_midi(&[0x80, 60, 64, 99]), MidiMessage::NoteOff { channel: 0, note: 60, velocity: 64 });
}

#[test]
fn note_names_of_sharps_and_high_octaves() {
    assert_eq!(note_name(61), "C#4");
    assert_eq!(note_name(11), "B-1");
    assert_eq!(note_name(127), "G9");
    assert_eq!(note_name(130), "A#9");
    assert_eq!(note_name(255), "D#20");
}

fn note_on(state: &mut MidiState, note: u8, velocity: u8) {
    state.process_message(MidiMessage::NoteOn { channel: 0, note, velocity });
}

fn note_off(state: &mut MidiState, note: u8) {
    state.process_message(MidiMessage::NoteOff { channel: 0, note, velocity: 0 });
}

#[test]
fn test_midi_state_new() {
    let state = MidiState::new();
    assert!(state.notes_held().is_empty());
    assert_eq!(state.pitch_bend_value(), 0);
}

#[test]
fn test_note_on() {
    let mut state = MidiState::new();
    note_on(&mut state, 60, 100);
    assert_eq!(state.notes_held().len(), 1);
    assert_eq!(state.notes_held()[0].note, 60);
}

#[test]
fn test_note_off() {
    let mut state = MidiState::new();
    note_on(&mut state, 60, 100);
    note_off(&mut state, 60);
    assert!(state.notes_held().is_empty());
}

#[test]
fn test_sustain_holds_notes() {
    let mut state = MidiState::new();
    state.process_message(MidiMessage::ControlChange { channel: 0, controller: cc::SUSTAIN, value: 127 });
    note_on(&mut state, 60, 100);
    note_off(&mut state, 60);
    assert_eq!(state.notes_held().len(), 1);
}

#[test]
fn test_pitch_bend() {
    let mut state = MidiState::new();
    state.process_message(MidiMessage::PitchBend { channel: 0, value: 8192 });
    let semitones = state.pitch_bend_value() as f32 / 8192.0 * 2.0;
    assert!((semitones - 2.0).abs() < 0.01);
}

#[test]
fn test_cc() {
    let mut state = MidiState::new();
    state.process_message(MidiMessage::ControlChange { channel: 0, controller: cc::MOD_WHEEL, value: 64 });
    let mod_wheel = state.mod_wheel_value() as f32 / 127.0;
    assert!((mod_wheel - 0.5).abs() < 0.01);
}

#[test]
fn test_aftertouch() {
    let mut state = MidiState::new();
    state.process_message(MidiMessage::Aftertouch { channel: 0, pressure: 100 });
    assert!(state.pressure_value() as f32 / 127.0 > 0.5);
}

#[test]
fn test_reset() {
    let mut state = MidiState::new();
    note_on(&mut state, 60, 100);
    state.reset();
    assert!(state.notes_held().is_empty());
}

fn level(state: &MidiState, controller: u8) -> f32 {
    state.cc_level(controller) as f32 / 254.0
}

#[test]
fn test_volume() {
    let mut state = MidiState::new();
    assert!((level(&state, cc::VOLUME) * level(&state, cc::EXPRESSION) - 1.0).abs() < 0.01);
    state.process_message(MidiMessage::ControlChange { channel: 0, controller: cc::VOLUME, value: 64 });
    assert!((level(&state, cc::VOLUME) * level(&state, cc::EXPRESSION) - 0.5).abs() < 0.05);
}

#[test]
fn test_pan() {
    let mut state = MidiState::new();
    assert!((level(&state, cc::PAN) * 2.0 - 1.0).abs() < 0.01);
    state.process_message(MidiMessage::ControlChange { channel: 0, controller: cc::PAN, value: 127 });
    assert!(level(&state, cc::PAN) * 2.0 - 1.0 > 0.9);
}

#[test]
fn note_on_replaces_same_note_and_keeps_order() {
    let mut state = MidiState::new();
    note_on(&mut state, 60, 10);
    note_on(&mut state, 64, 20);
    note_on(&mut state, 60, 30);
    assert_eq!(
        state.notes_held(),
        &[NoteState { note: 64, velocity: 20, channel: 0 }, NoteState { note: 60, velocity: 30, channel: 0 }]
    );
}

#[test]
fn all_notes_off_and_reset_all_controllers() {
    let mut state = MidiState::new();
    note_on(&mut state, 60, 10);
    note_on(&mut state, 62, 10);
    state.process_message(MidiMessage::ControlChange { channel: 0, controller: cc::ALL_NOTES_OFF, value: 0 });
    assert!(state.notes_held().is_empty());
    assert_eq!(state.cc_level(cc::ALL_NOTES_OFF), 0);

    state.process_message(MidiMessage::ControlChange { channel: 0, controller: cc::SUSTAIN, value: 100 });
    state.process_message(MidiMessage::PitchBend { channel: 0, value: -100 });
    note_on(&mut state, 70, 1);
    state.process_message(MidiMessage::ControlChange { channel: 0, controller: cc::RESET_ALL, value: 5 });
    assert!(state.notes_held().is_empty());
    assert!(!state.sustain());
    assert_eq!(state.pitch_bend_value(), 0);
    assert_eq!(state.cc_level(cc::RESET_ALL), 0);
    assert_eq!(state.cc_level(cc::VOLUME), 254);
    assert_eq!(state.cc_level(cc::PAN), 127);
}

#[test]
fn poly_aftertouch_only_for_held_notes() {
    let mut state = MidiState::new();
    state.process_message(MidiMessage::PolyAftertouch { channel: 0, note: 60, pressure: 90 });
    assert_eq!(state.pressure_value(), 0);
    note_on(&mut state, 60, 100);
    state.process_message(MidiMessage::PolyAftertouch { channel: 0, note: 60, pressure: 90 });
    assert_eq!(state.pressure_value(), 90);
}

#[test]
fn process_bytes_tracks_notes_and_controllers() {
    let mut state = MidiState::new();
    state.process_bytes(&[0x90, 60, 100]);
    state.process_bytes(&[0xB0, 64, 63]);
    assert!(!state.sustain());
    state.process_bytes(&[0xB0, 64, 64]);
    assert!(state.sustain());
    state.process_bytes(&[0x90, 60, 0]);
    assert!(state.is_held(60));
    assert_eq!(state.cc_level(64), 128);
}

use synthesis::text::{contains, first_match, matches_ignoring_case};

#[test]
fn port_names_match_by_fragment_ignoring_case() {
    let names = vec!["Midi Through".to_string(), "USB Keyboard MIDI 1".to_string(), "usb keyboard midi 2".to_string()];
    assert_eq!(first_match(&names, "keyboard"), Some(1));
    assert_eq!(first_match(&names, "THROUGH"), Some(0));
    assert_eq!(first_match(&names, "synth"), None);
    assert!(matches_ignoring_case("Classic Bass", "BASS"));
    assert!(contains("abc", ""));
    assert!(!contains("ab", "abc"));
    assert!(contains("abcabd", "abd"));
}

#[test]
fn note_events_of_messages() {
    assert_eq!(note_event(parse_midi(&[0x90, 60, 100])), Some(NoteEvent::On { note: 60, velocity: 100 }));
    assert_eq!(note_event(parse_midi(&[0x90, 60, 0])), Some(NoteEvent::Off { note: 60 }));
    assert_eq!(note_event(parse_midi(&[0x81, 61, 40])), Some(NoteEvent::Off { note: 61 }));
    assert_eq!(note_event(parse_midi(&[0xB0, 7, 100])), None);
}
