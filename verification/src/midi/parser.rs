//! MIDI message parsing.

use vstd::prelude::*;
use crate::text::{decimal, lemma_decimal_shape, lemma_signed_decimal_injective, push_char, push_decimal, signed_decimal};

verus! {

/// A decoded MIDI channel or system message.
#[derive(Debug, Clone, Copy, PartialEq, Eq, Structural)]
#[allow(inconsistent_fields)]
pub enum MidiMessage {
    NoteOn { channel: u8, note: u8, velocity: u8 },
    NoteOff { channel: u8, note: u8, velocity: u8 },
    ControlChange { channel: u8, controller: u8, value: u8 },
    ProgramChange { channel: u8, program: u8 },
    PitchBend { channel: u8, value: i16 },
    Aftertouch { channel: u8, pressure: u8 },
    PolyAftertouch { channel: u8, note: u8, pressure: u8 },
    SystemExclusive(u8),
    Unknown,
}

/// The 14-bit pitch bend carried by the two data bytes, centred on zero.
pub open spec fn spec_bend_value(lsb: u8, msb: u8) -> int {
    ((((msb as u16) << 7u16) | (lsb as u16)) as int) - 8192
}

/// What the message encoded by `data` is; the bytes after those a message needs are ignored.
pub open spec fn spec_parse_midi(data: Seq<u8>) -> MidiMessage {
    if data.len() == 0 {
        MidiMessage::Unknown
    } else {
        let status = data[0];
        let channel = (status % 16) as u8;
        let kind = status - status % 16;
        if kind == 0x80 && data.len() >= 3 {
            MidiMessage::NoteOff { channel, note: data[1], velocity: data[2] }
        } else if kind == 0x90 && data.len() >= 3 {
            if data[2] == 0 {
                MidiMessage::NoteOff { channel, note: data[1], velocity: 0 }
            } else {
                MidiMessage::NoteOn { channel, note: data[1], velocity: data[2] }
            }
        } else if kind == 0xA0 && data.len() >= 3 {
            MidiMessage::PolyAftertouch { channel, note: data[1], pressure: data[2] }
        } else if kind == 0xB0 && data.len() >= 3 {
            MidiMessage::ControlChange { channel, controller: data[1], value: data[2] }
        } else if kind == 0xC0 && data.len() >= 2 {
            MidiMessage::ProgramChange { channel, program: data[1] }
        } else if kind == 0xD0 && data.len() >= 2 {
            MidiMessage::Aftertouch { channel, pressure: data[1] }
        } else if kind == 0xE0 && data.len() >= 3 {
            MidiMessage::PitchBend { channel, value: spec_bend_value(data[1], data[2]) as i16 }
        } else if kind == 0xF0 {
            MidiMessage::SystemExclusive(status)
        } else {
            MidiMessage::Unknown
        }
    }
}

proof fn lemma_status_split(status: u8)
    ensures
        status & 0x0f == status % 16,
        status & 0xf0 == status - status % 16,
{
    assert(status & 0x0f == status % 16) by (bit_vector);
    assert(status & 0xf0 == status - status % 16) by (bit_vector);
}

proof fn lemma_bend_range(lsb: u8, msb: u8)
    ensures
        (((msb as u16) << 7u16) | (lsb as u16)) <= 32767,
{
    assert((((msb as u16) << 7u16) | (lsb as u16)) <= 32767) by (bit_vector);
}

/// Parses raw MIDI bytes into a message.
///
/// A note-on with velocity zero is reported as a note-off; the channel is the
/// low nibble of the status byte; too short a message is `Unknown`.
pub fn parse_midi(data: &[u8]) -> (msg: MidiMessage)
    ensures
        msg == spec_parse_midi(data@),
{
    if data.len() == 0 {
        return MidiMessage::Unknown;
    }
    let status = data[0];
    proof {
        lemma_status_split(status);
    }
    let channel = status & 0x0F;
    let msg_type = status & 0xF0;
    if msg_type == 0x80 && data.len() >= 3 {
        MidiMessage::NoteOff { channel, note: data[1], velocity: data[2] }
    } else if msg_type == 0x90 && data.len() >= 3 {
        if data[2] == 0 {
            MidiMessage::NoteOff { channel, note: data[1], velocity: 0 }
        } else {
            MidiMessage::NoteOn { channel, note: data[1], velocity: data[2] }
        }
    } else if msg_type == 0xA0 && data.len() >= 3 {
        MidiMessage::PolyAftertouch { channel, note: data[1], pressure: data[2] }
    } else if msg_type == 0xB0 && data.len() >= 3 {
        MidiMessage::ControlChange { channel, controller: data[1], value: data[2] }
    } else if msg_type == 0xC0 && data.len() >= 2 {
        MidiMessage::ProgramChange { channel, program: data[1] }
    } else if msg_type == 0xD0 && data.len() >= 2 {
        MidiMessage::Aftertouch { channel, pressure: data[1] }
    } else if msg_type == 0xE0 && data.len() >= 3 {
        let lsb = data[1];
        let msb = data[2];
        proof {
            lemma_bend_range(lsb, msb);
        }
        let raw: u16 = ((msb as u16) << 7u16) | (lsb as u16);
        let value: i16 = (raw as i16) - 8192;
        MidiMessage::PitchBend { channel, value }
    } else if msg_type == 0xF0 {
        MidiMessage::SystemExclusive(status)
    } else {
        MidiMessage::Unknown
    }
}


/// The pitch-class name of the `pc`-th semitone above C, with sharps.
pub open spec fn pitch_class_name(pc: int) -> Seq<char> {
    if pc == 0 { seq!['C'] }
    else if pc == 1 { seq!['C', '#'] }
    else if pc == 2 { seq!['D'] }
    else if pc == 3 { seq!['D', '#'] }
    else if pc == 4 { seq!['E'] }
    else if pc == 5 { seq!['F'] }
    else if pc == 6 { seq!['F', '#'] }
    else if pc == 7 { seq!['G'] }
    else if pc == 8 { seq!['G', '#'] }
    else if pc == 9 { seq!['A'] }
    else if pc == 10 { seq!['A', '#'] }
    else { seq!['B'] }
}

/// The scientific-pitch name of a MIDI note: pitch class, then the octave,
/// where note 60 is in octave 4 and note 0 in octave -1.
pub open spec fn spec_note_name(note: u8) -> Seq<char> {
    pitch_class_name((note % 12) as int) + signed_decimal(note / 12 - 1)
}

/// Names a MIDI note number, such as "C4" for 60 and "A4" for 69.
pub fn note_name(note: u8) -> (name: String)
    ensures
        name@ == spec_note_name(note),
{
    let pc = note % 12;
    let mut name = String::new();
    let letter = if pc <= 1 { 'C' } else if pc <= 3 { 'D' } else if pc == 4 { 'E' }
        else if pc <= 6 { 'F' } else if pc <= 8 { 'G' } else if pc <= 10 { 'A' } else { 'B' };
    push_char(&mut name, letter);
    if pc == 1 || pc == 3 || pc == 6 || pc == 8 || pc == 10 {
        push_char(&mut name, '#');
    }
    let ghost letters = name@;
    assert(letters == pitch_class_name(pc as int));
    if note < 12 {
        push_char(&mut name, '-');
        push_char(&mut name, '1');
        assert(decimal(1) == seq!['1']);
        assert(name@ == letters + signed_decimal(-1));
    } else {
        let octave: u32 = (note / 12 - 1) as u32;
        push_decimal(&mut name, octave);
    }
    name
}

/// Different notes have different names.
pub proof fn lemma_note_names_distinct(a: u8, b: u8)
    ensures
        spec_note_name(a) == spec_note_name(b) ==> a == b,
{
    if spec_note_name(a) == spec_note_name(b) {
        let pa = (a % 12) as int;
        let pb = (b % 12) as int;
        let oa = a / 12 - 1;
        let ob = b / 12 - 1;
        let la = pitch_class_name(pa);
        let lb = pitch_class_name(pb);
        let da = signed_decimal(oa);
        let db = signed_decimal(ob);
        let n = spec_note_name(a);
        lemma_decimal_shape(if oa < 0 { (-oa) as nat } else { oa as nat });
        lemma_decimal_shape(if ob < 0 { (-ob) as nat } else { ob as nat });
        assert(da[0] == '-' || ('0' <= da[0] <= '9'));
        assert(db[0] == '-' || ('0' <= db[0] <= '9'));
        assert(n == la + da);
        assert(n == lb + db);
        assert(n[0] == la[0] && n[0] == lb[0]);
        assert(n[1] == if la.len() == 2 { la[1] } else { da[0] });
        assert(n[1] == if lb.len() == 2 { lb[1] } else { db[0] });
        assert(pa == pb);
        assert(n.skip(la.len() as int) =~= da);
        assert(n.skip(lb.len() as int) =~= db);
        lemma_signed_decimal_injective(oa, ob);
        assert(a == 12 * (a / 12) + a % 12) by (nonlinear_arith);
        assert(b == 12 * (b / 12) + b % 12) by (nonlinear_arith);
    }
}

/// The channel a status byte addresses, and its kind.
proof fn lemma_status_of(kind: u8, channel: u8)
    requires
        channel < 16,
        kind == 0x80 || kind == 0x90 || kind == 0xA0 || kind == 0xB0 || kind == 0xC0 || kind == 0xD0 || kind == 0xE0,
    ensures
        ((kind + channel) as u8) % 16 == channel,
        ((kind + channel) as u8) - ((kind + channel) as u8) % 16 == kind,
{
    let status = (kind + channel) as u8;
    assert(kind & 0x0f == 0) by (bit_vector)
        requires
            kind == 0x80 || kind == 0x90 || kind == 0xA0 || kind == 0xB0 || kind == 0xC0 || kind == 0xD0 || kind == 0xE0;
    assert(status % 16 == channel && status - status % 16 == kind) by (bit_vector)
        requires
            channel < 16,
            kind & 0x0f == 0,
            kind >= 0x80,
            kind <= 0xE0,
            status == (kind + channel) as u8;
}

/// How each channel message is decoded: the high nibble of the status byte
/// gives the kind, its low nibble the channel (0 to 15), and the data bytes
/// follow in order; a note-on of velocity zero reads as a note-off, and a
/// pitch bend is the 14-bit value of its two data bytes (low byte first),
/// centred on zero.
pub proof fn lemma_channel_messages(channel: u8, d1: u8, d2: u8)
    requires
        channel < 16,
    ensures
        spec_parse_midi(seq![(0x80 + channel) as u8, d1, d2]) == (MidiMessage::NoteOff { channel, note: d1, velocity: d2 }),
        d2 > 0 ==> spec_parse_midi(seq![(0x90 + channel) as u8, d1, d2]) == (MidiMessage::NoteOn { channel, note: d1, velocity: d2 }),
        spec_parse_midi(seq![(0x90 + channel) as u8, d1, 0u8]) == (MidiMessage::NoteOff { channel, note: d1, velocity: 0 }),
        spec_parse_midi(seq![(0xA0 + channel) as u8, d1, d2]) == (MidiMessage::PolyAftertouch { channel, note: d1, pressure: d2 }),
        spec_parse_midi(seq![(0xB0 + channel) as u8, d1, d2]) == (MidiMessage::ControlChange { channel, controller: d1, value: d2 }),
        spec_parse_midi(seq![(0xC0 + channel) as u8, d1]) == (MidiMessage::ProgramChange { channel, program: d1 }),
        spec_parse_midi(seq![(0xD0 + channel) as u8, d1]) == (MidiMessage::Aftertouch { channel, pressure: d1 }),
        d1 < 128 && d2 < 128 ==> spec_parse_midi(seq![(0xE0 + channel) as u8, d1, d2])
            == (MidiMessage::PitchBend { channel, value: (128 * d2 + d1 - 8192) as i16 }),
{
    lemma_status_of(0x80, channel);
    lemma_status_of(0x90, channel);
    lemma_status_of(0xA0, channel);
    lemma_status_of(0xB0, channel);
    lemma_status_of(0xC0, channel);
    lemma_status_of(0xD0, channel);
    lemma_status_of(0xE0, channel);
    if d1 < 128 && d2 < 128 {
        assert((((d2 as u16) << 7u16) | (d1 as u16)) == 128 * d2 + d1) by (bit_vector)
            requires
                d1 < 128,
                d2 < 128;
    }
}

/// The name of a note is its pitch class, the (note % 12)-th of C, C#, D, D#,
/// E, F, F#, G, G#, A, A#, B, followed by its octave, note / 12 - 1: so 60 is
/// "C4", 64 "E4", 65 "F4", 69 "A4" and 0 "C-1".
pub proof fn lemma_note_name_table(note: u8)
    ensures
        ({
            let classes = seq![
                seq!['C'], seq!['C', '#'], seq!['D'], seq!['D', '#'], seq!['E'], seq!['F'],
                seq!['F', '#'], seq!['G'], seq!['G', '#'], seq!['A'], seq!['A', '#'], seq!['B'],
            ];
            spec_note_name(note) == classes[(note % 12) as int] + signed_decimal(note / 12 - 1)
        }),
{
}

/// Going up twelve semitones keeps the pitch class and raises the octave by
/// one; going up one semitone from a natural note other than E or B adds a
/// sharp to the same letter.
pub proof fn lemma_note_name_steps(note: u8)
    ensures
        note < 244 ==> pitch_class_name(((note + 12) % 12) as int) == pitch_class_name((note % 12) as int)
            && (note + 12) / 12 - 1 == note / 12 - 1 + 1,
        ({
            let pc = note % 12;
            (pc == 0 || pc == 2 || pc == 5 || pc == 7 || pc == 9) ==>
                pitch_class_name(pc + 1) == pitch_class_name(pc as int).push('#')
        }),
{
}

/// Bytes that carry no channel message: no bytes, a data byte in the status
/// place, or a channel message cut short, read as `Unknown`; a status byte
/// from 0xF0 up is a system message, whatever follows.
pub proof fn lemma_other_messages(data: Seq<u8>)
    ensures
        data.len() == 0 ==> spec_parse_midi(data) == MidiMessage::Unknown,
        data.len() > 0 && data[0] < 0x80 ==> spec_parse_midi(data) == MidiMessage::Unknown,
        data.len() > 0 && data[0] >= 0xF0 ==> spec_parse_midi(data) == MidiMessage::SystemExclusive(data[0]),
        data.len() == 1 && 0x80 <= data[0] < 0xF0 ==> spec_parse_midi(data) == MidiMessage::Unknown,
{
    if data.len() > 0 {
        let status = data[0];
        assert(status < 0x80 ==> status - status % 16 < 0x80) by (bit_vector);
        assert(status >= 0xF0 ==> status - status % 16 == 0xF0) by (bit_vector);
    }
}

} // verus!
