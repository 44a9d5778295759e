//! MIDI state tracking: held notes, controllers, pitch bend, sustain and pressure.
//!
//! Controller levels are kept on a scale where 254 is full level: a controller
//! value `v` (0..=127 in well-formed MIDI) is stored as `2 * v`, so that the
//! default levels (full, and half for pan) are exact.

use vstd::prelude::*;
use crate::midi::cc;
use crate::midi::parser::{parse_midi, spec_parse_midi, MidiMessage};

verus! {

/// A held note: number, velocity and channel as received.
#[derive(Debug, Clone, Copy, PartialEq, Eq, Structural)]
pub struct NoteState {
    pub note: u8,
    pub velocity: u8,
    pub channel: u8,
}

/// Number of MIDI controllers.
pub const NUM_CONTROLLERS: usize = 128;

/// Controller level that stands for full level.
pub const FULL_LEVEL: u16 = 254;

/// The abstract state of the tracker.
pub struct MidiStateView {
    /// Held notes, oldest first.
    pub notes: Seq<NoteState>,
    /// Level of each controller, 254 being full level.
    pub cc: Seq<u16>,
    /// Last pitch bend received, centred on zero.
    pub pitch_bend: i16,
    pub sustain: bool,
    /// Last channel pressure received.
    pub pressure: u8,
    /// Last mod wheel value received.
    pub mod_wheel: u8,
}

/// Controller levels after power-up or a reset: volume and expression full,
/// pan centred, everything else zero.
pub open spec fn default_cc_levels() -> Seq<u16> {
    Seq::new(128, |i: int| if i == 7 || i == 11 { 254u16 } else if i == 10 { 127u16 } else { 0u16 })
}

/// The state after power-up or a reset.
pub open spec fn initial_state() -> MidiStateView {
    MidiStateView {
        notes: Seq::empty(),
        cc: default_cc_levels(),
        pitch_bend: 0,
        sustain: false,
        pressure: 0,
        mod_wheel: 0,
    }
}

/// Keeps the notes whose number is not `note`.
pub open spec fn other_notes(note: u8) -> spec_fn(NoteState) -> bool {
    |n: NoteState| n.note != note
}

/// No note number is held twice.
pub open spec fn distinct_notes(s: Seq<NoteState>) -> bool {
    forall|i: int, j: int| 0 <= i < j < s.len() ==> s[i].note != s[j].note
}

/// Whether a note number is among the held notes.
pub open spec fn holds_note(s: Seq<NoteState>, note: u8) -> bool {
    exists|i: int| 0 <= i < s.len() && s[i].note == note
}

/// The state after a controller change to `controller` (below 128) with `value`.
pub open spec fn after_control_change(s: MidiStateView, controller: u8, value: u8) -> MidiStateView {
    let set = MidiStateView { cc: s.cc.update(controller as int, (2 * value) as u16), ..s };
    if controller == cc::SUSTAIN {
        MidiStateView { sustain: value >= 64, ..set }
    } else if controller == cc::MOD_WHEEL {
        MidiStateView { mod_wheel: value, ..set }
    } else if controller == cc::ALL_NOTES_OFF || controller == cc::ALL_SOUND_OFF {
        MidiStateView { notes: Seq::empty(), ..set }
    } else if controller == cc::RESET_ALL {
        initial_state()
    } else {
        set
    }
}

/// The state after one message.
///
/// A note-on replaces any held note of the same number and appends the note;
/// a note-off releases the note unless the sustain pedal is down; program
/// changes and system messages change nothing.
pub open spec fn after_message(s: MidiStateView, msg: MidiMessage) -> MidiStateView {
    match msg {
        MidiMessage::NoteOn { channel, note, velocity } => MidiStateView {
            notes: s.notes.filter(other_notes(note)).push(NoteState { note, velocity, channel }),
            ..s
        },
        MidiMessage::NoteOff { note, .. } => if s.sustain {
            s
        } else {
            MidiStateView { notes: s.notes.filter(other_notes(note)), ..s }
        },
        MidiMessage::ControlChange { controller, value, .. } => after_control_change(s, controller, value),
        MidiMessage::PitchBend { value, .. } => MidiStateView { pitch_bend: value, ..s },
        MidiMessage::Aftertouch { pressure, .. } => MidiStateView { pressure, ..s },
        MidiMessage::PolyAftertouch { note, pressure, .. } => if holds_note(s.notes, note) {
            MidiStateView { pressure, ..s }
        } else {
            s
        },
        _ => s,
    }
}

/// Whether the tracker can take a message: a controller number must name one of
/// the 128 controllers.
pub open spec fn message_accepted(msg: MidiMessage) -> bool {
    msg matches MidiMessage::ControlChange { controller, .. } ==> controller < 128
}

/// Tracks the state a stream of MIDI messages leaves a synthesizer in.
#[derive(Debug, Clone)]
pub struct MidiState {
    notes_held: Vec<NoteState>,
    cc: Vec<u16>,
    pitch_bend: i16,
    sustain: bool,
    pressure: u8,
    mod_wheel: u8,
}

impl View for MidiState {
    type V = MidiStateView;

    closed spec fn view(&self) -> MidiStateView {
        MidiStateView {
            notes: self.notes_held@,
            cc: self.cc@,
            pitch_bend: self.pitch_bend,
            sustain: self.sustain,
            pressure: self.pressure,
            mod_wheel: self.mod_wheel,
        }
    }
}

proof fn lemma_filter_keeps_distinct(s: Seq<NoteState>, note: u8)
    requires
        distinct_notes(s),
    ensures
        distinct_notes(s.filter(other_notes(note))),
        forall|i: int| 0 <= i < s.filter(other_notes(note)).len()
            ==> #[trigger] s.filter(other_notes(note))[i].note != note,
    decreases s.len(),
{
    reveal(Seq::filter);
    let f = s.filter(other_notes(note));
    if s.len() > 0 {
        let d = s.drop_last();
        assert(distinct_notes(d));
        lemma_filter_keeps_distinct(d, note);
        let fd = d.filter(other_notes(note));
        assert forall|i: int| 0 <= i < fd.len() implies #[trigger] fd[i].note != s.last().note by {
            assert(fd.contains(fd[i]));
            d.lemma_filter_contains_rev(other_notes(note), fd[i]);
            let k = choose|k: int| 0 <= k < d.len() && d[k] == fd[i];
            assert(s[k] == d[k]);
        }
    }
}

proof fn lemma_filter_holds(s: Seq<NoteState>, note: u8, other: u8)
    requires
        other != note,
    ensures
        holds_note(s.filter(other_notes(note)), other) == holds_note(s, other),
    decreases s.len(),
{
    reveal(Seq::filter);
    if s.len() > 0 {
        let d = s.drop_last();
        lemma_filter_holds(d, note, other);
        if holds_note(s, other) {
            let k = choose|k: int| 0 <= k < s.len() && s[k].note == other;
            if k < s.len() - 1 {
                assert(d[k].note == other);
            }
        }
        if holds_note(d, other) {
            let k = choose|k: int| 0 <= k < d.len() && d[k].note == other;
            assert(s[k].note == other);
        }
        let fd = d.filter(other_notes(note));
        if holds_note(fd, other) {
            let k = choose|k: int| 0 <= k < fd.len() && fd[k].note == other;
            if other_notes(note)(s.last()) {
                assert(s.filter(other_notes(note))[k] == fd[k]);
            }
        }
        if other_notes(note)(s.last()) && s.last().note == other {
            assert(s.filter(other_notes(note)).last() == s.last());
        }
    } else {
        assert(!holds_note(s, other));
    }
}

/// The notes of `notes` whose number is not `note`, in order.
fn without_note(notes: &Vec<NoteState>, note: u8) -> (kept: Vec<NoteState>)
    ensures
        kept@ == notes@.filter(other_notes(note)),
{
    let mut kept: Vec<NoteState> = Vec::new();
    let mut i: usize = 0;
    while i < notes.len()
        invariant
            i <= notes.len(),
            kept@ == notes@.take(i as int).filter(other_notes(note)),
        decreases notes.len() - i,
    {
        proof {
            reveal(Seq::filter);
            assert(notes@.take(i + 1).drop_last() == notes@.take(i as int));
        }
        let n = notes[i];
        if n.note != note {
            kept.push(n);
        }
        i = i + 1;
    }
    assert(notes@.take(notes.len() as int) == notes@);
    kept
}

fn default_cc() -> (levels: Vec<u16>)
    ensures
        levels@ == default_cc_levels(),
{
    let mut levels: Vec<u16> = Vec::new();
    let mut i: usize = 0;
    while i < NUM_CONTROLLERS
        invariant
            i <= 128,
            levels@.len() == i,
            forall|j: int| 0 <= j < i ==> levels@[j] == default_cc_levels()[j],
        decreases 128 - i,
    {
        let level: u16 = if i == 7 || i == 11 { FULL_LEVEL } else if i == 10 { 127 } else { 0 };
        levels.push(level);
        i = i + 1;
    }
    assert(levels@ == default_cc_levels());
    levels
}

impl MidiState {
    /// The tracker's invariant: one level per controller and no note held twice.
    pub closed spec fn wf(&self) -> bool {
        &&& self.cc@.len() == 128
        &&& distinct_notes(self.notes_held@)
    }

    /// A tracker with nothing held, default controller levels and no bend.
    pub fn new() -> (state: Self)
        ensures
            state.wf(),
            state@ == initial_state(),
    {
        MidiState {
            notes_held: Vec::new(),
            cc: default_cc(),
            pitch_bend: 0,
            sustain: false,
            pressure: 0,
            mod_wheel: 0,
        }
    }

    /// Parses raw MIDI bytes and applies the message.
    pub fn process_bytes(&mut self, data: &[u8])
        requires
            old(self).wf(),
            message_accepted(spec_parse_midi(data@)),
        ensures
            final(self).wf(),
            distinct_notes(final(self)@.notes),
            final(self)@ == after_message(old(self)@, spec_parse_midi(data@)),
    {
        let msg = parse_midi(data);
        self.process_message(msg);
    }

    /// Applies a parsed MIDI message.
    pub fn process_message(&mut self, msg: MidiMessage)
        requires
            old(self).wf(),
            message_accepted(msg),
        ensures
            final(self).wf(),
            distinct_notes(final(self)@.notes),
            final(self)@ == after_message(old(self)@, msg),
    {
        match msg {
            MidiMessage::NoteOn { channel, note, velocity } => {
                proof {
                    lemma_filter_keeps_distinct(self.notes_held@, note);
                }
                let mut kept = without_note(&self.notes_held, note);
                kept.push(NoteState { note, velocity, channel });
                self.notes_held = kept;
            },
            MidiMessage::NoteOff { note, .. } => {
                if !self.sustain {
                    proof {
                        lemma_filter_keeps_distinct(self.notes_held@, note);
                    }
                    self.notes_held = without_note(&self.notes_held, note);
                }
            },
            MidiMessage::ControlChange { controller, value, .. } => {
                let level: u16 = 2 * (value as u16);
                self.cc.set(controller as usize, level);
                if controller == cc::SUSTAIN {
                    self.sustain = value >= 64;
                } else if controller == cc::MOD_WHEEL {
                    self.mod_wheel = value;
                } else if controller == cc::ALL_NOTES_OFF || controller == cc::ALL_SOUND_OFF {
                    self.notes_held = Vec::new();
                } else if controller == cc::RESET_ALL {
                    self.reset();
                }
            },
            MidiMessage::PitchBend { value, .. } => {
                self.pitch_bend = value;
            },
            MidiMessage::Aftertouch { pressure, .. } => {
                self.pressure = pressure;
            },
            MidiMessage::PolyAftertouch { note, pressure, .. } => {
                if self.is_held(note) {
                    self.pressure = pressure;
                }
            },
            _ => {},
        }
    }

    /// Whether a note number is held.
    pub fn is_held(&self, note: u8) -> (held: bool)
        ensures
            held == holds_note(self@.notes, note),
    {
        let mut i: usize = 0;
        while i < self.notes_held.len()
            invariant
                i <= self.notes_held@.len(),
                forall|j: int| 0 <= j < i ==> self.notes_held@[j].note != note,
            decreases self.notes_held.len() - i,
        {
            if self.notes_held[i].note == note {
                return true;
            }
            i = i + 1;
        }
        false
    }

    /// The held notes, oldest first.
    pub fn notes_held(&self) -> (notes: &[NoteState])
        ensures
            notes@ == self@.notes,
    {
        self.notes_held.as_slice()
    }

    /// The level of a controller, 254 being full level.
    pub fn cc_level(&self, controller: u8) -> (level: u16)
        requires
            self.wf(),
            controller < 128,
        ensures
            level == self@.cc[controller as int],
    {
        self.cc[controller as usize]
    }

    /// The last pitch bend received, centred on zero (-8192..=8191 from a well-formed message).
    pub fn pitch_bend_value(&self) -> (value: i16)
        ensures
            value == self@.pitch_bend,
    {
        self.pitch_bend
    }

    /// Whether the sustain pedal is down.
    pub fn sustain(&self) -> (down: bool)
        ensures
            down == self@.sustain,
    {
        self.sustain
    }

    /// The last pressure received.
    pub fn pressure_value(&self) -> (pressure: u8)
        ensures
            pressure == self@.pressure,
    {
        self.pressure
    }

    /// The last mod wheel value received.
    pub fn mod_wheel_value(&self) -> (value: u8)
        ensures
            value == self@.mod_wheel,
    {
        self.mod_wheel
    }

    /// Returns to the state after power-up.
    pub fn reset(&mut self)
        ensures
            final(self).wf(),
            final(self)@ == initial_state(),
    {
        self.notes_held = Vec::new();
        self.cc = default_cc();
        self.pitch_bend = 0;
        self.sustain = false;
        self.pressure = 0;
        self.mod_wheel = 0;
    }
}

impl Default for MidiState {
    /// The same as `new`.
    fn default() -> (state: Self)
        ensures
            state.wf(),
            state@ == initial_state(),
    {
        MidiState::new()
    }
}


/// A pitch-bend message sets the bend to the value it carries, whatever its
/// sign, and changes nothing else.
pub proof fn lemma_pitch_bend_recorded(s: MidiStateView, channel: u8, value: i16)
    ensures
        after_message(s, MidiMessage::PitchBend { channel, value }).pitch_bend == value,
        after_message(s, MidiMessage::PitchBend { channel, value }).notes == s.notes,
        after_message(s, MidiMessage::PitchBend { channel, value }).cc == s.cc,
        after_message(s, MidiMessage::PitchBend { channel, value }).sustain == s.sustain,
        after_message(s, MidiMessage::PitchBend { channel, value }).pressure == s.pressure,
        after_message(s, MidiMessage::PitchBend { channel, value }).mod_wheel == s.mod_wheel,
{
}

/// The bytes of a pitch-bend message on any channel, with data bytes `lsb`
/// and `msb` below 128, leave the bend at `128 * msb + lsb - 8192`: from
/// -8192 fully down through 0 at the centre to 8191 fully up.
pub proof fn lemma_pitch_bend_bytes(s: MidiStateView, channel: u8, lsb: u8, msb: u8)
    requires
        channel < 16,
        lsb < 128,
        msb < 128,
    ensures
        after_message(s, spec_parse_midi(seq![(0xE0 + channel) as u8, lsb, msb])).pitch_bend == 128 * msb + lsb - 8192,
{
    let status = (0xE0 + channel) as u8;
    assert(status % 16 == channel && status - status % 16 == 0xE0) by (bit_vector)
        requires
            channel < 16,
            status == (0xE0 + channel) as u8;
    assert((((msb as u16) << 7u16) | (lsb as u16)) == 128 * msb + lsb) by (bit_vector)
        requires
            lsb < 128,
            msb < 128;
}

/// In every state a tracker reaches, no note number is held twice.
pub proof fn lemma_held_notes_distinct(s: &MidiState)
    requires
        s.wf(),
    ensures
        distinct_notes(s@.notes),
{
}

proof fn lemma_filtered_lacks(s: Seq<NoteState>, note: u8)
    ensures
        !holds_note(s.filter(other_notes(note)), note),
{
    let f = s.filter(other_notes(note));
    if holds_note(f, note) {
        let k = choose|k: int| 0 <= k < f.len() && f[k].note == note;
        s.lemma_filter_pred(other_notes(note), k);
    }
}

proof fn lemma_filter_again(s: Seq<NoteState>, note: u8)
    ensures
        s.filter(other_notes(note)).filter(other_notes(note)) == s.filter(other_notes(note)),
    decreases s.len(),
{
    reveal(Seq::filter);
    if s.len() > 0 {
        lemma_filter_again(s.drop_last(), note);
        let f = s.drop_last().filter(other_notes(note));
        if other_notes(note)(s.last()) {
            assert(f.push(s.last()).drop_last() == f);
        }
    }
}

/// Without the sustain pedal, a note-off releases the note.
pub proof fn lemma_note_off_releases(s: MidiStateView, channel: u8, note: u8, velocity: u8)
    requires
        !s.sustain,
    ensures
        !holds_note(after_message(s, MidiMessage::NoteOff { channel, note, velocity }).notes, note),
{
    lemma_filtered_lacks(s.notes, note);
}

/// With the sustain pedal down, a note-off changes nothing: the note stays held.
pub proof fn lemma_sustain_holds_notes(s: MidiStateView, channel: u8, note: u8, velocity: u8)
    requires
        s.sustain,
    ensures
        after_message(s, MidiMessage::NoteOff { channel, note, velocity }) == s,
{
}

/// A note-on makes the note held exactly once, as the newest note, and
/// leaves every other note as held or not as it was.
pub proof fn lemma_note_on_holds(s: MidiStateView, channel: u8, note: u8, velocity: u8)
    requires
        distinct_notes(s.notes),
    ensures
        ({
            let t = after_message(s, MidiMessage::NoteOn { channel, note, velocity }).notes;
            &&& t.last() == (NoteState { note, velocity, channel })
            &&& holds_note(t, note)
            &&& distinct_notes(t)
            &&& forall|other: u8| other != note ==> #[trigger] holds_note(t, other) == holds_note(s.notes, other)
        }),
{
    let t = after_message(s, MidiMessage::NoteOn { channel, note, velocity }).notes;
    let f = s.notes.filter(other_notes(note));
    lemma_filter_keeps_distinct(s.notes, note);
    assert(t[t.len() - 1].note == note);
    assert forall|other: u8| other != note implies #[trigger] holds_note(t, other) == holds_note(s.notes, other) by {
        lemma_filter_holds(s.notes, note, other);
        if holds_note(f, other) {
            let k = choose|k: int| 0 <= k < f.len() && f[k].note == other;
            assert(t[k] == f[k]);
        }
        if holds_note(t, other) {
            let k = choose|k: int| 0 <= k < t.len() && t[k].note == other;
            assert(k < f.len());
            assert(f[k] == t[k]);
        }
    }
}

/// With the pedal up, pressing and releasing a note leaves the held notes as
/// they would be had the note only been released.
pub proof fn lemma_note_on_then_off(s: MidiStateView, channel: u8, note: u8, velocity: u8, off_velocity: u8)
    requires
        !s.sustain,
    ensures
        after_message(
            after_message(s, MidiMessage::NoteOn { channel, note, velocity }),
            MidiMessage::NoteOff { channel, note, velocity: off_velocity },
        ).notes == s.notes.filter(other_notes(note)),
{
    reveal(Seq::filter);
    let f = s.notes.filter(other_notes(note));
    let pushed = f.push(NoteState { note, velocity, channel });
    assert(pushed.drop_last() == f);
    lemma_filter_again(s.notes, note);
}

/// Resetting all controllers returns to the power-up state; all-notes-off and
/// all-sound-off release every note.
pub proof fn lemma_controller_resets(s: MidiStateView, channel: u8, value: u8)
    requires
        s.cc.len() == 128,
    ensures
        after_message(s, MidiMessage::ControlChange { channel, controller: cc::RESET_ALL, value }) == initial_state(),
        after_message(s, MidiMessage::ControlChange { channel, controller: cc::ALL_NOTES_OFF, value }).notes.len() == 0,
        after_message(s, MidiMessage::ControlChange { channel, controller: cc::ALL_SOUND_OFF, value }).notes.len() == 0,
{
}

/// A controller change stores twice its value as the controller's level and
/// leaves every other controller as it was; the sustain pedal is down from
/// value 64 on, the mod wheel takes the value, and other controllers (but the
/// note-clearing and reset ones) change nothing else.
pub proof fn lemma_control_change(s: MidiStateView, channel: u8, controller: u8, value: u8)
    requires
        s.cc.len() == 128,
        controller < 128,
        controller != cc::RESET_ALL,
    ensures
        ({
            let t = after_message(s, MidiMessage::ControlChange { channel, controller, value });
            &&& t.cc.len() == 128
            &&& t.cc[controller as int] == 2 * value
            &&& forall|i: int| 0 <= i < 128 && i != controller ==> #[trigger] t.cc[i] == s.cc[i]
            &&& t.sustain == if controller == cc::SUSTAIN { value >= 64 } else { s.sustain }
            &&& t.mod_wheel == if controller == cc::MOD_WHEEL { value } else { s.mod_wheel }
            &&& t.notes == if controller == cc::ALL_NOTES_OFF || controller == cc::ALL_SOUND_OFF {
                Seq::<NoteState>::empty()
            } else {
                s.notes
            }
            &&& t.pitch_bend == s.pitch_bend
            &&& t.pressure == s.pressure
        }),
{
}

/// Channel pressure sets the pressure; a key's pressure sets it only while
/// that key is held; neither touches anything else.
pub proof fn lemma_pressure(s: MidiStateView, channel: u8, note: u8, pressure: u8)
    ensures
        after_message(s, MidiMessage::Aftertouch { channel, pressure }) == (MidiStateView { pressure, ..s }),
        after_message(s, MidiMessage::PolyAftertouch { channel, note, pressure })
            == if exists|i: int| 0 <= i < s.notes.len() && s.notes[i].note == note {
                MidiStateView { pressure, ..s }
            } else {
                s
            },
{
}

} // verus!
