//! Voice allocation of the synthesizer: play modes, note stealing and the
//! stack of held notes.

use vstd::prelude::*;
use crate::engine::steal::{
    any_selected, first_min, first_min_within, last_max, last_max_within, lemma_choice_found, lemma_first_min_is,
    lemma_first_min_exists, lemma_last_max_exists, lemma_last_max_is, lemma_none_selected,
};

verus! {

/// How the two oscillators of a voice interact.
#[derive(Debug, Clone, Copy, PartialEq, Eq, Structural)]
pub enum OscModMode {
    /// No modulation between oscillators.
    Off,
    /// Frequency modulation (osc2 modulates osc1 frequency).
    Fm,
    /// Phase modulation (osc2 modulates osc1 phase).
    Pm,
    /// Hard sync (osc1 resets osc2 phase).
    Sync,
    /// Ring modulation (the outputs are multiplied).
    Ring,
}

impl Default for OscModMode {
    /// No modulation.
    fn default() -> (mode: Self)
        ensures
            mode == OscModMode::Off,
    {
        OscModMode::Off
    }
}


/// Which voice is taken over when every voice is busy.
#[derive(Debug, Clone, Copy, PartialEq, Eq, Structural)]
pub enum StealMode {
    /// The voice triggered longest ago.
    Oldest,
    /// The lowest note.
    Lowest,
    /// The highest note.
    Highest,
    /// The voice triggered with the least velocity.
    Quietest,
}

/// How notes are spread over voices.
#[derive(Debug, Clone, Copy, PartialEq, Eq, Structural)]
pub enum PlayMode {
    /// One voice per note.
    Poly,
    /// One voice; every note restarts it.
    Mono,
    /// One voice; a note played while another is held only changes its pitch.
    Legato,
}

/// What the allocator knows of one voice.
///
/// `level` orders voices by the velocity they were triggered with: a greater
/// level stands for a louder note.
#[derive(Debug, Clone, Copy, PartialEq, Eq, Structural)]
pub struct VoiceSlot {
    pub note: u8,
    pub level: u32,
    /// The key is down (the envelopes have not been released).
    pub gate: bool,
    /// The voice is sounding (possibly in its release).
    pub active: bool,
    /// Value of the trigger counter when the voice was last triggered.
    pub age: u64,
}

/// What the voices must do after a note event.
#[derive(Debug, Clone, Copy, PartialEq, Eq, Structural)]
pub enum VoiceAction {
    /// Restart the voice on `note`, with envelopes from the start.
    Trigger { voice: usize, note: u8, age: u64 },
    /// Retune the voice to `note` and keep its envelopes running.
    Glide { voice: usize, note: u8 },
    /// Release the voice's envelopes.
    Release { voice: usize },
}

/// A voice that has never played.
pub open spec fn silent_slot() -> VoiceSlot {
    VoiceSlot { note: 0, level: 0, gate: false, active: false, age: 0 }
}

/// A voice just triggered.
pub open spec fn triggered(note: u8, level: u32, age: u64) -> VoiceSlot {
    VoiceSlot { note, level, gate: true, active: true, age }
}

pub open spec fn slot_age() -> spec_fn(VoiceSlot) -> int {
    |v: VoiceSlot| v.age as int
}

pub open spec fn slot_note() -> spec_fn(VoiceSlot) -> int {
    |v: VoiceSlot| v.note as int
}

pub open spec fn slot_level() -> spec_fn(VoiceSlot) -> int {
    |v: VoiceSlot| v.level as int
}

pub open spec fn no_key() -> spec_fn(VoiceSlot) -> int {
    |v: VoiceSlot| 0int
}

pub open spec fn any_slot() -> spec_fn(VoiceSlot) -> bool {
    |v: VoiceSlot| true
}

pub open spec fn active_slot() -> spec_fn(VoiceSlot) -> bool {
    |v: VoiceSlot| v.active
}

pub open spec fn idle_slot() -> spec_fn(VoiceSlot) -> bool {
    |v: VoiceSlot| !v.active
}

pub open spec fn gated_slot() -> spec_fn(VoiceSlot) -> bool {
    |v: VoiceSlot| v.gate
}

/// The voices still held down on `note`.
pub open spec fn playing(note: u8) -> spec_fn(VoiceSlot) -> bool {
    |v: VoiceSlot| v.note == note && v.gate
}

/// The first voice that is not sounding.
pub open spec fn first_idle(slots: Seq<VoiceSlot>) -> Option<int> {
    first_min(slots, no_key(), idle_slot())
}

/// The voice a new note takes over under each steal mode: the first voice
/// triggered longest ago (among all voices), the first sounding voice with the
/// lowest note, the last sounding voice with the highest note, or the first
/// sounding voice of least level.
pub open spec fn steal_choice(slots: Seq<VoiceSlot>, mode: StealMode) -> Option<int> {
    match mode {
        StealMode::Oldest => first_min(slots, slot_age(), any_slot()),
        StealMode::Lowest => first_min(slots, slot_note(), active_slot()),
        StealMode::Highest => last_max(slots, slot_note(), active_slot()),
        StealMode::Quietest => first_min(slots, slot_level(), active_slot()),
    }
}

/// The voices with those `sel` picks released.
pub open spec fn release_where(slots: Seq<VoiceSlot>, sel: spec_fn(VoiceSlot) -> bool) -> Seq<VoiceSlot> {
    Seq::new(slots.len(), |i: int| if sel(slots[i]) { VoiceSlot { gate: false, ..slots[i] } } else { slots[i] })
}

/// One release for each of the first `n` voices that `sel` picks, in order.
pub open spec fn release_actions(slots: Seq<VoiceSlot>, sel: spec_fn(VoiceSlot) -> bool, n: int) -> Seq<VoiceAction>
    decreases n,
{
    if n <= 0 {
        Seq::empty()
    } else if sel(slots[n - 1]) {
        release_actions(slots, sel, n - 1).push(VoiceAction::Release { voice: (n - 1) as usize })
    } else {
        release_actions(slots, sel, n - 1)
    }
}

/// The abstract state of the allocator.
pub struct AllocatorView {
    pub slots: Seq<VoiceSlot>,
    pub steal_mode: StealMode,
    pub play_mode: PlayMode,
    /// Number of allocations so far; each trigger is stamped with it.
    pub age_counter: u64,
    /// The most recent note of a note-on.
    pub last_note: Option<u8>,
    /// Notes whose key is down, in the order they were pressed.
    pub held: Seq<u8>,
}

/// A fresh allocator: silent voices, poly play, oldest-first stealing.
pub open spec fn initial_allocator(max_voices: nat) -> AllocatorView {
    AllocatorView {
        slots: Seq::new(max_voices, |i: int| silent_slot()),
        steal_mode: StealMode::Oldest,
        play_mode: PlayMode::Poly,
        age_counter: 0,
        last_note: None,
        held: Seq::empty(),
    }
}

/// Poly allocation: the first idle voice, else the steal choice, is triggered.
pub open spec fn poly_allocate(a: AllocatorView, note: u8, level: u32) -> (AllocatorView, Seq<VoiceAction>) {
    let age = (a.age_counter + 1) as u64;
    let counted = AllocatorView { age_counter: age, ..a };
    let target = match first_idle(a.slots) {
        Some(i) => Some(i),
        None => steal_choice(a.slots, a.steal_mode),
    };
    match target {
        Some(i) => (
            AllocatorView { slots: a.slots.update(i, triggered(note, level, age)), ..counted },
            seq![VoiceAction::Trigger { voice: i as usize, note, age }],
        ),
        None => (counted, Seq::empty()),
    }
}

/// Mono allocation on the first voice: retuned if `legato` and its key is
/// down, triggered otherwise.
pub open spec fn mono_allocate(a: AllocatorView, note: u8, level: u32, legato: bool) -> (AllocatorView, Seq<VoiceAction>) {
    let age = (a.age_counter + 1) as u64;
    let v = a.slots[0];
    if legato && v.gate {
        (
            AllocatorView { slots: a.slots.update(0, VoiceSlot { note, ..v }), age_counter: age, ..a },
            seq![VoiceAction::Glide { voice: 0, note }],
        )
    } else {
        (
            AllocatorView { slots: a.slots.update(0, triggered(note, level, age)), age_counter: age, ..a },
            seq![VoiceAction::Trigger { voice: 0, note, age }],
        )
    }
}

/// The state and actions after a note-on of `note` at `level`.
pub open spec fn after_note_on(a: AllocatorView, note: u8, level: u32) -> (AllocatorView, Seq<VoiceAction>) {
    let pressed = AllocatorView { held: a.held.push(note), ..a };
    let (b, acts) = match a.play_mode {
        PlayMode::Poly => poly_allocate(pressed, note, level),
        PlayMode::Mono => mono_allocate(pressed, note, level, false),
        PlayMode::Legato => mono_allocate(pressed, note, level, true),
    };
    (AllocatorView { last_note: Some(note), ..b }, acts)
}

/// Keeps the held notes other than `note`.
pub open spec fn other_than(note: u8) -> spec_fn(u8) -> bool {
    |n: u8| n != note
}

/// The state and actions after a note-off of `note`.
///
/// In poly play every voice held on the note is released. In the mono modes a
/// note-off of the last note played hands the voice to the most recent note
/// still held (played at `retake_level`), or releases it when none is held;
/// a note-off of another note only forgets that note.
pub open spec fn after_note_off(a: AllocatorView, note: u8, retake_level: u32) -> (AllocatorView, Seq<VoiceAction>) {
    let held = a.held.filter(other_than(note));
    let lifted = AllocatorView { held, ..a };
    match a.play_mode {
        PlayMode::Poly => (
            AllocatorView { slots: release_where(a.slots, playing(note)), ..lifted },
            release_actions(a.slots, playing(note), a.slots.len() as int),
        ),
        _ => if a.last_note == Some(note) {
            if held.len() > 0 {
                let prev = held.last();
                let (b, acts) = mono_allocate(lifted, prev, retake_level, a.play_mode == PlayMode::Legato);
                (AllocatorView { last_note: Some(prev), ..b }, acts)
            } else {
                (
                    AllocatorView { slots: release_where(a.slots, gated_slot()), last_note: None, ..lifted },
                    release_actions(a.slots, gated_slot(), a.slots.len() as int),
                )
            }
        } else {
            (lifted, Seq::empty())
        },
    }
}

/// Whether a note-off of `note` needs the first voice: in a mono mode, when
/// the note was the last played and another note is still held.
pub open spec fn note_off_retakes(a: AllocatorView, note: u8) -> bool {
    &&& a.play_mode != PlayMode::Poly
    &&& a.last_note == Some(note)
    &&& a.held.filter(other_than(note)).len() > 0
}

/// Number of sounding voices among the first `n`.
pub open spec fn count_active(slots: Seq<VoiceSlot>, n: int) -> nat
    decreases n,
{
    if n <= 0 {
        0
    } else {
        count_active(slots, n - 1) + if slots[n - 1].active { 1nat } else { 0nat }
    }
}

/// Keys by which voices can be compared.
enum SlotKey {
    Zero,
    Age,
    Note,
    Level,
}

/// Subsets of voices a choice is made among.
enum SlotMask {
    All,
    Active,
    Idle,
}

spec fn key_of(k: SlotKey) -> spec_fn(VoiceSlot) -> int {
    match k {
        SlotKey::Zero => no_key(),
        SlotKey::Age => slot_age(),
        SlotKey::Note => slot_note(),
        SlotKey::Level => slot_level(),
    }
}

spec fn mask_of(m: SlotMask) -> spec_fn(VoiceSlot) -> bool {
    match m {
        SlotMask::All => any_slot(),
        SlotMask::Active => active_slot(),
        SlotMask::Idle => idle_slot(),
    }
}

fn key_value(k: &SlotKey, v: &VoiceSlot) -> (r: u64)
    ensures
        r as int == key_of(*k)(*v),
{
    match k {
        SlotKey::Zero => 0,
        SlotKey::Age => v.age,
        SlotKey::Note => v.note as u64,
        SlotKey::Level => v.level as u64,
    }
}

fn selected(m: &SlotMask, v: &VoiceSlot) -> (r: bool)
    ensures
        r == mask_of(*m)(*v),
{
    match m {
        SlotMask::All => true,
        SlotMask::Active => v.active,
        SlotMask::Idle => !v.active,
    }
}

/// An optional index as a mathematical one.
pub open spec fn index_of(r: Option<usize>) -> Option<int> {
    match r {
        Some(i) => Some(i as int),
        None => None,
    }
}

/// The first selected voice of least key.
fn first_min_slot(slots: &Vec<VoiceSlot>, k: SlotKey, m: SlotMask) -> (r: Option<usize>)
    ensures
        index_of(r) == first_min(slots@, key_of(k), mask_of(m)),
        r matches Some(i) ==> i < slots@.len(),
{
    let ghost s = slots@;
    let ghost key = key_of(k);
    let ghost mask = mask_of(m);
    let mut best: Option<usize> = None;
    let mut best_key: u64 = 0;
    let mut i: usize = 0;
    while i < slots.len()
        invariant
            s == slots@,
            key == key_of(k),
            mask == mask_of(m),
            i <= s.len(),
            best matches Some(b) ==> first_min_within(s, i as int, key, mask, b as int) && best_key == key(s[b as int]),
            best is None ==> forall|j: int| #![trigger s[j]] 0 <= j < i ==> !mask(s[j]),
        decreases s.len() - i,
    {
        let v = slots[i];
        if selected(&m, &v) {
            let kv = key_value(&k, &v);
            match best {
                None => {
                    best = Some(i);
                    best_key = kv;
                },
                Some(b) => {
                    if kv < best_key {
                        best = Some(i);
                        best_key = kv;
                    }
                },
            }
        }
        i = i + 1;
    }
    proof {
        match best {
            Some(b) => lemma_first_min_is(s, key, mask, b as int),
            None => lemma_none_selected(s, key, mask),
        }
    }
    best
}

/// The last selected voice of greatest key.
fn last_max_slot(slots: &Vec<VoiceSlot>, k: SlotKey, m: SlotMask) -> (r: Option<usize>)
    ensures
        index_of(r) == last_max(slots@, key_of(k), mask_of(m)),
        r matches Some(i) ==> i < slots@.len(),
{
    let ghost s = slots@;
    let ghost key = key_of(k);
    let ghost mask = mask_of(m);
    let mut best: Option<usize> = None;
    let mut best_key: u64 = 0;
    let mut i: usize = 0;
    while i < slots.len()
        invariant
            s == slots@,
            key == key_of(k),
            mask == mask_of(m),
            i <= s.len(),
            best matches Some(b) ==> {
                &&& last_max_within(s, i as int, key, mask, b as int)
                &&& best_key == key(s[b as int])
                &&& forall|j: int| #![trigger s[j]] b < j < i && mask(s[j]) ==> key(s[j]) < key(s[b as int])
            },
            best is None ==> forall|j: int| #![trigger s[j]] 0 <= j < i ==> !mask(s[j]),
        decreases s.len() - i,
    {
        let v = slots[i];
        if selected(&m, &v) {
            let kv = key_value(&k, &v);
            match best {
                None => {
                    best = Some(i);
                    best_key = kv;
                },
                Some(b) => {
                    if kv >= best_key {
                        best = Some(i);
                        best_key = kv;
                    }
                },
            }
        }
        i = i + 1;
    }
    proof {
        match best {
            Some(b) => lemma_last_max_is(s, key, mask, b as int),
            None => lemma_none_selected(s, key, mask),
        }
    }
    best
}

/// The notes of `held` other than `note`, in order.
fn without_note(held: &Vec<u8>, note: u8) -> (kept: Vec<u8>)
    ensures
        kept@ == held@.filter(other_than(note)),
{
    let mut kept: Vec<u8> = Vec::new();
    let mut i: usize = 0;
    while i < held.len()
        invariant
            i <= held.len(),
            kept@ == held@.take(i as int).filter(other_than(note)),
        decreases held.len() - i,
    {
        proof {
            reveal(Seq::filter);
            assert(held@.take(i + 1).drop_last() == held@.take(i as int));
        }
        let n = held[i];
        if n != note {
            kept.push(n);
        }
        i = i + 1;
    }
    assert(held@.take(held.len() as int) == held@);
    kept
}

/// Voice allocation of the synthesizer.
///
/// The allocator decides which voice plays which note; it does not produce
/// sound. Each note event is answered with the actions the voices must take.
#[derive(Debug, Clone)]
pub struct VoiceAllocator {
    slots: Vec<VoiceSlot>,
    steal_mode: StealMode,
    play_mode: PlayMode,
    age_counter: u64,
    last_note: Option<u8>,
    held_notes: Vec<u8>,
}

impl View for VoiceAllocator {
    type V = AllocatorView;

    closed spec fn view(&self) -> AllocatorView {
        AllocatorView {
            slots: self.slots@,
            steal_mode: self.steal_mode,
            play_mode: self.play_mode,
            age_counter: self.age_counter,
            last_note: self.last_note,
            held: self.held_notes@,
        }
    }
}

impl VoiceAllocator {
    /// An allocator for `max_voices` silent voices, in poly play with
    /// oldest-first stealing.
    pub fn new(max_voices: usize) -> (a: Self)
        ensures
            a@ == initial_allocator(max_voices as nat),
    {
        let mut slots: Vec<VoiceSlot> = Vec::new();
        let mut i: usize = 0;
        while i < max_voices
            invariant
                i <= max_voices,
                slots@ == Seq::new(i as nat, |j: int| silent_slot()),
            decreases max_voices - i,
        {
            slots.push(VoiceSlot { note: 0, level: 0, gate: false, active: false, age: 0 });
            i = i + 1;
        }
        VoiceAllocator {
            slots,
            steal_mode: StealMode::Oldest,
            play_mode: PlayMode::Poly,
            age_counter: 0,
            last_note: None,
            held_notes: Vec::new(),
        }
    }

    /// Sets how voices are stolen.
    pub fn set_steal_mode(&mut self, mode: StealMode)
        ensures
            final(self)@ == (AllocatorView { steal_mode: mode, ..old(self)@ }),
    {
        self.steal_mode = mode;
    }

    /// Sets how notes are spread over voices.
    pub fn set_play_mode(&mut self, mode: PlayMode)
        ensures
            final(self)@ == (AllocatorView { play_mode: mode, ..old(self)@ }),
    {
        self.play_mode = mode;
    }

    /// The current steal mode.
    pub fn steal_mode(&self) -> (mode: StealMode)
        ensures
            mode == self@.steal_mode,
    {
        self.steal_mode
    }

    /// The current play mode.
    pub fn play_mode(&self) -> (mode: PlayMode)
        ensures
            mode == self@.play_mode,
    {
        self.play_mode
    }

    /// The age the next triggered voice will be stamped with.
    pub fn age_counter(&self) -> (n: u64)
        ensures
            n == self@.age_counter,
    {
        self.age_counter
    }

    /// Whether a note-off of `note` hands the voice back to a note still held
    /// (in the mono modes, when `note` was the last note played).
    pub fn note_off_retakes(&self, note: u8) -> (r: bool)
        ensures
            r == note_off_retakes(self@, note),
    {
        let mono = match self.play_mode {
            PlayMode::Poly => false,
            _ => true,
        };
        if !mono || self.last_note != Some(note) {
            return false;
        }
        let others = without_note(&self.held_notes, note);
        others.len() > 0
    }

    /// What the allocator knows of each voice.
    pub fn slots(&self) -> (slots: &[VoiceSlot])
        ensures
            slots@ == self@.slots,
    {
        self.slots.as_slice()
    }

    /// The voice that is taken over when all are busy, if any.
    pub fn find_steal_voice(&self) -> (r: Option<usize>)
        ensures
            index_of(r) == steal_choice(self@.slots, self@.steal_mode),
            r matches Some(i) ==> i < self@.slots.len(),
    {
        match self.steal_mode {
            StealMode::Oldest => first_min_slot(&self.slots, SlotKey::Age, SlotMask::All),
            StealMode::Lowest => first_min_slot(&self.slots, SlotKey::Note, SlotMask::Active),
            StealMode::Highest => last_max_slot(&self.slots, SlotKey::Note, SlotMask::Active),
            StealMode::Quietest => first_min_slot(&self.slots, SlotKey::Level, SlotMask::Active),
        }
    }

    fn allocate_poly(&mut self, note: u8, level: u32) -> (acts: Vec<VoiceAction>)
        requires
            old(self)@.age_counter < u64::MAX,
        ensures
            (final(self)@, acts@) == poly_allocate(old(self)@, note, level),
    {
        self.age_counter = self.age_counter + 1;
        let target = match first_min_slot(&self.slots, SlotKey::Zero, SlotMask::Idle) {
            Some(i) => Some(i),
            None => self.find_steal_voice(),
        };
        let mut acts: Vec<VoiceAction> = Vec::new();
        match target {
            Some(i) => {
                let age = self.age_counter;
                self.slots.set(i, VoiceSlot { note, level, gate: true, active: true, age });
                acts.push(VoiceAction::Trigger { voice: i, note, age });
            },
            None => {},
        }
        acts
    }

    fn allocate_mono(&mut self, note: u8, level: u32, legato: bool) -> (acts: Vec<VoiceAction>)
        requires
            old(self)@.age_counter < u64::MAX,
            old(self)@.slots.len() > 0,
        ensures
            (final(self)@, acts@) == mono_allocate(old(self)@, note, level, legato),
    {
        self.age_counter = self.age_counter + 1;
        let v = self.slots[0];
        let mut acts: Vec<VoiceAction> = Vec::new();
        if legato && v.gate {
            self.slots.set(0, VoiceSlot { note, ..v });
            acts.push(VoiceAction::Glide { voice: 0, note });
        } else {
            let age = self.age_counter;
            self.slots.set(0, VoiceSlot { note, level, gate: true, active: true, age });
            acts.push(VoiceAction::Trigger { voice: 0, note, age });
        }
        acts
    }

    /// Handles a note-on of `note` whose velocity orders as `level`.
    pub fn note_on(&mut self, note: u8, level: u32) -> (acts: Vec<VoiceAction>)
        requires
            old(self)@.age_counter < u64::MAX,
            old(self)@.play_mode != PlayMode::Poly ==> old(self)@.slots.len() > 0,
        ensures
            (final(self)@, acts@) == after_note_on(old(self)@, note, level),
    {
        self.held_notes.push(note);
        let acts = match self.play_mode {
            PlayMode::Poly => self.allocate_poly(note, level),
            PlayMode::Mono => self.allocate_mono(note, level, false),
            PlayMode::Legato => self.allocate_mono(note, level, true),
        };
        self.last_note = Some(note);
        acts
    }

    /// Releases the voices `sel` picks and lists them.
    fn release_selected(&mut self, note: u8, all_gated: bool) -> (acts: Vec<VoiceAction>)
        ensures
            ({
                let sel = if all_gated { gated_slot() } else { playing(note) };
                &&& final(self)@ == (AllocatorView { slots: release_where(old(self)@.slots, sel), ..old(self)@ })
                &&& acts@ == release_actions(old(self)@.slots, sel, old(self)@.slots.len() as int)
            }),
    {
        let ghost sel = if all_gated { gated_slot() } else { playing(note) };
        let ghost s0 = self.slots@;
        let mut acts: Vec<VoiceAction> = Vec::new();
        let mut i: usize = 0;
        while i < self.slots.len()
            invariant
                sel == (if all_gated { gated_slot() } else { playing(note) }),
                s0 == old(self).slots@,
                self.slots@.len() == s0.len(),
                i <= s0.len(),
                self.steal_mode == old(self).steal_mode,
                self.play_mode == old(self).play_mode,
                self.age_counter == old(self).age_counter,
                self.last_note == old(self).last_note,
                self.held_notes == old(self).held_notes,
                forall|j: int| #![trigger self.slots@[j]] 0 <= j < i ==> self.slots@[j] == release_where(s0, sel)[j],
                forall|j: int| #![trigger self.slots@[j]] i <= j < s0.len() ==> self.slots@[j] == s0[j],
                acts@ == release_actions(s0, sel, i as int),
            decreases s0.len() - i,
        {
            let v = self.slots[i];
            let pick = if all_gated { v.gate } else { v.note == note && v.gate };
            if pick {
                self.slots.set(i, VoiceSlot { gate: false, ..v });
                acts.push(VoiceAction::Release { voice: i });
            }
            i = i + 1;
        }
        assert(self.slots@ == release_where(s0, sel));
        acts
    }

    /// Handles a note-off of `note`; in the mono modes a note still held that
    /// takes the voice over is played at `retake_level`.
    pub fn note_off(&mut self, note: u8, retake_level: u32) -> (acts: Vec<VoiceAction>)
        requires
            old(self)@.age_counter < u64::MAX,
            note_off_retakes(old(self)@, note) ==> old(self)@.slots.len() > 0,
        ensures
            (final(self)@, acts@) == after_note_off(old(self)@, note, retake_level),
    {
        self.held_notes = without_note(&self.held_notes, note);
        match self.play_mode {
            PlayMode::Poly => self.release_selected(note, false),
            _ => {
                if self.last_note == Some(note) {
                    let n = self.held_notes.len();
                    if n > 0 {
                        let prev = self.held_notes[n - 1];
                        let legato = match self.play_mode {
                            PlayMode::Legato => true,
                            _ => false,
                        };
                        let acts = self.allocate_mono(prev, retake_level, legato);
                        self.last_note = Some(prev);
                        acts
                    } else {
                        let acts = self.release_selected(note, true);
                        self.last_note = None;
                        acts
                    }
                } else {
                    Vec::new()
                }
            },
        }
    }

    /// Records that a voice has fallen silent (its envelope has ended).
    pub fn voice_finished(&mut self, voice: usize)
        requires
            voice < old(self)@.slots.len(),
        ensures
            final(self)@ == (AllocatorView {
                slots: old(self)@.slots.update(voice as int, VoiceSlot { active: false, ..old(self)@.slots[voice as int] }),
                ..old(self)@
            }),
    {
        let v = self.slots[voice];
        self.slots.set(voice, VoiceSlot { active: false, ..v });
    }

    /// Number of sounding voices.
    pub fn active_count(&self) -> (n: usize)
        ensures
            n == count_active(self@.slots, self@.slots.len() as int),
    {
        let mut n: usize = 0;
        let mut i: usize = 0;
        while i < self.slots.len()
            invariant
                i <= self.slots@.len(),
                n == count_active(self.slots@, i as int),
                n <= i,
            decreases self.slots.len() - i,
        {
            if self.slots[i].active {
                n = n + 1;
            }
            i = i + 1;
        }
        n
    }
}


/// Each steal mode gives up the voice its name says: `Oldest` the voice
/// triggered longest ago, `Lowest` the sounding voice with the lowest note,
/// `Highest` the one with the highest note and `Quietest` the one played most
/// softly. Only `Oldest` may take a silent voice; the others give up nothing
/// when no voice sounds.
pub proof fn lemma_steal_modes(slots: Seq<VoiceSlot>)
    ensures
        slots.len() > 0 ==> (steal_choice(slots, StealMode::Oldest) matches Some(i) && 0 <= i < slots.len()
            && forall|j: int| 0 <= j < slots.len() ==> slots[i].age <= #[trigger] slots[j].age),
        any_selected(slots, active_slot()) ==> (steal_choice(slots, StealMode::Lowest) matches Some(i)
            && 0 <= i < slots.len() && slots[i].active
            && forall|j: int| 0 <= j < slots.len() && (#[trigger] slots[j]).active ==> slots[i].note <= slots[j].note),
        any_selected(slots, active_slot()) ==> (steal_choice(slots, StealMode::Highest) matches Some(i)
            && 0 <= i < slots.len() && slots[i].active
            && forall|j: int| 0 <= j < slots.len() && (#[trigger] slots[j]).active ==> slots[j].note <= slots[i].note),
        any_selected(slots, active_slot()) ==> (steal_choice(slots, StealMode::Quietest) matches Some(i)
            && 0 <= i < slots.len() && slots[i].active
            && forall|j: int| 0 <= j < slots.len() && (#[trigger] slots[j]).active ==> slots[i].level <= slots[j].level),
        !any_selected(slots, active_slot()) ==> steal_choice(slots, StealMode::Lowest) is None
            && steal_choice(slots, StealMode::Highest) is None
            && steal_choice(slots, StealMode::Quietest) is None,
{
    if slots.len() > 0 {
        assert(any_slot()(slots[0]));
        lemma_first_min_exists(slots, slots.len() as int, slot_age(), any_slot());
    }
    if any_selected(slots, active_slot()) {
        lemma_first_min_exists(slots, slots.len() as int, slot_note(), active_slot());
        lemma_last_max_exists(slots, slots.len() as int, slot_note(), active_slot());
        lemma_first_min_exists(slots, slots.len() as int, slot_level(), active_slot());
    }
}

/// A poly note-on on a pool with at least one voice always sounds the note:
/// exactly one voice is triggered on it (an idle one if there is one, else
/// the one the steal mode gives up), and the pool keeps its size.
pub proof fn lemma_poly_note_on_sounds(a: AllocatorView, note: u8, level: u32)
    requires
        a.play_mode == PlayMode::Poly,
        a.slots.len() > 0,
        a.age_counter < u64::MAX,
    ensures
        ({
            let (b, acts) = after_note_on(a, note, level);
            let age = (a.age_counter + 1) as u64;
            &&& b.slots.len() == a.slots.len()
            &&& acts.len() == 1
            &&& exists|i: int| 0 <= i < a.slots.len()
                && #[trigger] b.slots[i] == triggered(note, level, age)
                && acts[0] == VoiceAction::Trigger { voice: i as usize, note, age }
            &&& b.held == a.held.push(note)
            &&& b.last_note == Some(note)
        }),
{
    let s = a.slots;
    if any_selected(s, idle_slot()) {
        lemma_choice_found(s, no_key(), idle_slot());
    } else {
        assert(!idle_slot()(s[0]));
        assert(active_slot()(s[0]));
        assert(any_selected(s, active_slot()));
        assert(any_selected(s, any_slot()));
        lemma_choice_found(s, slot_age(), any_slot());
        lemma_choice_found(s, slot_note(), active_slot());
        lemma_choice_found(s, slot_level(), active_slot());
    }
    let (b, acts) = after_note_on(a, note, level);
    let target = match first_idle(s) {
        Some(i) => Some(i),
        None => steal_choice(s, a.steal_mode),
    };
    let i = target->0;
    assert(0 <= i < s.len());
    assert(b.slots[i] == triggered(note, level, (a.age_counter + 1) as u64));
    assert(acts[0] == VoiceAction::Trigger { voice: i as usize, note, age: (a.age_counter + 1) as u64 });
}

/// A note-on in the mono modes touches only the first voice, which then
/// plays the note; every other voice is left as it was.
pub proof fn lemma_mono_note_on_uses_first_voice(a: AllocatorView, note: u8, level: u32)
    requires
        a.play_mode != PlayMode::Poly,
        a.slots.len() > 0,
    ensures
        ({
            let (b, acts) = after_note_on(a, note, level);
            &&& b.slots.len() == a.slots.len()
            &&& b.slots[0].note == note
            &&& forall|j: int| 0 < j < a.slots.len() ==> #[trigger] b.slots[j] == a.slots[j]
            &&& acts.len() == 1
        }),
{
}

/// In mono play every note-on restarts the single voice, whether or not a key
/// is already down: the first voice is triggered on the note at its level and
/// stamped with the next age, that trigger is the only action, and the other
/// voices, the modes and the held notes (now ending with the note) follow.
pub proof fn lemma_mono_note_on_retriggers(a: AllocatorView, note: u8, level: u32)
    requires
        a.play_mode == PlayMode::Mono,
        a.slots.len() > 0,
        a.age_counter < u64::MAX,
    ensures
        ({
            let (b, acts) = after_note_on(a, note, level);
            let age = (a.age_counter + 1) as u64;
            &&& acts == seq![VoiceAction::Trigger { voice: 0, note, age }]
            &&& b.slots.len() == a.slots.len()
            &&& b.slots[0] == (VoiceSlot { note, level, gate: true, active: true, age })
            &&& forall|j: int| 0 < j < a.slots.len() ==> #[trigger] b.slots[j] == a.slots[j]
            &&& b.age_counter == age
            &&& b.play_mode == PlayMode::Mono
            &&& b.steal_mode == a.steal_mode
            &&& b.last_note == Some(note)
            &&& b.held == a.held.push(note)
        }),
{
}

/// A legato note played while the voice is held keeps the voice's envelopes
/// running: the voice is retuned, not retriggered, and keeps its age.
pub proof fn lemma_legato_glides(a: AllocatorView, note: u8, level: u32)
    requires
        a.play_mode == PlayMode::Legato,
        a.slots.len() > 0,
        a.slots[0].gate,
    ensures
        ({
            let (b, acts) = after_note_on(a, note, level);
            &&& acts == seq![VoiceAction::Glide { voice: 0, note }]
            &&& b.slots[0] == VoiceSlot { note, ..a.slots[0] }
        }),
{
}

/// A legato note played with no key down starts the voice as in mono play:
/// the first voice is triggered on the note and stamped with the next age.
pub proof fn lemma_legato_from_release_triggers(a: AllocatorView, note: u8, level: u32)
    requires
        a.play_mode == PlayMode::Legato,
        a.slots.len() > 0,
        !a.slots[0].gate,
        a.age_counter < u64::MAX,
    ensures
        ({
            let (b, acts) = after_note_on(a, note, level);
            let age = (a.age_counter + 1) as u64;
            &&& acts == seq![VoiceAction::Trigger { voice: 0, note, age }]
            &&& b.slots[0] == (VoiceSlot { note, level, gate: true, active: true, age })
            &&& forall|j: int| 0 < j < a.slots.len() ==> #[trigger] b.slots[j] == a.slots[j]
        }),
{
}

proof fn lemma_release_where_clears(slots: Seq<VoiceSlot>, note: u8)
    ensures
        forall|j: int| 0 <= j < slots.len() ==> !#[trigger] playing(note)(release_where(slots, playing(note))[j]),
        release_where(slots, playing(note)).len() == slots.len(),
{
}

/// After a poly note-off no voice is still held down on that note, no other
/// voice changes, and the note is no longer among the held notes.
pub proof fn lemma_poly_note_off_releases(a: AllocatorView, note: u8, retake_level: u32)
    requires
        a.play_mode == PlayMode::Poly,
    ensures
        ({
            let (b, acts) = after_note_off(a, note, retake_level);
            &&& b.slots.len() == a.slots.len()
            &&& forall|j: int| 0 <= j < b.slots.len() ==> !(#[trigger] b.slots[j].note == note && b.slots[j].gate)
            &&& forall|j: int| 0 <= j < a.slots.len() && !playing(note)(a.slots[j]) ==> #[trigger] b.slots[j] == a.slots[j]
            &&& !b.held.contains(note)
        }),
{
    lemma_release_where_clears(a.slots, note);
    let b = after_note_off(a, note, retake_level).0;
    assert forall|j: int| 0 <= j < b.slots.len() implies !(#[trigger] b.slots[j].note == note && b.slots[j].gate) by {
        assert(!playing(note)(release_where(a.slots, playing(note))[j]));
    }
    lemma_filter_drops(a.held, note);
}

/// Filtering out a note leaves no occurrence of it.
pub proof fn lemma_filter_drops(held: Seq<u8>, note: u8)
    ensures
        !held.filter(other_than(note)).contains(note),
{
    broadcast use vstd::seq_lib::group_filter_ensures;
    if held.filter(other_than(note)).contains(note) {
        let k = choose|k: int| 0 <= k < held.filter(other_than(note)).len() && held.filter(other_than(note))[k] == note;
        held.lemma_filter_pred(other_than(note), k);
    }
}

/// Note events never change how many voices there are, and there are never
/// more sounding voices than voices.
pub proof fn lemma_pool_size_kept(a: AllocatorView, note: u8, level: u32)
    requires
        a.play_mode != PlayMode::Poly ==> a.slots.len() > 0,
    ensures
        after_note_on(a, note, level).0.slots.len() == a.slots.len(),
        note_off_retakes(a, note) ==> a.slots.len() > 0 ==> after_note_off(a, note, level).0.slots.len() == a.slots.len(),
        !note_off_retakes(a, note) ==> after_note_off(a, note, level).0.slots.len() == a.slots.len(),
        count_active(a.slots, a.slots.len() as int) <= a.slots.len(),
{
    lemma_count_active_bounded(a.slots, a.slots.len() as int);
    if a.play_mode == PlayMode::Poly {
        let s = a.slots;
        if any_selected(s, idle_slot()) {
            lemma_choice_found(s, no_key(), idle_slot());
        } else if s.len() > 0 {
            assert(!idle_slot()(s[0]));
            assert(any_selected(s, active_slot()));
            assert(any_selected(s, any_slot()));
            lemma_choice_found(s, slot_age(), any_slot());
            lemma_choice_found(s, slot_note(), active_slot());
            lemma_choice_found(s, slot_level(), active_slot());
        } else {
            lemma_none_selected(s, no_key(), idle_slot());
            lemma_none_selected(s, slot_age(), any_slot());
            lemma_none_selected(s, slot_note(), active_slot());
            lemma_none_selected(s, slot_level(), active_slot());
        }
    }
}

proof fn lemma_count_active_bounded(slots: Seq<VoiceSlot>, n: int)
    requires
        0 <= n,
    ensures
        count_active(slots, n) <= n,
    decreases n,
{
    if n > 0 {
        lemma_count_active_bounded(slots, n - 1);
    }
}

} // verus!
