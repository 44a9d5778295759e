//! A simple polyphonic voice pool: voices are taken in order, and a busy pool
//! gives up a voice chosen by the steal mode.

use vstd::prelude::*;
use crate::engine::steal::{first_min, first_min_within, last_max, last_max_within, lemma_first_min_is, lemma_last_max_is, lemma_none_selected};

verus! {

/// Which voice is taken over when every voice is busy.
#[derive(Debug, Clone, Copy, PartialEq, Eq, Structural)]
pub enum StealMode {
    /// The first voice of the pool.
    Oldest,
    /// The lowest note.
    Lowest,
    /// The highest note.
    Highest,
    /// The voice triggered with the least velocity.
    Quietest,
}

/// The state of one voice; `level` orders voices by the velocity they were
/// triggered with (a greater level is louder).
#[derive(Debug, Clone, Copy, PartialEq, Eq, Structural)]
pub struct Voice {
    pub note: u8,
    pub level: u32,
    pub gate: bool,
    pub active: bool,
}

/// A voice that has never played.
pub open spec fn idle_voice() -> Voice {
    Voice { note: 0, level: 0, gate: false, active: false }
}

impl Voice {
    /// A silent voice.
    pub fn new() -> (v: Self)
        ensures
            v == idle_voice(),
    {
        Voice { note: 0, level: 0, gate: false, active: false }
    }

    /// Starts the voice on a note.
    pub fn trigger(&mut self, note: u8, level: u32)
        ensures
            *final(self) == (Voice { note, level, gate: true, active: true }),
    {
        self.note = note;
        self.level = level;
        self.gate = true;
        self.active = true;
    }

    /// Lets the key go: the voice keeps sounding until its envelope ends.
    pub fn release(&mut self)
        ensures
            *final(self) == (Voice { gate: false, ..*old(self) }),
    {
        self.gate = false;
    }
}

impl Default for Voice {
    /// A silent voice.
    fn default() -> (v: Self)
        ensures
            v == idle_voice(),
    {
        Voice::new()
    }
}

pub open spec fn voice_note() -> spec_fn(Voice) -> int {
    |v: Voice| v.note as int
}

pub open spec fn voice_level() -> spec_fn(Voice) -> int {
    |v: Voice| v.level as int
}

pub open spec fn voice_flat() -> spec_fn(Voice) -> int {
    |v: Voice| 0int
}

pub open spec fn voice_active() -> spec_fn(Voice) -> bool {
    |v: Voice| v.active
}

pub open spec fn voice_idle() -> spec_fn(Voice) -> bool {
    |v: Voice| !v.active
}

/// The voice given up when all are busy: the first one, the first sounding
/// voice with the lowest note, the last sounding voice with the highest note,
/// or the first sounding voice of least level; none in an empty pool.
pub open spec fn pool_steal_choice(voices: Seq<Voice>, mode: StealMode) -> Option<int> {
    if voices.len() == 0 {
        None
    } else {
        match mode {
            StealMode::Oldest => Some(0),
            StealMode::Lowest => first_min(voices, voice_note(), voice_active()),
            StealMode::Highest => last_max(voices, voice_note(), voice_active()),
            StealMode::Quietest => first_min(voices, voice_level(), voice_active()),
        }
    }
}

/// The voice a note-on takes: the first idle voice, else the steal choice.
pub open spec fn pool_target(voices: Seq<Voice>, mode: StealMode) -> Option<int> {
    match first_min(voices, voice_flat(), voice_idle()) {
        Some(i) => Some(i),
        None => pool_steal_choice(voices, mode),
    }
}

/// The voices after a note-off: every voice held on `note` is released.
pub open spec fn released_on(voices: Seq<Voice>, note: u8) -> Seq<Voice> {
    Seq::new(voices.len(), |i: int| if voices[i].note == note && voices[i].gate {
        Voice { gate: false, ..voices[i] }
    } else {
        voices[i]
    })
}

/// Number of sounding voices among the first `n`.
pub open spec fn count_sounding(voices: Seq<Voice>, n: int) -> nat
    decreases n,
{
    if n <= 0 {
        0
    } else {
        count_sounding(voices, n - 1) + if voices[n - 1].active { 1nat } else { 0nat }
    }
}

/// An optional index as a mathematical one.
pub open spec fn as_index(r: Option<usize>) -> Option<int> {
    match r {
        Some(i) => Some(i as int),
        None => None,
    }
}

/// Pool of voices for polyphony.
#[derive(Debug, Clone)]
pub struct VoiceManager {
    voices: Vec<Voice>,
    steal_mode: StealMode,
}

/// The abstract state of a pool.
pub struct PoolView {
    pub voices: Seq<Voice>,
    pub steal_mode: StealMode,
}

impl View for VoiceManager {
    type V = PoolView;

    closed spec fn view(&self) -> PoolView {
        PoolView { voices: self.voices@, steal_mode: self.steal_mode }
    }
}

/// Which voices a search considers, and by which key.
enum Pick {
    FirstIdle,
    LowestNote,
    HighestNote,
    LeastLevel,
}

spec fn pick_key(p: Pick) -> spec_fn(Voice) -> int {
    match p {
        Pick::FirstIdle => voice_flat(),
        Pick::LowestNote => voice_note(),
        Pick::HighestNote => voice_note(),
        Pick::LeastLevel => voice_level(),
    }
}

spec fn pick_mask(p: Pick) -> spec_fn(Voice) -> bool {
    match p {
        Pick::FirstIdle => voice_idle(),
        _ => voice_active(),
    }
}

spec fn pick_result(voices: Seq<Voice>, p: Pick) -> Option<int> {
    match p {
        Pick::HighestNote => last_max(voices, pick_key(p), pick_mask(p)),
        _ => first_min(voices, pick_key(p), pick_mask(p)),
    }
}

fn search(voices: &Vec<Voice>, p: Pick) -> (r: Option<usize>)
    ensures
        as_index(r) == pick_result(voices@, p),
        r matches Some(i) ==> i < voices@.len(),
{
    let ghost s = voices@;
    let ghost key = pick_key(p);
    let ghost mask = pick_mask(p);
    let last = match p {
        Pick::HighestNote => true,
        _ => false,
    };
    let mut best: Option<usize> = None;
    let mut best_key: u64 = 0;
    let mut i: usize = 0;
    while i < voices.len()
        invariant
            s == voices@,
            key == pick_key(p),
            mask == pick_mask(p),
            last == (p is HighestNote),
            i <= s.len(),
            !last ==> (best matches Some(b) ==> first_min_within(s, i as int, key, mask, b as int)),
            last ==> (best matches Some(b) ==> {
                &&& last_max_within(s, i as int, key, mask, b as int)
                &&& forall|j: int| #![trigger s[j]] b < j < i && mask(s[j]) ==> key(s[j]) < key(s[b as int])
            }),
            best matches Some(b) ==> best_key == key(s[b as int]),
            best is None ==> forall|j: int| #![trigger s[j]] 0 <= j < i ==> !mask(s[j]),
        decreases s.len() - i,
    {
        let v = voices[i];
        let (considered, kv) = match p {
            Pick::FirstIdle => (!v.active, 0u64),
            Pick::LowestNote => (v.active, v.note as u64),
            Pick::HighestNote => (v.active, v.note as u64),
            Pick::LeastLevel => (v.active, v.level as u64),
        };
        if considered {
            match best {
                None => {
                    best = Some(i);
                    best_key = kv;
                },
                Some(b) => {
                    if (last && kv >= best_key) || (!last && kv < best_key) {
                        best = Some(i);
                        best_key = kv;
                    }
                },
            }
        }
        i = i + 1;
    }
    proof {
        match best {
            Some(b) => if last {
                lemma_last_max_is(s, key, mask, b as int)
            } else {
                lemma_first_min_is(s, key, mask, b as int)
            },
            None => lemma_none_selected(s, key, mask),
        }
    }
    best
}

impl VoiceManager {
    /// A pool of `max_voices` silent voices stealing the first voice.
    pub fn new(max_voices: usize) -> (m: Self)
        ensures
            m@ == (PoolView { voices: Seq::new(max_voices as nat, |i: int| idle_voice()), steal_mode: StealMode::Oldest }),
    {
        let mut voices: Vec<Voice> = Vec::new();
        let mut i: usize = 0;
        while i < max_voices
            invariant
                i <= max_voices,
                voices@ == Seq::new(i as nat, |j: int| idle_voice()),
            decreases max_voices - i,
        {
            voices.push(Voice::new());
            i = i + 1;
        }
        VoiceManager { voices, steal_mode: StealMode::Oldest }
    }

    /// Sets how voices are stolen.
    pub fn set_steal_mode(&mut self, mode: StealMode)
        ensures
            final(self)@ == (PoolView { steal_mode: mode, ..old(self)@ }),
    {
        self.steal_mode = mode;
    }

    /// The voices.
    pub fn voices(&self) -> (vs: &[Voice])
        ensures
            vs@ == self@.voices,
    {
        self.voices.as_slice()
    }

    /// The voices, to be changed in place: whatever is done to them is what
    /// the pool holds afterwards.
    pub fn voices_mut(&mut self) -> (vs: &mut Vec<Voice>)
        ensures
            vs@ == old(self)@.voices,
            final(self)@ == (PoolView { voices: final(vs)@, ..old(self)@ }),
    {
        &mut self.voices
    }

    /// The voice a note takes over when all are busy.
    fn find_steal_voice(&self) -> (r: Option<usize>)
        ensures
            as_index(r) == pool_steal_choice(self@.voices, self@.steal_mode),
            r matches Some(i) ==> i < self@.voices.len(),
    {
        if self.voices.len() == 0 {
            return None;
        }
        match self.steal_mode {
            StealMode::Oldest => Some(0),
            StealMode::Lowest => search(&self.voices, Pick::LowestNote),
            StealMode::Highest => search(&self.voices, Pick::HighestNote),
            StealMode::Quietest => search(&self.voices, Pick::LeastLevel),
        }
    }

    /// Starts a note on the first idle voice, or on a stolen one; returns the
    /// voice used (none in an empty pool).
    pub fn note_on(&mut self, note: u8, level: u32) -> (r: Option<usize>)
        ensures
            as_index(r) == pool_target(old(self)@.voices, old(self)@.steal_mode),
            final(self)@ == match r {
                Some(i) => PoolView {
                    voices: old(self)@.voices.update(i as int, Voice { note, level, gate: true, active: true }),
                    ..old(self)@
                },
                None => old(self)@,
            },
    {
        let target = match search(&self.voices, Pick::FirstIdle) {
            Some(i) => Some(i),
            None => self.find_steal_voice(),
        };
        match target {
            Some(i) => {
                self.voices.set(i, Voice { note, level, gate: true, active: true });
            },
            None => {},
        }
        target
    }

    /// Releases every voice held on `note`.
    pub fn note_off(&mut self, note: u8)
        ensures
            final(self)@ == (PoolView { voices: released_on(old(self)@.voices, note), ..old(self)@ }),
    {
        let ghost s0 = self.voices@;
        let mut i: usize = 0;
        while i < self.voices.len()
            invariant
                s0 == old(self).voices@,
                self.voices@.len() == s0.len(),
                self.steal_mode == old(self).steal_mode,
                i <= s0.len(),
                forall|j: int| #![trigger self.voices@[j]] 0 <= j < i ==> self.voices@[j] == released_on(s0, note)[j],
                forall|j: int| #![trigger self.voices@[j]] i <= j < s0.len() ==> self.voices@[j] == s0[j],
            decreases s0.len() - i,
        {
            let v = self.voices[i];
            if v.note == note && v.gate {
                self.voices.set(i, Voice { gate: false, ..v });
            }
            i = i + 1;
        }
        assert(self.voices@ == released_on(s0, note));
    }

    /// Records that a voice has fallen silent (its envelope has ended).
    pub fn voice_finished(&mut self, voice: usize)
        requires
            voice < old(self)@.voices.len(),
        ensures
            final(self)@ == (PoolView {
                voices: old(self)@.voices.update(voice as int, Voice { active: false, ..old(self)@.voices[voice as int] }),
                ..old(self)@
            }),
    {
        let v = self.voices[voice];
        self.voices.set(voice, Voice { active: false, ..v });
    }

    /// Indices of the sounding voices, in order.
    pub fn active_voices(&self) -> (ids: Vec<usize>)
        ensures
            forall|k: int| 0 <= k < ids@.len() ==> #[trigger] ids@[k] < self@.voices.len() && self@.voices[ids@[k] as int].active,
            forall|k: int, m: int| 0 <= k < m < ids@.len() ==> ids@[k] < ids@[m],
            forall|j: int| 0 <= j < self@.voices.len() && #[trigger] self@.voices[j].active ==> ids@.contains(j as usize),
    {
        let mut ids: Vec<usize> = Vec::new();
        let mut i: usize = 0;
        while i < self.voices.len()
            invariant
                i <= self.voices@.len(),
                forall|k: int| 0 <= k < ids@.len() ==> #[trigger] ids@[k] < i && self@.voices[ids@[k] as int].active,
                forall|k: int, m: int| 0 <= k < m < ids@.len() ==> ids@[k] < ids@[m],
                forall|j: int| 0 <= j < i && #[trigger] self@.voices[j].active ==> ids@.contains(j as usize),
            decreases self.voices.len() - i,
        {
            if self.voices[i].active {
                let ghost before = ids@;
                ids.push(i);
                assert forall|j: int| 0 <= j <= i && #[trigger] self@.voices[j].active implies ids@.contains(j as usize) by {
                    if j < i {
                        let k = choose|k: int| 0 <= k < before.len() && before[k] == j as usize;
                        assert(ids@[k] == j as usize);
                    } else {
                        assert(ids@[before.len() as int] == i);
                    }
                }
            }
            i = i + 1;
        }
        ids
    }

    /// Number of sounding voices.
    pub fn active_count(&self) -> (n: usize)
        ensures
            n == count_sounding(self@.voices, self@.voices.len() as int),
    {
        let mut n: usize = 0;
        let mut i: usize = 0;
        while i < self.voices.len()
            invariant
                i <= self.voices@.len(),
                n == count_sounding(self.voices@, i as int),
                n <= i,
            decreases self.voices.len() - i,
        {
            if self.voices[i].active {
                n = n + 1;
            }
            i = i + 1;
        }
        n
    }
}

/// A note-off of `note` lifts the key of exactly the voices held on that
/// note: every voice on another note, or already released, stays as it was;
/// a voice held on the note keeps sounding with its key up, on the same note
/// and level.
pub proof fn lemma_pool_note_off_touches_only_the_note(voices: Seq<Voice>, note: u8)
    ensures
        released_on(voices, note).len() == voices.len(),
        forall|j: int| 0 <= j < voices.len() && (voices[j].note != note || !voices[j].gate)
            ==> #[trigger] released_on(voices, note)[j] == voices[j],
        forall|j: int| 0 <= j < voices.len() && voices[j].note == note && voices[j].gate
            ==> #[trigger] released_on(voices, note)[j] == (Voice {
                note: voices[j].note,
                level: voices[j].level,
                gate: false,
                active: voices[j].active,
            }),
{
}

/// A note-on takes the lowest-numbered silent voice when there is one; when
/// every voice sounds, "oldest" stealing takes the first voice.
pub proof fn lemma_pool_takes_first_silent_voice(voices: Seq<Voice>, mode: StealMode, i: int)
    requires
        0 <= i < voices.len(),
        !voices[i].active,
        forall|j: int| 0 <= j < i ==> (#[trigger] voices[j]).active,
    ensures
        pool_target(voices, mode) == Some(i),
{
    assert(first_min_within(voices, voices.len() as int, voice_flat(), voice_idle(), i));
    lemma_first_min_is(voices, voice_flat(), voice_idle(), i);
}

/// With every voice sounding, "oldest" stealing gives up the first voice.
pub proof fn lemma_pool_oldest_steals_first(voices: Seq<Voice>)
    requires
        voices.len() > 0,
        forall|j: int| 0 <= j < voices.len() ==> (#[trigger] voices[j]).active,
    ensures
        pool_target(voices, StealMode::Oldest) == Some(0int),
{
    lemma_none_selected(voices, voice_flat(), voice_idle());
}

} // verus!
