//! Sources and destinations of the modulation matrix.

use vstd::prelude::*;

verus! {

/// Where a modulation signal comes from.
#[derive(Debug, Clone, Copy, PartialEq, Eq, Structural)]
pub enum ModSource {
    Envelope(usize),
    Lfo(usize),
    Velocity,
    KeyTrack,
    Aftertouch,
    ModWheel,
    PitchBend,
}

/// What a modulation signal acts on.
#[derive(Debug, Clone, Copy, PartialEq, Eq, Structural)]
pub enum ModDest {
    OscFreq(usize),
    OscPulseWidth(usize),
    FilterCutoff,
    FilterResonance,
    LfoRate(usize),
    EnvAttack(usize),
    Volume,
    Pan,
}


/// The routing table of a modulation matrix: at most `max_slots` routes, in
/// the order they were added.
#[derive(Debug, Clone)]
pub struct ModulationMatrix<S> {
    slots: Vec<S>,
    max_slots: usize,
}

impl<S> ModulationMatrix<S> {
    /// The routes, oldest first.
    pub closed spec fn routes(&self) -> Seq<S> {
        self.slots@
    }

    /// The most routes the matrix holds.
    pub closed spec fn capacity(&self) -> nat {
        self.max_slots as nat
    }

    /// The table's invariant: it holds no more routes than it may.
    pub closed spec fn wf(&self) -> bool {
        self.slots@.len() <= self.max_slots
    }

    /// An empty matrix for at most `max_slots` routes.
    pub fn new(max_slots: usize) -> (m: Self)
        ensures
            m.wf(),
            m.routes() == Seq::<S>::empty(),
            m.capacity() == max_slots,
    {
        ModulationMatrix { slots: Vec::new(), max_slots }
    }

    /// Adds a route at the end if there is room; returns whether it was added.
    pub fn add_route(&mut self, slot: S) -> (added: bool)
        requires
            old(self).wf(),
        ensures
            final(self).wf(),
            final(self).capacity() == old(self).capacity(),
            added == (old(self).routes().len() < old(self).capacity()),
            final(self).routes() == if added { old(self).routes().push(slot) } else { old(self).routes() },
    {
        if self.slots.len() < self.max_slots {
            self.slots.push(slot);
            true
        } else {
            false
        }
    }

    /// Removes the route at `index`, if there is one; later routes move up.
    pub fn remove_route(&mut self, index: usize)
        requires
            old(self).wf(),
        ensures
            final(self).wf(),
            final(self).capacity() == old(self).capacity(),
            final(self).routes() == if index < old(self).routes().len() {
                old(self).routes().remove(index as int)
            } else {
                old(self).routes()
            },
    {
        if index < self.slots.len() {
            self.slots.remove(index);
        }
    }

    /// Removes every route.
    pub fn clear(&mut self)
        requires
            old(self).wf(),
        ensures
            final(self).wf(),
            final(self).capacity() == old(self).capacity(),
            final(self).routes() == Seq::<S>::empty(),
    {
        self.slots.clear();
    }

    /// The routes, oldest first.
    pub fn slots(&self) -> (slots: &[S])
        ensures
            slots@ == self.routes(),
    {
        self.slots.as_slice()
    }
}

} // verus!
