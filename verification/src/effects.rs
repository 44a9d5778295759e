//! Kinds of effect processing.

use vstd::prelude::*;

verus! {

/// Waveshaping curves of the distortion effect.
#[derive(Debug, Clone, Copy, PartialEq, Eq, Structural)]
pub enum DistortionType {
    /// Soft clipping (tanh).
    Soft,
    /// Hard clipping.
    Hard,
    /// Wave folding.
    Foldback,
    /// Bit reduction.
    BitCrush,
}


/// The abstract position of a delay line's read and write heads.
pub struct DelayCursorView {
    /// Number of slots in the ring buffer.
    pub len: nat,
    /// Slot the next sample is written to.
    pub write: nat,
    /// How many samples back the read head is.
    pub delay: nat,
}

/// The heads stand on slots of the ring (everything is zero for an empty ring).
pub open spec fn cursor_valid(c: DelayCursorView) -> bool {
    if c.len == 0 {
        c.write == 0 && c.delay == 0
    } else {
        c.write < c.len && c.delay < c.len
    }
}

/// The slot `delay` samples behind the write head, going round the ring.
pub open spec fn spec_read_pos(c: DelayCursorView) -> int {
    (c.write + c.len - c.delay) as int % (c.len as int)
}

/// Read and write heads of a ring buffer of `len` slots holding the last
/// samples of a delay.
#[derive(Debug, Clone)]
pub struct DelayCursor {
    len: usize,
    write_pos: usize,
    delay_samples: usize,
}

impl View for DelayCursor {
    type V = DelayCursorView;

    closed spec fn view(&self) -> DelayCursorView {
        DelayCursorView { len: self.len as nat, write: self.write_pos as nat, delay: self.delay_samples as nat }
    }
}

impl DelayCursor {
    /// The cursor's invariant: both heads on the ring.
    pub closed spec fn wf(&self) -> bool {
        cursor_valid(self@)
    }

    /// Heads for a ring of `len` slots: writing at the first slot, reading
    /// half the ring behind.
    pub fn new(len: usize) -> (c: Self)
        ensures
            c.wf(),
            c@ == (DelayCursorView { len: len as nat, write: 0, delay: (len / 2) as nat }),
    {
        DelayCursor { len, write_pos: 0, delay_samples: len / 2 }
    }

    /// Sets how many samples back the read head is, at most one less than the ring.
    pub fn set_delay_samples(&mut self, samples: usize)
        requires
            old(self).wf(),
            old(self)@.len > 0,
        ensures
            final(self).wf(),
            final(self)@ == (DelayCursorView {
                delay: if samples < old(self)@.len - 1 { samples as nat } else { (old(self)@.len - 1) as nat },
                ..old(self)@
            }),
    {
        let most = self.len - 1;
        self.delay_samples = if samples < most { samples } else { most };
    }

    /// Number of slots.
    pub fn len(&self) -> (n: usize)
        ensures
            n == self@.len,
    {
        self.len
    }

    /// How many samples back the read head is.
    pub fn delay_samples(&self) -> (d: usize)
        ensures
            d == self@.delay,
    {
        self.delay_samples
    }

    /// The slot the next sample is written to.
    pub fn write_pos(&self) -> (w: usize)
        ensures
            w == self@.write,
    {
        self.write_pos
    }

    /// The slot to read the delayed sample from.
    pub fn read_pos(&self) -> (r: usize)
        requires
            self.wf(),
            self@.len > 0,
        ensures
            r == spec_read_pos(self@),
            r < self@.len,
    {
        let ghost c = self@;
        if self.write_pos >= self.delay_samples {
            let r = self.write_pos - self.delay_samples;
            proof {
                vstd::arithmetic::div_mod::lemma_mod_add_multiples_vanish(r as int, c.len as int);
                vstd::arithmetic::div_mod::lemma_small_mod(r as nat, c.len);
            }
            r
        } else {
            let r = self.write_pos + (self.len - self.delay_samples);
            proof {
                vstd::arithmetic::div_mod::lemma_small_mod(r as nat, c.len);
            }
            r
        }
    }

    /// Moves the write head to the next slot, wrapping at the end of the ring.
    pub fn advance(&mut self)
        requires
            old(self).wf(),
            old(self)@.len > 0,
        ensures
            final(self).wf(),
            final(self)@ == (DelayCursorView { write: ((old(self)@.write + 1) as int % (old(self)@.len as int)) as nat, ..old(self)@ }),
    {
        let ghost c = self@;
        if self.write_pos + 1 == self.len {
            self.write_pos = 0;
            proof {
                vstd::arithmetic::div_mod::lemma_mod_self_0(c.len as int);
            }
        } else {
            self.write_pos = self.write_pos + 1;
            proof {
                vstd::arithmetic::div_mod::lemma_small_mod((c.write + 1) as nat, c.len);
            }
        }
    }
}

/// The read head trails the write head by exactly the delay: going `delay`
/// slots forward from where it reads comes back to where the next sample is
/// written.
pub proof fn lemma_read_trails_write(c: DelayCursorView)
    requires
        cursor_valid(c),
        c.len > 0,
    ensures
        (spec_read_pos(c) + c.delay) % (c.len as int) == c.write,
{
    let len = c.len as int;
    if c.write >= c.delay {
        vstd::arithmetic::div_mod::lemma_mod_add_multiples_vanish(c.write - c.delay, len);
        vstd::arithmetic::div_mod::lemma_small_mod((c.write - c.delay) as nat, c.len);
        vstd::arithmetic::div_mod::lemma_small_mod(c.write, c.len);
    } else {
        vstd::arithmetic::div_mod::lemma_small_mod((c.write + c.len - c.delay) as nat, c.len);
        vstd::arithmetic::div_mod::lemma_mod_add_multiples_vanish(c.write as int, len);
        vstd::arithmetic::div_mod::lemma_small_mod(c.write, c.len);
    }
}

} // verus!
