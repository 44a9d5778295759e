//! Step sequencer position: which step plays, and where playback goes next.

use vstd::prelude::*;
use rand::RngCore;

verus! {

/// Order in which the steps are played.
#[derive(Debug, Clone, Copy, PartialEq, Eq, Structural)]
pub enum SequencerDirection {
    Forward,
    Backward,
    PingPong,
    Random,
}

impl Default for SequencerDirection {
    /// Forward.
    fn default() -> (d: Self)
        ensures
            d == SequencerDirection::Forward,
    {
        SequencerDirection::Forward
    }
}

/// `rand::rngs::OsRng::try_fill_bytes` on four bytes, read as a
/// little-endian `u32`: a value drawn from the operating system's generator,
/// or `None` when the operating system cannot supply one. Nothing is claimed
/// of the value, since it rests on chance.
#[verifier::external_body]
fn random_draw() -> (d: Option<u32>) {
    let mut bytes = [0u8; 4];
    match rand::rngs::OsRng.try_fill_bytes(&mut bytes) {
        Ok(()) => Some(u32::from_le_bytes(bytes)),
        Err(_) => None,
    }
}

/// The abstract position of a sequencer.
pub struct CursorView {
    pub num_steps: nat,
    pub step: nat,
    pub direction: SequencerDirection,
    /// In ping-pong play, whether the position is moving up.
    pub forward: bool,
}

/// The position after one advance; `draw` picks the step in random play.
///
/// Forward play wraps from the last step to the first and backward play from
/// the first to the last; ping-pong play turns at either end, so that four
/// steps play 0, 1, 2, 3, 2, 1, 0, 1, ...; random play goes to `draw` modulo
/// the number of steps. Without steps nothing moves.
pub open spec fn next_position(c: CursorView, draw: u32) -> CursorView {
    let len = c.num_steps;
    if len == 0 {
        c
    } else {
        match c.direction {
            SequencerDirection::Forward => CursorView { step: ((c.step + 1) as int % (len as int)) as nat, ..c },
            SequencerDirection::Backward => CursorView {
                step: if c.step == 0 { (len - 1) as nat } else { (c.step - 1) as nat },
                ..c
            },
            SequencerDirection::PingPong => if c.forward {
                if c.step >= len - 1 {
                    CursorView { forward: false, step: if c.step > 0 { (c.step - 1) as nat } else { c.step }, ..c }
                } else {
                    CursorView { step: c.step + 1, ..c }
                }
            } else {
                if c.step == 0 {
                    CursorView { forward: true, step: if len > 1 { 1nat } else { c.step }, ..c }
                } else {
                    CursorView { step: (c.step - 1) as nat, ..c }
                }
            },
            SequencerDirection::Random => CursorView { step: ((draw as int) % (len as int)) as nat, ..c },
        }
    }
}

/// The position of a step sequencer over `num_steps` steps.
#[derive(Debug, Clone)]
pub struct StepCursor {
    num_steps: usize,
    current_step: usize,
    direction: SequencerDirection,
    ping_pong_forward: bool,
}

impl View for StepCursor {
    type V = CursorView;

    closed spec fn view(&self) -> CursorView {
        CursorView {
            num_steps: self.num_steps as nat,
            step: self.current_step as nat,
            direction: self.direction,
            forward: self.ping_pong_forward,
        }
    }
}

/// The position is a step, or the first place when there are no steps.
pub open spec fn position_valid(c: CursorView) -> bool {
    if c.num_steps == 0 {
        c.step == 0
    } else {
        c.step < c.num_steps
    }
}

impl StepCursor {
    /// The cursor's invariant: it stands on a step (or at 0 without steps).
    pub closed spec fn wf(&self) -> bool {
        position_valid(self@)
    }

    /// A cursor at the first step, playing forward.
    pub fn new(num_steps: usize) -> (c: Self)
        ensures
            c.wf(),
            c@ == (CursorView { num_steps: num_steps as nat, step: 0, direction: SequencerDirection::Forward, forward: true }),
    {
        StepCursor { num_steps, current_step: 0, direction: SequencerDirection::Forward, ping_pong_forward: true }
    }

    /// Sets the playback direction.
    pub fn set_direction(&mut self, direction: SequencerDirection)
        requires
            old(self).wf(),
        ensures
            final(self).wf(),
            final(self)@ == (CursorView { direction, ..old(self)@ }),
    {
        self.direction = direction;
    }

    /// The playback direction.
    pub fn direction(&self) -> (d: SequencerDirection)
        ensures
            d == self@.direction,
    {
        self.direction
    }

    /// Number of steps.
    pub fn num_steps(&self) -> (n: usize)
        ensures
            n == self@.num_steps,
    {
        self.num_steps
    }

    /// The step that plays.
    pub fn current_step(&self) -> (s: usize)
        ensures
            s == self@.step,
    {
        self.current_step
    }

    /// Goes back to the first step, moving up.
    pub fn reset(&mut self)
        requires
            old(self).wf(),
        ensures
            final(self).wf(),
            final(self)@ == (CursorView { step: 0, forward: true, ..old(self)@ }),
    {
        self.current_step = 0;
        self.ping_pong_forward = true;
    }

    /// Moves to the next step, with `draw` choosing the step in random play.
    pub fn advance_with(&mut self, draw: u32)
        requires
            old(self).wf(),
        ensures
            final(self).wf(),
            final(self)@ == next_position(old(self)@, draw),
    {
        let len = self.num_steps;
        if len == 0 {
            return;
        }
        match self.direction {
            SequencerDirection::Forward => {
                self.current_step = (self.current_step + 1) % len;
            },
            SequencerDirection::Backward => {
                if self.current_step == 0 {
                    self.current_step = len - 1;
                } else {
                    self.current_step = self.current_step - 1;
                }
            },
            SequencerDirection::PingPong => {
                if self.ping_pong_forward {
                    if self.current_step >= len - 1 {
                        self.ping_pong_forward = false;
                        if self.current_step > 0 {
                            self.current_step = self.current_step - 1;
                        }
                    } else {
                        self.current_step = self.current_step + 1;
                    }
                } else {
                    if self.current_step == 0 {
                        self.ping_pong_forward = true;
                        if len > 1 {
                            self.current_step = 1;
                        }
                    } else {
                        self.current_step = self.current_step - 1;
                    }
                }
            },
            SequencerDirection::Random => {
                self.current_step = (draw as usize) % len;
            },
        }
    }

    /// Moves to the next step; in random play the step is drawn at random.
    /// Returns whether it moved: only a random draw the operating system
    /// cannot supply leaves the position where it was.
    pub fn advance_step(&mut self) -> (moved: bool)
        requires
            old(self).wf(),
        ensures
            final(self).wf(),
            old(self)@.direction != SequencerDirection::Random ==> moved && final(self)@ == next_position(old(self)@, 0),
            moved ==> exists|draw: u32| final(self)@ == next_position(old(self)@, draw),
            !moved ==> final(self)@ == old(self)@,
    {
        let draw = match self.direction {
            SequencerDirection::Random => random_draw(),
            _ => Some(0),
        };
        match draw {
            Some(d) => {
                self.advance_with(d);
                true
            },
            None => false,
        }
    }
}

/// Playing forward and then backward comes back to the same step.
pub proof fn lemma_forward_then_backward(c: CursorView)
    requires
        position_valid(c),
        c.num_steps > 0,
        c.direction == SequencerDirection::Forward,
    ensures
        next_position(CursorView { direction: SequencerDirection::Backward, ..next_position(c, 0) }, 0).step == c.step,
{
    if c.step + 1 < c.num_steps {
        vstd::arithmetic::div_mod::lemma_small_mod((c.step + 1) as nat, c.num_steps);
    } else {
        vstd::arithmetic::div_mod::lemma_mod_self_0(c.num_steps as int);
    }
}

/// Every advance keeps the position on a step.
pub proof fn lemma_advance_stays_on_a_step(c: CursorView, draw: u32)
    requires
        position_valid(c),
    ensures
        position_valid(next_position(c, draw)),
{
}

} // verus!
