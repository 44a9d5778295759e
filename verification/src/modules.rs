//! Modes of the synthesis modules (envelopes, filters, LFOs).

use vstd::prelude::*;

verus! {

/// Stages of an ADSR envelope.
#[derive(Debug, Clone, Copy, PartialEq, Eq, Structural)]
pub enum EnvelopeStage {
    Idle,
    Attack,
    Decay,
    Sustain,
    Release,
}

/// Response types of the state-variable filter.
#[derive(Debug, Clone, Copy, PartialEq, Eq, Structural)]
pub enum FilterMode {
    LowPass,
    HighPass,
    BandPass,
    Notch,
    Peak,
    LowShelf,
    HighShelf,
}

/// Vowels of the formant filter.
#[derive(Debug, Clone, Copy, PartialEq, Eq, Structural)]
pub enum Vowel {
    /// "ah" as in father
    A,
    /// "eh" as in bed
    E,
    /// "ee" as in see
    I,
    /// "oh" as in go
    O,
    /// "oo" as in too
    U,
}

/// Output range of an LFO.
#[derive(Debug, Clone, Copy, PartialEq, Eq, Structural)]
pub enum Polarity {
    /// 0.0 to 1.0
    Unipolar,
    /// -1.0 to 1.0
    Bipolar,
}

} // verus!
