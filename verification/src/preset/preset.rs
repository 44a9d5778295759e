//! Preset file format: serialisable modes, versioning and errors.

use vstd::prelude::*;
use crate::engine::synth_voice::OscModMode;
use crate::modules::FilterMode;
use vstd::string::StringExecFns;

verus! {

/// Serialisable filter mode.
#[derive(Debug, Clone, Copy, PartialEq, Eq, Structural)]
pub enum FilterModePreset {
    LowPass,
    HighPass,
    BandPass,
    Notch,
    Peak,
    LowShelf,
    HighShelf,
}

/// The filter mode a stored one stands for: the variant of the same name.
pub open spec fn filter_mode_of(p: FilterModePreset) -> FilterMode {
    match p {
        FilterModePreset::LowPass => FilterMode::LowPass,
        FilterModePreset::HighPass => FilterMode::HighPass,
        FilterModePreset::BandPass => FilterMode::BandPass,
        FilterModePreset::Notch => FilterMode::Notch,
        FilterModePreset::Peak => FilterMode::Peak,
        FilterModePreset::LowShelf => FilterMode::LowShelf,
        FilterModePreset::HighShelf => FilterMode::HighShelf,
    }
}

/// The stored form of a filter mode: the variant of the same name.
pub open spec fn filter_mode_preset_of(m: FilterMode) -> FilterModePreset {
    match m {
        FilterMode::LowPass => FilterModePreset::LowPass,
        FilterMode::HighPass => FilterModePreset::HighPass,
        FilterMode::BandPass => FilterModePreset::BandPass,
        FilterMode::Notch => FilterModePreset::Notch,
        FilterMode::Peak => FilterModePreset::Peak,
        FilterMode::LowShelf => FilterModePreset::LowShelf,
        FilterMode::HighShelf => FilterModePreset::HighShelf,
    }
}

impl From<FilterModePreset> for FilterMode {
    fn from(preset: FilterModePreset) -> (mode: FilterMode) {
        match preset {
            FilterModePreset::LowPass => FilterMode::LowPass,
            FilterModePreset::HighPass => FilterMode::HighPass,
            FilterModePreset::BandPass => FilterMode::BandPass,
            FilterModePreset::Notch => FilterMode::Notch,
            FilterModePreset::Peak => FilterMode::Peak,
            FilterModePreset::LowShelf => FilterMode::LowShelf,
            FilterModePreset::HighShelf => FilterMode::HighShelf,
        }
    }
}

impl vstd::std_specs::convert::FromSpecImpl<FilterModePreset> for FilterMode {
    open spec fn obeys_from_spec() -> bool {
        true
    }

    open spec fn from_spec(preset: FilterModePreset) -> FilterMode {
        filter_mode_of(preset)
    }
}

impl From<FilterMode> for FilterModePreset {
    fn from(mode: FilterMode) -> (preset: FilterModePreset) {
        match mode {
            FilterMode::LowPass => FilterModePreset::LowPass,
            FilterMode::HighPass => FilterModePreset::HighPass,
            FilterMode::BandPass => FilterModePreset::BandPass,
            FilterMode::Notch => FilterModePreset::Notch,
            FilterMode::Peak => FilterModePreset::Peak,
            FilterMode::LowShelf => FilterModePreset::LowShelf,
            FilterMode::HighShelf => FilterModePreset::HighShelf,
        }
    }
}

impl vstd::std_specs::convert::FromSpecImpl<FilterMode> for FilterModePreset {
    open spec fn obeys_from_spec() -> bool {
        true
    }

    open spec fn from_spec(mode: FilterMode) -> FilterModePreset {
        filter_mode_preset_of(mode)
    }
}

/// Serialisable oscillator modulation mode.
#[derive(Debug, Clone, Copy, PartialEq, Eq, Structural)]
pub enum OscModModePreset {
    Off,
    Fm,
    Pm,
    Sync,
    Ring,
}

impl Default for OscModModePreset {
    /// No modulation.
    fn default() -> (preset: Self)
        ensures
            preset == OscModModePreset::Off,
    {
        OscModModePreset::Off
    }
}

/// The modulation mode a stored one stands for: the variant of the same name.
pub open spec fn osc_mod_mode_of(p: OscModModePreset) -> OscModMode {
    match p {
        OscModModePreset::Off => OscModMode::Off,
        OscModModePreset::Fm => OscModMode::Fm,
        OscModModePreset::Pm => OscModMode::Pm,
        OscModModePreset::Sync => OscModMode::Sync,
        OscModModePreset::Ring => OscModMode::Ring,
    }
}

/// The stored form of a modulation mode: the variant of the same name.
pub open spec fn osc_mod_mode_preset_of(m: OscModMode) -> OscModModePreset {
    match m {
        OscModMode::Off => OscModModePreset::Off,
        OscModMode::Fm => OscModModePreset::Fm,
        OscModMode::Pm => OscModModePreset::Pm,
        OscModMode::Sync => OscModModePreset::Sync,
        OscModMode::Ring => OscModModePreset::Ring,
    }
}

impl From<OscModModePreset> for OscModMode {
    fn from(preset: OscModModePreset) -> (mode: OscModMode) {
        match preset {
            OscModModePreset::Off => OscModMode::Off,
            OscModModePreset::Fm => OscModMode::Fm,
            OscModModePreset::Pm => OscModMode::Pm,
            OscModModePreset::Sync => OscModMode::Sync,
            OscModModePreset::Ring => OscModMode::Ring,
        }
    }
}

impl vstd::std_specs::convert::FromSpecImpl<OscModModePreset> for OscModMode {
    open spec fn obeys_from_spec() -> bool {
        true
    }

    open spec fn from_spec(preset: OscModModePreset) -> OscModMode {
        osc_mod_mode_of(preset)
    }
}

impl From<OscModMode> for OscModModePreset {
    fn from(mode: OscModMode) -> (preset: OscModModePreset) {
        match mode {
            OscModMode::Off => OscModModePreset::Off,
            OscModMode::Fm => OscModModePreset::Fm,
            OscModMode::Pm => OscModModePreset::Pm,
            OscModMode::Sync => OscModModePreset::Sync,
            OscModMode::Ring => OscModModePreset::Ring,
        }
    }
}

impl vstd::std_specs::convert::FromSpecImpl<OscModMode> for OscModModePreset {
    open spec fn obeys_from_spec() -> bool {
        true
    }

    open spec fn from_spec(mode: OscModMode) -> OscModModePreset {
        osc_mod_mode_preset_of(mode)
    }
}

/// Converting a mode to its stored form and back gives the mode again, both
/// for filter modes and for oscillator modulation modes.
pub proof fn lemma_mode_round_trip(f: FilterMode, o: OscModMode, fp: FilterModePreset, op: OscModModePreset)
    ensures
        filter_mode_of(filter_mode_preset_of(f)) == f,
        filter_mode_preset_of(filter_mode_of(fp)) == fp,
        osc_mod_mode_of(osc_mod_mode_preset_of(o)) == o,
        osc_mod_mode_preset_of(osc_mod_mode_of(op)) == op,
{
}

/// Version number written into preset files.
pub const PRESET_VERSION: u32 = 1;

/// The version assumed for a preset file that names none: the current one.
pub fn default_version() -> (v: u32)
    ensures
        v == PRESET_VERSION,
{
    PRESET_VERSION
}

/// Errors of reading, writing and finding presets.
#[derive(Debug)]
pub enum PresetError {
    Io(String),
    Parse(String),
}

/// The text shown for a preset error.
pub open spec fn spec_preset_error_message(e: PresetError) -> Seq<char> {
    match e {
        PresetError::Io(m) => "IO error: "@ + m@,
        PresetError::Parse(m) => "Parse error: "@ + m@,
    }
}

impl PresetError {
    /// Renders the error as text, e.g. "IO error: file not found".
    pub fn message(&self) -> (text: String)
        ensures
            text@ == spec_preset_error_message(*self),
    {
        match self {
            PresetError::Io(m) => {
                let mut s = String::from_str("IO error: ");
                s.append(m.as_str());
                s
            },
            PresetError::Parse(m) => {
                let mut s = String::from_str("Parse error: ");
                s.append(m.as_str());
                s
            },
        }
    }
}

} // verus!
