//! Engine configuration.

use vstd::prelude::*;

verus! {

/// Settings the engine is created with.
#[derive(Debug, Clone)]
pub struct EngineConfig {
    pub sample_rate: u32,
    pub buffer_size: u32,
    pub max_voices: usize,
}

impl Default for EngineConfig {
    /// 44.1 kHz, 256-frame buffers and eight voices.
    fn default() -> (config: Self)
        ensures
            config.sample_rate == 44100,
            config.buffer_size == 256,
            config.max_voices == 8,
    {
        EngineConfig { sample_rate: 44100, buffer_size: 256, max_voices: 8 }
    }
}

} // verus!
