//! Audio output configuration.

use vstd::prelude::*;

verus! {

/// Settings of an audio output stream.
#[derive(Debug, Clone)]
pub struct AudioConfig {
    pub sample_rate: u32,
    pub buffer_size: u32,
    pub channels: u16,
}

impl Default for AudioConfig {
    /// CD-rate stereo output with 256-frame buffers.
    fn default() -> (config: Self)
        ensures
            config.sample_rate == 44100,
            config.buffer_size == 256,
            config.channels == 2,
    {
        AudioConfig { sample_rate: 44100, buffer_size: 256, channels: 2 }
    }
}

} // verus!
