//! Preset metadata, formats and the preset browser.

pub mod browser;
pub mod preset;
