//! Common MIDI controller numbers.

use vstd::prelude::*;

verus! {

pub const MOD_WHEEL: u8 = 1;
pub const BREATH: u8 = 2;
pub const FOOT: u8 = 4;
pub const PORTAMENTO_TIME: u8 = 5;
pub const DATA_ENTRY: u8 = 6;
pub const VOLUME: u8 = 7;
pub const BALANCE: u8 = 8;
pub const PAN: u8 = 10;
pub const EXPRESSION: u8 = 11;
pub const SUSTAIN: u8 = 64;
pub const PORTAMENTO: u8 = 65;
pub const SOSTENUTO: u8 = 66;
pub const SOFT_PEDAL: u8 = 67;
pub const LEGATO: u8 = 68;
pub const ALL_SOUND_OFF: u8 = 120;
pub const RESET_ALL: u8 = 121;
pub const ALL_NOTES_OFF: u8 = 123;

} // verus!
