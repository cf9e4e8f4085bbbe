//! The vendor messages that are known.
use vstd::prelude::*;

verus! {

/// To the device: set one preamp.
pub const SET_MIC_PRE: u8 = 0x05;

/// From the device: the status of all preamps.
pub const STATUS_FULL: u8 = 0x01;

/// From the device: the flags of all preamps.
pub const STATUS_FLAGS: u8 = 0x00;

} // verus!
