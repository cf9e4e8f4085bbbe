//! Object numbers that AES70-1 reserves on every compliant device.
use vstd::prelude::*;

verus! {

pub const DEVICE_MANAGER: u32 = 1;

pub const SECURITY_MANAGER: u32 = 2;

pub const FIRMWARE_MANAGER: u32 = 3;

pub const SUBSCRIPTION_MANAGER: u32 = 4;

pub const POWER_MANAGER: u32 = 5;

pub const NETWORK_MANAGER: u32 = 6;

pub const MEDIA_CLOCK_MANAGER: u32 = 7;

pub const LIBRARY_MANAGER: u32 = 8;

pub const AUDIO_PROCESSING_MANAGER: u32 = 9;

pub const DEVICE_TIME_MANAGER: u32 = 10;

pub const TASK_MANAGER: u32 = 11;

pub const CODING_MANAGER: u32 = 12;

pub const DIAGNOSTIC_MANAGER: u32 = 13;

/// The device's top-level block, the root of the object tree.
pub const ROOT_BLOCK: u32 = 100;

} // verus!
