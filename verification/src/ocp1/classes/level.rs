//! Definition levels: the root class is 1 and each subclass adds one.
use vstd::prelude::*;

verus! {

pub const ROOT: u16 = 1;

pub const AGENT: u16 = 2;

pub const WORKER: u16 = 2;

pub const BLOCK: u16 = 3;

pub const ACTUATOR: u16 = 3;

pub const MANAGER: u16 = 2;

pub const SUBSCRIPTION_MANAGER: u16 = 3;

pub const GAIN: u16 = 4;

pub const MUTE: u16 = 4;

pub const SWITCH: u16 = 4;

pub const DELAY: u16 = 4;

pub const POLARITY: u16 = 4;

pub const BASIC_ACTUATOR: u16 = 4;

pub const INT32_ACTUATOR: u16 = 5;

pub const FLOAT32_ACTUATOR: u16 = 5;

pub const STRING_ACTUATOR: u16 = 5;

pub const BOOLEAN_ACTUATOR: u16 = 5;

pub const SENSOR: u16 = 3;

pub const LEVEL_SENSOR: u16 = 4;

pub const AUDIO_LEVEL_SENSOR: u16 = 5;

pub const BASIC_SENSOR: u16 = 4;

pub const BOOLEAN_SENSOR: u16 = 5;

pub const INT32_SENSOR: u16 = 5;

pub const STRING_SENSOR: u16 = 5;

} // verus!
