//! Where ConMon messages go, and how they begin.
use vstd::prelude::*;

verus! {

/// What a message begins with on the status channel.
pub const MAGIC_STATUS: u16 = 0xFFFE;

/// What a message begins with on the control channel.
pub const MAGIC_CONTROL: u16 = 0xFFFF;

/// The multicast group of status messages.
pub const STATUS_GROUP: [u8; 4] = [224, 0, 0, 233];

pub const STATUS_PORT: u16 = 8708;

/// The multicast group of control messages.
pub const CONTROL_GROUP: [u8; 4] = [224, 0, 0, 231];

pub const CONTROL_PORT: u16 = 8702;

} // verus!
