//! Preamp channels and their state.
use vstd::prelude::*;

use crate::float32::Float32;

verus! {

/// One preamp channel on one device.
#[derive(Debug, Clone, PartialEq, Eq, Hash)]
pub struct PreampAddress {
    pub device_id: String,
    pub channel: u16,
}

impl PreampAddress {
    /// The channel `channel` of the device `device_id`.
    pub fn new(device_id: &str, channel: u16) -> (r: Self)
        ensures
            r.device_id@ == device_id@,
            r.channel == channel,
    {
        PreampAddress { device_id: device_id.to_owned(), channel }
    }
}

/// The state of a preamp channel. `pad` is `None` where the channel has no pad switch.
#[derive(Debug, Clone, Copy, PartialEq)]
pub struct PreampState {
    pub gain_db: Float32,
    pub phantom: bool,
    pub pad: Option<bool>,
}

/// Which fields of a [`PreampState`] an event carries.
///
/// A device message names one field: a gain knob moved, or phantom power was toggled. The
/// adapter merges it into the state of the whole channel, but the rest of that state is whatever
/// was last known, and on first contact it is a default, not a reading. So an event says what was
/// observed, and only that is forwarded: a nudge of a gain knob must not drop phantom power on a
/// peer.
#[derive(Debug, Clone, Copy, PartialEq, Eq, Structural)]
pub struct ChangedFields {
    pub gain: bool,
    pub phantom: bool,
    pub pad: bool,
}

impl Default for ChangedFields {
    fn default() -> (r: Self)
        ensures
            r == (ChangedFields { gain: false, phantom: false, pad: false }),
    {
        ChangedFields { gain: false, phantom: false, pad: false }
    }
}

impl ChangedFields {
    /// Nothing was read.
    pub fn none() -> (r: Self)
        ensures
            r == (ChangedFields { gain: false, phantom: false, pad: false }),
    {
        ChangedFields { gain: false, phantom: false, pad: false }
    }

    /// The gain alone was read.
    pub fn gain() -> (r: Self)
        ensures
            r == (ChangedFields { gain: true, phantom: false, pad: false }),
    {
        ChangedFields { gain: true, phantom: false, pad: false }
    }

    /// Phantom power alone was read.
    pub fn phantom() -> (r: Self)
        ensures
            r == (ChangedFields { gain: false, phantom: true, pad: false }),
    {
        ChangedFields { gain: false, phantom: true, pad: false }
    }

    /// The pad alone was read.
    pub fn pad() -> (r: Self)
        ensures
            r == (ChangedFields { gain: false, phantom: false, pad: true }),
    {
        ChangedFields { gain: false, phantom: false, pad: true }
    }

    /// Every field was read in one go.
    pub fn all() -> (r: Self)
        ensures
            r == (ChangedFields { gain: true, phantom: true, pad: true }),
    {
        ChangedFields { gain: true, phantom: true, pad: true }
    }

    /// Whether any field was read.
    pub fn any(self) -> (r: bool)
        ensures
            r == (self.gain || self.phantom || self.pad),
    {
        self.gain || self.phantom || self.pad
    }
}

/// A state change that a device reported.
#[derive(Debug, Clone)]
pub struct PreampEvent {
    pub address: PreampAddress,
    pub state: PreampState,
    /// The fields that were reported. The rest of `state` is carried context, not a reading, and
    /// is not relayed.
    pub changed: ChangedFields,
}

} // verus!
