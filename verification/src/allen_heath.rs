//! Allen & Heath preamps: AHM processors, dLive mix racks and the DT expanders.
use std::collections::HashMap;

use vstd::prelude::*;

use crate::bridge::adapter::{AdapterError, AdapterErrorModel};
use crate::bridge::types::{ChangedFields, PreampAddress};
use crate::text;
use crate::text::push_decimal;

pub mod ahm;
pub mod dlive;
pub mod dt;

verus! {

broadcast use vstd::std_specs::hash::group_hash_axioms;

/// What is known of a preamp. The gain is the octet that stands for it on the wire; `None` until
/// one was heard. `pad` is `None` until a pad was heard of.
#[derive(Debug, Clone, Copy, PartialEq, Eq, Structural)]
pub struct Readout {
    pub gain: Option<u8>,
    pub phantom: bool,
    pub pad: Option<bool>,
}

/// A preamp of which nothing is known yet.
pub open spec fn unread() -> Readout {
    Readout { gain: None, phantom: false, pad: None }
}

/// One value that a device reported of a preamp.
#[derive(Debug, Clone, Copy, PartialEq, Eq, Structural)]
pub enum Update {
    Gain(u8),
    Phantom(bool),
    Pad(bool),
}

impl Update {
    /// What is known of a preamp with the update.
    pub open spec fn on(self, state: Readout) -> Readout {
        match self {
            Update::Gain(octet) => Readout { gain: Some(octet), ..state },
            Update::Phantom(on) => Readout { phantom: on, ..state },
            Update::Pad(on) => Readout { pad: Some(on), ..state },
        }
    }

    /// The field that the update is of.
    pub open spec fn field(self) -> ChangedFields {
        ChangedFields { gain: self is Gain, phantom: self is Phantom, pad: self is Pad }
    }
}

/// An update of one preamp, with all that is then known of it.
#[derive(Debug, Clone, PartialEq, Eq)]
pub struct ReadoutEvent {
    pub address: PreampAddress,
    pub state: Readout,
    /// The field that was reported. The rest of `state` is what was known before.
    pub changed: ChangedFields,
}

/// A [`ReadoutEvent`], its text as a sequence.
#[verifier::ext_equal]
pub struct EventModel {
    pub device_id: Seq<char>,
    pub channel: u16,
    pub state: Readout,
    pub changed: ChangedFields,
}

impl View for ReadoutEvent {
    type V = EventModel;

    open spec fn view(&self) -> EventModel {
        EventModel {
            device_id: self.address.device_id@,
            channel: self.address.channel,
            state: self.state,
            changed: self.changed,
        }
    }
}

/// The models of a list of events.
pub open spec fn event_models(v: Seq<ReadoutEvent>) -> Seq<EventModel> {
    v.map_values(|e: ReadoutEvent| e@)
}

/// What is known of a channel.
pub open spec fn known(channels: Map<u16, Readout>, channel: u16) -> Readout {
    if channels.contains_key(channel) {
        channels[channel]
    } else {
        unread()
    }
}

/// The event that an update of a channel brings.
pub open spec fn event_of(
    id: Seq<char>,
    channels: Map<u16, Readout>,
    channel: u16,
    update: Update,
) -> EventModel {
    EventModel {
        device_id: id,
        channel,
        state: update.on(known(channels, channel)),
        changed: update.field(),
    }
}

/// What is known of each channel of a device.
#[derive(Debug, Clone)]
pub struct Channels {
    states: HashMap<u16, Readout>,
}

impl View for Channels {
    type V = Map<u16, Readout>;

    closed spec fn view(&self) -> Map<u16, Readout> {
        self.states@
    }
}

/// How often a channel's state is looked for, once it was asked for, before the device counts as
/// silent.
pub const MAX_POLLS: u32 = 20;

/// The failure of a query that no reply came for.
pub open spec fn no_reply_text(channel: u16) -> Seq<char> {
    "no reply for channel "@ + text::decimal(channel as nat) + " preamp state"@
}

impl Channels {
    pub fn new() -> (r: Self)
        ensures
            r@ == Map::<u16, Readout>::empty(),
    {
        Channels { states: HashMap::new() }
    }

    /// What is known of a channel; `None` where nothing is.
    pub fn get(&self, channel: u16) -> (r: Option<Readout>)
        ensures
            match r {
                Some(s) => self@.contains_key(channel) && s == self@[channel],
                None => !self@.contains_key(channel),
            },
    {
        match self.states.get(&channel) {
            Some(s) => Some(*s),
            None => None,
        }
    }

    /// Takes in an update of a channel. Gives the event that it brings.
    pub fn apply(&mut self, id: &str, channel: u16, update: Update) -> (r: ReadoutEvent)
        ensures
            r@ == event_of(id@, old(self)@, channel, update),
            final(self)@ == old(self)@.insert(channel, r.state),
    {
        let mut state = match self.get(channel) {
            Some(s) => s,
            None => Readout { gain: None, phantom: false, pad: None },
        };
        let changed = match update {
            Update::Gain(octet) => {
                state.gain = Some(octet);
                ChangedFields::gain()
            },
            Update::Phantom(on) => {
                state.phantom = on;
                ChangedFields::phantom()
            },
            Update::Pad(on) => {
                state.pad = Some(on);
                ChangedFields::pad()
            },
        };
        self.states.insert(channel, state);
        ReadoutEvent { address: PreampAddress::new(id, channel), state, changed }
    }

    /// Whether a query of a channel is over, `polls` looks after the request was sent: with the
    /// state as soon as there is one, with a failure after the last look. `None` while it is not.
    pub fn query_outcome(&self, channel: u16, polls: u32) -> (r: Option<
        Result<Readout, AdapterError>,
    >)
        ensures
            match r {
                Some(Ok(state)) => self@.contains_key(channel) && state == self@[channel],
                Some(Err(e)) => !self@.contains_key(channel) && polls >= MAX_POLLS && e@
                    == AdapterErrorModel::Protocol(no_reply_text(channel)),
                None => !self@.contains_key(channel) && polls < MAX_POLLS,
            },
    {
        match self.get(channel) {
            Some(state) => Some(Ok(state)),
            None => {
                if polls < MAX_POLLS {
                    return None;
                }
                let mut why: String = "no reply for channel ".to_owned();
                push_decimal(&mut why, channel as u64);
                why.append(" preamp state");
                assert(why@ =~= no_reply_text(channel));
                Some(Err(AdapterError::Protocol(why)))
            },
        }
    }
}

/// The octet that stands for a switch.
pub open spec fn switch_octet(on: bool) -> u8 {
    if on {
        0x7f
    } else {
        0x00
    }
}

/// The octet that stands for a switch.
pub fn bool_to_byte(on: bool) -> (r: u8)
    ensures
        r == switch_octet(on),
{
    if on {
        0x7F
    } else {
        0x00
    }
}

/// The switch that an octet stands for: on from the middle of its range.
pub fn byte_to_bool(value: u8) -> (r: bool)
    ensures
        r == (value >= 0x40),
{
    value >= 0x40
}

/// A switch is read back as it was written.
pub proof fn a_switch_reads_back(on: bool)
    ensures
        (switch_octet(on) >= 0x40) == on,
{
}

/// An update never touches a field that was not reported.
pub proof fn an_update_touches_its_field_alone(update: Update, state: Readout)
    ensures
        !update.field().gain ==> update.on(state).gain == state.gain,
        !update.field().phantom ==> update.on(state).phantom == state.phantom,
        !update.field().pad ==> update.on(state).pad == state.pad,
{
}

/// An update sets the field that it is of to what was reported: of a channel that was not known before,
/// all else is unread.
pub proof fn an_update_is_then_known(
    id: Seq<char>,
    channels: Map<u16, Readout>,
    channel: u16,
    octet: u8,
    on: bool,
)
    ensures
        event_of(id, channels, channel, Update::Gain(octet)).state.gain == Some(octet),
        event_of(id, channels, channel, Update::Phantom(on)).state.phantom == on,
        event_of(id, channels, channel, Update::Pad(on)).state.pad == Some(on),
        event_of(id, channels, channel, Update::Gain(octet)).changed == (ChangedFields {
            gain: true,
            phantom: false,
            pad: false,
        }),
        event_of(id, channels, channel, Update::Phantom(on)).changed == (ChangedFields {
            gain: false,
            phantom: true,
            pad: false,
        }),
        event_of(id, channels, channel, Update::Pad(on)).changed == (ChangedFields {
            gain: false,
            phantom: false,
            pad: true,
        }),
        !channels.contains_key(channel) ==> known(channels, channel) == (Readout {
            gain: None,
            phantom: false,
            pad: None,
        }),
        channels.contains_key(channel) ==> known(channels, channel) == channels[channel],
        switch_octet(true) == 0x7f && switch_octet(false) == 0,
{
}

/// The failure of a query names its channel.
pub proof fn a_silent_channel_is_named(channel: u16)
    ensures
        no_reply_text(channel) == "no reply for channel "@ + text::decimal(channel as nat)
            + " preamp state"@,
{
}

} // verus!
