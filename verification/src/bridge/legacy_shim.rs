//! Presents a preamp adapter, which knows channels with gain, phantom power and pad, as objects.
use vstd::prelude::*;

use crate::bridge::adapter::{AdapterError, AdapterErrorModel};
use crate::bridge::channel_scheme;
use crate::bridge::channel_scheme::{
    decode_ono, descriptor, descriptors_for_channels, gain_ono, pad_ono, phantom_ono, Field,
};
use crate::bridge::types::{PreampEvent, PreampState};
use crate::float32::Float32;
use crate::oca::object::{
    AddressModel, EventModel, OcaAddress, OcaEvent, OcaObject, OcaObjectDescriptor, ObjectModel,
};
use crate::oca::ono::Ono;
use crate::oca::value::{OcaValue, ValueModel};
use crate::text;
use crate::text::push_decimal;

verus! {

/// The event that says that `field` of `channel` has `value`.
pub open spec fn field_event(
    device_id: Seq<char>,
    channel: int,
    field: Field,
    value: ValueModel,
) -> EventModel {
    EventModel {
        address: AddressModel {
            device_id,
            ono: channel_scheme::described(channel, field).ono,
        },
        object: ObjectModel { descriptor: channel_scheme::described(channel, field), value },
    }
}

/// The events that a preamp event is relayed as: one for each field that it reports, and none for
/// the rest of the state that it carries.
pub open spec fn relayed(device_id: Seq<char>, event: PreampEvent) -> Seq<EventModel> {
    let channel = event.address.channel as int;
    let gain = if event.changed.gain {
        seq![
            field_event(device_id, channel, Field::Gain, ValueModel::F32(event.state.gain_db)),
        ]
    } else {
        seq![]
    };
    let phantom = if event.changed.phantom {
        seq![
            field_event(device_id, channel, Field::Phantom, ValueModel::Bool(event.state.phantom)),
        ]
    } else {
        seq![]
    };
    let pad = match event.state.pad {
        Some(on) => if event.changed.pad {
            seq![field_event(device_id, channel, Field::Pad, ValueModel::Bool(on))]
        } else {
            seq![]
        },
        None => seq![],
    };
    gain + phantom + pad
}

/// The models of a list of events.
pub open spec fn event_models(v: Seq<OcaEvent>) -> Seq<EventModel> {
    v.map_values(|e: OcaEvent| e@)
}

/// Relays a preamp event as object events.
pub fn preamp_event_to_oca(device_id: &str, event: &PreampEvent) -> (r: Vec<OcaEvent>)
    requires
        event.address.channel >= 1,
    ensures
        event_models(r@) == relayed(device_id@, *event),
{
    let channel: u16 = event.address.channel;
    let mut out: Vec<OcaEvent> = Vec::new();
    if event.changed.gain {
        out.push(
            OcaEvent {
                address: OcaAddress::new(device_id, gain_ono(channel)),
                object: OcaObject::from_descriptor(
                    descriptor(channel, Field::Gain),
                    OcaValue::F32(event.state.gain_db),
                ),
            },
        );
    }
    if event.changed.phantom {
        out.push(
            OcaEvent {
                address: OcaAddress::new(device_id, phantom_ono(channel)),
                object: OcaObject::from_descriptor(
                    descriptor(channel, Field::Phantom),
                    OcaValue::Bool(event.state.phantom),
                ),
            },
        );
    }
    if let Some(pad) = event.state.pad {
        if event.changed.pad {
            out.push(
                OcaEvent {
                    address: OcaAddress::new(device_id, pad_ono(channel)),
                    object: OcaObject::from_descriptor(
                        descriptor(channel, Field::Pad),
                        OcaValue::Bool(pad),
                    ),
                },
            );
        }
    }
    assert(event_models(out@) =~= relayed(device_id@, *event));
    out
}

/// Why an object that a device does not have cannot be read or set.
pub open spec fn no_such_object(ono: Ono) -> Seq<char> {
    "no such object "@ + ono.text()
}

/// Why a pad cannot be read on a channel that has none.
pub open spec fn no_pad(channel: int) -> Seq<char> {
    "channel "@ + text::decimal(channel as nat) + " has no pad switch"@
}

/// Why a pad cannot be set.
pub open spec fn pad_is_read_only(channel: int) -> Seq<char> {
    "channel "@ + text::decimal(channel as nat) + "'s pad switch is read-only"@
}

/// What reading `field` of `channel` gives, the channel's state being known.
pub open spec fn field_value(channel: int, field: Field, state: PreampState) -> Result<
    ValueModel,
    Seq<char>,
> {
    match field {
        Field::Gain => Ok(ValueModel::F32(state.gain_db)),
        Field::Phantom => Ok(ValueModel::Bool(state.phantom)),
        Field::Pad => match state.pad {
            Some(on) => Ok(ValueModel::Bool(on)),
            None => Err(no_pad(channel)),
        },
    }
}

/// A change to make on a preamp channel.
#[derive(Debug, Clone, Copy, PartialEq)]
pub enum PreampAction {
    SetGain { channel: u16, gain_db: Float32 },
    SetPhantom { channel: u16, on: bool },
}

/// What setting the object `ono` to `value` asks of a device with that many channels, or why it
/// cannot be done.
pub open spec fn set_plan(ono: Ono, value: ValueModel, channels: int) -> Result<
    PreampAction,
    Seq<char>,
> {
    match channel_scheme::located(ono.0 as int, channels) {
        None => Err(no_such_object(ono)),
        Some((channel, Field::Gain)) => match value {
            ValueModel::F32(v) => Ok(
                PreampAction::SetGain { channel: channel as u16, gain_db: v },
            ),
            _ => Err("gain requires an F32 value"@),
        },
        Some((channel, Field::Phantom)) => match value {
            ValueModel::Bool(v) => Ok(PreampAction::SetPhantom { channel: channel as u16, on: v }),
            _ => Err("phantom requires a Bool value"@),
        },
        Some((channel, Field::Pad)) => Err(pad_is_read_only(channel)),
    }
}

fn no_such_object_text(ono: Ono) -> (r: String)
    ensures
        r@ == no_such_object(ono),
{
    let mut out: String = String::new();
    out.append("no such object ");
    out.append(ono.to_text().as_str());
    assert(out@ =~= no_such_object(ono));
    out
}

fn channel_text(channel: u16, what: &str) -> (r: String)
    ensures
        r@ == "channel "@ + text::decimal(channel as nat) + what@,
{
    let mut out: String = String::new();
    out.append("channel ");
    push_decimal(&mut out, channel as u64);
    out.append(what);
    assert(out@ =~= "channel "@ + text::decimal(channel as nat) + what@);
    out
}

/// The channel and field of an object on a device with that many channels, or why there is none.
pub fn locate(ono: Ono, channels: u16) -> (r: Result<(u16, Field), String>)
    ensures
        match r {
            Ok((channel, field)) => channel_scheme::located(ono.0 as int, channels as int) == Some(
                (channel as int, field),
            ),
            Err(e) => channel_scheme::located(ono.0 as int, channels as int) is None && e@
                == no_such_object(ono),
        },
{
    match decode_ono(ono, channels) {
        Some(found) => Ok(found),
        None => Err(no_such_object_text(ono)),
    }
}

/// Reads `field` off the state of `channel`.
pub fn read_field(channel: u16, field: Field, state: &PreampState) -> (r: Result<OcaValue, String>)
    ensures
        match r {
            Ok(v) => field_value(channel as int, field, *state) == Ok::<ValueModel, Seq<char>>(v@),
            Err(e) => field_value(channel as int, field, *state) == Err::<ValueModel, Seq<char>>(
                e@,
            ),
        },
{
    match field {
        Field::Gain => Ok(OcaValue::F32(state.gain_db)),
        Field::Phantom => Ok(OcaValue::Bool(state.phantom)),
        Field::Pad => match state.pad {
            Some(on) => Ok(OcaValue::Bool(on)),
            None => Err(channel_text(channel, " has no pad switch")),
        },
    }
}

/// What setting an object asks of a device with that many channels.
pub fn plan_set(ono: Ono, value: &OcaValue, channels: u16) -> (r: Result<PreampAction, String>)
    ensures
        match r {
            Ok(a) => set_plan(ono, value@, channels as int) == Ok::<PreampAction, Seq<char>>(a),
            Err(e) => set_plan(ono, value@, channels as int) == Err::<PreampAction, Seq<char>>(e@),
        },
{
    let (channel, field) = match locate(ono, channels) {
        Ok(found) => found,
        Err(e) => return Err(e),
    };
    match field {
        Field::Gain => match value.as_f32() {
            Some(v) => Ok(PreampAction::SetGain { channel, gain_db: v }),
            None => Err("gain requires an F32 value".to_owned()),
        },
        Field::Phantom => match value.as_bool() {
            Some(v) => Ok(PreampAction::SetPhantom { channel, on: v }),
            None => Err("phantom requires a Bool value".to_owned()),
        },
        Field::Pad => Err(channel_text(channel, "'s pad switch is read-only")),
    }
}

/// Presents a preamp adapter with a number of channels as objects, in the host's own process.
#[derive(Debug, Clone)]
pub struct LegacyPreampShim {
    pub device_id: String,
    pub channels: u16,
}

impl LegacyPreampShim {
    /// Presents the adapter of a device with that many channels.
    pub fn new(device_id: &str, channels: u16) -> (r: Self)
        ensures
            r.device_id@ == device_id@,
            r.channels == channels,
    {
        LegacyPreampShim { device_id: device_id.to_owned(), channels }
    }

    /// The objects of the device.
    pub fn describe(&self) -> (r: Vec<OcaObjectDescriptor>)
        ensures
            channel_scheme::descriptor_models(r@) == channel_scheme::all_described(
                self.channels as nat,
            ),
    {
        descriptors_for_channels(self.channels)
    }

    /// Which channel's state is to be read for an object, and which field of it.
    pub fn get_object(&self, ono: Ono) -> (r: Result<(u16, Field), AdapterError>)
        ensures
            match r {
                Ok((channel, field)) => channel_scheme::located(
                    ono.0 as int,
                    self.channels as int,
                ) == Some((channel as int, field)),
                Err(e) => channel_scheme::located(ono.0 as int, self.channels as int) is None && e@
                    == AdapterErrorModel::Protocol(no_such_object(ono)),
            },
    {
        match locate(ono, self.channels) {
            Ok(found) => Ok(found),
            Err(e) => Err(AdapterError::Protocol(e)),
        }
    }

    /// The value of an object, the state of its channel having been read.
    pub fn object_value(&self, channel: u16, field: Field, state: &PreampState) -> (r: Result<
        OcaValue,
        AdapterError,
    >)
        ensures
            match r {
                Ok(v) => field_value(channel as int, field, *state) == Ok::<ValueModel, Seq<char>>(
                    v@,
                ),
                Err(e) => field_value(channel as int, field, *state) is Err && e@
                    == AdapterErrorModel::Protocol(field_value(channel as int, field, *state)->Err_0),
            },
    {
        match read_field(channel, field, state) {
            Ok(v) => Ok(v),
            Err(e) => Err(AdapterError::Protocol(e)),
        }
    }

    /// What setting an object asks of the adapter.
    pub fn set_object(&self, ono: Ono, value: &OcaValue) -> (r: Result<PreampAction, AdapterError>)
        ensures
            match r {
                Ok(a) => set_plan(ono, value@, self.channels as int) == Ok::<
                    PreampAction,
                    Seq<char>,
                >(a),
                Err(e) => set_plan(ono, value@, self.channels as int) is Err && e@
                    == AdapterErrorModel::Protocol(
                    set_plan(ono, value@, self.channels as int)->Err_0,
                ),
            },
    {
        match plan_set(ono, value, self.channels) {
            Ok(a) => Ok(a),
            Err(e) => Err(AdapterError::Protocol(e)),
        }
    }

    /// The object events that a preamp event is relayed as.
    pub fn relay(&self, event: &PreampEvent) -> (r: Vec<OcaEvent>)
        requires
            event.address.channel >= 1,
        ensures
            event_models(r@) == relayed(self.device_id@, *event),
    {
        preamp_event_to_oca(self.device_id.as_str(), event)
    }
}

/// Only what was observed is forwarded: an event that reports the gain alone sets nothing but a
/// gain on a peer, however stale the rest of the state that it carries.
pub proof fn only_what_was_observed_is_forwarded(device_id: Seq<char>, event: PreampEvent, i: int)
    requires
        0 <= i < relayed(device_id, event).len(),
    ensures
        ({
            let e = relayed(device_id, event)[i];
            let channel = event.address.channel as int;
            ||| event.changed.gain && e == field_event(
                device_id,
                channel,
                Field::Gain,
                ValueModel::F32(event.state.gain_db),
            )
            ||| event.changed.phantom && e == field_event(
                device_id,
                channel,
                Field::Phantom,
                ValueModel::Bool(event.state.phantom),
            )
            ||| event.changed.pad && event.state.pad is Some && e == field_event(
                device_id,
                channel,
                Field::Pad,
                ValueModel::Bool(event.state.pad->0),
            )
        }),
{
}

/// Setting a gain or phantom power object asks for that very channel, and what is read back is
/// what the channel's state says.
pub proof fn objects_and_channels_agree(channel: u16, channels: u16, gain: Float32, on: bool)
    requires
        1 <= channel <= channels,
    ensures
        set_plan(
            channel_scheme::described(channel as int, Field::Gain).ono,
            ValueModel::F32(gain),
            channels as int,
        ) == Ok::<PreampAction, Seq<char>>(PreampAction::SetGain { channel, gain_db: gain }),
        set_plan(
            channel_scheme::described(channel as int, Field::Phantom).ono,
            ValueModel::Bool(on),
            channels as int,
        ) == Ok::<PreampAction, Seq<char>>(PreampAction::SetPhantom { channel, on }),
        set_plan(
            channel_scheme::described(channel as int, Field::Pad).ono,
            ValueModel::Bool(on),
            channels as int,
        ) == Err::<PreampAction, Seq<char>>(pad_is_read_only(channel as int)),
{
    channel_scheme::object_numbers_lead_back(channel as int, Field::Gain, channels as int);
    channel_scheme::object_numbers_lead_back(channel as int, Field::Phantom, channels as int);
    channel_scheme::object_numbers_lead_back(channel as int, Field::Pad, channels as int);
}

/// Every field that an event reports is forwarded, once, with its own value: a pad where there is one.
pub proof fn what_was_observed_is_forwarded(device_id: Seq<char>, event: PreampEvent)
    requires
        event.address.channel >= 1,
    ensures
        ({
            let out = relayed(device_id, event);
            let c = event.address.channel;
            let g = if event.changed.gain {
                1int
            } else {
                0
            };
            let p = if event.changed.phantom {
                1int
            } else {
                0
            };
            let d = if event.changed.pad && event.state.pad is Some {
                1int
            } else {
                0
            };
            &&& out.len() == g + p + d
            &&& forall|i: int|
                0 <= i < out.len() ==> (#[trigger] out[i]).address.device_id == device_id
                    && out[i].address.ono == out[i].object.descriptor.ono
            &&& g == 1 ==> out[0].address.ono == Ono((3 * c - 2) as u32) && out[0].object.value
                == ValueModel::F32(event.state.gain_db)
            &&& p == 1 ==> out[g].address.ono == Ono((3 * c - 1) as u32) && out[g].object.value
                == ValueModel::Bool(event.state.phantom)
            &&& d == 1 ==> out[g + p].address.ono == Ono((3 * c) as u32) && out[g + p].object.value
                == ValueModel::Bool(event.state.pad->0)
        }),
{
}

/// What is read of a channel is what its state says: its gain, its phantom power, its pad where it has
/// one.
pub proof fn what_is_read_is_the_state(channel: int, state: PreampState)
    ensures
        field_value(channel, Field::Gain, state) == Ok::<ValueModel, Seq<char>>(
            ValueModel::F32(state.gain_db),
        ),
        field_value(channel, Field::Phantom, state) == Ok::<ValueModel, Seq<char>>(
            ValueModel::Bool(state.phantom),
        ),
        state.pad is Some ==> field_value(channel, Field::Pad, state) == Ok::<
            ValueModel,
            Seq<char>,
        >(ValueModel::Bool(state.pad->0)),
        state.pad is None ==> field_value(channel, Field::Pad, state) is Err,
{
}

/// Setting is by number: 3 * c - 2 is the gain of channel c and takes a number, 3 * c - 1 its phantom
/// power and takes a truth value; a pad takes nothing, nor does any object beyond the last channel.
pub proof fn setting_an_object_sets_its_channel(channel: u16, channels: u16, value: ValueModel)
    requires
        channel >= 1,
    ensures
        channel <= channels ==> match value {
            ValueModel::F32(v) => set_plan(
                Ono((3 * channel - 2) as u32),
                value,
                channels as int,
            ) == Ok::<PreampAction, Seq<char>>(PreampAction::SetGain { channel, gain_db: v }),
            _ => set_plan(Ono((3 * channel - 2) as u32), value, channels as int) is Err,
        },
        channel <= channels ==> match value {
            ValueModel::Bool(on) => set_plan(
                Ono((3 * channel - 1) as u32),
                value,
                channels as int,
            ) == Ok::<PreampAction, Seq<char>>(PreampAction::SetPhantom { channel, on }),
            _ => set_plan(Ono((3 * channel - 1) as u32), value, channels as int) is Err,
        },
        set_plan(Ono((3 * channel) as u32), value, channels as int) is Err,
        channel > channels ==> set_plan(Ono((3 * channel - 2) as u32), value, channels as int)
            is Err && set_plan(Ono((3 * channel - 1) as u32), value, channels as int) is Err,
        set_plan(Ono(0), value, channels as int) is Err,
{
    channel_scheme::objects_are_numbered_in_threes(channel as int, channels as int);
}

/// A refusal says what is wrong: an object that does not exist, a value of the wrong kind, a pad switch
/// that is missing or cannot be set.
pub proof fn a_refusal_says_what_is_wrong(
    channel: u16,
    channels: u16,
    value: ValueModel,
    state: PreampState,
)
    requires
        channel >= 1,
    ensures
        channel <= channels && value !is F32 ==> set_plan(
            Ono((3 * channel - 2) as u32),
            value,
            channels as int,
        ) == Err::<PreampAction, Seq<char>>("gain requires an F32 value"@),
        channel <= channels && value !is Bool ==> set_plan(
            Ono((3 * channel - 1) as u32),
            value,
            channels as int,
        ) == Err::<PreampAction, Seq<char>>("phantom requires a Bool value"@),
        channel <= channels ==> set_plan(Ono((3 * channel) as u32), value, channels as int)
            == Err::<PreampAction, Seq<char>>(
            "channel "@ + text::decimal(channel as nat) + "'s pad switch is read-only"@,
        ),
        channel > channels ==> set_plan(Ono((3 * channel) as u32), value, channels as int) == Err::<
            PreampAction,
            Seq<char>,
        >("no such object "@ + Ono((3 * channel) as u32).text()),
        state.pad is None ==> field_value(channel as int, Field::Pad, state) == Err::<
            ValueModel,
            Seq<char>,
        >("channel "@ + text::decimal(channel as nat) + " has no pad switch"@),
{
    channel_scheme::objects_are_numbered_in_threes(channel as int, channels as int);
}

} // verus!
