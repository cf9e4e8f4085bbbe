//! The X32 plugin: two objects per channel, gain and phantom power.
use vstd::prelude::*;

use crate::bridge::channel_scheme;
use crate::bridge::channel_scheme::{role, Field};
use crate::bridge::legacy_plugin_bridge;
use crate::bridge::legacy_shim;
use crate::bridge::legacy_shim::PreampAction;
use crate::bridge::types::{PreampEvent, PreampState};
use crate::oca::object::{
    AddressModel, DescriptorModel, EventModel, OcaObject, OcaObjectDescriptor, ObjectModel,
};
use crate::oca::ono::Ono;
use crate::oca::value::{OcaClass, OcaValue, ValueModel};
use crate::plugin::abi::{OcaEventFfi, OcaObjectDescriptorFfi, OcaValueFfi};

verus! {

/// The number of channels of an X32.
pub const CHANNELS: u16 = 24;

/// The number of the gain or phantom power object of `channel`.
pub open spec fn object_number(channel: int, is_gain: bool) -> int {
    2 * (channel - 1) + (if is_gain {
        1int
    } else {
        2int
    })
}

/// The number of a channel's gain object.
pub fn gain_ono(channel: u16) -> (r: Ono)
    requires
        channel >= 1,
    ensures
        r.0 == object_number(channel as int, true),
{
    Ono(2 * (channel as u32 - 1) + 1)
}

/// The number of a channel's phantom power object.
pub fn phantom_ono(channel: u16) -> (r: Ono)
    requires
        channel >= 1,
    ensures
        r.0 == object_number(channel as int, false),
{
    Ono(2 * (channel as u32 - 1) + 2)
}

/// The channel of the object `number` and whether it is its gain object, `None` where the console
/// has no such channel.
pub open spec fn located(number: int) -> Option<(int, bool)> {
    let channel = (number - 1) / 2 + 1;
    if number < 1 || channel > CHANNELS {
        None
    } else {
        Some((channel, (number - 1) % 2 == 0))
    }
}

/// The channel of an object, and whether it is its gain object (`true`) or its phantom power
/// object (`false`).
pub fn decode_ono(ono: Ono) -> (r: Option<(u16, bool)>)
    ensures
        match r {
            Some((channel, is_gain)) => located(ono.0 as int) == Some((channel as int, is_gain))
                && channel >= 1,
            None => located(ono.0 as int) is None,
        },
{
    if ono.0 == 0 {
        return None;
    }
    let n: u32 = ono.0 - 1;
    let channel: u32 = n / 2 + 1;
    if channel > CHANNELS as u32 {
        return None;
    }
    Some((channel as u16, n % 2 == 0))
}

/// The gain or phantom power object of a channel.
pub open spec fn described(channel: int, is_gain: bool) -> DescriptorModel {
    DescriptorModel {
        ono: Ono(object_number(channel, is_gain) as u32),
        class: if is_gain {
            OcaClass::Gain
        } else {
            OcaClass::Switch
        },
        role: channel_scheme::role_text(
            channel,
            if is_gain {
                Field::Gain
            } else {
                Field::Phantom
            },
        ),
        settable: true,
    }
}

/// The gain or phantom power object of a channel.
pub fn descriptor(channel: u16, is_gain: bool) -> (r: OcaObjectDescriptor)
    requires
        channel >= 1,
    ensures
        r@ == described(channel as int, is_gain),
{
    if is_gain {
        OcaObjectDescriptor {
            ono: gain_ono(channel),
            class: OcaClass::Gain,
            role: role(channel, Field::Gain),
            settable: true,
        }
    } else {
        OcaObjectDescriptor {
            ono: phantom_ono(channel),
            class: OcaClass::Switch,
            role: role(channel, Field::Phantom),
            settable: true,
        }
    }
}

/// All objects of the first `channels` channels, channel by channel.
pub open spec fn all_described(channels: nat) -> Seq<DescriptorModel>
    decreases channels,
{
    if channels == 0 {
        seq![]
    } else {
        all_described((channels - 1) as nat) + seq![
            described(channels as int, true),
            described(channels as int, false),
        ]
    }
}

/// The event that says that the gain or phantom power of `channel` has `value`.
pub open spec fn field_event(
    device_id: Seq<char>,
    channel: int,
    is_gain: bool,
    value: ValueModel,
) -> EventModel {
    EventModel {
        address: AddressModel { device_id, ono: described(channel, is_gain).ono },
        object: ObjectModel { descriptor: described(channel, is_gain), value },
    }
}

/// The events that a preamp event is relayed as: one for each field that it reports.
pub open spec fn relayed(device_id: Seq<char>, event: PreampEvent) -> Seq<EventModel> {
    let channel = event.address.channel as int;
    (if event.changed.gain {
        seq![field_event(device_id, channel, true, ValueModel::F32(event.state.gain_db))]
    } else {
        seq![]
    }) + (if event.changed.phantom {
        seq![field_event(device_id, channel, false, ValueModel::Bool(event.state.phantom))]
    } else {
        seq![]
    })
}

/// What setting the object `ono` to `value` asks of the console, or why it cannot be done.
pub open spec fn set_plan(ono: Ono, value: ValueModel) -> Result<PreampAction, Seq<char>> {
    match located(ono.0 as int) {
        None => Err(legacy_shim::no_such_object(ono)),
        Some((channel, true)) => match value {
            ValueModel::F32(v) => Ok(
                PreampAction::SetGain { channel: channel as u16, gain_db: v },
            ),
            _ => Err("gain requires an F32 value"@),
        },
        Some((channel, false)) => match value {
            ValueModel::Bool(v) => Ok(PreampAction::SetPhantom { channel: channel as u16, on: v }),
            _ => Err("phantom requires a Bool value"@),
        },
    }
}

fn no_such_object(ono: Ono) -> (r: String)
    ensures
        r@ == legacy_shim::no_such_object(ono),
{
    let mut out: String = String::new();
    out.append("no such object ");
    out.append(ono.to_text().as_str());
    assert(out@ =~= legacy_shim::no_such_object(ono));
    out
}

/// An X32 behind a plugin boundary.
pub struct X32PluginAdapter {
    id: String,
    events: Vec<OcaEventFfi>,
}

impl X32PluginAdapter {
    /// The device.
    pub closed spec fn device_id(&self) -> Seq<char> {
        self.id@
    }

    /// The events that wait to be drained, oldest first.
    pub closed spec fn queue(&self) -> Seq<EventModel> {
        legacy_plugin_bridge::queued_events(self.events@)
    }

    /// A console of which nothing was heard yet.
    pub fn new(id: &str) -> (r: Self)
        ensures
            r.device_id() == id@,
            r.queue() == Seq::<EventModel>::empty(),
    {
        let r = X32PluginAdapter { id: id.to_owned(), events: Vec::new() };
        assert(r.queue() =~= Seq::empty());
        r
    }

    /// The objects of the console.
    pub fn describe(&self) -> (r: Vec<OcaObjectDescriptorFfi>)
        ensures
            r@.map_values(|d: OcaObjectDescriptorFfi| legacy_plugin_bridge::crossed_descriptor(d))
                == all_described(CHANNELS as nat),
            r@.len() == 48,
    {
        let mut out: Vec<OcaObjectDescriptorFfi> = Vec::new();
        let ghost crossed = |d: OcaObjectDescriptorFfi| legacy_plugin_bridge::crossed_descriptor(d);
        let mut channel: u16 = 0;
        assert(out@.map_values(crossed) =~= seq![]);
        while channel < CHANNELS
            invariant
                channel <= CHANNELS,
                crossed == (|d: OcaObjectDescriptorFfi|
                    legacy_plugin_bridge::crossed_descriptor(d)),
                out@.map_values(crossed) == all_described(channel as nat),
                out@.len() == 2 * channel,
            decreases CHANNELS - channel,
        {
            let ghost before = out@.map_values(crossed);
            channel = channel + 1;
            out.push(OcaObjectDescriptorFfi::from(descriptor(channel, true)));
            out.push(OcaObjectDescriptorFfi::from(descriptor(channel, false)));
            assert(out@.map_values(crossed) =~= before + seq![
                described(channel as int, true),
                described(channel as int, false),
            ]);
        }
        out
    }

    /// Takes in an event of the console.
    pub fn observe(&mut self, event: &PreampEvent)
        requires
            event.address.channel >= 1,
        ensures
            final(self).device_id() == old(self).device_id(),
            final(self).queue() == old(self).queue() + relayed(old(self).device_id(), *event),
    {
        let channel: u16 = event.address.channel;
        let ghost before = self.queue();
        if event.changed.gain {
            let object = OcaObject::from_descriptor(
                descriptor(channel, true),
                OcaValue::F32(event.state.gain_db),
            );
            self.events.push(OcaEventFfi::from_event(self.id.as_str(), object));
        }
        if event.changed.phantom {
            let object = OcaObject::from_descriptor(
                descriptor(channel, false),
                OcaValue::Bool(event.state.phantom),
            );
            self.events.push(OcaEventFfi::from_event(self.id.as_str(), object));
        }
        assert(self.queue() =~= before + relayed(self.device_id(), *event));
    }

    /// Drains the events that came in since the last time.
    pub fn poll_events(&mut self) -> (r: Vec<OcaEventFfi>)
        ensures
            legacy_plugin_bridge::queued_events(r@) == old(self).queue(),
            final(self).queue() == Seq::<EventModel>::empty(),
            final(self).device_id() == old(self).device_id(),
    {
        let mut out: Vec<OcaEventFfi> = Vec::new();
        std::mem::swap(&mut out, &mut self.events);
        assert(self.queue() =~= Seq::empty());
        out
    }

    /// Which channel's state is to be read for an object, and whether its gain is.
    pub fn get_object(&self, ono: u32) -> (r: Result<(u16, bool), String>)
        ensures
            match r {
                Ok((channel, is_gain)) => located(ono as int) == Some((channel as int, is_gain)),
                Err(e) => located(ono as int) is None && e@ == legacy_shim::no_such_object(
                    Ono(ono),
                ),
            },
    {
        match decode_ono(Ono(ono)) {
            Some(found) => Ok(found),
            None => Err(no_such_object(Ono(ono))),
        }
    }

    /// The value of an object, the state of its channel having been read.
    pub fn object_value(&self, is_gain: bool, state: &PreampState) -> (r: OcaValueFfi)
        ensures
            r == (if is_gain {
                OcaValueFfi::F32(state.gain_db)
            } else {
                OcaValueFfi::Bool(state.phantom)
            }),
    {
        if is_gain {
            OcaValueFfi::F32(state.gain_db)
        } else {
            OcaValueFfi::Bool(state.phantom)
        }
    }

    /// What setting an object asks of the console.
    pub fn set_object(&self, ono: u32, value: OcaValueFfi) -> (r: Result<PreampAction, String>)
        ensures
            match r {
                Ok(a) => set_plan(Ono(ono), legacy_plugin_bridge::crossed_value(value)) == Ok::<
                    PreampAction,
                    Seq<char>,
                >(a),
                Err(e) => set_plan(Ono(ono), legacy_plugin_bridge::crossed_value(value)) == Err::<
                    PreampAction,
                    Seq<char>,
                >(e@),
            },
    {
        let (channel, is_gain) = match self.get_object(ono) {
            Ok(found) => found,
            Err(e) => return Err(e),
        };
        if is_gain {
            match value {
                OcaValueFfi::F32(v) => Ok(PreampAction::SetGain { channel, gain_db: v }),
                _ => Err("gain requires an F32 value".to_owned()),
            }
        } else {
            match value {
                OcaValueFfi::Bool(v) => Ok(PreampAction::SetPhantom { channel, on: v }),
                _ => Err("phantom requires a Bool value".to_owned()),
            }
        }
    }
}

/// An object's number leads back to its channel and field, on every channel of the console.
pub proof fn object_numbers_lead_back(channel: int, is_gain: bool)
    requires
        channel >= 1,
    ensures
        located(object_number(channel, is_gain)) == (if channel <= CHANNELS {
            Some((channel, is_gain))
        } else {
            None
        }),
{
}

/// The objects are numbered channel by channel, gain before phantom power, from 1 on.
pub proof fn objects_are_numbered_in_pairs(channel: int)
    ensures
        object_number(channel, true) == 2 * channel - 1,
        object_number(channel, false) == 2 * channel,
        1 <= channel <= 24 ==> located(2 * channel - 1) == Some((channel, true)) && located(
            2 * channel,
        ) == Some((channel, false)),
        channel < 1 || channel > 24 ==> located(2 * channel - 1) is None && located(2 * channel)
            is None,
{
}

/// The console has the gain and the phantom power of each channel, and nothing else: a gain that is a
/// gain, phantom power that is a switch, both settable, each under its number and role.
pub proof fn every_channel_has_its_two_objects(channels: nat, channel: int)
    requires
        1 <= channel <= channels,
    ensures
        all_described(channels).len() == 2 * channels,
        all_described(channels)[2 * channel - 2] == (DescriptorModel {
            ono: Ono((2 * channel - 1) as u32),
            class: OcaClass::Gain,
            role: channel_scheme::role_text(channel, Field::Gain),
            settable: true,
        }),
        all_described(channels)[2 * channel - 1] == (DescriptorModel {
            ono: Ono((2 * channel) as u32),
            class: OcaClass::Switch,
            role: channel_scheme::role_text(channel, Field::Phantom),
            settable: true,
        }),
    decreases channels,
{
    lemma_described_len(channels);
    lemma_described_len((channels - 1) as nat);
    if channel < channels {
        every_channel_has_its_two_objects((channels - 1) as nat, channel);
    }
}

proof fn lemma_described_len(channels: nat)
    ensures
        all_described(channels).len() == 2 * channels,
    decreases channels,
{
    if channels > 0 {
        lemma_described_len((channels - 1) as nat);
    }
}

/// Setting a channel's gain object to a number sets that gain, setting its phantom power object to a
/// truth value switches it; no other value is taken, and no other object.
pub proof fn setting_an_object_sets_its_channel(channel: u16, value: ValueModel, ono: u32)
    ensures
        1 <= channel <= 24 ==> match value {
            ValueModel::F32(v) => set_plan(Ono((2 * channel - 1) as u32), value) == Ok::<
                PreampAction,
                Seq<char>,
            >(PreampAction::SetGain { channel, gain_db: v }),
            _ => set_plan(Ono((2 * channel - 1) as u32), value) is Err,
        },
        1 <= channel <= 24 ==> match value {
            ValueModel::Bool(on) => set_plan(Ono((2 * channel) as u32), value) == Ok::<
                PreampAction,
                Seq<char>,
            >(PreampAction::SetPhantom { channel, on }),
            _ => set_plan(Ono((2 * channel) as u32), value) is Err,
        },
        ono == 0 || ono > 48 ==> set_plan(Ono(ono), value) is Err,
{
    if 1 <= channel <= 24 {
        objects_are_numbered_in_pairs(channel as int);
    }
}

/// A preamp event is relayed for exactly the fields that it reports, each with its own value, the gain
/// first.
pub proof fn only_reported_fields_are_relayed(device_id: Seq<char>, event: PreampEvent)
    requires
        event.address.channel >= 1,
    ensures
        ({
            let out = relayed(device_id, event);
            let c = event.address.channel;
            &&& event.changed.gain ==> out.len() >= 1 && out[0].address.device_id == device_id
                && out[0].address.ono == Ono((2 * c - 1) as u32) && out[0].object.descriptor.ono
                == Ono((2 * c - 1) as u32) && out[0].object.value == ValueModel::F32(
                event.state.gain_db,
            )
            &&& event.changed.phantom ==> out.len() >= 1 && out.last().address.device_id
                == device_id && out.last().address.ono == Ono((2 * c) as u32)
                && out.last().object.descriptor.ono == Ono((2 * c) as u32)
                && out.last().object.value == ValueModel::Bool(event.state.phantom)
            &&& out.len() == (if event.changed.gain {
                1int
            } else {
                0
            }) + (if event.changed.phantom {
                1int
            } else {
                0
            })
        }),
{
}

/// A refusal says what is wrong: a value of the wrong kind, or an object that does not exist.
pub proof fn a_refusal_says_what_is_wrong(channel: u16, value: ValueModel, ono: u32)
    ensures
        1 <= channel <= 24 && value !is F32 ==> set_plan(Ono((2 * channel - 1) as u32), value)
            == Err::<PreampAction, Seq<char>>("gain requires an F32 value"@),
        1 <= channel <= 24 && value !is Bool ==> set_plan(Ono((2 * channel) as u32), value)
            == Err::<PreampAction, Seq<char>>("phantom requires a Bool value"@),
        ono == 0 || ono > 48 ==> set_plan(Ono(ono), value) == Err::<PreampAction, Seq<char>>(
            "no such object "@ + Ono(ono).text(),
        ),
{
    if 1 <= channel <= 24 {
        objects_are_numbered_in_pairs(channel as int);
    }
}

} // verus!
