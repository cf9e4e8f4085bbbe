//! Three objects per channel: gain, phantom power and pad.
//!
//! The numbering and naming shared by every device whose control surface is just those three,
//! and by virtual devices, which have no adapter to ask.
use vstd::prelude::*;

use crate::oca::object::{DescriptorModel, OcaObjectDescriptor};
use crate::oca::ono::Ono;
use crate::oca::value::OcaClass;
use crate::text;
use crate::text::push_decimal;

verus! {

/// What an object of a channel controls.
#[derive(Debug, Clone, Copy, PartialEq, Eq, Structural)]
pub enum Field {
    Gain,
    Phantom,
    Pad,
}

impl Field {
    /// The last word of the object's role.
    pub open spec fn suffix(self) -> Seq<char> {
        match self {
            Field::Gain => "Gain"@,
            Field::Phantom => "Phantom"@,
            Field::Pad => "Pad"@,
        }
    }

    /// The last word of the object's role.
    pub fn role_suffix(self) -> (r: &'static str)
        ensures
            r@ == self.suffix(),
    {
        match self {
            Field::Gain => "Gain",
            Field::Phantom => "Phantom",
            Field::Pad => "Pad",
        }
    }

    /// The place of the field among the three of its channel.
    pub open spec fn place(self) -> int {
        match self {
            Field::Gain => 1,
            Field::Phantom => 2,
            Field::Pad => 3,
        }
    }
}

/// The number of the object that controls `field` of `channel`.
pub open spec fn object_number(channel: int, field: Field) -> int {
    3 * (channel - 1) + field.place()
}

/// The number of a channel's gain object. Channels count from 1.
pub fn gain_ono(channel: u16) -> (r: Ono)
    requires
        channel >= 1,
    ensures
        r.0 == object_number(channel as int, Field::Gain),
{
    Ono(3 * (channel as u32 - 1) + 1)
}

/// The number of a channel's phantom power object.
pub fn phantom_ono(channel: u16) -> (r: Ono)
    requires
        channel >= 1,
    ensures
        r.0 == object_number(channel as int, Field::Phantom),
{
    Ono(3 * (channel as u32 - 1) + 2)
}

/// The number of a channel's pad object.
pub fn pad_ono(channel: u16) -> (r: Ono)
    requires
        channel >= 1,
    ensures
        r.0 == object_number(channel as int, Field::Pad),
{
    Ono(3 * (channel as u32 - 1) + 3)
}

/// The channel and field that the object `number` controls, `None` where it is out of range for
/// a device with that many channels.
pub open spec fn located(number: int, channels: int) -> Option<(int, Field)> {
    let channel = (number - 1) / 3 + 1;
    if number < 1 || channel > channels {
        None
    } else {
        Some(
            (
                channel,
                if (number - 1) % 3 == 0 {
                    Field::Gain
                } else if (number - 1) % 3 == 1 {
                    Field::Phantom
                } else {
                    Field::Pad
                },
            ),
        )
    }
}

/// The channel and field that an object controls, `None` where it is out of range for a device
/// with that many channels.
pub fn decode_ono(ono: Ono, channels: u16) -> (r: Option<(u16, Field)>)
    ensures
        match r {
            Some((channel, field)) => located(ono.0 as int, channels as int) == Some(
                (channel as int, field),
            ) && channel >= 1,
            None => located(ono.0 as int, channels as int) is None,
        },
{
    if ono.0 == 0 {
        return None;
    }
    let n: u32 = ono.0 - 1;
    let channel: u32 = n / 3 + 1;
    if channel > channels as u32 {
        return None;
    }
    let field = if n % 3 == 0 {
        Field::Gain
    } else if n % 3 == 1 {
        Field::Phantom
    } else {
        Field::Pad
    };
    Some((channel as u16, field))
}

/// The role of the object that controls `field` of `channel`.
pub open spec fn role_text(channel: int, field: Field) -> Seq<char> {
    "Ch "@ + text::decimal(channel as nat) + " "@ + field.suffix()
}

/// The role of the object that controls `field` of `channel`, such as `Ch 3 Gain`. Mappings
/// between channels are resolved by these names.
pub fn role(channel: u16, field: Field) -> (r: String)
    ensures
        r@ == role_text(channel as int, field),
{
    let mut out: String = String::new();
    out.append("Ch ");
    push_decimal(&mut out, channel as u64);
    out.append(" ");
    out.append(field.role_suffix());
    assert(out@ =~= role_text(channel as int, field));
    out
}

/// The object that controls `field` of `channel`. A pad can be read but not set.
pub open spec fn described(channel: int, field: Field) -> DescriptorModel {
    DescriptorModel {
        ono: Ono(object_number(channel, field) as u32),
        class: if field == Field::Gain {
            OcaClass::Gain
        } else {
            OcaClass::Switch
        },
        role: role_text(channel, field),
        settable: field != Field::Pad,
    }
}

/// The object that controls `field` of `channel`.
pub fn descriptor(channel: u16, field: Field) -> (r: OcaObjectDescriptor)
    requires
        channel >= 1,
    ensures
        r@ == described(channel as int, field),
{
    match field {
        Field::Gain => OcaObjectDescriptor {
            ono: gain_ono(channel),
            class: OcaClass::Gain,
            role: role(channel, field),
            settable: true,
        },
        Field::Phantom => OcaObjectDescriptor {
            ono: phantom_ono(channel),
            class: OcaClass::Switch,
            role: role(channel, field),
            settable: true,
        },
        Field::Pad => OcaObjectDescriptor {
            ono: pad_ono(channel),
            class: OcaClass::Switch,
            role: role(channel, field),
            settable: false,
        },
    }
}

/// All objects of the first `channels` channels, channel by channel.
pub open spec fn all_described(channels: nat) -> Seq<DescriptorModel>
    decreases channels,
{
    if channels == 0 {
        seq![]
    } else {
        all_described((channels - 1) as nat) + seq![
            described(channels as int, Field::Gain),
            described(channels as int, Field::Phantom),
            described(channels as int, Field::Pad),
        ]
    }
}

/// The models of a list of descriptors.
pub open spec fn descriptor_models(v: Seq<OcaObjectDescriptor>) -> Seq<DescriptorModel> {
    v.map_values(|d: OcaObjectDescriptor| d@)
}

/// All objects of a device with that many channels: three per channel.
pub fn descriptors_for_channels(channels: u16) -> (r: Vec<OcaObjectDescriptor>)
    ensures
        descriptor_models(r@) == all_described(channels as nat),
        r@.len() == 3 * channels,
{
    let mut out: Vec<OcaObjectDescriptor> = Vec::new();
    let mut channel: u16 = 0;
    assert(descriptor_models(out@) =~= seq![]);
    while channel < channels
        invariant
            channel <= channels,
            descriptor_models(out@) == all_described(channel as nat),
            out@.len() == 3 * channel,
        decreases channels - channel,
    {
        let ghost before = descriptor_models(out@);
        channel = channel + 1;
        out.push(descriptor(channel, Field::Gain));
        out.push(descriptor(channel, Field::Phantom));
        out.push(descriptor(channel, Field::Pad));
        assert(descriptor_models(out@) =~= before + seq![
            described(channel as int, Field::Gain),
            described(channel as int, Field::Phantom),
            described(channel as int, Field::Pad),
        ]);
    }
    out
}

/// An object's number leads back to its channel and field, on every device that has the channel,
/// and on no other.
pub proof fn object_numbers_lead_back(channel: int, field: Field, channels: int)
    requires
        channel >= 1,
    ensures
        located(object_number(channel, field), channels) == (if channel <= channels {
            Some((channel, field))
        } else {
            None
        }),
{
}

/// No two objects of a device share a number.
pub proof fn object_numbers_are_distinct(channel: int, field: Field, other: int, with: Field)
    requires
        object_number(channel, field) == object_number(other, with),
    ensures
        channel == other,
        field == with,
{
}

/// The objects of a channel are numbered in threes from 1 on: gain, phantom power, pad.
pub proof fn objects_are_numbered_in_threes(channel: int, channels: int)
    ensures
        object_number(channel, Field::Gain) == 3 * channel - 2,
        object_number(channel, Field::Phantom) == 3 * channel - 1,
        object_number(channel, Field::Pad) == 3 * channel,
        1 <= channel <= channels ==> located(3 * channel - 2, channels) == Some(
            (channel, Field::Gain),
        ) && located(3 * channel - 1, channels) == Some((channel, Field::Phantom)) && located(
            3 * channel,
            channels,
        ) == Some((channel, Field::Pad)),
        channel < 1 || channel > channels ==> located(3 * channel - 2, channels) is None && located(
            3 * channel - 1,
            channels,
        ) is None && located(3 * channel, channels) is None,
{
}

/// A device with that many channels has the three objects of each of them, in order, and no others: a
/// gain and two switches, of which the pad cannot be set, each under the role that names its channel.
pub proof fn every_channel_has_its_three_objects(channels: nat, channel: int)
    requires
        1 <= channel <= channels,
    ensures
        all_described(channels).len() == 3 * channels,
        all_described(channels)[3 * channel - 3] == (DescriptorModel {
            ono: Ono((3 * channel - 2) as u32),
            class: OcaClass::Gain,
            role: "Ch "@ + text::decimal(channel as nat) + " "@ + "Gain"@,
            settable: true,
        }),
        all_described(channels)[3 * channel - 2] == (DescriptorModel {
            ono: Ono((3 * channel - 1) as u32),
            class: OcaClass::Switch,
            role: "Ch "@ + text::decimal(channel as nat) + " "@ + "Phantom"@,
            settable: true,
        }),
        all_described(channels)[3 * channel - 1] == (DescriptorModel {
            ono: Ono((3 * channel) as u32),
            class: OcaClass::Switch,
            role: "Ch "@ + text::decimal(channel as nat) + " "@ + "Pad"@,
            settable: false,
        }),
    decreases channels,
{
    lemma_described_len(channels);
    lemma_described_len((channels - 1) as nat);
    if channel < channels {
        every_channel_has_its_three_objects((channels - 1) as nat, channel);
    }
}

proof fn lemma_described_len(channels: nat)
    ensures
        all_described(channels).len() == 3 * channels,
    decreases channels,
{
    if channels > 0 {
        lemma_described_len((channels - 1) as nat);
    }
}

/// A role names its channel and field: no two objects of a device share one.
pub proof fn roles_are_distinct(channel: nat, field: Field, other: nat, with: Field)
    requires
        role_text(channel as int, field) == role_text(other as int, with),
    ensures
        channel == other,
        field == with,
{
    reveal_strlit("Ch ");
    reveal_strlit(" ");
    reveal_strlit("Gain");
    reveal_strlit("Phantom");
    reveal_strlit("Pad");
    let a = role_text(channel as int, field);
    let b = role_text(other as int, with);
    let d = text::decimal(channel);
    let e = text::decimal(other);
    text::decimal_spells_the_number(channel);
    text::decimal_spells_the_number(other);
    assert(a[3 + d.len() as int] == ' ');
    assert(b[3 + e.len() as int] == ' ');
    if d.len() < e.len() {
        assert(text::is_digit(e[d.len() as int]));
        assert(b[3 + d.len() as int] == e[d.len() as int]);
    }
    if e.len() < d.len() {
        assert(text::is_digit(d[e.len() as int]));
        assert(a[3 + e.len() as int] == d[e.len() as int]);
    }
    assert(d.len() == e.len());
    assert forall|i: int| 0 <= i < d.len() implies d[i] == e[i] by {
        assert(a[3 + i] == d[i]);
        assert(b[3 + i] == e[i]);
    }
    assert(d =~= e);
    assert(a.skip(4 + d.len() as int) =~= field.suffix());
    assert(b.skip(4 + d.len() as int) =~= with.suffix());
    assert("Gain"@.len() == 4 && "Phantom"@.len() == 7 && "Pad"@.len() == 3);
}

} // verus!
