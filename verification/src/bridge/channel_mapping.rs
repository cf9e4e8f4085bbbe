//! Mappings between whole channels, and the object mappings that they stand for.
use vstd::prelude::*;

use crate::bridge::channel_scheme;
use crate::bridge::channel_scheme::{role, Field};
use crate::bridge::router;
use crate::bridge::router::{Mapping, MappingModel};
use crate::bridge::types::PreampAddress;
use crate::oca::object::{AddressModel, DescriptorModel, OcaAddress, OcaObjectDescriptor};
use crate::oca::ono::Ono;
use crate::text::text_eq;

verus! {

/// A link between two channels, in one direction or in both.
#[derive(Debug, Clone)]
pub struct ChannelMapping {
    pub from: PreampAddress,
    pub to: PreampAddress,
    pub bidirectional: bool,
}

/// The first object of `objects` that can be set and has the role `role`.
pub open spec fn settable_object(objects: Seq<DescriptorModel>, role: Seq<char>) -> Option<Ono>
    decreases objects.len(),
{
    if objects.len() == 0 {
        None
    } else if objects[0].settable && objects[0].role == role {
        Some(objects[0].ono)
    } else {
        settable_object(objects.skip(1), role)
    }
}

/// The object mapping that a channel mapping stands for in one field; none where either side has
/// no such object to set.
pub open spec fn field_mapping(
    mapping: ChannelMapping,
    from: Seq<DescriptorModel>,
    to: Seq<DescriptorModel>,
    field: Field,
) -> Seq<MappingModel> {
    let source = settable_object(
        from,
        channel_scheme::role_text(mapping.from.channel as int, field),
    );
    let target = settable_object(to, channel_scheme::role_text(mapping.to.channel as int, field));
    if source is Some && target is Some {
        seq![
            MappingModel {
                from: AddressModel { device_id: mapping.from.device_id@, ono: source->0 },
                to: AddressModel { device_id: mapping.to.device_id@, ono: target->0 },
                bidirectional: mapping.bidirectional,
            },
        ]
    } else {
        seq![]
    }
}

fn find_settable(objects: &[OcaObjectDescriptor], role: &str) -> (r: Option<Ono>)
    ensures
        r == settable_object(channel_scheme::descriptor_models(objects@), role@),
{
    let ghost all = channel_scheme::descriptor_models(objects@);
    let mut i: usize = 0;
    assert(all.skip(0) =~= all);
    while i < objects.len()
        invariant
            i <= objects.len(),
            all == channel_scheme::descriptor_models(objects@),
            settable_object(all, role@) == settable_object(all.skip(i as int), role@),
        decreases objects.len() - i,
    {
        assert(all.skip(i as int)[0] == objects@[i as int]@);
        if objects[i].settable && text_eq(objects[i].role.as_str(), role) {
            return Some(objects[i].ono);
        }
        assert(all.skip(i as int).skip(1) =~= all.skip(i + 1));
        i = i + 1;
    }
    None
}

fn resolve_field(
    mapping: &ChannelMapping,
    from: &[OcaObjectDescriptor],
    to: &[OcaObjectDescriptor],
    field: Field,
) -> (r: Option<Mapping>)
    ensures
        field_mapping(
            *mapping,
            channel_scheme::descriptor_models(from@),
            channel_scheme::descriptor_models(to@),
            field,
        ) == (match r {
            Some(m) => seq![m@],
            None => seq![],
        }),
{
    let from_role = role(mapping.from.channel, field);
    let to_role = role(mapping.to.channel, field);
    let source = match find_settable(from, from_role.as_str()) {
        Some(ono) => ono,
        None => return None,
    };
    let target = match find_settable(to, to_role.as_str()) {
        Some(ono) => ono,
        None => return None,
    };
    Some(
        Mapping {
            from: OcaAddress::new(mapping.from.device_id.as_str(), source),
            to: OcaAddress::new(mapping.to.device_id.as_str(), target),
            bidirectional: mapping.bidirectional,
        },
    )
}

/// The object mappings that a channel mapping stands for: gain, then phantom power, each where
/// both sides have an object of that role that can be set. A field that either side lacks is
/// skipped, not refused.
pub fn resolve(
    mapping: &ChannelMapping,
    from_descriptors: &[OcaObjectDescriptor],
    to_descriptors: &[OcaObjectDescriptor],
) -> (r: Vec<Mapping>)
    ensures
        router::mapping_models(r@) == field_mapping(
            *mapping,
            channel_scheme::descriptor_models(from_descriptors@),
            channel_scheme::descriptor_models(to_descriptors@),
            Field::Gain,
        ) + field_mapping(
            *mapping,
            channel_scheme::descriptor_models(from_descriptors@),
            channel_scheme::descriptor_models(to_descriptors@),
            Field::Phantom,
        ),
{
    let gain = resolve_field(mapping, from_descriptors, to_descriptors, Field::Gain);
    let phantom = resolve_field(mapping, from_descriptors, to_descriptors, Field::Phantom);
    let ghost first = field_mapping(
        *mapping,
        channel_scheme::descriptor_models(from_descriptors@),
        channel_scheme::descriptor_models(to_descriptors@),
        Field::Gain,
    );
    let ghost second = field_mapping(
        *mapping,
        channel_scheme::descriptor_models(from_descriptors@),
        channel_scheme::descriptor_models(to_descriptors@),
        Field::Phantom,
    );
    let mut out: Vec<Mapping> = Vec::new();
    if let Some(m) = gain {
        out.push(m);
    }
    assert(router::mapping_models(out@) =~= first);
    if let Some(m) = phantom {
        out.push(m);
    }
    assert(router::mapping_models(out@) =~= first + second);
    out
}

/// The object of a role is the first that can be set and has it; without one there is none.
pub proof fn the_first_settable_object_counts(
    objects: Seq<DescriptorModel>,
    role: Seq<char>,
    i: int,
)
    ensures
        0 <= i < objects.len() && objects[i].settable && objects[i].role == role && (forall|j: int|
            0 <= j < i ==> !((#[trigger] objects[j]).settable && objects[j].role == role))
            ==> settable_object(objects, role) == Some(objects[i].ono),
        (forall|j: int|
            0 <= j < objects.len() ==> !((#[trigger] objects[j]).settable && objects[j].role
                == role)) ==> settable_object(objects, role) is None,
    decreases objects.len(),
{
    if objects.len() > 0 {
        let rest = objects.skip(1);
        the_first_settable_object_counts(rest, role, i - 1);
        if forall|j: int|
            0 <= j < objects.len() ==> !((#[trigger] objects[j]).settable && objects[j].role
                == role) {
            assert(!(objects[0].settable && objects[0].role == role));
            assert forall|j: int| 0 <= j < rest.len() implies !((#[trigger] rest[j]).settable
                && rest[j].role == role) by {
                assert(rest[j] == objects[j + 1]);
            }
        }
        if 0 < i < objects.len() && objects[i].settable && objects[i].role == role && (forall|
            j: int,
        |
            0 <= j < i ==> !((#[trigger] objects[j]).settable && objects[j].role == role)) {
            assert(!(objects[0].settable && objects[0].role == role));
            assert(rest[i - 1] == objects[i]);
            assert forall|j: int| 0 <= j < i - 1 implies !((#[trigger] rest[j]).settable
                && rest[j].role == role) by {
                assert(rest[j] == objects[j + 1]);
            }
        }
    }
}

/// A link between two channels stands, in each field, for a link between the objects that have the
/// roles of these channels, from the one to the other and in the same directions; where either
/// device lacks its object, for none.
pub proof fn a_channel_link_links_the_objects_of_its_channels(
    mapping: ChannelMapping,
    from: Seq<DescriptorModel>,
    to: Seq<DescriptorModel>,
    field: Field,
)
    ensures
        ({
            let source = settable_object(
                from,
                channel_scheme::role_text(mapping.from.channel as int, field),
            );
            let target = settable_object(
                to,
                channel_scheme::role_text(mapping.to.channel as int, field),
            );
            let links = field_mapping(mapping, from, to, field);
            &&& source is Some && target is Some ==> links.len() == 1
                && links[0].from.device_id == mapping.from.device_id@ && links[0].from.ono
                == source->0 && links[0].to.device_id == mapping.to.device_id@ && links[0].to.ono
                == target->0 && links[0].bidirectional == mapping.bidirectional
            &&& source is None || target is None ==> links.len() == 0
        }),
{
}

/// Between two devices that have nothing but the three objects of each channel, a link between two of
/// their channels links their gains and their phantom powers.
pub proof fn plain_devices_are_linked_by_number(
    mapping: ChannelMapping,
    source_channels: u16,
    target_channels: u16,
)
    requires
        1 <= mapping.from.channel <= source_channels,
        1 <= mapping.to.channel <= target_channels,
    ensures
        ({
            let from = channel_scheme::all_described(source_channels as nat);
            let to = channel_scheme::all_described(target_channels as nat);
            let gain = field_mapping(mapping, from, to, Field::Gain);
            let phantom = field_mapping(mapping, from, to, Field::Phantom);
            &&& gain.len() == 1
            &&& gain[0].from.ono == Ono((3 * mapping.from.channel - 2) as u32)
            &&& gain[0].to.ono == Ono((3 * mapping.to.channel - 2) as u32)
            &&& phantom.len() == 1
            &&& phantom[0].from.ono == Ono((3 * mapping.from.channel - 1) as u32)
            &&& phantom[0].to.ono == Ono((3 * mapping.to.channel - 1) as u32)
        }),
{
    lemma_plain(source_channels as nat, mapping.from.channel as int, Field::Gain);
    lemma_plain(source_channels as nat, mapping.from.channel as int, Field::Phantom);
    lemma_plain(target_channels as nat, mapping.to.channel as int, Field::Gain);
    lemma_plain(target_channels as nat, mapping.to.channel as int, Field::Phantom);
}

proof fn lemma_plain(channels: nat, channel: int, field: Field)
    requires
        1 <= channel <= channels,
        field == Field::Gain || field == Field::Phantom,
    ensures
        settable_object(
            channel_scheme::all_described(channels),
            channel_scheme::role_text(channel, field),
        ) == Some(Ono(channel_scheme::object_number(channel, field) as u32)),
{
    let all = channel_scheme::all_described(channels);
    let role = channel_scheme::role_text(channel, field);
    let i = 3 * channel - 3 + (if field == Field::Gain {
        0int
    } else {
        1int
    });
    channel_scheme::every_channel_has_its_three_objects(channels, channel);
    assert(all[i].role == role);
    assert forall|j: int| 0 <= j < i implies !((#[trigger] all[j]).settable && all[j].role
        == role) by {
        let c = j / 3 + 1;
        let f = if j % 3 == 0 {
            Field::Gain
        } else if j % 3 == 1 {
            Field::Phantom
        } else {
            Field::Pad
        };
        channel_scheme::every_channel_has_its_three_objects(channels, c);
        assert(j == 3 * c - 3 || j == 3 * c - 2 || j == 3 * c - 1);
        assert(all[j].role == channel_scheme::role_text(c, f));
        if all[j].role == role {
            channel_scheme::roles_are_distinct(c as nat, f, channel as nat, field);
        }
    }
    the_first_settable_object_counts(all, role, i);
}

} // verus!
