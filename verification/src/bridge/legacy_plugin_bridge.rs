//! Presents a preamp adapter as objects on the far side of a plugin boundary, where failures are
//! texts and events wait in a queue until they are drained.
use vstd::prelude::*;

use crate::bridge::channel_scheme;
use crate::bridge::channel_scheme::{descriptors_for_channels, Field};
use crate::bridge::legacy_shim;
use crate::bridge::legacy_shim::{
    locate, plan_set, preamp_event_to_oca, read_field, PreampAction,
};
use crate::bridge::types::{PreampEvent, PreampState};
use crate::oca::object::{DescriptorModel, EventModel, AddressModel, OcaEvent, OcaObjectDescriptor};
use crate::oca::ono::Ono;
use crate::oca::value::{OcaValue, ValueModel};
use crate::plugin::abi::{OcaEventFfi, OcaObjectDescriptorFfi, OcaValueFfi};

verus! {

/// The event that a queued event stands for.
pub open spec fn queued_event(e: OcaEventFfi) -> EventModel {
    EventModel {
        address: AddressModel { device_id: e.device_id@, ono: Ono(e.ono) },
        object: e.object()@,
    }
}

/// The events that a queue stands for.
pub open spec fn queued_events(v: Seq<OcaEventFfi>) -> Seq<EventModel> {
    v.map_values(|e: OcaEventFfi| queued_event(e))
}

/// The descriptor that a descriptor at the boundary stands for.
pub open spec fn crossed_descriptor(d: OcaObjectDescriptorFfi) -> DescriptorModel {
    <OcaObjectDescriptor as vstd::std_specs::convert::FromSpec<
        OcaObjectDescriptorFfi,
    >>::from_spec(d)@
}

/// The value that a value at the boundary stands for.
pub open spec fn crossed_value(v: OcaValueFfi) -> ValueModel {
    <OcaValue as vstd::std_specs::convert::FromSpec<OcaValueFfi>>::from_spec(v)@
}

/// Relays a preamp event as events at the boundary.
pub fn preamp_event_to_oca_ffi(device_id: &str, event: &PreampEvent) -> (r: Vec<OcaEventFfi>)
    requires
        event.address.channel >= 1,
    ensures
        queued_events(r@) == legacy_shim::relayed(device_id@, *event),
{
    let mut events: Vec<OcaEvent> = preamp_event_to_oca(device_id, event);
    let ghost all = legacy_shim::event_models(events@);
    let mut out: Vec<OcaEventFfi> = Vec::new();
    assert(forall|i: int|
        0 <= i < all.len() ==> (#[trigger] all[i]).address.device_id == device_id@
            && all[i].address.ono == all[i].object.descriptor.ono);
    assert(all.skip(0) =~= all);
    while events.len() > 0
        invariant
            out@.len() + events@.len() == all.len(),
            queued_events(out@) == all.take(out@.len() as int),
            legacy_shim::event_models(events@) == all.skip(out@.len() as int),
            forall|i: int|
                0 <= i < all.len() ==> (#[trigger] all[i]).address.device_id == device_id@
                    && all[i].address.ono == all[i].object.descriptor.ono,
        decreases events.len(),
    {
        let ghost waiting = legacy_shim::event_models(events@);
        let ghost k = out@.len() as int;
        let e = events.remove(0);
        assert(waiting[0] == e@);
        assert(all.skip(k)[0] == all[k]);
        assert(legacy_shim::event_models(events@) =~= waiting.skip(1));
        assert(all.skip(k).skip(1) =~= all.skip(k + 1));
        let ghost before = queued_events(out@);
        let crossed = OcaEventFfi::from_event(device_id, e.object);
        out.push(crossed);
        assert(queued_event(crossed) == all[k]);
        assert(queued_events(out@) =~= before.push(all[k]));
        assert(all.take(k + 1) =~= all.take(k).push(all[k]));
    }
    assert(all.take(all.len() as int) =~= all);
    out
}

/// A preamp adapter with a number of channels, behind a plugin boundary.
pub struct LegacyPluginBridge {
    id: String,
    channels: u16,
    events: Vec<OcaEventFfi>,
}

impl LegacyPluginBridge {
    /// The device.
    pub closed spec fn device_id(&self) -> Seq<char> {
        self.id@
    }

    /// How many channels the device has.
    pub closed spec fn channel_count(&self) -> u16 {
        self.channels
    }

    /// The events that wait to be drained, oldest first.
    pub closed spec fn queue(&self) -> Seq<EventModel> {
        queued_events(self.events@)
    }

    /// Presents the adapter of a device with that many channels.
    pub fn new(id: &str, channels: u16) -> (r: Self)
        ensures
            r.device_id() == id@,
            r.channel_count() == channels,
            r.queue() == Seq::<EventModel>::empty(),
    {
        let r = LegacyPluginBridge { id: id.to_owned(), channels, events: Vec::new() };
        assert(r.queue() =~= Seq::empty());
        r
    }

    /// Takes in an event of the adapter.
    pub fn observe(&mut self, event: &PreampEvent)
        requires
            event.address.channel >= 1,
        ensures
            final(self).device_id() == old(self).device_id(),
            final(self).channel_count() == old(self).channel_count(),
            final(self).queue() == old(self).queue() + legacy_shim::relayed(
                old(self).device_id(),
                *event,
            ),
    {
        let mut more = preamp_event_to_oca_ffi(self.id.as_str(), event);
        let ghost before = self.events@;
        let ghost added = more@;
        self.events.append(&mut more);
        assert(self.queue() =~= queued_events(before) + queued_events(added));
    }

    /// Drains the events that came in since the last time.
    pub fn poll_events(&mut self) -> (r: Vec<OcaEventFfi>)
        ensures
            queued_events(r@) == old(self).queue(),
            final(self).queue() == Seq::<EventModel>::empty(),
            final(self).device_id() == old(self).device_id(),
            final(self).channel_count() == old(self).channel_count(),
    {
        let mut out: Vec<OcaEventFfi> = Vec::new();
        std::mem::swap(&mut out, &mut self.events);
        assert(self.queue() =~= Seq::empty());
        out
    }

    /// The objects of the device.
    pub fn describe(&self) -> (r: Vec<OcaObjectDescriptorFfi>)
        ensures
            r@.map_values(|d: OcaObjectDescriptorFfi| crossed_descriptor(d))
                == channel_scheme::all_described(self.channel_count() as nat),
    {
        let mut found: Vec<OcaObjectDescriptor> = descriptors_for_channels(self.channels);
        let ghost all = channel_scheme::descriptor_models(found@);
        let mut out: Vec<OcaObjectDescriptorFfi> = Vec::new();
        assert(all.skip(0) =~= all);
        while found.len() > 0
            invariant
                out@.len() + found@.len() == all.len(),
                out@.map_values(|d: OcaObjectDescriptorFfi| crossed_descriptor(d)) == all.take(
                    out@.len() as int,
                ),
                channel_scheme::descriptor_models(found@) == all.skip(out@.len() as int),
            decreases found.len(),
        {
            let ghost waiting = channel_scheme::descriptor_models(found@);
            let ghost k = out@.len() as int;
            let d = found.remove(0);
            assert(waiting[0] == d@);
            assert(all.skip(k)[0] == all[k]);
            assert(channel_scheme::descriptor_models(found@) =~= waiting.skip(1));
            assert(all.skip(k).skip(1) =~= all.skip(k + 1));
            let ghost before = out@.map_values(|d: OcaObjectDescriptorFfi| crossed_descriptor(d));
            let crossed = OcaObjectDescriptorFfi::from(d);
            assert(crossed_descriptor(crossed) == all[k]);
            out.push(crossed);
            assert(out@.map_values(|d: OcaObjectDescriptorFfi| crossed_descriptor(d))
                =~= before.push(all[k]));
            assert(all.take(k + 1) =~= all.take(k).push(all[k]));
        }
        assert(all.take(all.len() as int) =~= all);
        out
    }

    /// Which channel's state is to be read for an object, and which field of it.
    pub fn get_object(&self, ono: u32) -> (r: Result<(u16, Field), String>)
        ensures
            match r {
                Ok((channel, field)) => channel_scheme::located(
                    ono as int,
                    self.channel_count() as int,
                ) == Some((channel as int, field)),
                Err(e) => channel_scheme::located(
                    ono as int,
                    self.channel_count() as int,
                ) is None && e@ == legacy_shim::no_such_object(Ono(ono)),
            },
    {
        locate(Ono(ono), self.channels)
    }

    /// The value of an object, the state of its channel having been read.
    pub fn object_value(&self, channel: u16, field: Field, state: &PreampState) -> (r: Result<
        OcaValueFfi,
        String,
    >)
        ensures
            match r {
                Ok(v) => legacy_shim::field_value(channel as int, field, *state) == Ok::<
                    ValueModel,
                    Seq<char>,
                >(crossed_value(v)),
                Err(e) => legacy_shim::field_value(channel as int, field, *state) == Err::<
                    ValueModel,
                    Seq<char>,
                >(e@),
            },
    {
        match read_field(channel, field, state) {
            Ok(v) => Ok(OcaValueFfi::from(v)),
            Err(e) => Err(e),
        }
    }

    /// What setting an object asks of the adapter.
    pub fn set_object(&self, ono: u32, value: OcaValueFfi) -> (r: Result<PreampAction, String>)
        ensures
            match r {
                Ok(a) => legacy_shim::set_plan(
                    Ono(ono),
                    crossed_value(value),
                    self.channel_count() as int,
                ) == Ok::<PreampAction, Seq<char>>(a),
                Err(e) => legacy_shim::set_plan(
                    Ono(ono),
                    crossed_value(value),
                    self.channel_count() as int,
                ) == Err::<PreampAction, Seq<char>>(e@),
            },
    {
        let value = OcaValue::from(value);
        plan_set(Ono(ono), &value, self.channels)
    }
}

/// What crosses the boundary stands for what went in: a value for the same value, a descriptor for
/// the same descriptor, and an event for the object with its number, under its device.
pub proof fn what_crosses_stays_the_same(
    v: OcaValue,
    d: OcaObjectDescriptor,
    e: OcaEventFfi,
    more: Seq<OcaEventFfi>,
)
    ensures
        crossed_value(
            <OcaValueFfi as vstd::std_specs::convert::FromSpec<OcaValue>>::from_spec(v),
        ) == v@,
        crossed_descriptor(
            <OcaObjectDescriptorFfi as vstd::std_specs::convert::FromSpec<
                OcaObjectDescriptor,
            >>::from_spec(d),
        ) == d@,
        queued_event(e).address.device_id == e.device_id@,
        queued_event(e).address.ono.0 == e.ono,
        queued_event(e).object.descriptor.ono == queued_event(e).address.ono,
        queued_event(e).object.descriptor.role == e.role@,
        queued_event(e).object.descriptor.settable == e.settable,
        queued_event(e).object.value == crossed_value(e.value),
        queued_events(more.push(e)) == queued_events(more).push(queued_event(e)),
        queued_events(seq![]) == Seq::<EventModel>::empty(),
{
    assert(queued_events(more.push(e)) =~= queued_events(more).push(queued_event(e)));
    assert(queued_events(seq![]) =~= Seq::<EventModel>::empty());
}

} // verus!
