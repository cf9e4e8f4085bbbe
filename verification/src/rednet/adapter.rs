//! An AES70 device in the bridge's terms: whatever objects it turned out to have, how their values
//! read off the wire, and what a change of one asks of the device.
use vstd::prelude::*;

use crate::bridge::legacy_plugin_bridge;
use crate::bytes;
use crate::float32::Float32;
use crate::oca::object::{AddressModel, DescriptorModel, EventModel, OcaObject, ObjectModel};
use crate::oca::ono::Ono as HostOno;
use crate::oca::value::{OcaClass, OcaValue, ValueModel};
use crate::ocp1::classes::{is_path, level, ClassIdentification};
use crate::ocp1::client::read_role;
use crate::ocp1::enumerate::{DiscoveredObject, ObjectModel as Discovered};
use crate::ocp1::enumerate;
use crate::ocp1::error::Error;
use crate::ocp1::ono::Ono;
use crate::ocp1::pdu::{Notification, NotificationModel};
use crate::ocp1::value;
use crate::ocp1::value::{Reader, Writer};
use crate::plugin::abi::{OcaClassFfi, OcaEventFfi, OcaObjectDescriptorFfi, OcaValueFfi};
use crate::rednet::roles;
use crate::rednet::roles::{classify, field_of, Field};
use crate::text;

verus! {

/// One object of the device, resolved down to what is needed to read, write and label it.
#[derive(Debug, Clone)]
pub struct Entry {
    pub ono: Ono,
    pub class: OcaClass,
    /// The level at which the class defines its `Get` and `Set`.
    pub def_level: u16,
    pub role: String,
    pub settable: bool,
    /// Whether the object is presented as a truth value although the wire type is none.
    pub as_bool: bool,
}

/// An [`Entry`], its role as a sequence.
#[verifier::ext_equal]
pub struct EntryModel {
    pub ono: Ono,
    pub class: OcaClass,
    pub def_level: u16,
    pub role: Seq<char>,
    pub settable: bool,
    pub as_bool: bool,
}

impl View for Entry {
    type V = EntryModel;

    open spec fn view(&self) -> EntryModel {
        EntryModel {
            ono: self.ono,
            class: self.class,
            def_level: self.def_level,
            role: self.role@,
            settable: self.settable,
            as_bool: self.as_bool,
        }
    }
}

impl EntryModel {
    /// The object without its value.
    pub open spec fn descriptor(self) -> DescriptorModel {
        DescriptorModel {
            ono: HostOno(self.ono.0),
            class: self.class,
            role: self.role,
            settable: self.settable,
        }
    }
}

impl Entry {
    /// The object without its value, as it crosses the plugin boundary.
    pub fn descriptor(&self) -> (r: OcaObjectDescriptorFfi)
        ensures
            legacy_plugin_bridge::crossed_descriptor(r) == self@.descriptor(),
    {
        OcaObjectDescriptorFfi {
            ono: self.ono.0,
            class: OcaClassFfi::from(self.class),
            role: self.role.clone(),
            settable: self.settable,
        }
    }
}

/// The bridge's class for a position in the class tree, and the level of its members. A vendor's
/// own class has none, nor has a standard one that the bridge does not know.
pub open spec fn class_here(fields: Seq<u16>) -> Option<(OcaClass, u16)> {
    if fields == seq![1u16, 1u16, 1u16, 5u16] {
        Some((OcaClass::Gain, 4u16))
    } else if fields == seq![1u16, 1u16, 1u16, 2u16] {
        Some((OcaClass::Mute, 4u16))
    } else if fields == seq![1u16, 1u16, 1u16, 4u16] {
        Some((OcaClass::Switch, 4u16))
    } else if fields == seq![1u16, 1u16, 1u16, 3u16] {
        Some((OcaClass::Polarity, 4u16))
    } else if fields == seq![1u16, 1u16, 1u16, 6u16] {
        Some((OcaClass::Delay, 4u16))
    } else if fields == seq![1u16, 1u16, 1u16, 1u16, 1u16] {
        Some((OcaClass::Switch, 5u16))
    } else if fields == seq![1u16, 1u16, 1u16, 1u16, 3u16] {
        Some((OcaClass::Int32Sensor, 5u16))
    } else if fields == seq![1u16, 1u16, 2u16, 1u16] {
        Some((OcaClass::BasicSensor, 4u16))
    } else if fields == seq![1u16, 1u16, 2u16, 2u16] {
        Some((OcaClass::LevelSensor, 4u16))
    } else if fields == seq![1u16, 1u16, 2u16, 2u16, 1u16] {
        Some((OcaClass::AudioLevelSensor, 5u16))
    } else if fields == seq![1u16, 1u16, 2u16, 1u16, 1u16] {
        Some((OcaClass::BooleanSensor, 5u16))
    } else if fields == seq![1u16, 1u16, 2u16, 1u16, 3u16] {
        Some((OcaClass::Int32Sensor, 5u16))
    } else if fields == seq![1u16, 1u16, 2u16, 1u16, 6u16] {
        Some((OcaClass::StringSensor, 5u16))
    } else {
        None
    }
}

/// The bridge's class for an AES70 class, and the level of its members.
pub fn host_class(class: &ClassIdentification) -> (r: Option<(OcaClass, u16)>)
    ensures
        r == class_here(class.fields@),
{
    let f = class.fields.as_slice();
    proof {
        assert([1u16, 1u16, 1u16, 5u16]@ =~= seq![1u16, 1u16, 1u16, 5u16]);
        assert([1u16, 1u16, 1u16, 2u16]@ =~= seq![1u16, 1u16, 1u16, 2u16]);
        assert([1u16, 1u16, 1u16, 4u16]@ =~= seq![1u16, 1u16, 1u16, 4u16]);
        assert([1u16, 1u16, 1u16, 3u16]@ =~= seq![1u16, 1u16, 1u16, 3u16]);
        assert([1u16, 1u16, 1u16, 6u16]@ =~= seq![1u16, 1u16, 1u16, 6u16]);
        assert([1u16, 1u16, 1u16, 1u16, 1u16]@ =~= seq![1u16, 1u16, 1u16, 1u16, 1u16]);
        assert([1u16, 1u16, 1u16, 1u16, 3u16]@ =~= seq![1u16, 1u16, 1u16, 1u16, 3u16]);
        assert([1u16, 1u16, 2u16, 1u16]@ =~= seq![1u16, 1u16, 2u16, 1u16]);
        assert([1u16, 1u16, 2u16, 2u16]@ =~= seq![1u16, 1u16, 2u16, 2u16]);
        assert([1u16, 1u16, 2u16, 2u16, 1u16]@ =~= seq![1u16, 1u16, 2u16, 2u16, 1u16]);
        assert([1u16, 1u16, 2u16, 1u16, 1u16]@ =~= seq![1u16, 1u16, 2u16, 1u16, 1u16]);
        assert([1u16, 1u16, 2u16, 1u16, 3u16]@ =~= seq![1u16, 1u16, 2u16, 1u16, 3u16]);
        assert([1u16, 1u16, 2u16, 1u16, 6u16]@ =~= seq![1u16, 1u16, 2u16, 1u16, 6u16]);
    }
    if is_path(f, &[1, 1, 1, 5]) {
        Some((OcaClass::Gain, level::GAIN))
    } else if is_path(f, &[1, 1, 1, 2]) {
        Some((OcaClass::Mute, level::MUTE))
    } else if is_path(f, &[1, 1, 1, 4]) {
        Some((OcaClass::Switch, level::SWITCH))
    } else if is_path(f, &[1, 1, 1, 3]) {
        Some((OcaClass::Polarity, level::POLARITY))
    } else if is_path(f, &[1, 1, 1, 6]) {
        Some((OcaClass::Delay, level::DELAY))
    } else if is_path(f, &[1, 1, 1, 1, 1]) {
        Some((OcaClass::Switch, level::BOOLEAN_ACTUATOR))
    } else if is_path(f, &[1, 1, 1, 1, 3]) {
        Some((OcaClass::Int32Sensor, level::INT32_ACTUATOR))
    } else if is_path(f, &[1, 1, 2, 1]) {
        Some((OcaClass::BasicSensor, level::BASIC_SENSOR))
    } else if is_path(f, &[1, 1, 2, 2]) {
        Some((OcaClass::LevelSensor, level::LEVEL_SENSOR))
    } else if is_path(f, &[1, 1, 2, 2, 1]) {
        Some((OcaClass::AudioLevelSensor, level::AUDIO_LEVEL_SENSOR))
    } else if is_path(f, &[1, 1, 2, 1, 1]) {
        Some((OcaClass::BooleanSensor, level::BOOLEAN_SENSOR))
    } else if is_path(f, &[1, 1, 2, 1, 3]) {
        Some((OcaClass::Int32Sensor, level::INT32_SENSOR))
    } else if is_path(f, &[1, 1, 2, 1, 6]) {
        Some((OcaClass::StringSensor, level::STRING_SENSOR))
    } else {
        None
    }
}

/// How an object that was found on a device is presented; `None` where its class is unknown.
pub open spec fn presented(object: Discovered) -> Option<EntryModel> {
    match class_here(object.class.fields) {
        None => None,
        Some((class, def_level)) => {
            let canonical = roles::classified(object.role, object.path, class);
            Some(
                EntryModel {
                    ono: Ono(object.ono),
                    class,
                    def_level,
                    role: match canonical {
                        Some(role) => role,
                        None => enumerate::slashed(object.path) + object.role,
                    },
                    settable: !class.sensor(),
                    as_bool: (canonical is Some && roles::named_field(object.role, class) == Some(
                        Field::Phantom,
                    )) || class == OcaClass::Mute || class == OcaClass::Polarity || class
                        == OcaClass::BooleanSensor,
                },
            )
        },
    }
}

/// How an object that was found on a device is presented. One that is no gain or phantom control
/// of a channel keeps the device's own name, including its path.
pub fn to_entry(object: &DiscoveredObject) -> (r: Option<Entry>)
    ensures
        match r {
            Some(e) => presented(object@) == Some(e@),
            None => presented(object@) is None,
        },
{
    let (class, def_level) = match host_class(&object.class) {
        Some(found) => found,
        None => return None,
    };
    let canonical = classify(object.role.as_str(), object.path.as_slice(), class);
    let phantom: bool = match field_of(object.role.as_str(), class) {
        Some(field) => field == Field::Phantom,
        None => false,
    };
    let as_bool: bool = (canonical.is_some() && phantom) || class == OcaClass::Mute || class
        == OcaClass::Polarity || class == OcaClass::BooleanSensor;
    let role = match canonical {
        Some(role) => role,
        None => object.qualified_role(),
    };
    Some(
        Entry { ono: object.ono, class, def_level, role, settable: !class.is_sensor(), as_bool },
    )
}

/// The value that the octets at the front of `b` spell for an object of a class; `None` where
/// they are too few.
///
/// AES70 has a mute's state as 1 for muted and 2 for not, and a polarity's as 2 for inverted and 1
/// for not. A switch's position is an index into the vendor's own list: as a truth value, the
/// first position is taken for off.
pub open spec fn value_of(class: OcaClass, as_bool: bool, b: Seq<u8>) -> Option<ValueModel> {
    match class {
        OcaClass::Gain | OcaClass::Delay | OcaClass::LevelSensor | OcaClass::AudioLevelSensor => if b.len()
            < 4 {
            None
        } else {
            Some(ValueModel::F32(Float32 { bits: bytes::u32_at(b, 0) as u32 }))
        },
        OcaClass::Mute => if b.len() < 1 {
            None
        } else {
            Some(ValueModel::Bool(b[0] == 1))
        },
        OcaClass::Polarity => if b.len() < 1 {
            None
        } else {
            Some(ValueModel::Bool(b[0] == 2))
        },
        OcaClass::Switch => if b.len() < 2 {
            None
        } else if as_bool {
            Some(ValueModel::Bool(bytes::u16_at(b, 0) != 0))
        } else {
            Some(ValueModel::I32(bytes::u16_at(b, 0) as i32))
        },
        OcaClass::BooleanSensor | OcaClass::BasicSensor => if b.len() < 1 {
            None
        } else {
            Some(ValueModel::Bool(b[0] != 0))
        },
        OcaClass::Int32Sensor => if b.len() < 4 {
            None
        } else {
            Some(ValueModel::I32(bytes::to_signed(bytes::u32_at(b, 0), 0x8000_0000) as i32))
        },
        OcaClass::StringSensor => match value::counted_bytes(b) {
            Some(octets) => Some(ValueModel::String(text::utf8_lossy(octets))),
            None => None,
        },
    }
}

/// Reads a value of an object off the wire. What follows it is ignored: a notification carries a
/// change type there.
pub fn decode(entry: &Entry, octets: &[u8]) -> (r: Result<OcaValue, Error>)
    ensures
        match r {
            Ok(v) => value_of(entry.class, entry.as_bool, octets@) == Some(v@),
            Err(e) => value_of(entry.class, entry.as_bool, octets@) is None && e is Truncated,
        },
        r is Ok && entry.class == OcaClass::StringSensor ==> text::read_faithfully(
            value::counted_bytes(octets@)->0,
        ),
{
    let mut r = Reader::new(octets);
    match entry.class {
        OcaClass::Gain | OcaClass::Delay | OcaClass::LevelSensor | OcaClass::AudioLevelSensor => {
            match r.u32() {
                Ok(bits) => Ok(OcaValue::F32(Float32::from_bits(bits))),
                Err(e) => Err(e),
            }
        },
        OcaClass::Mute => match r.u8() {
            Ok(v) => Ok(OcaValue::Bool(v == 1)),
            Err(e) => Err(e),
        },
        OcaClass::Polarity => match r.u8() {
            Ok(v) => Ok(OcaValue::Bool(v == 2)),
            Err(e) => Err(e),
        },
        OcaClass::Switch => match r.u16() {
            Ok(v) => if entry.as_bool {
                Ok(OcaValue::Bool(v != 0))
            } else {
                Ok(OcaValue::I32(v as i32))
            },
            Err(e) => Err(e),
        },
        OcaClass::BooleanSensor | OcaClass::BasicSensor => match r.u8() {
            Ok(v) => Ok(OcaValue::Bool(v != 0)),
            Err(e) => Err(e),
        },
        OcaClass::Int32Sensor => match r.i32() {
            Ok(v) => Ok(OcaValue::I32(v)),
            Err(e) => Err(e),
        },
        OcaClass::StringSensor => match r.string() {
            Ok(v) => Ok(OcaValue::String(v)),
            Err(e) => Err(e),
        },
    }
}

/// What a change asks to have written.
#[derive(Debug, Clone, PartialEq)]
pub enum Write {
    /// The parameters of the `Set`.
    Octets(Vec<u8>),
    /// The single-precision number nearest to an integer, given for a control that takes one.
    Number(i32),
}

/// A [`Write`], its octets as a sequence.
pub enum WriteModel {
    Octets(Seq<u8>),
    Number(i32),
}

impl View for Write {
    type V = WriteModel;

    open spec fn view(&self) -> WriteModel {
        match self {
            Write::Octets(b) => WriteModel::Octets(b@),
            Write::Number(n) => WriteModel::Number(*n),
        }
    }
}

/// What setting an object of a class to `value` asks to have written; `None` where it takes no
/// such value. See [`value_of`] for how truth values go over the wire.
pub open spec fn written(class: OcaClass, value: ValueModel) -> Option<WriteModel> {
    match (class, value) {
        (OcaClass::Gain | OcaClass::Delay, ValueModel::F32(v)) => Some(
            WriteModel::Octets(bytes::u32_bytes(v.bits as int)),
        ),
        (OcaClass::Gain | OcaClass::Delay, ValueModel::I32(v)) => Some(WriteModel::Number(v)),
        (OcaClass::Mute, ValueModel::Bool(v)) => Some(
            WriteModel::Octets(
                seq![
                    if v {
                        1u8
                    } else {
                        2u8
                    },
                ],
            ),
        ),
        (OcaClass::Polarity, ValueModel::Bool(v)) => Some(
            WriteModel::Octets(
                seq![
                    if v {
                        2u8
                    } else {
                        1u8
                    },
                ],
            ),
        ),
        (OcaClass::Switch, ValueModel::Bool(v)) => Some(
            WriteModel::Octets(
                bytes::u16_bytes(
                    if v {
                        1
                    } else {
                        0
                    },
                ),
            ),
        ),
        (OcaClass::Switch, ValueModel::I32(v)) => Some(
            WriteModel::Octets(bytes::u16_bytes(v as int % 65536)),
        ),
        _ => None,
    }
}

/// The parameters that carry a single-precision number.
pub fn number_params(v: Float32) -> (r: Vec<u8>)
    ensures
        r@ == bytes::u32_bytes(v.bits as int),
{
    let mut w = Writer::new();
    w.u32(v.to_bits());
    let r = w.finish();
    assert(r@ =~= bytes::u32_bytes(v.bits as int));
    r
}

fn short_params(v: u8) -> (r: Vec<u8>)
    ensures
        r@ == seq![v],
{
    let mut w = Writer::new();
    w.u8(v);
    let r = w.finish();
    assert(r@ =~= seq![v]);
    r
}

fn position_params(v: u16) -> (r: Vec<u8>)
    ensures
        r@ == bytes::u16_bytes(v as int),
{
    let mut w = Writer::new();
    w.u16(v);
    let r = w.finish();
    assert(r@ =~= bytes::u16_bytes(v as int));
    r
}

/// What setting an object asks to have written. A whole number is taken for a control that takes
/// fractions: "45 dB" is unambiguous.
pub fn write(entry: &Entry, value: &OcaValue) -> (r: Result<Write, Error>)
    ensures
        match r {
            Ok(w) => written(entry.class, value@) == Some(w@),
            Err(e) => written(entry.class, value@) is None && (e matches Error::Status { code, name }
                && code == 6 && name@ == "ParameterError"@),
        },
{
    match entry.class {
        OcaClass::Gain | OcaClass::Delay => match value {
            OcaValue::F32(v) => Ok(Write::Octets(number_params(*v))),
            OcaValue::I32(v) => Ok(Write::Number(*v)),
            _ => Err(refused()),
        },
        OcaClass::Mute => match value {
            OcaValue::Bool(v) => Ok(Write::Octets(short_params(if *v { 1 } else { 2 }))),
            _ => Err(refused()),
        },
        OcaClass::Polarity => match value {
            OcaValue::Bool(v) => Ok(Write::Octets(short_params(if *v { 2 } else { 1 }))),
            _ => Err(refused()),
        },
        OcaClass::Switch => match value {
            OcaValue::Bool(v) => Ok(Write::Octets(position_params(if *v { 1 } else { 0 }))),
            OcaValue::I32(v) => Ok(Write::Octets(position_params(low_half(*v)))),
            _ => Err(refused()),
        },
        _ => Err(refused()),
    }
}

fn refused() -> (r: Error)
    ensures
        r matches Error::Status { code, name } && code == 6 && name@ == "ParameterError"@,
{
    Error::Status { code: 6, name: "ParameterError" }
}

/// The low sixteen bits of `v`.
fn low_half(v: i32) -> (r: u16)
    ensures
        r == v as int % 65536,
{
    let shifted: i64 = v as i64 + 0x8000_0000;
    (shifted % 65536) as u16
}

/// The models of a list of entries.
pub open spec fn entry_models(v: Seq<Entry>) -> Seq<EntryModel> {
    v.map_values(|e: Entry| e@)
}

/// Those of `objects` that can be presented, in order.
pub open spec fn all_presented(objects: Seq<Discovered>) -> Seq<EntryModel>
    decreases objects.len(),
{
    if objects.len() == 0 {
        seq![]
    } else {
        let before = all_presented(objects.drop_last());
        match presented(objects.last()) {
            Some(e) => before.push(e),
            None => before,
        }
    }
}

/// The first of `entries` with the number `ono`.
pub open spec fn entry_of(entries: Seq<EntryModel>, ono: u32) -> Option<EntryModel>
    decreases entries.len(),
{
    if entries.len() == 0 {
        None
    } else if entries[0].ono.0 == ono {
        Some(entries[0])
    } else {
        entry_of(entries.skip(1), ono)
    }
}

/// A RedNet device: the objects that it turned out to have, and the events that wait to be drained.
#[verifier::ext_equal]
pub struct RedNetModel {
    pub id: Seq<char>,
    pub connected: bool,
    pub entries: Seq<EntryModel>,
    pub queue: Seq<EventModel>,
}

/// The event that a notification stands for, where it is about an object of the device and its
/// value can be read.
pub open spec fn notified(device: RedNetModel, n: NotificationModel) -> Option<EventModel> {
    match entry_of(device.entries, n.emitter) {
        None => None,
        Some(e) => match value_of(e.class, e.as_bool, n.value) {
            None => None,
            Some(value) => Some(
                EventModel {
                    address: AddressModel { device_id: device.id, ono: HostOno(e.ono.0) },
                    object: ObjectModel { descriptor: e.descriptor(), value },
                },
            ),
        },
    }
}

/// Why an object that the device does not have cannot be read or set.
pub open spec fn no_object(ono: u32) -> Seq<char> {
    "no object "@ + Ono(ono).text() + " on this device"@
}

/// The object that a read or a write is about, or why it cannot be made.
pub open spec fn reachable(device: RedNetModel, ono: u32) -> Result<EntryModel, Seq<char>> {
    if !device.connected {
        Err("not connected"@)
    } else {
        match entry_of(device.entries, ono) {
            Some(e) => Ok(e),
            None => Err(no_object(ono)),
        }
    }
}

/// A RedNet device behind a plugin boundary.
pub struct RedNetAdapter {
    id: String,
    connected: bool,
    entries: Vec<Entry>,
    events: Vec<OcaEventFfi>,
}

impl View for RedNetAdapter {
    type V = RedNetModel;

    closed spec fn view(&self) -> RedNetModel {
        RedNetModel {
            id: self.id@,
            connected: self.connected,
            entries: entry_models(self.entries@),
            queue: legacy_plugin_bridge::queued_events(self.events@),
        }
    }
}

fn joined(a: &str, b: &str, c: &str) -> (r: String)
    ensures
        r@ == a@ + b@ + c@,
{
    let mut out: String = String::new();
    out.append(a);
    out.append(b);
    out.append(c);
    assert(out@ =~= a@ + b@ + c@);
    out
}

impl RedNetAdapter {
    /// A device that is not connected yet.
    pub fn new(id: &str) -> (r: Self)
        ensures
            r@ == (RedNetModel {
                id: id@,
                connected: false,
                entries: Seq::empty(),
                queue: Seq::empty(),
            }),
    {
        let r = RedNetAdapter {
            id: id.to_owned(),
            connected: false,
            entries: Vec::new(),
            events: Vec::new(),
        };
        assert(r@.entries =~= Seq::empty());
        assert(r@.queue =~= Seq::empty());
        r
    }

    /// Takes in what was found on the device once it was connected. Returns the objects whose
    /// changes are to be subscribed to: all that are presented.
    pub fn connected(&mut self, discovered: &Vec<DiscoveredObject>) -> (r: Vec<Ono>)
        ensures
            final(self)@ == (RedNetModel {
                connected: true,
                entries: all_presented(enumerate::object_models(discovered@)),
                ..old(self)@
            }),
            r@ == final(self)@.entries.map_values(|e: EntryModel| e.ono),
    {
        let ghost all = enumerate::object_models(discovered@);
        let mut entries: Vec<Entry> = Vec::new();
        let mut wanted: Vec<Ono> = Vec::new();
        let mut i: usize = 0;
        assert(entry_models(entries@) =~= seq![]);
        while i < discovered.len()
            invariant
                i <= discovered.len(),
                all == enumerate::object_models(discovered@),
                entry_models(entries@) == all_presented(all.take(i as int)),
                wanted@ == entry_models(entries@).map_values(|e: EntryModel| e.ono),
            decreases discovered.len() - i,
        {
            let ghost before = entry_models(entries@);
            let ghost subscribed = wanted@;
            assert(all.take(i + 1).drop_last() =~= all.take(i as int));
            assert(all.take(i + 1).last() == discovered@[i as int]@);
            if let Some(e) = to_entry(&discovered[i]) {
                wanted.push(e.ono);
                entries.push(e);
                assert(entry_models(entries@) =~= before.push(e@));
                assert(wanted@ =~= entry_models(entries@).map_values(|e: EntryModel| e.ono));
            }
            i = i + 1;
        }
        assert(all.take(i as int) =~= all);
        self.entries = entries;
        self.connected = true;
        wanted
    }

    /// Forgets the device's objects and what they reported.
    pub fn disconnect(&mut self)
        ensures
            final(self)@ == (RedNetModel {
                id: old(self)@.id,
                connected: false,
                entries: Seq::empty(),
                queue: Seq::empty(),
            }),
    {
        self.connected = false;
        self.entries = Vec::new();
        self.events = Vec::new();
        assert(self@.entries =~= Seq::empty());
        assert(self@.queue =~= Seq::empty());
    }

    fn entry(&self, ono: u32) -> (r: Option<usize>)
        ensures
            match r {
                Some(i) => i < self.entries@.len() && entry_of(self@.entries, ono) == Some(
                    self.entries@[i as int]@,
                ),
                None => entry_of(self@.entries, ono) is None,
            },
    {
        let ghost all = self@.entries;
        let mut i: usize = 0;
        assert(all.skip(0) =~= all);
        while i < self.entries.len()
            invariant
                i <= self.entries.len(),
                all == self@.entries,
                entry_of(all, ono) == entry_of(all.skip(i as int), ono),
            decreases self.entries.len() - i,
        {
            assert(all.skip(i as int)[0] == self.entries@[i as int]@);
            if self.entries[i].ono.0 == ono {
                return Some(i);
            }
            assert(all.skip(i as int).skip(1) =~= all.skip(i + 1));
            i = i + 1;
        }
        None
    }

    /// Takes in a notification.
    pub fn notify(&mut self, notification: &Notification)
        ensures
            final(self)@ == (RedNetModel {
                queue: match notified(old(self)@, notification@) {
                    Some(e) => old(self)@.queue.push(e),
                    None => old(self)@.queue,
                },
                ..old(self)@
            }),
    {
        let i: usize = match self.entry(notification.emitter) {
            Some(i) => i,
            None => return,
        };
        let entry = &self.entries[i];
        let value = match decode(entry, notification.value.as_slice()) {
            Ok(v) => v,
            Err(_) => return,
        };
        let object = OcaObject {
            ono: HostOno(entry.ono.0),
            class: entry.class,
            role: entry.role.clone(),
            settable: entry.settable,
            value,
        };
        let event = OcaEventFfi::from_event(self.id.as_str(), object);
        let ghost before = self.events@;
        self.events.push(event);
        assert(self@.queue =~= old(self)@.queue.push(legacy_plugin_bridge::queued_event(event)));
    }

    /// Drains the events that came in since the last time.
    pub fn poll_events(&mut self) -> (r: Vec<OcaEventFfi>)
        ensures
            legacy_plugin_bridge::queued_events(r@) == old(self)@.queue,
            final(self)@ == (RedNetModel { queue: Seq::empty(), ..old(self)@ }),
    {
        let mut out: Vec<OcaEventFfi> = Vec::new();
        std::mem::swap(&mut out, &mut self.events);
        assert(self@.queue =~= Seq::empty());
        out
    }

    /// The objects of the device, as it described itself.
    pub fn describe(&self) -> (r: Vec<OcaObjectDescriptorFfi>)
        ensures
            r@.map_values(|d: OcaObjectDescriptorFfi| legacy_plugin_bridge::crossed_descriptor(d))
                == self@.entries.map_values(|e: EntryModel| e.descriptor()),
    {
        let mut out: Vec<OcaObjectDescriptorFfi> = Vec::new();
        let mut i: usize = 0;
        while i < self.entries.len()
            invariant
                i <= self.entries.len(),
                out@.len() == i,
                forall|j: int|
                    0 <= j < i ==> legacy_plugin_bridge::crossed_descriptor(#[trigger] out@[j])
                        == self.entries@[j]@.descriptor(),
            decreases self.entries.len() - i,
        {
            out.push(self.entries[i].descriptor());
            i = i + 1;
        }
        assert(out@.map_values(
            |d: OcaObjectDescriptorFfi| legacy_plugin_bridge::crossed_descriptor(d),
        ) =~= self@.entries.map_values(|e: EntryModel| e.descriptor()));
        out
    }

    fn find(&self, ono: u32) -> (r: Result<usize, String>)
        ensures
            match r {
                Ok(i) => i < self.entries@.len() && reachable(self@, ono) == Ok::<
                    EntryModel,
                    Seq<char>,
                >(self.entries@[i as int]@),
                Err(e) => reachable(self@, ono) == Err::<EntryModel, Seq<char>>(e@),
            },
    {
        if !self.connected {
            return Err("not connected".to_owned());
        }
        match self.entry(ono) {
            Some(i) => Ok(i),
            None => {
                let number = Ono(ono).to_text();
                Err(joined("no object ", number.as_str(), " on this device"))
            },
        }
    }

    /// Which object is to be read, and at which level its `Get` is defined.
    pub fn get_object(&self, ono: u32) -> (r: Result<(Ono, u16), String>)
        ensures
            match r {
                Ok((target, def_level)) => reachable(self@, ono) matches Ok(e) && target == e.ono
                    && def_level == e.def_level,
                Err(e) => reachable(self@, ono) == Err::<EntryModel, Seq<char>>(e@),
            },
    {
        match self.find(ono) {
            Ok(i) => Ok((self.entries[i].ono, self.entries[i].def_level)),
            Err(e) => Err(e),
        }
    }

    /// The value of an object, the device having answered the read.
    pub fn object_value(&self, ono: u32, reply: Result<Vec<u8>, Error>) -> (r: Result<
        OcaValueFfi,
        String,
    >)
        ensures
            match reachable(self@, ono) {
                Err(why) => r is Err && r->Err_0@ == why,
                Ok(e) => match reply {
                    Err(error) => r is Err && r->Err_0@ == "reading "@ + e.role + (": "@
                        + error.text()),
                    Ok(octets) => match value_of(e.class, e.as_bool, octets@) {
                        Some(v) => r is Ok && legacy_plugin_bridge::crossed_value(r->Ok_0) == v,
                        None => r is Err && r->Err_0@ == "reading "@ + e.role + (": "@
                            + Error::Truncated.text()),
                    },
                },
            },
    {
        let i: usize = match self.find(ono) {
            Ok(i) => i,
            Err(e) => return Err(e),
        };
        let entry = &self.entries[i];
        let value = match reply {
            Ok(octets) => decode(entry, octets.as_slice()),
            Err(e) => Err(e),
        };
        match value {
            Ok(v) => Ok(OcaValueFfi::from(v)),
            Err(e) => {
                let why = joined(": ", e.message().as_str(), "");
                assert(why@ =~= ": "@ + e.text()) by {
                    reveal_strlit("");
                }
                Err(joined("reading ", entry.role.as_str(), why.as_str()))
            },
        }
    }

    /// What setting an object asks to have written, and where: the object, the level at which
    /// its `Set` is defined, and the parameters.
    pub fn set_object(&self, ono: u32, value: OcaValueFfi) -> (r: Result<(Ono, u16, Write), String>)
        ensures
            match reachable(self@, ono) {
                Err(why) => r is Err && r->Err_0@ == why,
                Ok(e) => if !e.settable {
                    r is Err && r->Err_0@ == e.role + " is read-only"@
                } else {
                    match written(e.class, legacy_plugin_bridge::crossed_value(value)) {
                        Some(w) => r is Ok && r->Ok_0.0 == e.ono && r->Ok_0.1 == e.def_level
                            && r->Ok_0.2@ == w,
                        None => r is Err && r->Err_0@ == "writing "@ + e.role
                            + ": device returned ParameterError (6)"@,
                    }
                },
            },
    {
        let i: usize = match self.find(ono) {
            Ok(i) => i,
            Err(e) => return Err(e),
        };
        let entry = &self.entries[i];
        if !entry.settable {
            let mut why: String = entry.role.clone();
            why.append(" is read-only");
            return Err(why);
        }
        let value = OcaValue::from(value);
        match write(entry, &value) {
            Ok(w) => Ok((entry.ono, entry.def_level, w)),
            Err(_) => Err(
                joined("writing ", entry.role.as_str(), ": device returned ParameterError (6)"),
            ),
        }
    }

    /// The model of the device, from the answer to the request for it.
    pub fn model(reply: Result<Vec<u8>, Error>) -> (r: String)
        ensures
            r@ == (match reply {
                Ok(octets) => match value::counted_bytes(octets@) {
                    Some(b) => text::utf8_lossy(b),
                    None => "AES70 device"@,
                },
                Err(_) => "AES70 device"@,
            }),
            reply is Ok && value::counted_bytes(reply->Ok_0@) is Some ==> text::read_faithfully(
                value::counted_bytes(reply->Ok_0@)->0,
            ),
    {
        let model = match reply {
            Ok(octets) => read_role(octets.as_slice()),
            Err(e) => Err(e),
        };
        match model {
            Ok(m) => m,
            Err(_) => "AES70 device".to_owned(),
        }
    }
}

// ---------------------------------------------------------------------------
// Laws
// ---------------------------------------------------------------------------

/// What is written for a control reads back as the value that it was set to. A phantom switch is
/// one that is presented as a truth value; a selector keeps its position.
pub proof fn what_is_written_reads_back(class: OcaClass, as_bool: bool, value: ValueModel)
    requires
        match value {
            ValueModel::F32(_) => class == OcaClass::Gain || class == OcaClass::Delay,
            ValueModel::Bool(_) => class == OcaClass::Mute || class == OcaClass::Polarity || class
                == OcaClass::Switch && as_bool,
            ValueModel::I32(n) => class == OcaClass::Switch && !as_bool && 0 <= n < 65536,
            ValueModel::String(_) => false,
        },
    ensures
        written(class, value) matches Some(WriteModel::Octets(b)) && value_of(class, as_bool, b)
            == Some(value),
{
    let b = written(class, value)->0->Octets_0;
    if b.len() == 4 {
        assert(b.subrange(0, 4) =~= b);
        bytes::u32_reads_back(b, 0, value->F32_0.bits as int);
    }
    if b.len() == 2 {
        assert(b.subrange(0, 2) =~= b);
        let n = match value {
            ValueModel::Bool(v) => if v {
                1int
            } else {
                0int
            },
            ValueModel::I32(n) => n as int,
            _ => 0int,
        };
        bytes::u16_reads_back(b, 0, n);
    }
}

/// The classes that are known, by their positions in the class tree. The members of a class are of the
/// level of its position.
pub proof fn the_known_classes(fields: Seq<u16>)
    ensures
        class_here(fields) is Some ==> class_here(fields)->Some_0.1 == fields.len(),
        class_here(seq![1u16, 1, 1, 5]) == Some((OcaClass::Gain, 4u16)),
        class_here(seq![1u16, 1, 1, 2]) == Some((OcaClass::Mute, 4u16)),
        class_here(seq![1u16, 1, 1, 4]) == Some((OcaClass::Switch, 4u16)),
        class_here(seq![1u16, 1, 1, 3]) == Some((OcaClass::Polarity, 4u16)),
        class_here(seq![1u16, 1, 1, 6]) == Some((OcaClass::Delay, 4u16)),
        class_here(seq![1u16, 1, 1, 1, 1]) == Some((OcaClass::Switch, 5u16)),
        class_here(seq![1u16, 1, 1, 1, 3]) == Some((OcaClass::Int32Sensor, 5u16)),
        class_here(seq![1u16, 1, 2, 1]) == Some((OcaClass::BasicSensor, 4u16)),
        class_here(seq![1u16, 1, 2, 2]) == Some((OcaClass::LevelSensor, 4u16)),
        class_here(seq![1u16, 1, 2, 2, 1]) == Some((OcaClass::AudioLevelSensor, 5u16)),
        class_here(seq![1u16, 1, 2, 1, 1]) == Some((OcaClass::BooleanSensor, 5u16)),
        class_here(seq![1u16, 1, 2, 1, 3]) == Some((OcaClass::Int32Sensor, 5u16)),
        class_here(seq![1u16, 1, 2, 1, 6]) == Some((OcaClass::StringSensor, 5u16)),
        class_here(fields) is Some ==> fields[0] == 1 && fields[1] == 1 && (fields[2] == 1
            || fields[2] == 2),
{
    let a = seq![1u16, 1, 1, 5];
    let b = seq![1u16, 1, 1, 2];
    let c = seq![1u16, 1, 1, 4];
    let d = seq![1u16, 1, 1, 3];
    let e = seq![1u16, 1, 1, 6];
    let f = seq![1u16, 1, 1, 1, 1];
    let g = seq![1u16, 1, 1, 1, 3];
    let h = seq![1u16, 1, 2, 1];
    let i = seq![1u16, 1, 2, 2];
    let j = seq![1u16, 1, 2, 2, 1];
    let k = seq![1u16, 1, 2, 1, 1];
    let l = seq![1u16, 1, 2, 1, 3];
    let m = seq![1u16, 1, 2, 1, 6];
    assert(a[3] == 5 && b[3] == 2 && c[3] == 4 && d[3] == 3 && e[3] == 6);
    assert(a[2] == 1 && b[2] == 1 && c[2] == 1 && d[2] == 1 && e[2] == 1);
    assert(h[2] == 2 && i[2] == 2 && h[3] == 1 && i[3] == 2);
    assert(f[2] == 1 && g[2] == 1 && f[4] == 1 && g[4] == 3);
    assert(j[2] == 2 && j[3] == 2 && k[2] == 2 && l[2] == 2 && m[2] == 2);
    assert(k[3] == 1 && l[3] == 1 && m[3] == 1 && k[4] == 1 && l[4] == 3 && m[4] == 6);
    assert(f.len() == 5 && h.len() == 4 && i.len() == 4 && j.len() == 5 && k.len() == 5);
    assert(class_here(j) == Some((OcaClass::AudioLevelSensor, 5u16)));
    assert(class_here(k) == Some((OcaClass::BooleanSensor, 5u16)));
}

/// A value is read from the octets that come first, whatever follows: four for a number, the highest
/// first; one for a mute, which is 1 for on, and for a polarity, which is 2 for on; two for a switch,
/// where anything but the first position is on; one for a sensor of a truth value; a counted text.
pub proof fn values_read_off_the_wire(
    a: u8,
    b: u8,
    c: u8,
    d: u8,
    number: i32,
    rest: Seq<u8>,
    as_bool: bool,
    class: OcaClass,
)
    ensures
        class == OcaClass::Gain || class == OcaClass::Delay || class == OcaClass::LevelSensor
            || class == OcaClass::AudioLevelSensor ==> value_of(
            class,
            as_bool,
            seq![a, b, c, d] + rest,
        ) == Some(
            ValueModel::F32(
                Float32 { bits: (0x100_0000 * a + 0x1_0000 * b + 0x100 * c + d) as u32 },
            ),
        ),
        value_of(OcaClass::Mute, as_bool, seq![a] + rest) == Some(ValueModel::Bool(a == 1)),
        value_of(OcaClass::Polarity, as_bool, seq![a] + rest) == Some(ValueModel::Bool(a == 2)),
        value_of(OcaClass::Switch, true, seq![a, b] + rest) == Some(
            ValueModel::Bool(a != 0 || b != 0),
        ),
        value_of(OcaClass::Switch, false, seq![a, b] + rest) == Some(
            ValueModel::I32((0x100 * a + b) as i32),
        ),
        value_of(OcaClass::BooleanSensor, as_bool, seq![a] + rest) == Some(
            ValueModel::Bool(a != 0),
        ),
        value_of(OcaClass::BasicSensor, as_bool, seq![a] + rest) == Some(ValueModel::Bool(a != 0)),
        0x100_0000 * a + 0x1_0000 * b + 0x100 * c + d == number || 0x100_0000 * a + 0x1_0000 * b
            + 0x100 * c + d == number + 0x1_0000_0000 ==> value_of(
            OcaClass::Int32Sensor,
            as_bool,
            seq![a, b, c, d] + rest,
        ) == Some(ValueModel::I32(number)),
        0x100 * a + b <= rest.len() ==> value_of(
            OcaClass::StringSensor,
            as_bool,
            seq![a, b] + rest,
        ) == Some(ValueModel::String(text::utf8_lossy(rest.take(0x100 * a + b)))),
        0x100 * a + b > rest.len() ==> value_of(
            OcaClass::StringSensor,
            as_bool,
            seq![a, b] + rest,
        ) is None,
        value_of(class, as_bool, seq![]) is None,
{
    let one = seq![a] + rest;
    let two = seq![a, b] + rest;
    let four = seq![a, b, c, d] + rest;
    assert(one[0] == a);
    assert(two[0] == a && two[1] == b);
    assert(four[0] == a && four[1] == b && four[2] == c && four[3] == d);
    bytes::numbers_are_big_endian(two, 0, 0);
    bytes::numbers_are_big_endian(four, 0, 0);
    if 0x100 * a + b <= rest.len() {
        assert(two.subrange(2, 2 + (0x100 * a + b)) =~= rest.take(0x100 * a + b));
    }
}

/// What is written, octet by octet. A position is taken modulo 65536, and a whole number for a gain or a
/// delay is handed on as it is. Nothing else is taken.
pub proof fn what_is_written_are_these_octets(class: OcaClass, value: ValueModel)
    ensures
        (class == OcaClass::Gain || class == OcaClass::Delay) && value is F32 ==> ({
            let n = value->F32_0.bits;
            written(class, value) matches Some(WriteModel::Octets(s)) && s.len() == 4 && 0x100_0000
                * s[0] + 0x1_0000 * s[1] + 0x100 * s[2] + s[3] == n
        }),
        (class == OcaClass::Gain || class == OcaClass::Delay) && value is I32 ==> (written(
            class,
            value,
        ) matches Some(WriteModel::Number(n)) && n == value->I32_0),
        class == OcaClass::Mute && value is Bool ==> (written(class, value) matches Some(
            WriteModel::Octets(s),
        ) && s.len() == 1 && s[0] == (if value->Bool_0 {
            1u8
        } else {
            2u8
        })),
        class == OcaClass::Polarity && value is Bool ==> (written(class, value) matches Some(
            WriteModel::Octets(s),
        ) && s.len() == 1 && s[0] == (if value->Bool_0 {
            2u8
        } else {
            1u8
        })),
        class == OcaClass::Switch && value is Bool ==> (written(class, value) matches Some(
            WriteModel::Octets(s),
        ) && s.len() == 2 && s[0] == 0 && s[1] == (if value->Bool_0 {
            1u8
        } else {
            0u8
        })),
        class == OcaClass::Switch && value is I32 ==> (written(class, value) matches Some(
            WriteModel::Octets(s),
        ) && s.len() == 2 && 0x100 * s[0] + s[1] == value->I32_0 as int % 65536),
        value is String ==> written(class, value) is None,
        class.sensor() ==> written(class, value) is None,
        (class == OcaClass::Mute || class == OcaClass::Polarity) && !(value is Bool) ==> written(
            class,
            value,
        ) is None,
        (class == OcaClass::Gain || class == OcaClass::Delay) && value is Bool ==> written(
            class,
            value,
        ) is None,
        class == OcaClass::Switch && value is F32 ==> written(class, value) is None,
{
    let none = Seq::<u8>::empty();
    if value is F32 {
        bytes::numbers_are_big_endian(none, 0, value->F32_0.bits as int);
    }
    if value is I32 {
        bytes::numbers_are_big_endian(none, 0, value->I32_0 as int % 65536);
    }
    bytes::numbers_are_big_endian(none, 0, 0);
    bytes::numbers_are_big_endian(none, 0, 1);
}

/// An object is the first entry with its number; a number that no entry has leads nowhere.
pub proof fn an_object_is_found_by_its_number(entries: Seq<EntryModel>, ono: u32, i: int)
    ensures
        0 <= i < entries.len() && entries[i].ono.0 == ono && (forall|j: int|
            0 <= j < i ==> (#[trigger] entries[j]).ono.0 != ono) ==> entry_of(entries, ono) == Some(
            entries[i],
        ),
        (forall|j: int| 0 <= j < entries.len() ==> (#[trigger] entries[j]).ono.0 != ono)
            ==> entry_of(entries, ono) is None,
    decreases entries.len(),
{
    if entries.len() > 0 {
        let rest = entries.skip(1);
        an_object_is_found_by_its_number(rest, ono, i - 1);
        if forall|j: int| 0 <= j < entries.len() ==> (#[trigger] entries[j]).ono.0 != ono {
            assert(entries[0].ono.0 != ono);
            assert forall|j: int| 0 <= j < rest.len() implies (#[trigger] rest[j]).ono.0 != ono by {
                assert(rest[j] == entries[j + 1]);
            }
        }
        if 0 < i < entries.len() && entries[i].ono.0 == ono && (forall|j: int|
            0 <= j < i ==> (#[trigger] entries[j]).ono.0 != ono) {
            assert(entries[0].ono.0 != ono);
            assert(rest[i - 1] == entries[i]);
            assert forall|j: int| 0 <= j < i - 1 implies (#[trigger] rest[j]).ono.0 != ono by {
                assert(rest[j] == entries[j + 1]);
            }
        }
    }
}

/// All objects of known classes are presented, in the order in which they were found, and no others.
pub proof fn what_is_known_is_presented(
    first: Seq<Discovered>,
    second: Seq<Discovered>,
    object: Discovered,
)
    ensures
        all_presented(first + second) == all_presented(first) + all_presented(second),
        all_presented(seq![object]) == (match presented(object) {
            Some(e) => seq![e],
            None => seq![],
        }),
        presented(object) is Some <==> class_here(object.class.fields) is Some,
    decreases second.len(),
{
    assert(seq![object].drop_last() =~= Seq::<Discovered>::empty());
    reveal_with_fuel(all_presented, 2);
    assert(all_presented(seq![object]) =~= (match presented(object) {
        Some(e) => seq![e],
        None => seq![],
    }));
    if second.len() == 0 {
        assert(first + second =~= first);
        assert(all_presented(first) + all_presented(second) =~= all_presented(first));
    } else {
        assert((first + second).drop_last() =~= first + second.drop_last());
        what_is_known_is_presented(first, second.drop_last(), object);
        assert(all_presented(first + second) =~= all_presented(first) + all_presented(second));
    }
}

/// An object is presented under its own number, with the class of its position, settable if that is no
/// sensor; under the bridge's role if it has one, else under its own name behind those of its blocks.
/// It is a truth value if it is a phantom power, a mute, a polarity or a sensor of one.
pub proof fn how_an_object_is_presented(object: Discovered)
    requires
        presented(object) is Some,
    ensures
        ({
            let e = presented(object)->Some_0;
            let role = roles::classified(object.role, object.path, e.class);
            &&& e.ono.0 == object.ono
            &&& class_here(object.class.fields) == Some((e.class, e.def_level))
            &&& e.settable == (e.class == OcaClass::Gain || e.class == OcaClass::Mute || e.class
                == OcaClass::Switch || e.class == OcaClass::Polarity || e.class == OcaClass::Delay)
            &&& role is Some ==> e.role == role->Some_0
            &&& role is None ==> e.role == enumerate::slashed(object.path) + object.role
            &&& e.class == OcaClass::Mute || e.class == OcaClass::Polarity || e.class
                == OcaClass::BooleanSensor ==> e.as_bool
            &&& e.class == OcaClass::Switch ==> (e.as_bool <==> role is Some)
            &&& e.class == OcaClass::Gain || e.class == OcaClass::Delay || e.class
                == OcaClass::Int32Sensor || e.class == OcaClass::LevelSensor || e.class
                == OcaClass::StringSensor ==> !e.as_bool
        }),
{
}

/// A notification about an object of the device, with a value that can be read, becomes an event of that
/// object with that value; no other notification becomes one.
pub proof fn a_notification_becomes_an_event(device: RedNetModel, n: NotificationModel, i: int)
    requires
        0 <= i < device.entries.len(),
        forall|j: int|
            0 <= j < i ==> (#[trigger] device.entries[j]).ono != device.entries[i].ono,
        n.emitter == device.entries[i].ono.0,
    ensures
        ({
            let e = device.entries[i];
            match value_of(e.class, e.as_bool, n.value) {
                Some(v) => notified(device, n) matches Some(event) && event.address.device_id
                    == device.id && event.address.ono.0 == n.emitter && event.object.value == v
                    && event.object.descriptor.ono.0 == n.emitter && event.object.descriptor.class
                    == e.class && event.object.descriptor.role == e.role
                    && event.object.descriptor.settable == e.settable,
                None => notified(device, n) is None,
            }
        }),
{
    assert forall|j: int| 0 <= j < i implies (#[trigger] device.entries[j]).ono.0 != n.emitter by {
        assert(device.entries[j].ono != device.entries[i].ono);
    }
    an_object_is_found_by_its_number(device.entries, n.emitter, i);
}

} // verus!
