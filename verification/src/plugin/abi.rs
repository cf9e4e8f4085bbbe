//! Objects as they cross the boundary between the host and a device plugin: flat, with nothing
//! nested but the value.
use vstd::prelude::*;

use crate::oca::object::{OcaObject, OcaObjectDescriptor};
use crate::oca::ono::Ono;
use crate::oca::value::{OcaClass, OcaValue};
use crate::float32::Float32;

verus! {

/// An [`OcaClass`] at the boundary.
#[derive(Debug, Clone, Copy, PartialEq, Eq, Structural)]
pub enum OcaClassFfi {
    Gain,
    Mute,
    Switch,
    Polarity,
    Delay,
    BasicSensor,
    LevelSensor,
    AudioLevelSensor,
    BooleanSensor,
    Int32Sensor,
    StringSensor,
}

impl vstd::std_specs::convert::FromSpecImpl<OcaClass> for OcaClassFfi {
    open spec fn obeys_from_spec() -> bool {
        true
    }

    open spec fn from_spec(class: OcaClass) -> Self {
        match class {
            OcaClass::Gain => OcaClassFfi::Gain,
            OcaClass::Mute => OcaClassFfi::Mute,
            OcaClass::Switch => OcaClassFfi::Switch,
            OcaClass::Polarity => OcaClassFfi::Polarity,
            OcaClass::Delay => OcaClassFfi::Delay,
            OcaClass::BasicSensor => OcaClassFfi::BasicSensor,
            OcaClass::LevelSensor => OcaClassFfi::LevelSensor,
            OcaClass::AudioLevelSensor => OcaClassFfi::AudioLevelSensor,
            OcaClass::BooleanSensor => OcaClassFfi::BooleanSensor,
            OcaClass::Int32Sensor => OcaClassFfi::Int32Sensor,
            OcaClass::StringSensor => OcaClassFfi::StringSensor,
        }
    }
}

impl From<OcaClass> for OcaClassFfi {
    fn from(class: OcaClass) -> Self {
        match class {
            OcaClass::Gain => OcaClassFfi::Gain,
            OcaClass::Mute => OcaClassFfi::Mute,
            OcaClass::Switch => OcaClassFfi::Switch,
            OcaClass::Polarity => OcaClassFfi::Polarity,
            OcaClass::Delay => OcaClassFfi::Delay,
            OcaClass::BasicSensor => OcaClassFfi::BasicSensor,
            OcaClass::LevelSensor => OcaClassFfi::LevelSensor,
            OcaClass::AudioLevelSensor => OcaClassFfi::AudioLevelSensor,
            OcaClass::BooleanSensor => OcaClassFfi::BooleanSensor,
            OcaClass::Int32Sensor => OcaClassFfi::Int32Sensor,
            OcaClass::StringSensor => OcaClassFfi::StringSensor,
        }
    }
}

impl vstd::std_specs::convert::FromSpecImpl<OcaClassFfi> for OcaClass {
    open spec fn obeys_from_spec() -> bool {
        true
    }

    open spec fn from_spec(class: OcaClassFfi) -> Self {
        match class {
            OcaClassFfi::Gain => OcaClass::Gain,
            OcaClassFfi::Mute => OcaClass::Mute,
            OcaClassFfi::Switch => OcaClass::Switch,
            OcaClassFfi::Polarity => OcaClass::Polarity,
            OcaClassFfi::Delay => OcaClass::Delay,
            OcaClassFfi::BasicSensor => OcaClass::BasicSensor,
            OcaClassFfi::LevelSensor => OcaClass::LevelSensor,
            OcaClassFfi::AudioLevelSensor => OcaClass::AudioLevelSensor,
            OcaClassFfi::BooleanSensor => OcaClass::BooleanSensor,
            OcaClassFfi::Int32Sensor => OcaClass::Int32Sensor,
            OcaClassFfi::StringSensor => OcaClass::StringSensor,
        }
    }
}

impl From<OcaClassFfi> for OcaClass {
    fn from(class: OcaClassFfi) -> Self {
        match class {
            OcaClassFfi::Gain => OcaClass::Gain,
            OcaClassFfi::Mute => OcaClass::Mute,
            OcaClassFfi::Switch => OcaClass::Switch,
            OcaClassFfi::Polarity => OcaClass::Polarity,
            OcaClassFfi::Delay => OcaClass::Delay,
            OcaClassFfi::BasicSensor => OcaClass::BasicSensor,
            OcaClassFfi::LevelSensor => OcaClass::LevelSensor,
            OcaClassFfi::AudioLevelSensor => OcaClass::AudioLevelSensor,
            OcaClassFfi::BooleanSensor => OcaClass::BooleanSensor,
            OcaClassFfi::Int32Sensor => OcaClass::Int32Sensor,
            OcaClassFfi::StringSensor => OcaClass::StringSensor,
        }
    }
}

/// An [`OcaValue`] at the boundary.
#[derive(Debug, Clone, PartialEq)]
pub enum OcaValueFfi {
    F32(Float32),
    I32(i32),
    Bool(bool),
    String(String),
}

impl vstd::std_specs::convert::FromSpecImpl<OcaValue> for OcaValueFfi {
    open spec fn obeys_from_spec() -> bool {
        true
    }

    open spec fn from_spec(value: OcaValue) -> Self {
        match value {
            OcaValue::F32(v) => OcaValueFfi::F32(v),
            OcaValue::I32(v) => OcaValueFfi::I32(v),
            OcaValue::Bool(v) => OcaValueFfi::Bool(v),
            OcaValue::String(v) => OcaValueFfi::String(v),
        }
    }
}

impl From<OcaValue> for OcaValueFfi {
    fn from(value: OcaValue) -> Self {
        match value {
            OcaValue::F32(v) => OcaValueFfi::F32(v),
            OcaValue::I32(v) => OcaValueFfi::I32(v),
            OcaValue::Bool(v) => OcaValueFfi::Bool(v),
            OcaValue::String(v) => OcaValueFfi::String(v),
        }
    }
}

impl vstd::std_specs::convert::FromSpecImpl<OcaValueFfi> for OcaValue {
    open spec fn obeys_from_spec() -> bool {
        true
    }

    open spec fn from_spec(value: OcaValueFfi) -> Self {
        match value {
            OcaValueFfi::F32(v) => OcaValue::F32(v),
            OcaValueFfi::I32(v) => OcaValue::I32(v),
            OcaValueFfi::Bool(v) => OcaValue::Bool(v),
            OcaValueFfi::String(v) => OcaValue::String(v),
        }
    }
}

impl From<OcaValueFfi> for OcaValue {
    fn from(value: OcaValueFfi) -> Self {
        match value {
            OcaValueFfi::F32(v) => OcaValue::F32(v),
            OcaValueFfi::I32(v) => OcaValue::I32(v),
            OcaValueFfi::Bool(v) => OcaValue::Bool(v),
            OcaValueFfi::String(v) => OcaValue::String(v),
        }
    }
}

/// An [`OcaObjectDescriptor`] at the boundary.
#[derive(Debug, Clone, PartialEq)]
pub struct OcaObjectDescriptorFfi {
    pub ono: u32,
    pub class: OcaClassFfi,
    pub role: String,
    pub settable: bool,
}

impl vstd::std_specs::convert::FromSpecImpl<OcaObjectDescriptor> for OcaObjectDescriptorFfi {
    open spec fn obeys_from_spec() -> bool {
        true
    }

    open spec fn from_spec(d: OcaObjectDescriptor) -> Self {
        OcaObjectDescriptorFfi {
            ono: d.ono.0,
            class: <OcaClassFfi as vstd::std_specs::convert::FromSpec<OcaClass>>::from_spec(d.class),
            role: d.role,
            settable: d.settable,
        }
    }
}

impl From<OcaObjectDescriptor> for OcaObjectDescriptorFfi {
    fn from(d: OcaObjectDescriptor) -> Self {
        OcaObjectDescriptorFfi {
            ono: d.ono.0,
            class: OcaClassFfi::from(d.class),
            role: d.role,
            settable: d.settable,
        }
    }
}

impl vstd::std_specs::convert::FromSpecImpl<OcaObjectDescriptorFfi> for OcaObjectDescriptor {
    open spec fn obeys_from_spec() -> bool {
        true
    }

    open spec fn from_spec(d: OcaObjectDescriptorFfi) -> Self {
        OcaObjectDescriptor {
            ono: Ono(d.ono),
            class: <OcaClass as vstd::std_specs::convert::FromSpec<OcaClassFfi>>::from_spec(d.class),
            role: d.role,
            settable: d.settable,
        }
    }
}

impl From<OcaObjectDescriptorFfi> for OcaObjectDescriptor {
    fn from(d: OcaObjectDescriptorFfi) -> Self {
        OcaObjectDescriptor {
            ono: Ono(d.ono),
            class: OcaClass::from(d.class),
            role: d.role,
            settable: d.settable,
        }
    }
}

/// An event at the boundary, flattened: `device_id` stands for the address.
#[derive(Debug, Clone, PartialEq)]
pub struct OcaEventFfi {
    pub device_id: String,
    pub ono: u32,
    pub class: OcaClassFfi,
    pub role: String,
    pub settable: bool,
    pub value: OcaValueFfi,
}

impl OcaEventFfi {
    /// The object that the event carries.
    pub open spec fn object(self) -> OcaObject {
        OcaObject {
            ono: Ono(self.ono),
            class: <OcaClass as vstd::std_specs::convert::FromSpec<OcaClassFfi>>::from_spec(
                self.class,
            ),
            role: self.role,
            settable: self.settable,
            value: <OcaValue as vstd::std_specs::convert::FromSpec<OcaValueFfi>>::from_spec(
                self.value,
            ),
        }
    }

    /// The event that an object of a device has changed.
    pub fn from_event(device_id: &str, object: OcaObject) -> (r: Self)
        ensures
            r.device_id@ == device_id@,
            r.object() == object,
    {
        OcaEventFfi {
            device_id: device_id.to_owned(),
            ono: object.ono.0,
            class: OcaClassFfi::from(object.class),
            role: object.role,
            settable: object.settable,
            value: OcaValueFfi::from(object.value),
        }
    }

    /// The device and the object that the event is about.
    pub fn into_object(self) -> (r: (String, OcaObject))
        ensures
            r.0 == self.device_id,
            r.1 == self.object(),
    {
        let object = OcaObject {
            ono: Ono(self.ono),
            class: OcaClass::from(self.class),
            role: self.role,
            settable: self.settable,
            value: OcaValue::from(self.value),
        };
        (self.device_id, object)
    }
}

/// What is needed to construct one device instance. The address is text, to be read on whichever
/// side needs it.
#[derive(Debug, Clone)]
pub struct RDeviceConfig {
    pub id: String,
    pub address: Option<String>,
    pub port: Option<u16>,
    pub channels: Option<u16>,
}

/// Who a plugin's device is.
#[derive(Debug, Clone)]
pub struct RDeviceInfo {
    pub vendor: String,
    pub model: String,
    pub address: String,
}

/// What a plugin declares about itself before any device is constructed.
#[derive(Debug, Clone)]
pub struct RPluginInfo {
    pub name: String,
    pub vendor: String,
    /// The kinds of device that the plugin can build an adapter for.
    pub supported_kinds: Vec<String>,
}

/// A class is itself again after it has crossed the boundary and come back.
pub proof fn a_class_survives_the_boundary(class: OcaClass)
    ensures
        <OcaClass as vstd::std_specs::convert::FromSpec<OcaClassFfi>>::from_spec(
            <OcaClassFfi as vstd::std_specs::convert::FromSpec<OcaClass>>::from_spec(class),
        ) == class,
{
}

/// A value is itself again after it has crossed the boundary and come back.
pub proof fn a_value_survives_the_boundary(value: OcaValue)
    ensures
        <OcaValue as vstd::std_specs::convert::FromSpec<OcaValueFfi>>::from_spec(
            <OcaValueFfi as vstd::std_specs::convert::FromSpec<OcaValue>>::from_spec(value),
        ) == value,
{
}

/// A descriptor is itself again after it has crossed the boundary and come back.
pub proof fn a_descriptor_survives_the_boundary(d: OcaObjectDescriptor)
    ensures
        <OcaObjectDescriptor as vstd::std_specs::convert::FromSpec<
            OcaObjectDescriptorFfi,
        >>::from_spec(
            <OcaObjectDescriptorFfi as vstd::std_specs::convert::FromSpec<
                OcaObjectDescriptor,
            >>::from_spec(d),
        ) == d,
{
}

/// A class crosses the boundary as the class of its name.
pub proof fn a_class_keeps_its_name()
    ensures
        <OcaClassFfi as vstd::std_specs::convert::FromSpec<OcaClass>>::from_spec(OcaClass::Gain)
            == OcaClassFfi::Gain,
        <OcaClassFfi as vstd::std_specs::convert::FromSpec<OcaClass>>::from_spec(OcaClass::Mute)
            == OcaClassFfi::Mute,
        <OcaClassFfi as vstd::std_specs::convert::FromSpec<OcaClass>>::from_spec(OcaClass::Switch)
            == OcaClassFfi::Switch,
        <OcaClassFfi as vstd::std_specs::convert::FromSpec<OcaClass>>::from_spec(OcaClass::Polarity)
            == OcaClassFfi::Polarity,
        <OcaClassFfi as vstd::std_specs::convert::FromSpec<OcaClass>>::from_spec(OcaClass::Delay)
            == OcaClassFfi::Delay,
        <OcaClassFfi as vstd::std_specs::convert::FromSpec<OcaClass>>::from_spec(
            OcaClass::BasicSensor,
        ) == OcaClassFfi::BasicSensor,
        <OcaClassFfi as vstd::std_specs::convert::FromSpec<OcaClass>>::from_spec(
            OcaClass::LevelSensor,
        ) == OcaClassFfi::LevelSensor,
        <OcaClassFfi as vstd::std_specs::convert::FromSpec<OcaClass>>::from_spec(
            OcaClass::AudioLevelSensor,
        ) == OcaClassFfi::AudioLevelSensor,
        <OcaClassFfi as vstd::std_specs::convert::FromSpec<OcaClass>>::from_spec(
            OcaClass::BooleanSensor,
        ) == OcaClassFfi::BooleanSensor,
        <OcaClassFfi as vstd::std_specs::convert::FromSpec<OcaClass>>::from_spec(
            OcaClass::Int32Sensor,
        ) == OcaClassFfi::Int32Sensor,
        <OcaClassFfi as vstd::std_specs::convert::FromSpec<OcaClass>>::from_spec(
            OcaClass::StringSensor,
        ) == OcaClassFfi::StringSensor,
{
}

/// A class that comes from the other side and goes back is the same there too.
pub proof fn a_class_survives_the_way_back(class: OcaClassFfi)
    ensures
        <OcaClassFfi as vstd::std_specs::convert::FromSpec<OcaClass>>::from_spec(
            <OcaClass as vstd::std_specs::convert::FromSpec<OcaClassFfi>>::from_spec(class),
        ) == class,
{
}

/// An event carries the object with each of its parts as they are.
pub proof fn an_event_carries_its_object(e: OcaEventFfi)
    ensures
        e.object().ono.0 == e.ono,
        e.object().role == e.role,
        e.object().settable == e.settable,
        <OcaClassFfi as vstd::std_specs::convert::FromSpec<OcaClass>>::from_spec(e.object().class)
            == e.class,
        <OcaValueFfi as vstd::std_specs::convert::FromSpec<OcaValue>>::from_spec(e.object().value)
            == e.value,
{
}

/// A value is the same on the other side, whatever its kind.
pub proof fn a_value_keeps_its_kind(f: Float32, n: i32, b: bool, s: String)
    ensures
        <OcaValueFfi as vstd::std_specs::convert::FromSpec<OcaValue>>::from_spec(OcaValue::F32(f))
            == OcaValueFfi::F32(f),
        <OcaValueFfi as vstd::std_specs::convert::FromSpec<OcaValue>>::from_spec(OcaValue::I32(n))
            == OcaValueFfi::I32(n),
        <OcaValueFfi as vstd::std_specs::convert::FromSpec<OcaValue>>::from_spec(OcaValue::Bool(b))
            == OcaValueFfi::Bool(b),
        <OcaValueFfi as vstd::std_specs::convert::FromSpec<OcaValue>>::from_spec(
            OcaValue::String(s),
        ) == OcaValueFfi::String(s),
{
}

/// A descriptor says the same on the other side, in both directions.
pub proof fn a_descriptor_says_the_same(d: OcaObjectDescriptor, e: OcaObjectDescriptorFfi)
    ensures
        ({
            let there = <OcaObjectDescriptorFfi as vstd::std_specs::convert::FromSpec<
                OcaObjectDescriptor,
            >>::from_spec(d);
            &&& there.ono == d.ono.0
            &&& there.role == d.role
            &&& there.settable == d.settable
            &&& <OcaClass as vstd::std_specs::convert::FromSpec<OcaClassFfi>>::from_spec(
                there.class,
            ) == d.class
        }),
        ({
            let here = <OcaObjectDescriptor as vstd::std_specs::convert::FromSpec<
                OcaObjectDescriptorFfi,
            >>::from_spec(e);
            &&& here.ono.0 == e.ono
            &&& here.role == e.role
            &&& here.settable == e.settable
            &&& <OcaClassFfi as vstd::std_specs::convert::FromSpec<OcaClass>>::from_spec(here.class)
                == e.class
        }),
{
}

} // verus!
