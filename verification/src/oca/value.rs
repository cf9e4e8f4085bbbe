//! Classes and values of objects.
use vstd::prelude::*;

use crate::float32::Float32;
use crate::text::text_eq;

verus! {

/// The classes that the bridge uses, a small subset of AES70's. The first five are actuators,
/// the others sensors.
#[derive(Debug, Clone, Copy, PartialEq, Eq, Hash, Structural)]
pub enum OcaClass {
    Gain,
    Mute,
    Switch,
    Polarity,
    Delay,
    BasicSensor,
    LevelSensor,
    AudioLevelSensor,
    BooleanSensor,
    Int32Sensor,
    StringSensor,
}

impl OcaClass {
    /// Whether objects of the class are read-only telemetry.
    pub open spec fn sensor(self) -> bool {
        match self {
            OcaClass::Gain => false,
            OcaClass::Mute => false,
            OcaClass::Switch => false,
            OcaClass::Polarity => false,
            OcaClass::Delay => false,
            _ => true,
        }
    }

    /// Whether objects of the class are read-only telemetry by convention; everything else is an
    /// actuator that can be set.
    pub fn is_sensor(self) -> (r: bool)
        ensures
            r == self.sensor(),
    {
        matches!(
            self,
            OcaClass::BasicSensor | OcaClass::LevelSensor | OcaClass::AudioLevelSensor
                | OcaClass::BooleanSensor | OcaClass::Int32Sensor | OcaClass::StringSensor
        )
    }
}

/// The value of an object.
#[derive(Debug, Clone, PartialEq)]
pub enum OcaValue {
    F32(Float32),
    I32(i32),
    Bool(bool),
    String(String),
}

/// An [`OcaValue`], its text as a sequence.
pub enum ValueModel {
    F32(Float32),
    I32(i32),
    Bool(bool),
    String(Seq<char>),
}

impl View for OcaValue {
    type V = ValueModel;

    open spec fn view(&self) -> ValueModel {
        match self {
            OcaValue::F32(v) => ValueModel::F32(*v),
            OcaValue::I32(v) => ValueModel::I32(*v),
            OcaValue::Bool(v) => ValueModel::Bool(*v),
            OcaValue::String(v) => ValueModel::String(v@),
        }
    }
}

impl ValueModel {
    /// Whether two values are the same: of one kind, numbers by IEEE 754 equality.
    pub open spec fn same(self, other: ValueModel) -> bool {
        match (self, other) {
            (ValueModel::F32(a), ValueModel::F32(b)) => a.equals(b),
            (ValueModel::I32(a), ValueModel::I32(b)) => a == b,
            (ValueModel::Bool(a), ValueModel::Bool(b)) => a == b,
            (ValueModel::String(a), ValueModel::String(b)) => a == b,
            _ => false,
        }
    }

    /// Whether the value is a NaN, which is not the same as anything.
    pub open spec fn nan(self) -> bool {
        self matches ValueModel::F32(v) && v.nan()
    }
}

impl OcaValue {
    /// The number, where the value is one.
    pub fn as_f32(&self) -> (r: Option<Float32>)
        ensures
            r == (match self@ {
                ValueModel::F32(v) => Some(v),
                _ => None,
            }),
    {
        match self {
            OcaValue::F32(v) => Some(*v),
            _ => None,
        }
    }

    /// The integer, where the value is one.
    pub fn as_i32(&self) -> (r: Option<i32>)
        ensures
            r == (match self@ {
                ValueModel::I32(v) => Some(v),
                _ => None,
            }),
    {
        match self {
            OcaValue::I32(v) => Some(*v),
            _ => None,
        }
    }

    /// The truth value, where the value is one.
    pub fn as_bool(&self) -> (r: Option<bool>)
        ensures
            r == (match self@ {
                ValueModel::Bool(v) => Some(v),
                _ => None,
            }),
    {
        match self {
            OcaValue::Bool(v) => Some(*v),
            _ => None,
        }
    }

    /// The text, where the value is one.
    pub fn as_str(&self) -> (r: Option<&str>)
        ensures
            match self@ {
                ValueModel::String(v) => r is Some && r->0@ == v,
                _ => r is None,
            },
    {
        match self {
            OcaValue::String(v) => Some(v.as_str()),
            _ => None,
        }
    }

    /// Whether two values are the same.
    pub fn same_as(&self, other: &OcaValue) -> (r: bool)
        ensures
            r == self@.same(other@),
    {
        match (self, other) {
            (OcaValue::F32(a), OcaValue::F32(b)) => a.same_number(*b),
            (OcaValue::I32(a), OcaValue::I32(b)) => *a == *b,
            (OcaValue::Bool(a), OcaValue::Bool(b)) => *a == *b,
            (OcaValue::String(a), OcaValue::String(b)) => text_eq(a.as_str(), b.as_str()),
            _ => false,
        }
    }

    /// A copy.
    pub fn duplicate(&self) -> (r: OcaValue)
        ensures
            r@ == self@,
    {
        match self {
            OcaValue::F32(v) => OcaValue::F32(*v),
            OcaValue::I32(v) => OcaValue::I32(*v),
            OcaValue::Bool(v) => OcaValue::Bool(*v),
            OcaValue::String(v) => OcaValue::String(v.clone()),
        }
    }
}

/// Values of different kinds are never the same; whole numbers, truth values and texts are the same
/// only where they are equal.
pub proof fn only_equal_values_are_the_same(a: ValueModel, b: ValueModel)
    ensures
        a.same(b) == b.same(a),
        !(a is F32) ==> (a.same(b) <==> a == b),
        a is F32 && !(b is F32) ==> !a.same(b),
        a is F32 && !a.nan() ==> a.same(a),
{
}

/// Sensors are what is not one of the five actuators.
pub proof fn sensors_are_not_actuators(class: OcaClass)
    ensures
        class.sensor() <==> class != OcaClass::Gain && class != OcaClass::Mute && class
            != OcaClass::Switch && class != OcaClass::Polarity && class != OcaClass::Delay,
{
}

} // verus!
