//! Objects, their descriptors and addresses, and events.
use vstd::prelude::*;

use crate::oca::ono::Ono;
use crate::oca::value::{OcaClass, OcaValue, ValueModel};
use crate::text::text_eq;

verus! {

/// What an object is, without its current value.
#[derive(Debug, Clone, PartialEq)]
pub struct OcaObjectDescriptor {
    pub ono: Ono,
    pub class: OcaClass,
    /// Human label, such as `Ch 3 Gain`.
    pub role: String,
    /// `false` for telemetry that can be read but never written.
    pub settable: bool,
}

/// An [`OcaObjectDescriptor`], its role as a sequence.
#[verifier::ext_equal]
pub struct DescriptorModel {
    pub ono: Ono,
    pub class: OcaClass,
    pub role: Seq<char>,
    pub settable: bool,
}

impl View for OcaObjectDescriptor {
    type V = DescriptorModel;

    open spec fn view(&self) -> DescriptorModel {
        DescriptorModel {
            ono: self.ono,
            class: self.class,
            role: self.role@,
            settable: self.settable,
        }
    }
}

/// An object's descriptor and its current value.
#[derive(Debug, Clone, PartialEq)]
pub struct OcaObject {
    pub ono: Ono,
    pub class: OcaClass,
    pub role: String,
    pub settable: bool,
    pub value: OcaValue,
}

/// An [`OcaObject`], as its descriptor and its value.
#[verifier::ext_equal]
pub struct ObjectModel {
    pub descriptor: DescriptorModel,
    pub value: ValueModel,
}

impl View for OcaObject {
    type V = ObjectModel;

    open spec fn view(&self) -> ObjectModel {
        ObjectModel {
            descriptor: DescriptorModel {
                ono: self.ono,
                class: self.class,
                role: self.role@,
                settable: self.settable,
            },
            value: self.value@,
        }
    }
}

impl OcaObject {
    /// What the object is, without its value.
    pub fn descriptor(&self) -> (r: OcaObjectDescriptor)
        ensures
            r@ == self@.descriptor,
    {
        OcaObjectDescriptor {
            ono: self.ono,
            class: self.class,
            role: self.role.clone(),
            settable: self.settable,
        }
    }

    /// The object that `descriptor` describes, with a value.
    pub fn from_descriptor(descriptor: OcaObjectDescriptor, value: OcaValue) -> (r: Self)
        ensures
            r@ == (ObjectModel { descriptor: descriptor@, value: value@ }),
            r.value == value,
    {
        OcaObject {
            ono: descriptor.ono,
            class: descriptor.class,
            role: descriptor.role,
            settable: descriptor.settable,
            value,
        }
    }
}

/// One object on one device.
#[derive(Debug, Clone, PartialEq, Eq, Hash)]
pub struct OcaAddress {
    pub device_id: String,
    pub ono: Ono,
}

/// An [`OcaAddress`], its device as a sequence.
#[verifier::ext_equal]
pub struct AddressModel {
    pub device_id: Seq<char>,
    pub ono: Ono,
}

impl View for OcaAddress {
    type V = AddressModel;

    open spec fn view(&self) -> AddressModel {
        AddressModel { device_id: self.device_id@, ono: self.ono }
    }
}

impl OcaAddress {
    /// The object `ono` on the device `device_id`.
    pub fn new(device_id: &str, ono: Ono) -> (r: Self)
        ensures
            r@ == (AddressModel { device_id: device_id@, ono }),
    {
        OcaAddress { device_id: device_id.to_owned(), ono }
    }

    /// Whether two addresses are the same.
    pub fn same_as(&self, other: &OcaAddress) -> (r: bool)
        ensures
            r == (self@ == other@),
    {
        self.ono == other.ono && text_eq(self.device_id.as_str(), other.device_id.as_str())
    }

    /// A copy.
    pub fn duplicate(&self) -> (r: OcaAddress)
        ensures
            r@ == self@,
    {
        OcaAddress { device_id: self.device_id.clone(), ono: self.ono }
    }
}

/// A value change: reported by a device, or made by a user.
#[derive(Debug, Clone, PartialEq)]
pub struct OcaEvent {
    pub address: OcaAddress,
    pub object: OcaObject,
}

/// An [`OcaEvent`], as its parts.
#[verifier::ext_equal]
pub struct EventModel {
    pub address: AddressModel,
    pub object: ObjectModel,
}

impl View for OcaEvent {
    type V = EventModel;

    open spec fn view(&self) -> EventModel {
        EventModel { address: self.address@, object: self.object@ }
    }
}

} // verus!
