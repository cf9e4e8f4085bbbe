use dante_babelbox::float32::Float32;
use dante_babelbox::oca::object::{OcaAddress, OcaObject, OcaObjectDescriptor};
use dante_babelbox::oca::ono::{Ono, OnoAllocator};
use dante_babelbox::oca::value::{OcaClass, OcaValue};

fn bits(x: f32) -> Float32 {
    Float32::from_bits(x.to_bits())
}

#[test]
fn descriptor_round_trips_through_an_object() {
    let descriptor = OcaObjectDescriptor {
        ono: Ono(7),
        class: OcaClass::Gain,
        role: "Ch 1 Gain".into(),
        settable: true,
    };
    let object = OcaObject::from_descriptor(descriptor.clone(), OcaValue::F32(bits(-6.0)));
    assert_eq!(object.descriptor(), descriptor);
    assert_eq!(object.value, OcaValue::F32(bits(-6.0)));
}

#[test]
fn phantom_and_pad_are_modeled_as_switch_not_a_dedicated_boolean_class() {
    let phantom = OcaObjectDescriptor {
        ono: Ono(1),
        class: OcaClass::Switch,
        role: "Ch 1 Phantom".into(),
        settable: true,
    };
    let pad = OcaObjectDescriptor {
        ono: Ono(2),
        class: OcaClass::Switch,
        role: "Ch 1 Pad".into(),
        settable: true,
    };
    assert_eq!(phantom.class, OcaClass::Switch);
    assert_eq!(pad.class, OcaClass::Switch);
}

#[test]
fn antenna_diversity_is_modeled_as_a_string_sensor_not_an_enum_class() {
    let antenna = OcaObjectDescriptor {
        ono: Ono(9),
        class: OcaClass::StringSensor,
        role: "Antenna".into(),
        settable: false,
    };
    let object = OcaObject::from_descriptor(antenna, OcaValue::String("Inactive".into()));
    assert_eq!(object.value.as_str(), Some("Inactive"));
    assert!(!object.settable);
}

#[test]
fn allocations_start_after_the_reserved_zero() {
    let mut alloc = OnoAllocator::new();
    let ono = alloc.allocate("x32-1", 1, OcaClass::Gain, "Ch 1 Gain");
    assert_ne!(ono, Ono(0));
}

#[test]
fn same_key_returns_the_same_ono_every_time() {
    let mut alloc = OnoAllocator::new();
    let first = alloc.allocate("x32-1", 3, OcaClass::Gain, "Ch 3 Gain");
    let second = alloc.allocate("x32-1", 3, OcaClass::Gain, "Ch 3 Gain");
    assert_eq!(first, second);
}

#[test]
fn different_keys_get_different_onos() {
    let mut alloc = OnoAllocator::new();
    let gain = alloc.allocate("x32-1", 1, OcaClass::Gain, "Ch 1 Gain");
    let mute = alloc.allocate("x32-1", 1, OcaClass::Mute, "Ch 1 Mute");
    let other_device = alloc.allocate("x32-2", 1, OcaClass::Gain, "Ch 1 Gain");
    let other_channel = alloc.allocate("x32-1", 2, OcaClass::Gain, "Ch 2 Gain");
    assert_ne!(gain, mute);
    assert_ne!(gain, other_device);
    assert_ne!(gain, other_channel);
}

#[test]
fn allocation_order_determines_ono_value_deterministically() {
    let mut a = OnoAllocator::new();
    let mut b = OnoAllocator::new();
    let seq = [
        ("x32-1", 1, OcaClass::Gain),
        ("x32-1", 1, OcaClass::Switch),
        ("wing-1", 2, OcaClass::Gain),
    ];
    let run = |alloc: &mut OnoAllocator| -> Vec<Ono> {
        seq.iter()
            .map(|(id, ch, class)| alloc.allocate(id, *ch, *class, "role"))
            .collect()
    };
    assert_eq!(run(&mut a), run(&mut b));
}

#[test]
fn sensor_classes_are_flagged_correctly() {
    assert!(OcaClass::LevelSensor.is_sensor());
    assert!(OcaClass::AudioLevelSensor.is_sensor());
    assert!(OcaClass::StringSensor.is_sensor());
    assert!(!OcaClass::Gain.is_sensor());
    assert!(!OcaClass::Switch.is_sensor());
}

#[test]
fn accessors_round_trip_the_matching_variant_only() {
    let v = OcaValue::F32(bits(-6.0));
    assert_eq!(v.as_f32(), Some(bits(-6.0)));
    assert_eq!(v.as_bool(), None);

    let antenna = OcaValue::String("Inactive".into());
    assert_eq!(antenna.as_str(), Some("Inactive"));
    assert_eq!(antenna.as_i32(), None);
}

#[test]
fn values_are_compared_as_numbers() {
    assert!(OcaValue::F32(bits(0.0)).same_as(&OcaValue::F32(bits(-0.0))));
    assert!(!OcaValue::F32(bits(f32::NAN)).same_as(&OcaValue::F32(bits(f32::NAN))));
    assert!(!OcaValue::F32(bits(1.0)).same_as(&OcaValue::I32(1)));
    assert!(OcaValue::String("a".into()).same_as(&OcaValue::String("a".into())));
    assert_eq!(OcaValue::Bool(true).duplicate(), OcaValue::Bool(true));
    assert_eq!(bits(2.5).to_bits(), (2.5f32).to_bits());
}

#[test]
fn object_numbers_convert_and_are_shown_in_hexadecimal() {
    assert_eq!(Ono::from(0x1008206u32).to_text(), "0x01008206");
    assert_eq!(u32::from(Ono(9)), 9);
    let a = OcaAddress::new("x", Ono(1));
    assert!(a.same_as(&a.duplicate()));
    assert!(!a.same_as(&OcaAddress::new("y", Ono(1))));
}

#[test]
fn calls_that_mean_the_same_get_the_same_number() {
    let calls = [("a", 1), ("b", 1), ("a", 1), ("a", 2), ("b", 1), ("a", 2), ("c", 1)];
    let run = || {
        let mut allocator = OnoAllocator::new();
        let number = |&(device, channel): &(&str, u16)| {
            allocator.allocate(device, channel, OcaClass::Gain, "role").0
        };
        calls.iter().map(number).collect::<Vec<u32>>()
    };
    assert_eq!(run(), vec![1, 2, 1, 3, 2, 3, 4]);
    assert_eq!(run(), run());
}
