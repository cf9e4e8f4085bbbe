use dante_babelbox::address::IpAddress;
use dante_babelbox::bridge::adapter::{AdapterError, DeviceInfo};
use dante_babelbox::bridge::dylib_adapter::{
    connection_reply, described_objects, goes_on, identity_reply, next_step, published_events,
    set_reply, value_reply, Command, Step, Wake,
};
use dante_babelbox::bridge::legacy_shim::PreampAction;
use dante_babelbox::bridge::types::{ChangedFields, PreampAddress, PreampEvent, PreampState};
use dante_babelbox::float32::Float32;
use dante_babelbox::oca::object::{OcaAddress, OcaObject, OcaObjectDescriptor};
use dante_babelbox::oca::ono::Ono;
use dante_babelbox::oca::value::{OcaClass, OcaValue};
use dante_babelbox::plugin::abi::{
    OcaClassFfi, OcaEventFfi, OcaObjectDescriptorFfi, OcaValueFfi, RDeviceConfig, RDeviceInfo,
};
use dante_babelbox::plugin::kinds::{create_adapter, Plugin};
use dante_babelbox::plugin::x32::{
    decode_ono, gain_ono, phantom_ono, X32PluginAdapter, CHANNELS,
};

fn bits(x: f32) -> Float32 {
    Float32::from_bits(x.to_bits())
}

fn config(id: &str, address: Option<&str>) -> RDeviceConfig {
    RDeviceConfig {
        id: id.to_string(),
        address: address.map(|a| a.to_string()),
        port: None,
        channels: None,
    }
}

// The boundary

#[test]
fn ffi_class_round_trips_every_variant() {
    let classes = [
        OcaClass::Gain,
        OcaClass::Mute,
        OcaClass::Switch,
        OcaClass::Polarity,
        OcaClass::Delay,
        OcaClass::BasicSensor,
        OcaClass::LevelSensor,
        OcaClass::AudioLevelSensor,
        OcaClass::BooleanSensor,
        OcaClass::Int32Sensor,
        OcaClass::StringSensor,
    ];
    for class in classes {
        let ffi: OcaClassFfi = class.into();
        let back: OcaClass = ffi.into();
        assert_eq!(class, back);
    }
}

#[test]
fn ffi_value_round_trips_every_variant() {
    for value in [
        OcaValue::F32(bits(-6.0)),
        OcaValue::I32(80),
        OcaValue::Bool(true),
        OcaValue::String("Inactive".into()),
    ] {
        let ffi: OcaValueFfi = value.clone().into();
        let back: OcaValue = ffi.into();
        assert_eq!(value, back);
    }
}

#[test]
fn ffi_descriptor_round_trips() {
    let descriptor = OcaObjectDescriptor {
        ono: Ono(42),
        class: OcaClass::Gain,
        role: "Ch 1 Gain".into(),
        settable: true,
    };
    let ffi: OcaObjectDescriptorFfi = descriptor.clone().into();
    let back: OcaObjectDescriptor = ffi.into();
    assert_eq!(descriptor, back);
}

#[test]
fn ffi_event_round_trips_through_object_and_device_id() {
    let object = OcaObject {
        ono: Ono(7),
        class: OcaClass::AudioLevelSensor,
        role: "Audio Level".into(),
        settable: false,
        value: OcaValue::F32(bits(-20.0)),
    };
    let ffi = OcaEventFfi::from_event("shure-1", object.clone());
    let (device_id, back) = ffi.into_object();
    assert_eq!(device_id, "shure-1");
    assert_eq!(back, object);
}

// What the plugins declare

#[test]
fn plugin_info_declares_the_dlive_tcp_kind() {
    let info = Plugin::DliveTcp.plugin_info();
    assert_eq!(info.supported_kinds, vec!["dlive-tcp".to_string()]);
    assert_eq!(Plugin::DliveTcp.kind(), "dlive-tcp");
}

#[test]
fn plugin_info_declares_the_osc_wing_kind() {
    assert_eq!(Plugin::OscWing.plugin_info().supported_kinds, vec!["osc-wing".to_string()]);
}

#[test]
fn plugin_info_declares_the_osc_x32_kind() {
    assert_eq!(Plugin::OscX32.plugin_info().supported_kinds, vec!["osc-x32".to_string()]);
}

#[test]
fn plugin_info_declares_the_rednet_kind() {
    let info = Plugin::RednetAes70.plugin_info();
    assert_eq!(info.supported_kinds, vec!["rednet-aes70".to_string()]);
    assert_eq!(info.vendor.as_str(), "Focusrite");
}

#[test]
fn plugin_info_declares_the_sennheiser_ewg3_kind() {
    let info = Plugin::SennheiserEwg3.plugin_info();
    assert_eq!(info.supported_kinds, vec!["sennheiser-ewg3".to_string()]);
}

#[test]
fn plugin_info_declares_the_scp_kind() {
    let info = Plugin::YamahaDm3Scp.plugin_info();
    assert_eq!(info.supported_kinds, vec!["yamaha-dm3-scp".to_string()]);
}

#[test]
fn plugin_info_declares_the_yamaha_dm3_kind() {
    assert_eq!(Plugin::YamahaDm3.plugin_info().supported_kinds, vec!["yamaha-dm3".to_string()]);
}

#[test]
fn lib_create_adapter_requires_an_address() {
    for (plugin, id) in [
        (Plugin::DliveTcp, "dlive-1"),
        (Plugin::OscWing, "wing-1"),
        (Plugin::RednetAes70, "rednet-1"),
        (Plugin::SennheiserEwg3, "g3-1"),
        (Plugin::YamahaDm3Scp, "dm3-1"),
        (Plugin::YamahaDm3, "dm3-1"),
    ] {
        let asked = create_adapter(plugin, &config(id, None), Err("no address".to_string()));
        let why = asked.unwrap_err();
        assert_eq!(why, format!("device '{id}': {} requires an address", plugin.kind()));
    }
}

#[test]
fn create_adapter_rejects_a_malformed_address() {
    let asked = create_adapter(
        Plugin::RednetAes70,
        &config("rednet-1", Some("not-an-ip")),
        Err("invalid IP address syntax".to_string()),
    );
    assert_eq!(
        asked.unwrap_err(),
        "device 'rednet-1': invalid address: invalid IP address syntax"
    );
}

#[test]
fn create_adapter_rejects_a_non_ipv4_address() {
    let asked = create_adapter(
        Plugin::SennheiserEwg3,
        &config("g3-1", Some("not-an-ip")),
        Err("invalid IPv4 address syntax".to_string()),
    );
    assert_eq!(
        asked.unwrap_err(),
        "device 'g3-1': invalid IPv4 address 'not-an-ip': invalid IPv4 address syntax"
    );
}

#[test]
fn create_adapter_accepts_a_valid_receiver_address() {
    let plan = create_adapter(
        Plugin::SennheiserEwg3,
        &config("g3-1", Some("192.168.0.101")),
        Ok(IpAddress::V4(0xc0a8_0065)),
    )
    .unwrap();
    assert_eq!(plan.address, IpAddress::V4(0xc0a8_0065));
    assert_eq!((plan.port, plan.channels), (8133, Some(1)));
}

#[test]
fn ports_and_channels_come_from_the_configuration_where_they_may() {
    let ip = IpAddress::V4(0x7f00_0001);
    let mut asked = config("d", Some("127.0.0.1"));
    for (plugin, port, channels) in [
        (Plugin::DliveTcp, 51325, Some(128)),
        (Plugin::OscWing, 2223, Some(8)),
        (Plugin::OscX32, 10023, Some(24)),
        (Plugin::YamahaDm3, 49900, Some(16)),
        (Plugin::YamahaDm3Scp, 49280, Some(16)),
        (Plugin::RednetAes70, 65000, None),
    ] {
        let plan = create_adapter(plugin, &asked, Ok(ip)).unwrap();
        assert_eq!((plan.port, plan.channels), (port, channels), "{plugin:?}");
    }
    asked.port = Some(9);
    asked.channels = Some(3);
    let plan = create_adapter(Plugin::OscWing, &asked, Ok(ip)).unwrap();
    assert_eq!((plan.port, plan.channels), (9, Some(3)));
    let plan = create_adapter(Plugin::OscX32, &asked, Ok(ip)).unwrap();
    assert_eq!((plan.port, plan.channels), (9, Some(24)));
}

// The X32

#[test]
fn ono_encoding_round_trips_across_channels() {
    for channel in 1..=CHANNELS {
        assert_eq!(decode_ono(gain_ono(channel)), Some((channel, true)));
        assert_eq!(decode_ono(phantom_ono(channel)), Some((channel, false)));
    }
}

#[test]
fn decode_ono_rejects_out_of_range_and_zero() {
    assert_eq!(decode_ono(Ono(0)), None);
    assert_eq!(decode_ono(gain_ono(CHANNELS + 1)), None);
}

#[test]
fn describe_reports_two_objects_per_channel() {
    let plugin = X32PluginAdapter::new("x32-1");
    let objects = plugin.describe();
    assert_eq!(objects.len(), CHANNELS as usize * 2);
    assert!(objects.iter().any(|o| o.role.as_str() == "Ch 3 Gain" && o.settable));
    assert!(objects.iter().any(|o| o.role.as_str() == "Ch 3 Phantom" && o.settable));
}

#[test]
fn the_x32_plugin_relays_what_was_reported_and_plans_what_is_asked() {
    let mut plugin = X32PluginAdapter::new("x32-1");
    let state = PreampState { gain_db: bits(-6.0), phantom: true, pad: None };
    plugin.observe(&PreampEvent {
        address: PreampAddress::new("x32-1", 3),
        state,
        changed: ChangedFields::gain(),
    });
    plugin.observe(&PreampEvent {
        address: PreampAddress::new("x32-1", 3),
        state,
        changed: ChangedFields::phantom(),
    });
    let events = plugin.poll_events();
    assert_eq!(events.len(), 2);
    assert_eq!(events[0].ono, u32::from(gain_ono(3)));
    assert_eq!(events[0].value, OcaValueFfi::F32(bits(-6.0)));
    assert_eq!(events[1].ono, u32::from(phantom_ono(3)));
    assert_eq!(events[1].value, OcaValueFfi::Bool(true));
    assert!(plugin.poll_events().is_empty());

    assert_eq!(
        plugin.set_object(gain_ono(3).into(), OcaValueFfi::F32(bits(3.5))),
        Ok(PreampAction::SetGain { channel: 3, gain_db: bits(3.5) })
    );
    assert_eq!(plugin.get_object(phantom_ono(3).into()), Ok((3, false)));
    assert_eq!(plugin.object_value(false, &state), OcaValueFfi::Bool(true));
    assert_eq!(plugin.get_object(0).unwrap_err(), "no such object 0x00000000");
    assert_eq!(
        plugin.set_object(gain_ono(3).into(), OcaValueFfi::Bool(true)).unwrap_err(),
        "gain requires an F32 value"
    );
}

// The thread of a device instance

#[test]
fn a_command_leads_to_its_call() {
    let set = Command::SetObject(Ono(7), OcaValue::Bool(true));
    let steps = [
        (Command::Connect, Step::Connect, true),
        (Command::Disconnect, Step::Disconnect, false),
        (Command::Identify, Step::Identify, true),
        (Command::GetObject(Ono(7)), Step::GetObject(7), true),
        (set, Step::SetObject(7, OcaValueFfi::Bool(true)), true),
    ];
    for (command, step, going_on) in steps {
        assert_eq!(next_step(Wake::Command(command)), step);
        assert_eq!(goes_on(&step), going_on);
    }
    assert_eq!(next_step(Wake::Timeout), Step::Poll);
    assert!(goes_on(&Step::Poll));
    assert_eq!(next_step(Wake::Disconnected), Step::Stop);
    assert!(!goes_on(&Step::Stop));
}

#[test]
fn what_a_plugin_returns_becomes_the_answer() {
    let why = || "gone".to_string();
    assert_eq!(connection_reply(Ok(())), Ok(()));
    assert_eq!(connection_reply(Err(why())), Err(AdapterError::Connection(why())));
    assert_eq!(set_reply(Ok(())), Ok(()));
    assert_eq!(set_reply(Err(why())), Err(AdapterError::Protocol(why())));
    assert_eq!(value_reply(Ok(OcaValueFfi::I32(3))), Ok(OcaValue::I32(3)));
    assert_eq!(value_reply(Err(why())), Err(AdapterError::Protocol(why())));

    let info = || RDeviceInfo {
        vendor: "Acme".to_string(),
        model: "Eight".to_string(),
        address: "127.0.0.1".to_string(),
    };
    let address = IpAddress::V4(0x7f00_0001);
    assert_eq!(
        identity_reply(Ok((info(), Ok(address)))),
        Ok(DeviceInfo { vendor: "Acme".to_string(), model: "Eight".to_string(), address })
    );
    assert_eq!(
        identity_reply(Ok((info(), Err("invalid IP address syntax".to_string())))),
        Err(AdapterError::Protocol(
            "plugin returned an unparsable address: invalid IP address syntax".to_string()
        ))
    );
    assert_eq!(identity_reply(Err(why())), Err(AdapterError::Protocol(why())));
}

#[test]
fn queued_events_are_published_in_order_under_their_objects_addresses() {
    let event = |ono: u32, on: bool| OcaEventFfi {
        device_id: "amp-1".to_string(),
        ono,
        class: OcaClassFfi::Switch,
        role: "Ch 1 Phantom".to_string(),
        settable: true,
        value: OcaValueFfi::Bool(on),
    };
    let published = published_events(vec![event(5, true), event(4, false)]);
    assert_eq!(published.len(), 2);
    assert_eq!(published[0].address, OcaAddress::new("amp-1", Ono(5)));
    assert_eq!(published[0].object.value, OcaValue::Bool(true));
    assert_eq!(published[1].address, OcaAddress::new("amp-1", Ono(4)));
    assert_eq!(published[1].object.class, OcaClass::Switch);

    let described = described_objects(vec![OcaObjectDescriptorFfi {
        ono: 5,
        class: OcaClassFfi::Gain,
        role: "Ch 1 Gain".to_string(),
        settable: true,
    }]);
    assert_eq!(
        described,
        vec![OcaObjectDescriptor {
            ono: Ono(5),
            class: OcaClass::Gain,
            role: "Ch 1 Gain".to_string(),
            settable: true,
        }]
    );
}
