use dante_babelbox::address::IpAddress;
use dante_babelbox::bridge::adapter::AdapterError;
use dante_babelbox::bridge::channel_mapping::{resolve, ChannelMapping};
use dante_babelbox::bridge::channel_scheme::{
    self, decode_ono, descriptors_for_channels, gain_ono, pad_ono, phantom_ono, Field,
};
use dante_babelbox::bridge::device::{default_channel_count, DeviceConfig};
use dante_babelbox::bridge::legacy_plugin_bridge::LegacyPluginBridge;
use dante_babelbox::bridge::legacy_shim::{LegacyPreampShim, PreampAction};
use dante_babelbox::bridge::plugin_registry::{
    is_dylib_candidate, to_ffi_config, PluginRegistry, RegisteredKind,
};
use dante_babelbox::bridge::types::{ChangedFields, PreampAddress, PreampEvent, PreampState};
use dante_babelbox::float32::Float32;
use dante_babelbox::oca::object::OcaAddress;
use dante_babelbox::oca::ono::Ono;
use dante_babelbox::oca::value::OcaValue;
use dante_babelbox::plugin::abi::OcaValueFfi;

fn bits(x: f32) -> Float32 {
    Float32::from_bits(x.to_bits())
}

// Channels and objects

#[test]
fn resolves_gain_and_phantom_for_a_shared_channel() {
    let mapping = ChannelMapping {
        from: PreampAddress::new("a", 1),
        to: PreampAddress::new("b", 5),
        bidirectional: true,
    };
    let from_descriptors = channel_scheme::descriptors_for_channels(4);
    let to_descriptors = channel_scheme::descriptors_for_channels(8);

    let resolved = resolve(&mapping, &from_descriptors, &to_descriptors);
    assert_eq!(resolved.len(), 2);
    assert!(resolved.iter().all(|m| m.bidirectional));
    assert_eq!(resolved[0].from, OcaAddress::new("a", channel_scheme::gain_ono(1)));
    assert_eq!(resolved[0].to, OcaAddress::new("b", channel_scheme::gain_ono(5)));
    assert_eq!(resolved[1].from, OcaAddress::new("a", channel_scheme::phantom_ono(1)));
    assert_eq!(resolved[1].to, OcaAddress::new("b", channel_scheme::phantom_ono(5)));
}

#[test]
fn skips_fields_missing_on_either_side_rather_than_erroring() {
    let mapping = ChannelMapping {
        from: PreampAddress::new("a", 1),
        to: PreampAddress::new("b", 99), // out of range for an 8-channel device
        bidirectional: false,
    };
    let from_descriptors = channel_scheme::descriptors_for_channels(4);
    let to_descriptors = channel_scheme::descriptors_for_channels(8);

    assert!(resolve(&mapping, &from_descriptors, &to_descriptors).is_empty());
}

#[test]
fn ono_encoding_round_trips_across_channels_and_fields() {
    for channel in 1..=16u16 {
        assert_eq!(decode_ono(gain_ono(channel), 16), Some((channel, Field::Gain)));
        assert_eq!(decode_ono(phantom_ono(channel), 16), Some((channel, Field::Phantom)));
        assert_eq!(decode_ono(pad_ono(channel), 16), Some((channel, Field::Pad)));
    }
}

#[test]
fn decode_ono_rejects_channels_outside_the_device_range() {
    assert_eq!(decode_ono(gain_ono(9), 8), None);
    assert_eq!(decode_ono(Ono(0), 8), None);
    // A number far beyond the last channel stands for no channel either.
    assert_eq!(decode_ono(Ono(3 * 65536 + 1), 8), None);
}

#[test]
fn descriptors_for_channels_covers_every_channel_with_three_objects_each() {
    let descriptors = descriptors_for_channels(4);
    assert_eq!(descriptors.len(), 12);
    assert!(descriptors.iter().any(|d| d.role == "Ch 2 Gain" && d.settable));
    assert!(descriptors.iter().any(|d| d.role == "Ch 4 Pad" && !d.settable));
}

#[test]
fn default_channel_count_covers_every_known_kind() {
    assert_eq!(default_channel_count("osc-x32"), Some(24));
    assert_eq!(default_channel_count("osc-wing"), Some(8));
    assert_eq!(default_channel_count("ah-tcp"), Some(64));
    assert_eq!(default_channel_count("dlive-tcp"), Some(128));
    assert_eq!(default_channel_count("yamaha-dm3"), Some(16));
    assert_eq!(default_channel_count("ah-midi"), None);
    assert_eq!(default_channel_count("yamaha"), None);
}

#[test]
fn default_channel_count_is_none_for_an_unknown_kind_rather_than_a_guess() {
    assert_eq!(default_channel_count("some-future-plugin-kind"), None);
}

#[test]
fn channel_count_prefers_explicit_override() {
    let device = DeviceConfig {
        id: "custom".into(),
        kind: "osc-x32".into(),
        address: None,
        port: None,
        is_virtual: true,
        channels: Some(4),
    };
    assert_eq!(device.channel_count(), Some(4));
}

#[test]
fn channel_count_falls_back_to_kind_default() {
    let device = DeviceConfig {
        id: "x32-foh".into(),
        kind: "osc-x32".into(),
        address: Some(IpAddress::V4(0x0a00_0001)),
        port: None,
        is_virtual: false,
        channels: None,
    };
    assert_eq!(device.channel_count(), Some(24));
}

// A preamp adapter as OCA objects

#[test]
fn legacy_plugin_bridge_describe_covers_every_channel_with_three_objects_each() {
    let bridge = LegacyPluginBridge::new("d", 4);
    assert_eq!(bridge.describe().len(), 12);
}

#[test]
fn legacy_plugin_bridge_get_and_set_object_translate_through_channel_numbers() {
    let bridge_channels = 4;
    let bridge = LegacyPluginBridge::new("d", bridge_channels);

    let gain_ono: u32 = channel_scheme::gain_ono(2).into();
    assert_eq!(
        bridge.set_object(gain_ono, OcaValueFfi::F32(bits(6.0))),
        Ok(PreampAction::SetGain { channel: 2, gain_db: bits(6.0) })
    );

    let pad_ono: u32 = channel_scheme::pad_ono(2).into();
    assert!(bridge.set_object(pad_ono, OcaValueFfi::Bool(true)).is_err());
}

#[test]
fn subscribe_translates_one_preamp_event_into_gain_and_phantom_events() {
    let mut bridge = LegacyPluginBridge::new("d", 4);
    bridge.observe(&PreampEvent {
        address: PreampAddress::new("d", 3),
        state: PreampState { gain_db: bits(1.5), phantom: true, pad: None },
        changed: ChangedFields::all(),
    });

    let mut last_gain = None;
    let mut last_phantom = None;
    for event in bridge.poll_events() {
        if event.ono == u32::from(channel_scheme::gain_ono(3)) {
            last_gain = Some(event.value.clone());
        }
        if event.ono == u32::from(channel_scheme::phantom_ono(3)) {
            last_phantom = Some(event.value.clone());
        }
    }
    assert_eq!(last_gain, Some(OcaValueFfi::F32(bits(1.5))));
    assert_eq!(last_phantom, Some(OcaValueFfi::Bool(true)));
    assert!(bridge.poll_events().is_empty());
}

#[test]
fn legacy_shim_describe_covers_every_channel_with_three_objects_each() {
    let shim = LegacyPreampShim::new("d", 4);
    assert_eq!(shim.describe().len(), 12);
    assert!(shim.describe().iter().any(|d| d.role == "Ch 2 Gain" && d.settable));
    assert!(shim.describe().iter().any(|d| d.role == "Ch 4 Pad" && !d.settable));
}

#[test]
fn legacy_shim_get_and_set_object_translate_through_channel_numbers() {
    let state = PreampState { gain_db: bits(-3.0), phantom: true, pad: Some(false) };
    let shim = LegacyPreampShim::new("d", 4);
    let read = |ono: Ono| {
        let (channel, field) = shim.get_object(ono).unwrap();
        assert_eq!(channel, 2);
        shim.object_value(channel, field, &state).unwrap()
    };

    assert_eq!(read(channel_scheme::gain_ono(2)), OcaValue::F32(bits(-3.0)));
    assert_eq!(read(channel_scheme::phantom_ono(2)), OcaValue::Bool(true));
    assert_eq!(read(channel_scheme::pad_ono(2)), OcaValue::Bool(false));

    assert_eq!(
        shim.set_object(channel_scheme::gain_ono(2), &OcaValue::F32(bits(6.0))).unwrap(),
        PreampAction::SetGain { channel: 2, gain_db: bits(6.0) }
    );

    let err =
        shim.set_object(channel_scheme::pad_ono(2), &OcaValue::Bool(true)).unwrap_err();
    assert!(matches!(err, AdapterError::Protocol(_)));
    assert_eq!(err.message(), "protocol error: channel 2's pad switch is read-only");
}

#[test]
fn subscribe_translates_one_preamp_event_into_gain_and_phantom_oca_events() {
    let shim = LegacyPreampShim::new("d", 4);
    let events = shim.relay(&PreampEvent {
        address: PreampAddress::new("d", 3),
        state: PreampState { gain_db: bits(1.5), phantom: false, pad: None },
        changed: ChangedFields::all(),
    });

    assert_eq!(events[0].object.value, OcaValue::F32(bits(1.5)));
    assert_eq!(events[1].object.value, OcaValue::Bool(false));
    // pad was None, so only two events should have been emitted.
    assert_eq!(events.len(), 2);
}

/// What a message did not report is not a reading, and is not relayed.
#[test]
fn only_what_was_reported_is_relayed() {
    let shim = LegacyPreampShim::new("d", 4);
    let mut event = PreampEvent {
        address: PreampAddress::new("d", 3),
        state: PreampState { gain_db: bits(1.5), phantom: false, pad: Some(true) },
        changed: ChangedFields::gain(),
    };
    let events = shim.relay(&event);
    assert_eq!(events.len(), 1);
    assert_eq!(events[0].object.role, "Ch 3 Gain");
    event.changed = ChangedFields::pad();
    assert_eq!(shim.relay(&event)[0].object.value, OcaValue::Bool(true));
    event.changed = ChangedFields::none();
    assert!(shim.relay(&event).is_empty());
    assert!(!event.changed.any());
    assert_eq!(ChangedFields::default(), ChangedFields::none());
}

#[test]
fn objects_that_are_not_there_are_refused() {
    let shim = LegacyPreampShim::new("d", 4);
    assert_eq!(
        shim.get_object(Ono(13)).unwrap_err().message(),
        "protocol error: no such object 0x0000000d"
    );
    let state = PreampState { gain_db: bits(0.0), phantom: false, pad: None };
    assert_eq!(
        shim.object_value(2, Field::Pad, &state).unwrap_err().message(),
        "protocol error: channel 2 has no pad switch"
    );
    assert_eq!(
        shim.set_object(gain_ono(1), &OcaValue::Bool(true)).unwrap_err().message(),
        "protocol error: gain requires an F32 value"
    );
    assert_eq!(
        shim.set_object(phantom_ono(1), &OcaValue::I32(1)).unwrap_err().message(),
        "protocol error: phantom requires a Bool value"
    );
    assert_eq!(
        AdapterError::Connection("gone".to_string()).message(),
        "connection failed: gone"
    );
    assert_eq!(
        AdapterError::UnsupportedChannel(9).message(),
        "unsupported channel: 9"
    );
    assert_eq!(AdapterError::not_connected().message(), "connection failed: not connected");
}

// Plugins by kind

#[test]
fn static_registration_is_found_by_create() {
    let mut registry = PluginRegistry::new();
    registry.register_static("mock-kind", 7);

    assert_eq!(registry.known_kinds(), vec!["mock-kind".to_string()]);
    assert_eq!(registry.create("mock-kind"), Ok(RegisteredKind::Static(7)));
}

#[test]
fn create_fails_for_an_unregistered_kind() {
    let registry = PluginRegistry::new();
    let err = match registry.create("nonexistent-kind") {
        Err(e) => e,
        Ok(_) => panic!("expected an error for an unregistered kind"),
    };
    assert!(err.contains("nonexistent-kind"));
}

#[test]
fn a_loaded_plugin_takes_over_its_kinds() {
    let mut registry = PluginRegistry::new();
    registry.register_static("a", 0);
    registry.register_dylib(3, &vec!["a".to_string(), "b".to_string()]);
    assert_eq!(registry.create("a"), Ok(RegisteredKind::Dylib(3)));
    assert_eq!(registry.create("b"), Ok(RegisteredKind::Dylib(3)));
    let mut kinds = registry.known_kinds();
    kinds.sort();
    assert_eq!(kinds, vec!["a".to_string(), "b".to_string()]);
}

#[test]
fn is_dylib_candidate_matches_known_extensions_only() {
    assert!(is_dylib_candidate("plugin.so"));
    assert!(is_dylib_candidate("plugin.dylib"));
    assert!(is_dylib_candidate("plugin.dll"));
    assert!(!is_dylib_candidate("plugin.toml"));
    assert!(!is_dylib_candidate("README.md"));
    // A file named only by an extension has none.
    assert!(!is_dylib_candidate(".so"));
}

#[test]
fn a_plugin_is_told_the_effective_channel_count() {
    let mut device = DeviceConfig {
        id: "wing-1".into(),
        kind: "osc-wing".into(),
        address: None,
        port: Some(2223),
        is_virtual: false,
        channels: None,
    };
    let told = to_ffi_config(&device, Some("10.0.0.1".to_string()));
    assert_eq!(told.id, "wing-1");
    assert_eq!(told.address.as_deref(), Some("10.0.0.1"));
    assert_eq!((told.port, told.channels), (Some(2223), Some(8)));
    device.channels = Some(2);
    assert_eq!(to_ffi_config(&device, None).channels, Some(2));
}
