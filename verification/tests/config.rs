use dante_babelbox::address::IpAddress;
use dante_babelbox::bridge::channel_mapping::ChannelMapping;
use dante_babelbox::bridge::types::PreampAddress;
use dante_babelbox::config::{Config, DeviceConfig, DeviceKind};

fn device(id: &str, kind: DeviceKind, address: u32, port: Option<u16>) -> DeviceConfig {
    DeviceConfig { id: id.to_string(), kind, address: IpAddress::V4(address), port }
}

fn mapping(from: (&str, u16), to: (&str, u16), bidirectional: bool) -> ChannelMapping {
    ChannelMapping {
        from: PreampAddress::new(from.0, from.1),
        to: PreampAddress::new(to.0, to.1),
        bidirectional,
    }
}

#[test]
fn parses_and_validates_example_config() {
    let cfg = Config {
        devices: vec![
            device("sq-foh", DeviceKind::AhMidi, 0x0a00_000a, None),
            device("x32-monitors", DeviceKind::OscX32, 0x0a00_0014, Some(10023)),
        ],
        mappings: vec![mapping(("sq-foh", 3), ("x32-monitors", 7), true)],
    };
    assert!(cfg.validate().is_ok());
    assert_eq!(cfg.devices.len(), 2);
    assert_eq!(cfg.mappings.len(), 1);
    assert_eq!(cfg.devices[1].kind, DeviceKind::OscX32);
    assert_eq!(cfg.devices[1].port, Some(10023));
    assert!(cfg.mappings[0].bidirectional);
}

#[test]
fn rejects_mapping_to_unknown_device() {
    let cfg = Config {
        devices: vec![device("sq-foh", DeviceKind::AhMidi, 0x0a00_000a, None)],
        mappings: vec![mapping(("sq-foh", 3), ("does-not-exist", 7), false)],
    };
    assert!(cfg.validate().is_err());
    assert_eq!(
        cfg.validate().unwrap_err(),
        "mapping references unknown device id 'does-not-exist'"
    );
}

#[test]
fn rejects_two_devices_with_one_id_before_looking_at_mappings() {
    let cfg = Config {
        devices: vec![
            device("a", DeviceKind::Yamaha, 1, None),
            device("b", DeviceKind::AhTcp, 2, None),
            device("b", DeviceKind::OscWing, 3, None),
            device("a", DeviceKind::DliveTcp, 4, None),
        ],
        mappings: vec![mapping(("x", 1), ("y", 1), false)],
    };
    assert_eq!(cfg.validate().unwrap_err(), "duplicate device id 'b' in config");
    let cfg = Config {
        devices: vec![device("a", DeviceKind::YamahaDm3, 1, None)],
        mappings: vec![mapping(("a", 1), ("a", 2), false), mapping(("x", 1), ("y", 1), false)],
    };
    assert_eq!(cfg.validate().unwrap_err(), "mapping references unknown device id 'x'");
}

#[test]
fn a_bad_edit_leaves_the_previous_configuration_in_force() {
    let with = |to: u16, name: &str| Config {
        devices: vec![
            device("sq-foh", DeviceKind::AhMidi, 0x0a00_000a, None),
            device("x32-monitors", DeviceKind::OscX32, 0x0a00_0014, Some(10023)),
        ],
        mappings: vec![mapping(("sq-foh", 3), (name, to), true)],
    };
    let mut in_force = with(7, "x32-monitors");
    assert_eq!(in_force.reload(Ok(with(9, "x32-monitors"))), Ok(()));
    assert_eq!(in_force.mappings[0].to.channel, 9);
    assert_eq!(
        in_force.reload(Ok(with(11, "does-not-exist"))),
        Err("mapping references unknown device id 'does-not-exist'".to_string())
    );
    assert_eq!(in_force.mappings[0].to.channel, 9);
    assert_eq!(in_force.reload(Err("half written".to_string())), Err("half written".to_string()));
    assert_eq!(in_force.mappings[0].to.channel, 9);
}
