use dante_babelbox::address::IpAddress;
use dante_babelbox::bridge::adapter::AdapterError;
use dante_babelbox::bridge::legacy_shim::PreampAction;
use dante_babelbox::bridge::types::{ChangedFields, PreampAddress, PreampEvent, PreampState};
use dante_babelbox::float32::Float32;
use dante_babelbox::osc::x32::{
    parse_headamp_addr, parse_info, parse_message, Headamp, HeadampField, HeadampUpdate, Level,
    X32Adapter,
};
use dante_babelbox::osc::{read_packet, Arg, Packet};
use dante_babelbox::plugin::abi::OcaValueFfi;
use dante_babelbox::plugin::x32::{gain_ono, phantom_ono, X32PluginAdapter};

#[test]
fn headamp_path_zero_pads_and_rejects_out_of_range() {
    assert_eq!(X32Adapter::headamp_path(1, "gain").unwrap(), "/headamp/01/gain");
    assert_eq!(X32Adapter::headamp_path(24, "phantom").unwrap(), "/headamp/24/phantom");
    assert!(X32Adapter::headamp_path(0, "gain").is_err());
    assert!(X32Adapter::headamp_path(25, "gain").is_err());
}

#[test]
fn parse_headamp_addr_round_trips_known_paths() {
    assert!(matches!(
        parse_headamp_addr("/headamp/01/gain"),
        Some((1, HeadampField::Gain))
    ));
    assert!(matches!(
        parse_headamp_addr("/headamp/24/phantom"),
        Some((24, HeadampField::Phantom))
    ));
    assert!(parse_headamp_addr("/ch/01/mix/fader").is_none());
    assert!(parse_headamp_addr("/headamp/01/pad").is_none());
}

#[test]
fn every_headamp_address_names_what_it_was_made_for() {
    for channel in 1..=24u16 {
        let gain = X32Adapter::headamp_path(channel, "gain").unwrap();
        assert_eq!(parse_headamp_addr(&gain), Some((channel, HeadampField::Gain)));
        let phantom = X32Adapter::headamp_path(channel, "phantom").unwrap();
        assert_eq!(parse_headamp_addr(&phantom), Some((channel, HeadampField::Phantom)));
    }
    assert_eq!(parse_headamp_addr("/headamp/"), None);
    assert_eq!(parse_headamp_addr("/headamp/x/gain"), None);
    assert_eq!(parse_headamp_addr("/headamp/70000/gain"), None);
}

fn osc(addr: &str, args: Vec<rosc::OscType>) -> Vec<u8> {
    let message = rosc::OscMessage { addr: addr.to_string(), args };
    rosc::encoder::encode(&rosc::OscPacket::Message(message)).unwrap()
}

fn text(s: &str) -> rosc::OscType {
    rosc::OscType::String(s.to_string())
}

fn bits(x: f32) -> Float32 {
    Float32::from_bits(x.to_bits())
}

#[test]
fn osc_messages_have_the_documented_octets() {
    assert_eq!(
        X32Adapter::set_phantom(3, true).unwrap(),
        b"/headamp/03/phantom\0,i\0\0\0\0\0\x01".to_vec()
    );
    assert_eq!(
        X32Adapter::set_phantom(24, false).unwrap(),
        b"/headamp/24/phantom\0,i\0\0\0\0\0\0".to_vec()
    );
    assert_eq!(X32Adapter::heartbeat(), b"/xremote\0\0\0\0,\0\0\0".to_vec());
    assert_eq!(
        X32Adapter::state_requests(1).unwrap(),
        vec![
            b"/headamp/01/gain\0\0\0\0,\0\0\0".to_vec(),
            b"/headamp/01/phantom\0,\0\0\0".to_vec(),
        ]
    );
    assert_eq!(X32Adapter::state_requests(25), Err(AdapterError::UnsupportedChannel(25)));
    assert_eq!(X32Adapter::set_phantom(0, true), Err(AdapterError::UnsupportedChannel(0)));
}

/// What was written is read by the same crate as the message that it was.
#[test]
fn osc_messages_are_read_back() {
    let packet = read_packet(&X32Adapter::set_phantom(3, true).unwrap()).unwrap();
    assert_eq!(
        packet,
        Packet::Message { addr: "/headamp/03/phantom".to_string(), args: vec![Arg::Int(1)] }
    );
    let packet = read_packet(&X32Adapter::heartbeat()).unwrap();
    assert_eq!(packet, Packet::Message { addr: "/xremote".to_string(), args: vec![] });
    assert!(read_packet(b"no packet").is_none());
    assert!(read_packet(b"").is_none());
}

#[test]
fn osc_bundles_and_argument_types_are_told_apart() {
    let message = rosc::OscPacket::Message(rosc::OscMessage {
        addr: "/headamp/02/gain".to_string(),
        args: vec![
            rosc::OscType::Float(12.5),
            rosc::OscType::String("x".to_string()),
            rosc::OscType::Int(-3),
            rosc::OscType::Nil,
        ],
    });
    let bundle = rosc::OscPacket::Bundle(rosc::OscBundle {
        timetag: rosc::OscTime { seconds: 1, fractional: 2 },
        content: vec![message.clone(), message],
    });
    let octets = rosc::encoder::encode(&bundle).unwrap();
    let inner = || Packet::Message {
        addr: "/headamp/02/gain".to_string(),
        args: vec![
            Arg::Float(bits(12.5)),
            Arg::Text("x".to_string()),
            Arg::Int(-3),
            Arg::Other,
        ],
    };
    assert_eq!(read_packet(&octets), Some(Packet::Bundle(vec![inner(), inner()])));
}

#[test]
fn x32_updates_flow_from_datagrams_to_events() {
    let mut adapter = X32Adapter::new("x32-1", IpAddress::V4(0x7f00_0001));
    assert_eq!(adapter.id(), "x32-1");
    let gain = rosc::OscPacket::Message(rosc::OscMessage {
        addr: "/headamp/07/gain".to_string(),
        args: vec![rosc::OscType::Float(32.5)],
    });
    let phantom = rosc::OscPacket::Message(rosc::OscMessage {
        addr: "/headamp/07/phantom".to_string(),
        args: vec![rosc::OscType::Int(1)],
    });
    let bundle = rosc::OscPacket::Bundle(rosc::OscBundle {
        timetag: rosc::OscTime { seconds: 0, fractional: 0 },
        content: vec![gain, phantom],
    });
    let events = adapter.receive(&rosc::encoder::encode(&bundle).unwrap());
    assert_eq!(events.len(), 2);
    assert_eq!(events[0].address, PreampAddress::new("x32-1", 7));
    assert_eq!(
        events[0].state,
        Headamp { gain: Some(Level::Float(bits(32.5))), phantom: false }
    );
    assert_eq!(events[0].changed, ChangedFields::gain());
    assert_eq!(
        events[1].state,
        Headamp { gain: Some(Level::Float(bits(32.5))), phantom: true }
    );
    assert_eq!(adapter.get_state(7, 0), Some(Ok(events[1].state)));
    assert_eq!(adapter.get_state(8, 19), None);
    assert_eq!(
        adapter.get_state(8, 20),
        Some(Err(AdapterError::Protocol("no reply for channel 8 headamp state".to_string())))
    );
    assert!(adapter.receive(b"garbage").is_empty());
    assert_eq!(adapter.get_state(7, 0), Some(Ok(events[1].state)));
}

#[test]
fn a_setting_that_is_sent_back_is_reported() {
    let mut x32 = X32Adapter::new("x32", IpAddress::V4(0x7f00_0001));
    for channel in 1..=24u16 {
        for on in [true, false] {
            let events = x32.receive(&X32Adapter::set_phantom(channel, on).unwrap());
            assert_eq!(events.len(), 1);
            assert_eq!(events[0].address, PreampAddress::new("x32", channel));
            assert_eq!(events[0].state.phantom, on);
            assert_eq!(events[0].changed, ChangedFields::phantom());
        }
    }
}

#[test]
fn phantom_is_on_for_any_number_but_zero() {
    let addr = "/headamp/01/phantom";
    let on = Some((1, HeadampUpdate::Phantom(true)));
    let off = Some((1, HeadampUpdate::Phantom(false)));
    assert_eq!(parse_message(addr, &[Arg::Int(2)]), on);
    assert_eq!(parse_message(addr, &[Arg::Int(0)]), off);
    assert_eq!(parse_message(addr, &[Arg::Float(bits(0.5))]), on);
    assert_eq!(parse_message(addr, &[Arg::Float(bits(-0.0))]), off);
    assert_eq!(parse_message(addr, &[Arg::Float(bits(f32::NAN))]), on);
    assert_eq!(parse_message(addr, &[Arg::Other]), None);
    assert_eq!(parse_message(addr, &[]), None);
    assert_eq!(parse_message("/headamp/01/gain", &[Arg::Int(-4)]), Some((1, HeadampUpdate::Gain(Level::Int(-4)))));
}

/// A console that answers `/info`, then reports a knob and a switch on channel 3.
#[test]
fn connect_identify_set_and_poll_events_round_trip_through_a_mock_x32() {
    let mut inner = X32Adapter::new("x32-1", IpAddress::V4(0x7f00_0001));
    let mut plugin = X32PluginAdapter::new("x32-1");

    assert_eq!(X32Adapter::info_request(), b"/info\0\0\0,\0\0\0".to_vec());
    assert_eq!(inner.identify(0), None);
    let reply = osc("/info", vec![text("V2.05"), text("osc-server"), text("X32"), text("2.12")]);
    assert!(inner.receive(&reply).is_empty());
    let info = inner.identify(0).unwrap().unwrap();
    assert_eq!(info.model.as_str(), "X32");
    assert_eq!(info.address, IpAddress::V4(0x7f00_0001));

    let mut last_gain = None;
    let mut last_phantom = None;
    for datagram in [
        osc("/headamp/03/gain", vec![rosc::OscType::Float(-6.0)]),
        osc("/headamp/03/phantom", vec![rosc::OscType::Int(1)]),
    ] {
        for event in inner.receive(&datagram) {
            let gain_db = match event.state.gain {
                Some(Level::Float(x)) => x,
                _ => bits(0.0),
            };
            let state = PreampState { gain_db, phantom: event.state.phantom, pad: None };
            plugin.observe(&PreampEvent { address: event.address, state, changed: event.changed });
        }
        for event in plugin.poll_events() {
            if event.ono == u32::from(gain_ono(3)) {
                last_gain = Some(event.value.clone());
            }
            if event.ono == u32::from(phantom_ono(3)) {
                last_phantom = Some(event.value.clone());
            }
        }
    }
    assert_eq!(last_gain, Some(OcaValueFfi::F32(bits(-6.0))), "expected the settled gain OcaEvent");
    assert_eq!(
        last_phantom,
        Some(OcaValueFfi::Bool(true)),
        "expected the settled phantom OcaEvent"
    );

    let asked = plugin.set_object(gain_ono(3).into(), OcaValueFfi::F32(bits(3.5)));
    assert_eq!(asked, Ok(PreampAction::SetGain { channel: 3, gain_db: bits(3.5) }));
    assert_eq!(X32Adapter::headamp_path(3, "gain").unwrap(), "/headamp/03/gain");
}

#[test]
fn a_console_that_does_not_answer_has_no_identity() {
    let adapter = X32Adapter::new("x32-1", IpAddress::V4(0x7f00_0001));
    assert_eq!(adapter.identify(19), None);
    assert_eq!(
        adapter.identify(20),
        Some(Err(AdapterError::Protocol("identify: no reply to /info".to_string())))
    );
    assert_eq!(parse_info("/info", &[Arg::Other, Arg::Other]), None);
    assert_eq!(parse_info("/info", &[Arg::Other, Arg::Other, Arg::Int(3)]), None);
    let model = || Arg::Text("M32".to_string());
    assert_eq!(parse_info("/info", &[Arg::Other, Arg::Other, model()]), Some("M32".to_string()));
    assert_eq!(parse_info("/status", &[Arg::Other, Arg::Other, model()]), None);
}
