use dante_babelbox::float32::Float32;
use dante_babelbox::oca::value::{OcaClass, OcaValue};
use dante_babelbox::ocp1::classes::{
    block, level, root, single_value, subscription, ClassIdentification,
};
use dante_babelbox::ocp1::client::Client;
use dante_babelbox::ocp1::enumerate::{DiscoveredObject, Walk};
use dante_babelbox::ocp1::error::Error;
use dante_babelbox::ocp1::ono::Ono;
use dante_babelbox::ocp1::pdu::{
    decode_pdu, encode_response, Command, Message, Notification, Response,
};
use dante_babelbox::ocp1::value::Writer;
use dante_babelbox::plugin::abi::OcaValueFfi;
use dante_babelbox::rednet::adapter::{
    decode, host_class, number_params, to_entry, RedNetAdapter, Write,
};
use dante_babelbox::rednet::roles::{canonical, channel_number, classify, Field};
use std::collections::HashMap;

fn bits(x: f32) -> Float32 {
    Float32::from_bits(x.to_bits())
}

fn class(fields: &[u16]) -> ClassIdentification {
    ClassIdentification { fields: fields.to_vec(), version: 2 }
}

fn discovered(ono: u32, fields: &[u16], role: &str, path: &[&str]) -> DiscoveredObject {
    DiscoveredObject {
        ono: Ono(ono),
        class: class(fields),
        role: role.to_string(),
        path: path.iter().map(|s| s.to_string()).collect(),
    }
}

// Objects

#[test]
fn gain_objects_become_settable_channel_roles() {
    let entry = to_entry(&discovered(0x1001, &[1, 1, 1, 5], "Gain", &["Input 3"])).unwrap();
    assert_eq!(entry.role, "Ch 3 Gain");
    assert_eq!(entry.class, OcaClass::Gain);
    assert_eq!(entry.def_level, level::GAIN);
    assert!(entry.settable);
    assert!(!entry.as_bool);
}

#[test]
fn a_phantom_switch_is_presented_as_a_boolean() {
    let entry =
        to_entry(&discovered(0x1002, &[1, 1, 1, 4], "Phantom Power", &["Input 3"])).unwrap();
    assert_eq!(entry.role, "Ch 3 Phantom");
    assert!(entry.as_bool);
    assert_eq!(decode(&entry, &[0x00, 0x01]).unwrap(), OcaValue::Bool(true));
    assert_eq!(decode(&entry, &[0x00, 0x00]).unwrap(), OcaValue::Bool(false));
}

/// An input impedance selector has more than two states and would be destroyed by being squeezed
/// into a bool.
#[test]
fn a_non_phantom_switch_keeps_its_position() {
    let entry = to_entry(&discovered(0x1003, &[1, 1, 1, 4], "Impedance", &["Input 3"])).unwrap();
    assert_eq!(entry.role, "Input 3/Impedance");
    assert!(!entry.as_bool);
    assert_eq!(decode(&entry, &[0x00, 0x02]).unwrap(), OcaValue::I32(2));
}

#[test]
fn sensors_are_not_settable() {
    let entry = to_entry(&discovered(0x1004, &[1, 1, 2, 2, 1], "Level", &["Input 3"])).unwrap();
    assert_eq!(entry.class, OcaClass::AudioLevelSensor);
    assert!(!entry.settable);
    assert_eq!(
        decode(&entry, &(-20.0f32).to_be_bytes()).unwrap(),
        OcaValue::F32(bits(-20.0))
    );
}

#[test]
fn vendor_classes_are_dropped_rather_than_guessed() {
    assert!(to_entry(&discovered(0x2001, &[1, 1, 1, 128, 3], "Mystery", &[])).is_none());
    assert!(host_class(&class(&[1, 1, 1, 128, 3])).is_none());
}

#[test]
fn unmatched_objects_keep_the_devices_own_naming() {
    let entry =
        to_entry(&discovered(0x1005, &[1, 1, 2, 1, 3], "Sample Rate", &["Device"])).unwrap();
    assert_eq!(entry.role, "Device/Sample Rate");
}

#[test]
fn mute_and_polarity_follow_the_aes70_state_encodings() {
    let mute = to_entry(&discovered(0x1006, &[1, 1, 1, 2], "Mute", &[])).unwrap();
    assert_eq!(decode(&mute, &[1]).unwrap(), OcaValue::Bool(true)); // Muted
    assert_eq!(decode(&mute, &[2]).unwrap(), OcaValue::Bool(false)); // Unmuted

    let polarity = to_entry(&discovered(0x1007, &[1, 1, 1, 3], "Polarity", &[])).unwrap();
    assert_eq!(decode(&polarity, &[1]).unwrap(), OcaValue::Bool(false)); // Non-inverted
    assert_eq!(decode(&polarity, &[2]).unwrap(), OcaValue::Bool(true)); // Inverted
}

#[test]
fn a_truncated_value_is_an_error_not_a_panic() {
    let entry = to_entry(&discovered(0x1008, &[1, 1, 1, 5], "Gain", &["Input 1"])).unwrap();
    assert!(decode(&entry, &[0x00, 0x01]).is_err());
}

// A device, end to end

/// A device with one root block of two input blocks, each with a gain and a phantom switch.
struct MockDevice {
    gains: HashMap<u32, f32>,
}

const ROOT_BLOCK: u32 = 100;
const INPUT_BLOCK: [u32; 2] = [0x1000, 0x2000];
const GAIN_ONO: [u32; 2] = [0x1001, 0x2001];
const PHANTOM_ONO: [u32; 2] = [0x1002, 0x2002];

fn object_identification(w: &mut Writer, ono: u32, fields: &[u16]) {
    w.u32(ono).u16(fields.len() as u16);
    for f in fields {
        w.u16(*f);
    }
    w.u32(2);
}

impl MockDevice {
    fn members(&self, container: u32) -> Option<Vec<u8>> {
        let mut w = Writer::new();
        match container {
            ROOT_BLOCK => {
                w.u16(2);
                for block in INPUT_BLOCK {
                    object_identification(&mut w, block, &[1, 1, 3]);
                }
            }
            _ => {
                let index = INPUT_BLOCK.iter().position(|b| *b == container)?;
                w.u16(2);
                object_identification(&mut w, GAIN_ONO[index], &[1, 1, 1, 5]);
                object_identification(&mut w, PHANTOM_ONO[index], &[1, 1, 1, 4]);
            }
        }
        Some(w.finish())
    }

    fn role(&self, ono: u32) -> Option<String> {
        Some(match ono {
            ROOT_BLOCK => "Device".into(),
            _ if INPUT_BLOCK.contains(&ono) => {
                let index = INPUT_BLOCK.iter().position(|b| *b == ono)?;
                format!("Input {}", index + 1)
            }
            _ if GAIN_ONO.contains(&ono) => "Gain".into(),
            _ if PHANTOM_ONO.contains(&ono) => "Phantom Power".into(),
            _ => return None,
        })
    }

    fn handle(&mut self, cmd: &Command) -> Result<Vec<u8>, u8> {
        // Only the primary GetMembers index is implemented.
        if cmd.method == block::get_members() {
            return self.members(cmd.target).ok_or(5);
        }
        if cmd.method.def_level == level::BLOCK {
            return Err(11); // BadMethod
        }
        if cmd.method == root::get_role() {
            let role = self.role(cmd.target).ok_or(5u8)?;
            let mut w = Writer::new();
            w.string(&role);
            return Ok(w.finish());
        }
        if cmd.method == subscription::add_subscription() {
            return Ok(Vec::new());
        }
        if cmd.method == single_value::get(level::GAIN) && GAIN_ONO.contains(&cmd.target) {
            let gain = *self.gains.get(&cmd.target).unwrap_or(&0.0);
            return Ok(gain.to_be_bytes().to_vec());
        }
        if cmd.method == single_value::set(level::GAIN) && GAIN_ONO.contains(&cmd.target) {
            let value = f32::from_be_bytes(cmd.params[..4].try_into().map_err(|_| 4u8)?);
            self.gains.insert(cmd.target, value);
            return Ok(Vec::new());
        }
        if cmd.method == single_value::get(level::SWITCH) && PHANTOM_ONO.contains(&cmd.target) {
            return Ok(vec![0, 1]); // phantom on
        }
        Err(8) // NotImplemented
    }

    /// Carries out one command that a client framed, all the way over the wire.
    fn answer(&mut self, client: &mut Client, frame: &[u8]) -> Result<Vec<u8>, Error> {
        let sent = decode_pdu(frame).unwrap();
        let [Message::Command(cmd)] = sent.as_slice() else {
            panic!("unexpected {sent:?}");
        };
        let (status, params) = match self.handle(cmd) {
            Ok(params) => (0, params),
            Err(status) => (status, Vec::new()),
        };
        let response = Response {
            handle: cmd.handle,
            status,
            param_count: u8::from(!params.is_empty()),
            params,
        };
        let (mut messages, in_step) = client.receive(&encode_response(&response));
        assert!(in_step);
        match messages.remove(0) {
            Message::Response(r) => r.into_result().map(|r| r.params),
            other => panic!("unexpected {other:?}"),
        }
    }
}

fn connected() -> (MockDevice, Client, RedNetAdapter) {
    let mut device = MockDevice { gains: HashMap::new() };
    let mut client = Client::new();
    let mut walk = Walk::new(Ono(ROOT_BLOCK));
    while let Some((ono, method)) = walk.next_question() {
        let request = client.request(ono, method, 0, vec![]);
        let reply = device.answer(&mut client, &request.frame);
        walk.answer(reply);
    }
    let mut adapter = RedNetAdapter::new("rednet-1");
    for ono in adapter.connected(&walk.into_found()) {
        let request = client.subscribe(ono);
        // A device that takes no subscriptions is still usable.
        let _ = device.answer(&mut client, &request.frame);
    }
    (device, client, adapter)
}

#[test]
fn connect_enumerates_the_device_into_channel_roles() {
    let (_device, _client, adapter) = connected();
    let described = adapter.describe();
    let mut roles: Vec<&str> = described.iter().map(|d| d.role.as_str()).collect();
    roles.sort_unstable();
    assert_eq!(roles, ["Ch 1 Gain", "Ch 1 Phantom", "Ch 2 Gain", "Ch 2 Phantom"]);
    // Blocks are containers, not objects: they must not show up themselves.
    assert_eq!(described.len(), 4);
    assert!(described.iter().all(|d| d.settable));
}

#[test]
fn gain_round_trips_through_the_real_ocp1_path() {
    let (mut device, mut client, adapter) = connected();
    let gain_ono = adapter
        .describe()
        .into_iter()
        .find(|d| d.role.as_str() == "Ch 2 Gain")
        .expect("Ch 2 Gain")
        .ono;

    let (ono, def_level, write) =
        adapter.set_object(gain_ono, OcaValueFfi::F32(bits(45.0))).unwrap();
    let Write::Octets(params) = write else { panic!("expected octets") };
    let request = client.set(ono, def_level, params);
    assert!(device.answer(&mut client, &request.frame).is_ok());
    // The value reached the device, not just the adapter's own cache.
    assert_eq!(device.gains.get(&GAIN_ONO[1]).copied(), Some(45.0));

    let (ono, def_level) = adapter.get_object(gain_ono).unwrap();
    let request = client.get(ono, def_level);
    let reply = device.answer(&mut client, &request.frame);
    match adapter.object_value(gain_ono, reply) {
        Ok(OcaValueFfi::F32(v)) => assert_eq!(f32::from_bits(v.to_bits()), 45.0),
        other => panic!("unexpected {other:?}"),
    }
}

#[test]
fn a_phantom_switch_reads_back_as_a_boolean() {
    let (mut device, mut client, adapter) = connected();
    let phantom_ono = adapter
        .describe()
        .into_iter()
        .find(|d| d.role.as_str() == "Ch 1 Phantom")
        .expect("Ch 1 Phantom")
        .ono;
    let (ono, def_level) = adapter.get_object(phantom_ono).unwrap();
    let request = client.get(ono, def_level);
    let reply = device.answer(&mut client, &request.frame);
    match adapter.object_value(phantom_ono, reply) {
        Ok(OcaValueFfi::Bool(v)) => assert!(v),
        other => panic!("unexpected {other:?}"),
    }
}

#[test]
fn operations_before_connect_fail_rather_than_panic() {
    let adapter = RedNetAdapter::new("rednet-1");
    assert!(adapter.get_object(0x1001).is_err());
    assert!(adapter.set_object(0x1001, OcaValueFfi::F32(bits(0.0))).is_err());
    assert!(adapter.describe().is_empty());
}

#[test]
fn an_unknown_ono_is_rejected() {
    let (_device, _client, adapter) = connected();
    assert_eq!(
        adapter.get_object(0xDEAD_BEEF).unwrap_err(),
        "no object 0xdeadbeef on this device"
    );
}

#[test]
fn notifications_become_events_until_the_device_is_gone() {
    let (_device, _client, mut adapter) = connected();
    assert!(adapter.poll_events().is_empty());
    let mut n = Notification {
        emitter: GAIN_ONO[0],
        property: single_value::property(level::GAIN),
        value: (-6.0f32).to_be_bytes().to_vec(),
    };
    adapter.notify(&n);
    // What cannot be read, and what comes from elsewhere, is dropped.
    n.value = vec![0];
    adapter.notify(&n);
    n.emitter = 1;
    adapter.notify(&n);
    let events = adapter.poll_events();
    assert_eq!(events.len(), 1);
    assert_eq!(events[0].role, "Ch 1 Gain");
    assert_eq!(events[0].value, OcaValueFfi::F32(bits(-6.0)));
    adapter.disconnect();
    assert_eq!(adapter.get_object(GAIN_ONO[0]).unwrap_err(), "not connected");
}

#[test]
fn a_write_says_why_it_is_refused() {
    let mut adapter = RedNetAdapter::new("r");
    adapter.connected(&vec![
        discovered(1, &[1, 1, 1, 5], "Gain", &["Input 1"]),
        discovered(2, &[1, 1, 2, 2, 1], "Level", &["Input 1"]),
        discovered(3, &[1, 1, 1, 4], "Impedance", &["Input 1"]),
    ]);
    assert_eq!(
        adapter.set_object(1, OcaValueFfi::Bool(true)).unwrap_err(),
        "writing Ch 1 Gain: device returned ParameterError (6)"
    );
    assert_eq!(
        adapter.set_object(2, OcaValueFfi::F32(bits(0.0))).unwrap_err(),
        "Input 1/Level is read-only"
    );
    assert_eq!(adapter.set_object(1, OcaValueFfi::I32(45)).unwrap().2, Write::Number(45));
    assert_eq!(number_params(bits(45.0)), (45.0f32).to_be_bytes().to_vec());
    assert_eq!(
        adapter.set_object(3, OcaValueFfi::I32(2)).unwrap().2,
        Write::Octets(vec![0, 2])
    );
    assert_eq!(
        adapter.object_value(1, Err(Error::Timeout)).unwrap_err(),
        "reading Ch 1 Gain: timed out waiting for a response"
    );
    assert_eq!(RedNetAdapter::model(Err(Error::Timeout)), "AES70 device");
    assert_eq!(RedNetAdapter::model(Ok(vec![0, 2, b'R', b'4'])), "R4");
}

// Roles

#[test]
fn reads_a_channel_off_the_leaf_role() {
    assert_eq!(classify("Ch 3 Gain", &[], OcaClass::Gain).as_deref(), Some("Ch 3 Gain"));
    assert_eq!(classify("Input 12 Gain", &[], OcaClass::Gain).as_deref(), Some("Ch 12 Gain"));
}

#[test]
fn reads_a_channel_off_the_containing_block() {
    let path = vec!["Inputs".to_string(), "Input 3".to_string()];
    assert_eq!(classify("Gain", &path, OcaClass::Gain).as_deref(), Some("Ch 3 Gain"));
    assert_eq!(
        classify("Phantom Power", &path, OcaClass::Switch).as_deref(),
        Some("Ch 3 Phantom")
    );
}

#[test]
fn the_innermost_container_supplies_the_channel() {
    let path = vec!["Mic 1".to_string(), "Channel 7".to_string()];
    assert_eq!(classify("Gain", &path, OcaClass::Gain).as_deref(), Some("Ch 7 Gain"));
}

#[test]
fn phantom_is_recognised_in_its_common_spellings() {
    let path = vec!["Input 2".to_string()];
    for leaf in ["Phantom", "+48V", "48V Enable", "Phantom Power"] {
        assert_eq!(
            classify(leaf, &path, OcaClass::Switch).as_deref(),
            Some("Ch 2 Phantom"),
            "leaf {leaf:?}"
        );
    }
}

#[test]
fn the_oca_class_gates_the_field() {
    let path = vec!["Input 4".to_string()];
    assert_eq!(classify("Gain", &path, OcaClass::StringSensor), None);
    assert_eq!(classify("Phantom", &path, OcaClass::Gain), None);
    assert_eq!(classify("Gain", &path, OcaClass::Gain).as_deref(), Some("Ch 4 Gain"));
}

#[test]
fn gain_compensation_is_not_a_preamp_gain() {
    let path = vec!["Input 5".to_string()];
    assert_eq!(classify("Gain Compensation", &path, OcaClass::Gain), None);
    assert_eq!(classify("Compensated Gain", &path, OcaClass::Gain), None);
}

#[test]
fn a_label_must_be_a_whole_word() {
    assert_eq!(channel_number("gain 65"), None);
    assert_eq!(channel_number("Bargain 3"), None);
    assert_eq!(channel_number("In 3"), Some(3));
}

#[test]
fn a_bare_number_is_a_channel_only_when_it_is_the_entire_name() {
    assert_eq!(channel_number("3"), Some(3));
    assert_eq!(channel_number(" 12 "), Some(12));
    assert_eq!(channel_number("Gain 65"), None);
    assert_eq!(channel_number("Delay 5"), None);
}

#[test]
fn implausible_numbers_are_not_channels() {
    assert_eq!(channel_number("HPF 65Hz"), None);
    assert_eq!(channel_number("Ch 0"), None);
    assert_eq!(channel_number("Input 9999"), None);
}

#[test]
fn an_unmatched_object_gets_no_canonical_role() {
    assert_eq!(classify("Sample Rate", &[], OcaClass::Int32Sensor), None);
    assert_eq!(classify("Gain", &[], OcaClass::Gain), None); // no channel anywhere
}

#[test]
fn canonical_matches_the_hosts_expected_format() {
    assert_eq!(canonical(3, Field::Gain), "Ch 3 Gain");
    assert_eq!(canonical(16, Field::Phantom), "Ch 16 Phantom");
}
