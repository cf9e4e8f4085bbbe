use dante_babelbox::allen_heath::ahm;
use dante_babelbox::allen_heath::ahm::{AhmAdapter, NrpnTracker, PARAM_GAIN, PARAM_PHANTOM};
use dante_babelbox::allen_heath::dlive;
use dante_babelbox::allen_heath::dlive::{DliveAdapter, OP_48V_STATUS, OP_PAD_STATUS};
use dante_babelbox::allen_heath::{bool_to_byte, byte_to_bool, Readout, Update};
use dante_babelbox::bridge::adapter::AdapterError;
use dante_babelbox::bridge::types::{ChangedFields, PreampAddress};

const SYSEX_HEADER: [u8; 8] = [0xF0, 0x00, 0x00, 0x1A, 0x50, 0x10, 0x01, 0x00];

// dLive

#[test]
fn socket_number_covers_all_three_ranges() {
    assert_eq!(DliveAdapter::socket_number(1).unwrap(), 0x00);
    assert_eq!(DliveAdapter::socket_number(64).unwrap(), 0x3F);
    assert_eq!(DliveAdapter::socket_number(65).unwrap(), 0x40);
    assert_eq!(DliveAdapter::socket_number(96).unwrap(), 0x5F);
    assert_eq!(DliveAdapter::socket_number(97).unwrap(), 0x60);
    assert_eq!(DliveAdapter::socket_number(128).unwrap(), 0x7F);
    assert!(DliveAdapter::socket_number(0).is_err());
    assert!(DliveAdapter::socket_number(129).is_err());
}

#[test]
fn channel_from_socket_round_trips() {
    for ch in [1u16, 32, 64, 65, 80, 96, 97, 100, 128] {
        let mp = DliveAdapter::socket_number(ch).unwrap();
        assert_eq!(DliveAdapter::channel_from_socket(mp), Some(ch));
    }
}

#[test]
fn parser_handles_running_status() {
    // Two mute-on messages on the same channel, the second without its status.
    let stream = [0x9Bu8, 0x00, 0x7F, 0x01, 0x7F];
    let mut parser = dlive::MidiStreamParser::new();
    parser.push(&stream);

    let first = parser.next_message().unwrap();
    assert_eq!(first, vec![0x9B, 0x00, 0x7F]);
    let second = parser.next_message().unwrap();
    assert_eq!(second, vec![0x9B, 0x01, 0x7F]);
    assert!(parser.next_message().is_none());
}

#[test]
fn parser_extracts_pitchbend_and_sysex() {
    let mut parser = dlive::MidiStreamParser::new();
    parser.push(&[0xE0, 0x05, 0x3A]);
    let pb = parser.next_message().unwrap();
    assert_eq!(pb, vec![0xE0, 0x05, 0x3A]);

    let mut sysex_msg = SYSEX_HEADER.to_vec();
    sysex_msg.extend_from_slice(&[0x00, OP_48V_STATUS, 0x05, 0x7F, 0xF7]);
    parser.push(&sysex_msg);
    let sysex = parser.next_message().unwrap();
    assert_eq!(sysex, sysex_msg);
}

#[test]
fn set_gain_and_48v_produce_expected_bytes_and_spontaneous_updates_propagate() {
    let mut adapter = DliveAdapter::new("dlive-1");
    // Socket 30 is MP 0x1D; 0x3A stands for 30 dB.
    assert_eq!(DliveAdapter::set_gain(30, 0x3A).unwrap(), vec![0xE0, 0x1D, 0x3A]);
    let mut expected = SYSEX_HEADER.to_vec();
    expected.extend_from_slice(&[0x00, 0x0C, 0x1D, 0x7F, 0xF7]);
    assert_eq!(DliveAdapter::set_phantom(30, true).unwrap(), expected);

    // A spontaneous push of 48V for socket 65.
    let mut msg = SYSEX_HEADER.to_vec();
    msg.extend_from_slice(&[0x00, OP_48V_STATUS, 0x40, 0x7F, 0xF7]);
    let events = adapter.receive(&msg);
    assert_eq!(events.len(), 1);
    assert_eq!(events[0].address, PreampAddress::new("dlive-1", 65));
    assert!(events[0].state.phantom);
    assert_eq!(events[0].changed, ChangedFields::phantom());
}

#[test]
fn dlive_state_is_asked_for_by_three_messages() {
    let requests = DliveAdapter::state_requests(65).unwrap();
    let mut phantom = SYSEX_HEADER.to_vec();
    phantom.extend_from_slice(&[0x00, 0x0A, 0x40, 0xF7]);
    let mut pad = SYSEX_HEADER.to_vec();
    pad.extend_from_slice(&[0x00, 0x07, 0x40, 0xF7]);
    let mut gain = SYSEX_HEADER.to_vec();
    gain.extend_from_slice(&[0x00, 0x05, 0x0B, 0x19, 0x40, 0xF7]);
    assert_eq!(requests, vec![phantom, pad, gain]);
    assert_eq!(DliveAdapter::state_requests(129), Err(AdapterError::UnsupportedChannel(129)));
    assert_eq!(DliveAdapter::set_gain(0, 0), Err(AdapterError::UnsupportedChannel(0)));
    assert_eq!(DliveAdapter::set_phantom(0, true), Err(AdapterError::UnsupportedChannel(0)));
}

#[test]
fn dlive_updates_merge_and_are_found_again() {
    let mut adapter = DliveAdapter::new("dlive-1");
    assert_eq!(adapter.id(), "dlive-1");
    assert!(adapter.get_state(6, 0).is_none());
    let events = adapter.receive(&[0xE0, 0x05, 0x3A]);
    assert_eq!(events[0].state, Readout { gain: Some(0x3A), phantom: false, pad: None });
    let mut msg = SYSEX_HEADER.to_vec();
    msg.extend_from_slice(&[0x00, OP_PAD_STATUS, 0x05, 0x40, 0xF7]);
    let events = adapter.receive(&msg);
    assert_eq!(events[0].state, Readout { gain: Some(0x3A), phantom: false, pad: Some(true) });
    assert_eq!(events[0].changed, ChangedFields::pad());
    assert_eq!(
        adapter.get_state(6, 0).unwrap().unwrap(),
        Readout { gain: Some(0x3A), phantom: false, pad: Some(true) }
    );
    assert_eq!(
        adapter.get_state(7, 20).unwrap(),
        Err(AdapterError::Protocol("no reply for channel 7 preamp state".to_string()))
    );
    assert!(DliveAdapter::identify().unwrap_err().message().contains("no device-identity query"));
}

#[test]
fn dlive_messages_survive_any_cut() {
    let mut stream = vec![0x12, 0xF7, 0xE0, 0x05, 0x3A, 0x06, 0x10];
    stream.extend_from_slice(&SYSEX_HEADER);
    stream.extend_from_slice(&[0x00, OP_48V_STATUS, 0x05, 0x7F, 0xF7, 0xC0, 0x01, 0x02, 0xE1]);
    let mut whole = dlive::MidiStreamParser::new();
    whole.push(&stream);
    let mut expected = Vec::new();
    while let Some(m) = whole.next_message() {
        expected.push(m);
    }
    assert_eq!(expected.len(), 5);
    assert_eq!(expected[1], vec![0xE0, 0x06, 0x10]);
    assert_eq!(expected[4], vec![0xC0, 0x02]);
    for cut in 0..=stream.len() {
        let mut parser = dlive::MidiStreamParser::new();
        let mut found = Vec::new();
        for part in [&stream[..cut], &stream[cut..]] {
            parser.push(part);
            while let Some(m) = parser.next_message() {
                found.push(m);
            }
        }
        assert_eq!(found, expected, "cut at {cut}");
    }
}

#[test]
fn dlive_messages_that_are_none_of_ours_bring_nothing() {
    assert_eq!(dlive::parse_message(&[0xE3, 0x7F, 0x01]), Some((128, Update::Gain(1))));
    assert_eq!(dlive::parse_message(&[0xB0, 0x7F, 0x01]), None);
    assert_eq!(dlive::parse_message(&[0xE0, 0x80, 0x01]), None);
    let mut msg = SYSEX_HEADER.to_vec();
    msg.extend_from_slice(&[0x00, OP_48V_STATUS, 0x05, 0x7F, 0x00, 0xF7]);
    assert_eq!(dlive::parse_message(&msg), None);
    let mut foreign = SYSEX_HEADER.to_vec();
    foreign[5] = 0x12;
    foreign.extend_from_slice(&[0x00, OP_48V_STATUS, 0x05, 0x7F, 0xF7]);
    assert_eq!(dlive::parse_message(&foreign), None);
    assert_eq!(dlive::channel_msg_data_len(0xF4), None);
    assert_eq!(dlive::channel_msg_data_len(0xD0), Some(1));
}

// AHM

#[test]
fn bool_byte_matches_spec_thresholds() {
    assert_eq!(bool_to_byte(true), 0x7F);
    assert_eq!(bool_to_byte(false), 0x00);
    assert!(byte_to_bool(0x7F));
    assert!(byte_to_bool(0x40));
    assert!(!byte_to_bool(0x3F));
    assert!(!byte_to_bool(0x00));
}

#[test]
fn set_gain_message_matches_spec_layout() {
    // Input 6 (CH=05), gain param 0x19, arbitrary value 0x40.
    let msg = [0xB0, 0x63, 0x05, 0xB0, 0x62, 0x19, 0xB0, 0x06, 0x40];
    let mut parser = ahm::MidiStreamParser::new();
    parser.push(&msg);
    let mut tracker = NrpnTracker::new();

    let mut result = None;
    while let Some(m) = parser.next_message() {
        if let Some(triplet) = tracker.feed(&m) {
            result = Some(triplet);
        }
    }
    assert_eq!(result, Some((0x00, 0x05, 0x19, 0x40)));
}

#[test]
fn ahm_parser_resyncs_across_split_reads() {
    let full = [0xB0u8, 0x63, 0x00, 0xB0, 0x62, 0x1B, 0xB0, 0x06, 0x7F];
    let mut parser = ahm::MidiStreamParser::new();
    let mut tracker = NrpnTracker::new();
    let mut result = None;

    for chunk in full.chunks(2) {
        parser.push(chunk);
        while let Some(m) = parser.next_message() {
            if let Some(triplet) = tracker.feed(&m) {
                result = Some(triplet);
            }
        }
    }
    assert_eq!(result, Some((0x00, 0x00, PARAM_PHANTOM, 0x7F)));
}

#[test]
fn parser_skips_sysex_and_resyncs() {
    let mut parser = ahm::MidiStreamParser::new();
    // A SysEx blob followed by a valid CC message.
    parser.push(&[0xF0, 0x00, 0x00, 0x1A, 0x50, 0x12, 0x01, 0x00, 0xF7]);
    parser.push(&[0xB0, 0x63, 0x02]);

    let sysex = parser.next_message().unwrap();
    assert_eq!(sysex.first(), Some(&0xF0));
    assert_eq!(sysex.last(), Some(&0xF7));

    let cc = parser.next_message().unwrap();
    assert_eq!(cc, vec![0xB0, 0x63, 0x02]);
}

#[test]
fn set_gain_writes_expected_bytes_and_replies_update_subscribers() {
    let mut adapter = AhmAdapter::new("ahm-1");
    let expected_byte = 0x10;
    assert_eq!(
        AhmAdapter::set_gain(6, expected_byte).unwrap(),
        vec![0xB0, 0x63, 0x05, 0xB0, 0x62, PARAM_GAIN, 0xB0, 0x06, expected_byte]
    );

    // A spontaneous update of phantom power on channel 1.
    let events = adapter.receive(&[0xB0, 0x63, 0x00, 0xB0, 0x62, 0x1B, 0xB0, 0x06, 0x7F]);
    assert_eq!(events.len(), 1);
    assert_eq!(events[0].address, PreampAddress::new("ahm-1", 1));
    assert!(events[0].state.phantom);
}

#[test]
fn ahm_settings_read_back() {
    let mut adapter = AhmAdapter::new("ahm-1");
    let events = adapter.receive(&AhmAdapter::set_phantom(64, true).unwrap());
    assert_eq!(events.len(), 1);
    assert_eq!(events[0].address, PreampAddress::new("ahm-1", 64));
    assert_eq!(events[0].state, Readout { gain: None, phantom: true, pad: None });
    let events = adapter.receive(&AhmAdapter::set_param(64, ahm::PARAM_PAD, 0x7F).unwrap());
    assert_eq!(events[0].state, Readout { gain: None, phantom: true, pad: Some(true) });
    let events = adapter.receive(&AhmAdapter::set_gain(64, 0x0C).unwrap());
    assert_eq!(events[0].state, Readout { gain: Some(0x0C), phantom: true, pad: Some(true) });
    assert_eq!(events[0].changed, ChangedFields::gain());
    assert_eq!(adapter.get_state(64, 0).unwrap().unwrap(), events[0].state);
    assert!(adapter.get_state(1, 19).is_none());
    assert_eq!(
        adapter.get_state(1, 20).unwrap(),
        Err(AdapterError::Protocol("no reply for channel 1 preamp state".to_string()))
    );
}

#[test]
fn ahm_requests_have_the_documented_layout() {
    let gain = vec![0xF0, 0, 0, 0x1A, 0x50, 0x12, 1, 0, 0, 1, 0x0B, 0x19, 0x02, 0xF7];
    let phantom = vec![0xF0, 0, 0, 0x1A, 0x50, 0x12, 1, 0, 0, 1, 0x0B, 0x1B, 0x02, 0xF7];
    assert_eq!(AhmAdapter::state_requests(3).unwrap(), vec![gain, phantom]);
    assert_eq!(AhmAdapter::state_requests(65), Err(AdapterError::UnsupportedChannel(65)));
    assert_eq!(AhmAdapter::channel_index(0), Err(AdapterError::UnsupportedChannel(0)));
    assert_eq!(AhmAdapter::channel_index(64), Ok(63));
    assert!(AhmAdapter::identify().is_err());
}

#[test]
fn ahm_settings_of_other_channels_and_parameters_bring_nothing() {
    let mut adapter = AhmAdapter::new("ahm-1");
    assert!(adapter.receive(&[0xB1, 0x63, 0, 0xB1, 0x62, 0x19, 0xB1, 0x06, 1]).is_empty());
    assert!(adapter.receive(&[0xB0, 0x63, 0, 0xB0, 0x62, 0x20, 0xB0, 0x06, 1]).is_empty());
    // A value without a selection sets nothing.
    let mut fresh = AhmAdapter::new("ahm-2");
    assert!(fresh.receive(&[0xB0, 0x06, 1]).is_empty());
    assert_eq!(ahm::to_update(0, 255, PARAM_GAIN, 9), Some((256, Update::Gain(9))));
}
