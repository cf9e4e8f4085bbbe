use dante_babelbox::aphex::codec::{
    Command, Control, DeviceAddress, Message, MAX_COMMANDS, MAX_DATA_BYTE, SYSEX_END, SYSEX_START,
};
use dante_babelbox::aphex::Error;


fn address() -> DeviceAddress {
    DeviceAddress::new(0, 0, 1).unwrap()
}

/// The frame layout straight off the published page.
#[test]
fn encodes_the_documented_frame_layout() {
    let message = Message::new(
        address(),
        vec![Command::input_gain_db(1, 40).unwrap()],
    )
    .unwrap();

    assert_eq!(
        message.encode(),
        vec![0xF0, 0x00, 0x00, 0x38, 0x00, 0x00, 0x01, 0x00, 0x01, 40, 0xF7]
    );
}

#[test]
fn gain_is_a_direct_db_figure_not_a_scaled_one() {
    // 26 dB is the bottom of the range and encodes as 0x1A, 65 as 0x41 -
    // exactly the numbers the table gives.
    assert_eq!(Command::input_gain_db(1, 26).unwrap().value, 0x1A);
    assert_eq!(Command::input_gain_db(1, 65).unwrap().value, 0x41);
}

#[test]
fn gain_outside_the_documented_range_is_refused() {
    assert!(matches!(Command::input_gain_db(1, 25), Err(Error::ValueOutOfRange { .. })));
    assert!(matches!(Command::input_gain_db(1, 66), Err(Error::ValueOutOfRange { .. })));
}

/// The invariant that matters most: nothing inside a SysEx frame may have
/// bit 7 set, or a receiver reads it as the start of a new MIDI message.
#[test]
fn no_encoded_byte_between_the_delimiters_has_bit_7_set() {
    let commands = vec![
        Command::input_gain_db(1, 65).unwrap(),
        Command::switch(Control::PhantomPower, 8, true).unwrap(),
        Command::new(Control::RequestExtendedDump, MAX_DATA_BYTE, MAX_DATA_BYTE).unwrap(),
    ];
    let bytes = Message::new(
        DeviceAddress::new(MAX_DATA_BYTE, MAX_DATA_BYTE, MAX_DATA_BYTE).unwrap(),
        commands,
    )
    .unwrap()
    .encode();

    assert_eq!(bytes[0], SYSEX_START);
    assert_eq!(*bytes.last().unwrap(), SYSEX_END);
    assert!(
        bytes[1..bytes.len() - 1].iter().all(|b| *b <= MAX_DATA_BYTE),
        "a status byte leaked into the payload: {bytes:02x?}"
    );
}

#[test]
fn an_out_of_range_data_byte_is_refused_rather_than_truncated() {
    assert!(matches!(
        Command::new(Control::RequestExtendedDump, 0x80, 0),
        Err(Error::NotADataByte { field: "mic_channel", .. })
    ));
    assert!(matches!(
        DeviceAddress::new(0, 0x80, 0),
        Err(Error::NotADataByte { field: "midi_device", .. })
    ));
}

#[test]
fn switches_take_only_off_and_on() {
    let on = Command::switch(Control::Pad, 3, true).unwrap();
    assert_eq!(on.value, 0x01);
    assert_eq!(Command::switch(Control::Pad, 3, false).unwrap().value, 0x00);
    assert!(matches!(Command::new(Control::Pad, 3, 2), Err(Error::ValueOutOfRange { .. })));
}

/// The three-state test tone is not a switch, so the switch helper must not
/// silently collapse it to on/off.
#[test]
fn the_three_state_test_tone_is_not_a_switch() {
    assert!(matches!(Command::switch(Control::TestTone, 1, true), Err(Error::NotASwitch(_))));
    assert_eq!(Command::new(Control::TestTone, 1, 2).unwrap().value, 2);
    assert!(matches!(Command::new(Control::TestTone, 1, 3), Err(Error::ValueOutOfRange { .. })));
}

#[test]
fn a_parameter_dump_request_takes_only_the_required_value() {
    assert!(Command::new(Control::RequestParameterDump, 0, 0x01).is_ok());
    assert!(matches!(
        Command::new(Control::RequestParameterDump, 0, 0x00),
        Err(Error::ValueOutOfRange { .. })
    ));
}

#[test]
fn round_trips_a_multi_command_message() {
    let message = Message::new(
        DeviceAddress::new(2, 3, 4).unwrap(),
        vec![
            Command::input_gain_db(1, 40).unwrap(),
            Command::switch(Control::PhantomPower, 1, true).unwrap(),
            Command::switch(Control::Pad, 2, false).unwrap(),
            Command::new(Control::TestTone, 0, 1).unwrap(),
        ],
    )
    .unwrap();

    assert_eq!(Message::decode(&message.encode()).unwrap(), message);
}

#[test]
fn the_documented_batch_ceiling_is_enforced() {
    let one = Command::switch(Control::Mute, 1, true).unwrap();
    assert!(Message::new(address(), vec![one; MAX_COMMANDS]).is_ok());
    assert!(matches!(
        Message::new(address(), vec![one; MAX_COMMANDS + 1]),
        Err(Error::TooManyCommands(65))
    ));
    assert!(matches!(Message::new(address(), vec![]), Err(Error::NoCommands)));
}

#[test]
fn another_manufacturers_sysex_is_not_parsed_as_ours() {
    // Focusrite/Novation's id, from the RedNet MIDI guide.
    let bytes = [0xF0, 0x00, 0x20, 0x29, 0x00, 0x00, 0x00, 0x00, 0x01, 0x28, 0xF7];
    assert!(matches!(Message::decode(&bytes), Err(Error::ForeignManufacturer(_))));
}

/// A body that isn't a whole number of 3-byte commands means a byte has
/// been lost or added, which would shift every field after it.
#[test]
fn a_ragged_body_is_rejected_rather_than_silently_realigned() {
    let mut bytes = Message::new(address(), vec![Command::input_gain_db(1, 40).unwrap()])
        .unwrap()
        .encode();
    bytes.insert(8, 0x00);
    assert!(matches!(Message::decode(&bytes), Err(Error::RaggedBody(4))));
}

#[test]
fn malformed_frames_are_rejected() {
    assert!(matches!(Message::decode(&[]), Err(Error::Truncated)));
    assert!(matches!(
        Message::decode(&[0xF7, 0x00, 0x00, 0x38, 0, 0, 0, 0, 0, 0, 0xF7]),
        Err(Error::NotSysEx(0xF7))
    ));
    assert!(matches!(
        Message::decode(&[0xF0, 0x00, 0x00, 0x38, 0, 0, 0, 0, 0, 0, 0x00]),
        Err(Error::Unterminated)
    ));
}

/// The command table is not contiguous. An opcode it doesn't list is an
/// unknown, not an assumed no-op.
#[test]
fn an_undocumented_opcode_is_rejected() {
    assert_eq!(Control::from_opcode(0x09), None);
    assert_eq!(Control::from_opcode(0x10), None);
    let bytes = [0xF0, 0x00, 0x00, 0x38, 0, 0, 0, 0x09, 0x01, 0x00, 0xF7];
    assert!(matches!(Message::decode(&bytes), Err(Error::UnknownOpcode(0x09))));
}

#[test]
fn every_documented_opcode_round_trips_through_its_enum() {
    let all = [
        Control::InputGain,
        Control::MainMaxOut,
        Control::AuxMaxOut,
        Control::PhantomPower,
        Control::LowCutFilter,
        Control::Limiter,
        Control::PolarityReverse,
        Control::Mute,
        Control::Pad,
        Control::TestToneMinus20dB,
        Control::TestTone0dB,
        Control::TestTone,
        Control::RequestParameterDump,
        Control::RequestExtendedDump,
    ];
    for control in all {
        assert_eq!(Control::from_opcode(control.opcode()), Some(control));
        let (min, max) = control.value_range();
        assert!(max <= MAX_DATA_BYTE, "{control:?} allows a non-data byte");
        assert!(min <= max);
    }
}

/// Every refusal, as it is shown.
#[test]
fn aphex_errors_explain_themselves() {
    let shown = |e: Error| e.message();
    assert_eq!(
        shown(DeviceAddress::new(0x80, 0, 0).unwrap_err()),
        "midi_channel is 0x80, which is not a MIDI data byte (must be <= 0x7f)"
    );
    assert_eq!(
        shown(DeviceAddress::new(0, 0, 0xff).unwrap_err()),
        "net_number is 0xff, which is not a MIDI data byte (must be <= 0x7f)"
    );
    assert_eq!(
        shown(Command::input_gain_db(1, 25).unwrap_err()),
        "InputGain takes 0x1a..=0x41, got 0x19"
    );
    assert_eq!(
        shown(Command::switch(Control::TestTone, 1, true).unwrap_err()),
        "TestTone is not an on/off control"
    );
    assert_eq!(
        shown(Message::new(address(), vec![]).unwrap_err()),
        "a message needs at least one command"
    );
    let one = Command::switch(Control::Mute, 1, true).unwrap();
    assert_eq!(
        shown(Message::new(address(), vec![one; 65]).unwrap_err()),
        "65 commands, but a message carries at most 64"
    );
    assert_eq!(
        shown(Message::decode(&[]).unwrap_err()),
        "too short to be a parametric control string"
    );
    assert_eq!(
        shown(Message::decode(&[0xF7, 0, 0, 0x38, 0, 0, 0, 0, 0, 0, 0xF7]).unwrap_err()),
        "does not start with F0 (got 0xf7)"
    );
    assert_eq!(
        shown(Message::decode(&[0xF0, 0, 0, 0x38, 0, 0, 0, 0, 0, 0, 0x00]).unwrap_err()),
        "no F7 terminator"
    );
    assert_eq!(
        shown(Message::decode(&[0xF0, 0, 0x20, 0x29, 0, 0, 0, 0, 1, 0x28, 0xF7]).unwrap_err()),
        "manufacturer id [00, 20, 29] is not Aphex"
    );
    assert_eq!(
        shown(Message::decode(&[0xF0, 0, 0, 0x38, 0, 0, 0, 0, 1, 2, 3, 0xF7]).unwrap_err()),
        "4 body bytes is not a whole number of 3-byte commands"
    );
    assert_eq!(
        shown(Message::decode(&[0xF0, 0, 0, 0x38, 0, 0, 0, 9, 1, 0, 0xF7]).unwrap_err()),
        "opcode 0x09 is not on the published command table"
    );
}

#[test]
fn a_message_of_the_greatest_size_round_trips() {
    let one = Command::new(Control::MainMaxOut, 0x7f, 0x1b).unwrap();
    let message = Message::new(address(), vec![one; MAX_COMMANDS]).unwrap();
    let bytes = message.encode();
    assert_eq!(bytes.len(), 8 + 3 * MAX_COMMANDS);
    let back = Message::decode(&bytes).unwrap();
    assert_eq!(back, message);
    assert_eq!(back.encode(), bytes);
}

/// The first thing that is wrong is what is reported.
#[test]
fn a_frame_is_refused_for_the_first_thing_that_is_wrong() {
    let bytes = [0xF0, 0, 0, 0x38, 0x80, 0x81, 0, 0x09, 0x80, 0, 0xF7];
    assert_eq!(
        Message::decode(&bytes),
        Err(Error::NotADataByte { field: "midi_channel", value: 0x80 })
    );
    let bytes = [0xF0, 0, 0, 0x38, 0, 0, 0, 0x03, 0x80, 2, 0x09, 0, 0, 0xF7];
    assert_eq!(
        Message::decode(&bytes),
        Err(Error::NotADataByte { field: "mic_channel", value: 0x80 })
    );
    let bytes = [0xF0, 0, 0, 0x38, 0, 0, 0, 0x03, 0, 2, 0x09, 0, 0, 0xF7];
    assert_eq!(
        Message::decode(&bytes),
        Err(Error::ValueOutOfRange { control: Control::PhantomPower, value: 2, min: 0, max: 1 })
    );
}
