use dante_babelbox::bridge::adapter::AdapterError;
use dante_babelbox::mic::shure::{
    parse_channel, parse_message, ParsedUpdate, ShureAdapter, ShureStreamParser,
};
use dante_babelbox::mic::{AntennaDiversity, MicAddress, Reading};

fn tokens(list: &[&str]) -> Vec<String> {
    list.iter().map(|s| s.to_string()).collect()
}

#[test]
fn parser_splits_concatenated_messages_with_no_separator() {
    let mut parser = ShureStreamParser::new();
    parser.push(b"< REP 1 AUDIO_MUTE ON >< REP 1 BATT_CHARGE 087 >");

    assert_eq!(parser.next_message().unwrap(), vec!["REP", "1", "AUDIO_MUTE", "ON"]);
    assert_eq!(parser.next_message().unwrap(), vec!["REP", "1", "BATT_CHARGE", "087"]);
    assert!(parser.next_message().is_none());
}

#[test]
fn shure_parser_resyncs_across_split_reads() {
    let mut parser = ShureStreamParser::new();
    let mut result = None;
    for chunk in b"< REP 2 FREQUENCY 614125 >".chunks(5) {
        parser.push(chunk);
        if let Some(tokens) = parser.next_message() {
            result = Some(tokens);
        }
    }
    assert_eq!(result.unwrap(), vec!["REP", "2", "FREQUENCY", "614125"]);
}

#[test]
fn frequency_converts_documented_six_digit_form_to_mhz() {
    match parse_message(&tokens(&["REP", "3", "FREQUENCY", "614125"])) {
        Some(ParsedUpdate::Frequency { channel, khz }) => {
            assert_eq!(channel, 3);
            assert_eq!(khz as f64 / 1000.0, 614.125);
        }
        _ => panic!("expected a Frequency update"),
    }
}

#[test]
fn battery_error_codes_map_to_none_not_a_real_reading() {
    match parse_message(&tokens(&["REP", "1", "BATT_CHARGE", "255"])) {
        Some(ParsedUpdate::BatteryCharge { percent, .. }) => assert_eq!(percent, None),
        _ => panic!("expected a BatteryCharge update"),
    }

    match parse_message(&tokens(&["REP", "1", "BATT_RUN_TIME", "65535"])) {
        Some(ParsedUpdate::BatteryRunTime { minutes, .. }) => assert_eq!(minutes, None),
        _ => panic!("expected a BatteryRunTime update"),
    }
}

#[test]
fn sample_message_matches_documented_dbm_conversion_and_antenna_codes() {
    // aaa=087 -> dBm = 87 - 128 = -41; eee=023 audio level as-is.
    match parse_message(&tokens(&["SAMPLE", "1", "ALL", "AX", "087", "023"])) {
        Some(ParsedUpdate::Sample { channel, antenna, rf_dbm, audio_level }) => {
            assert_eq!(channel, 1);
            assert_eq!(antenna, Some(AntennaDiversity::A));
            assert_eq!(rf_dbm, -41);
            assert_eq!(audio_level, 23);
        }
        _ => panic!("expected a Sample update"),
    }
}

#[test]
fn zero_channel_in_a_response_is_dropped_not_guessed() {
    assert!(parse_message(&tokens(&["REP", "0", "AUDIO_MUTE", "ON"])).is_none());
}

#[test]
fn connect_enables_metering_and_reports_flow_through_to_subscribers() {
    let mut adapter = ShureAdapter::new("ulxd-1");
    assert_eq!(ShureAdapter::metering_request(), "< SET 0 METER_RATE 00500 >");

    let events = adapter.receive(b"< REP 1 AUDIO_MUTE ON >< SAMPLE 1 ALL XB 100 030 >");
    assert_eq!(events.len(), 2);
    assert_eq!(events[0].address, MicAddress::new("ulxd-1", 1));
    assert!(events[0].state.muted);

    assert_eq!(events[1].state.antenna, Some(AntennaDiversity::B));
    assert_eq!(events[1].state.rf_level_dbm, Some(Reading::Signed(100 - 128)));
    assert_eq!(events[1].state.audio_level, Some(30));
    assert!(events[1].state.muted);
    assert_eq!(events[1].state.audio_level_dbfs, None);
}

#[test]
fn shure_requests_are_framed() {
    assert_eq!(ShureAdapter::state_request(2), "< GET 2 ALL >");
    assert_eq!(ShureAdapter::set_mute(4, true), "< SET 4 AUDIO_MUTE ON >");
    assert_eq!(ShureAdapter::set_mute(1, false), "< SET 1 AUDIO_MUTE OFF >");
    let AdapterError::Protocol(why) = ShureAdapter::identify().unwrap_err() else {
        panic!("expected a protocol error");
    };
    assert!(why.starts_with("identify: Shure's command-string protocol"));
}

#[test]
fn shure_messages_that_are_not_understood_are_passed_over() {
    assert_eq!(
        parse_message(&tokens(&["REP", "1", "BATT_CHARGE", "100"])),
        Some(ParsedUpdate::BatteryCharge { channel: 1, percent: Some(100) })
    );
    assert_eq!(
        parse_message(&tokens(&["REP", "1", "BATT_RUN_TIME", "65534"])),
        Some(ParsedUpdate::BatteryRunTime { channel: 1, minutes: Some(65534) })
    );
    for list in [
        &["REP", "1", "BATT_CHARGE", "x"][..],
        &["REP", "1", "BATT_CHARGE", "65536"],
        &["REP", "1", "FREQUENCY", "4294967296"],
        &["REP", "1", "NAME", "ON"],
        &["REP", "1", "AUDIO_MUTE"],
        &["SAMPLE", "1", "ALL", "AX", "087", "256"],
        &["SAMPLE", "1", "SOME", "AX", "087", "023"],
        &["GET", "1", "AUDIO_MUTE", "ON"],
        &[],
    ] {
        assert_eq!(parse_message(&tokens(list)), None, "{list:?}");
    }
    match parse_message(&tokens(&["SAMPLE", "1", "ALL", "??", "-1", "0"])) {
        Some(ParsedUpdate::Sample { antenna, rf_dbm, .. }) => {
            assert_eq!(antenna, None);
            assert_eq!(rf_dbm, -129);
        }
        _ => panic!("expected a Sample update"),
    }
    assert_eq!(parse_channel("65535"), Some(65535));
    assert_eq!(parse_channel("65536"), None);
}

#[test]
fn shure_states_are_found_again_and_silence_is_reported() {
    let mut adapter = ShureAdapter::new("ulxd-1");
    assert_eq!(adapter.id(), "ulxd-1");
    assert!(adapter.get_state(2, 0).is_none());
    let events = adapter.receive(b"noise > < REP 2 FREQUENCY 614125 > < REP 2 BATT_CHARGE 0");
    assert_eq!(events.len(), 1);
    assert_eq!(events[0].state.frequency_khz, Some(Reading::Unsigned(614125)));
    let events = adapter.receive(b"87 >");
    assert_eq!(events[0].state.battery_percent, Some(87));
    assert_eq!(events[0].state.frequency_khz, Some(Reading::Unsigned(614125)));
    assert_eq!(adapter.get_state(2, 0), Some(Ok(events[0].state)));
    assert!(adapter.get_state(3, 19).is_none());
    assert_eq!(
        adapter.get_state(3, 20),
        Some(Err(AdapterError::Protocol("no reply for channel 3 mic state".to_string())))
    );
}

#[test]
fn shure_streams_survive_any_cut() {
    let stream = b"x< REP 1 AUDIO_MUTE ON >y< SAMPLE 1 ALL XB 100 030 >< REP";
    for cut in 0..=stream.len() {
        let mut parser = ShureStreamParser::new();
        let mut found = Vec::new();
        for part in [&stream[..cut], &stream[cut..]] {
            parser.push(part);
            while let Some(m) = parser.next_message() {
                found.push(m.join(" "));
            }
        }
        assert_eq!(found, vec!["REP 1 AUDIO_MUTE ON", "SAMPLE 1 ALL XB 100 030"], "cut at {cut}");
    }
}
