use dante_babelbox::bridge::adapter::AdapterError;
use dante_babelbox::mic::lectrosonics::{
    parse_message, LectroStreamParser, LectrosonicsAdapter, DEFAULT_LECTROSONICS_PORT,
};
use dante_babelbox::mic::{MicAddress, Reading};

fn tokens(list: &[&str]) -> Vec<String> {
    list.iter().map(|s| s.to_string()).collect()
}

#[test]
fn parser_splits_lines_on_cr() {
    let mut parser = LectroStreamParser::new();
    parser.push(b"RX 1 FREQ 614125\rRX 2 BATT 090\r");
    assert_eq!(parser.next_message().unwrap(), vec!["RX", "1", "FREQ", "614125"]);
    assert_eq!(parser.next_message().unwrap(), vec!["RX", "2", "BATT", "090"]);
    assert!(parser.next_message().is_none());
}

#[test]
fn lectrosonics_parser_resyncs_across_split_reads() {
    let mut parser = LectroStreamParser::new();
    let mut result = None;
    for chunk in b"RX 2 FREQ 614125\r".chunks(4) {
        parser.push(chunk);
        if let Some(tokens) = parser.next_message() {
            result = Some(tokens);
        }
    }
    assert_eq!(result.unwrap(), vec!["RX", "2", "FREQ", "614125"]);
}

#[test]
fn frequency_converts_khz_to_mhz() {
    let u = parse_message(&tokens(&["RX", "3", "FREQ", "614125"])).unwrap();
    assert_eq!(u.channel, 3);
    assert_eq!(u.frequency_khz.map(|khz| khz as f64 / 1000.0), Some(614.125));
}

#[test]
fn out_of_range_battery_and_rf_map_to_none() {
    let u = parse_message(&tokens(&["RX", "1", "BATT", "200", "RF", "150"])).unwrap();
    assert_eq!(u.battery_percent, None);
    assert_eq!(u.rf_quality_percent, None);
}

#[test]
fn mute_on_off_parses() {
    let on = tokens(&["RX", "1", "MUTE", "ON"]);
    let off = tokens(&["RX", "1", "MUTE", "OFF"]);
    assert_eq!(parse_message(&on).unwrap().muted, Some(true));
    assert_eq!(parse_message(&off).unwrap().muted, Some(false));
}

#[test]
fn non_telemetry_and_zero_channel_are_dropped() {
    assert!(parse_message(&tokens(&["HELLO", "world"])).is_none());
    assert!(parse_message(&tokens(&["RX", "0", "MUTE", "ON"])).is_none());
}

#[test]
fn connect_requests_dump_and_telemetry_flows_to_subscribers() {
    let mut adapter = LectrosonicsAdapter::new("dsqd-1");
    assert_eq!(LectrosonicsAdapter::dump_request(), "QUERY ALL\r");

    let events = adapter.receive(b"RX 1 FREQ 614125 RF 080 BATT 090 MUTE ON\r");
    let event = &events[0];
    assert_eq!(event.address, MicAddress::new("dsqd-1", 1));
    assert_eq!(event.state.frequency_khz, Some(Reading::Unsigned(614125)));
    assert_eq!(event.state.rf_quality_percent, Some(80));
    assert_eq!(event.state.battery_percent, Some(90));
    assert!(event.state.muted);
    assert_eq!(event.state.audio_level_dbfs, None);
    assert_eq!(event.state.rf_level_dbm, None);
}

#[test]
fn lectrosonics_requests_end_with_a_carriage_return() {
    assert_eq!(DEFAULT_LECTROSONICS_PORT, 4992);
    assert_eq!(LectrosonicsAdapter::state_request(12), "GET 12\r");
    assert_eq!(LectrosonicsAdapter::set_mute(2, true), "SET 2 MUTE ON\r");
    assert_eq!(LectrosonicsAdapter::set_mute(2, false), "SET 2 MUTE OFF\r");
    assert!(matches!(LectrosonicsAdapter::identify(), Err(AdapterError::Protocol(_))));
}

#[test]
fn lectrosonics_lines_update_what_they_carry() {
    let mut adapter = LectrosonicsAdapter::new("dsqd-1");
    assert_eq!(adapter.id(), "dsqd-1");
    adapter.receive(b"RX 1 BATT 090 MUTE ON\n");
    let events = adapter.receive(b"\r\n\r\nREP 1 NAME Vox RF 100 DANGLING\r\n");
    assert_eq!(events.len(), 1);
    assert_eq!(events[0].state.battery_percent, Some(90));
    assert_eq!(events[0].state.rf_quality_percent, Some(100));
    assert!(events[0].state.muted);
    // A reading out of range is no reading, and does not clear the one before.
    let events = adapter.receive(b"RX 1 BATT 200\r");
    assert_eq!(events[0].state.battery_percent, Some(90));
    // A value that is no number spoils the line.
    assert!(adapter.receive(b"RX 1 MUTE OFF RF x\r").is_empty());
    assert!(adapter.get_state(1, 0).unwrap().unwrap().muted);
    assert!(adapter.get_state(2, 3).is_none());
    assert_eq!(
        adapter.get_state(2, 20),
        Some(Err(AdapterError::Protocol("no reply for channel 2 mic state".to_string())))
    );
    assert_eq!(parse_message(&tokens(&["RX"])), None);
}

#[test]
fn lectrosonics_streams_survive_any_cut() {
    let stream = b"\r\nRX 1 MUTE ON\r\n\r\n \nRX 2 RF 5\nRX";
    for cut in 0..=stream.len() {
        let mut parser = LectroStreamParser::new();
        let mut found = Vec::new();
        for part in [&stream[..cut], &stream[cut..]] {
            parser.push(part);
            while let Some(m) = parser.next_message() {
                found.push(m.join(" "));
            }
        }
        assert_eq!(found, vec!["RX 1 MUTE ON", "RX 2 RF 5"], "cut at {cut}");
    }
}
