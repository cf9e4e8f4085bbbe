use dante_babelbox::address::IpAddress;
use dante_babelbox::bridge::adapter::AdapterError;
use dante_babelbox::mic::acn::{
    PropertyReport, PropertyValue as Value, NO_RECENT_DATA, PROP_BATTERY_BARS, PROP_CHANNEL_NAME,
    PROP_DEVICE_NAME, PROP_FREQUENCY_KHZ, PROP_MODEL_NAME, PROP_RF_BARS, PROP_RF_LEVEL_DBM,
    PROP_UNRESOLVED_LEVEL, RF_FLOOR_DBM,
};
use dante_babelbox::mic::shure_acn::{Observed, ShureAcnAdapter};
use dante_babelbox::mic::{MicAddress, Reading};

fn report(address: u32, value: Value) -> PropertyReport {
    PropertyReport { address, value }
}

fn localhost() -> IpAddress {
    IpAddress::V4(0x7f00_0001)
}

#[test]
fn battery_bars_are_reported_as_bars_and_never_as_a_percentage() {
    let mut o = Observed::default();
    assert!(o.apply(&report(PROP_BATTERY_BARS, Value::Int8(2))));

    let state = o.to_mic_state();
    assert_eq!(state.battery_bars, Some(2));
    assert_eq!(state.battery_percent, None, "bars must not be multiplied out into a percentage");
}

#[test]
fn a_minus_one_battery_reading_means_no_data_not_zero_bars() {
    let mut o = Observed::default();
    o.apply(&report(PROP_BATTERY_BARS, Value::Int8(4)));
    o.apply(&report(PROP_BATTERY_BARS, Value::Int8(NO_RECENT_DATA)));
    assert_eq!(
        o.to_mic_state().battery_bars,
        None,
        "-1 is 'no recent data', which is not the same as a flat battery"
    );
}

#[test]
fn the_battery_reading_after_carrier_acquisition_is_discarded() {
    let mut o = Observed::default();
    o.apply(&report(PROP_RF_BARS, Value::UInt8(0))); // no carrier
    o.apply(&report(PROP_RF_BARS, Value::UInt8(3))); // carrier acquired

    // The first reading after the acquisition is a known transient.
    assert!(!o.apply(&report(PROP_BATTERY_BARS, Value::Int8(3))));
    assert_eq!(o.to_mic_state().battery_bars, None);

    // The next one settles and is trusted.
    assert!(o.apply(&report(PROP_BATTERY_BARS, Value::Int8(2))));
    assert_eq!(o.to_mic_state().battery_bars, Some(2));
}

#[test]
fn the_rf_floor_with_no_carrier_is_reported_as_no_reading() {
    let mut o = Observed::default();
    o.apply(&report(PROP_RF_LEVEL_DBM, Value::Int32(RF_FLOOR_DBM)));
    o.apply(&report(PROP_RF_BARS, Value::UInt8(0)));
    assert_eq!(
        o.to_mic_state().rf_level_dbm,
        None,
        "-50 dBm with 0 bars is a floor, not a measurement"
    );

    o.apply(&report(PROP_RF_LEVEL_DBM, Value::Int32(-27)));
    o.apply(&report(PROP_RF_BARS, Value::UInt8(4)));
    assert_eq!(o.to_mic_state().rf_level_dbm, Some(Reading::Signed(-27)));
}

#[test]
fn the_unresolved_level_never_reaches_audio_level_dbfs() {
    let mut o = Observed::default();
    o.apply(&report(PROP_UNRESOLVED_LEVEL, Value::Int16(-55)));
    assert_eq!(
        o.to_mic_state().audio_level_dbfs,
        None,
        "0x02000812 is not audio and must never be presented as it"
    );
}

#[test]
fn frequency_is_converted_from_khz_to_mhz() {
    let mut o = Observed::default();
    o.apply(&report(PROP_FREQUENCY_KHZ, Value::UInt32(606_700)));
    let khz = match o.to_mic_state().frequency_khz {
        Some(Reading::Unsigned(khz)) => khz,
        other => panic!("unexpected {other:?}"),
    };
    assert_eq!(khz as f64 / 1000.0, 606.700);
}

#[test]
fn set_mute_refuses_rather_than_writing_to_a_guessed_address() {
    let a = ShureAcnAdapter::new("qlxd-1", localhost());
    let err = a.set_mute(1, true).unwrap_err();
    let AdapterError::Protocol(message) = err else {
        panic!("expected a protocol error");
    };
    assert!(message.contains("mic-adapter-shure"), "should point at the working path");
}

#[test]
fn only_channel_one_exists_on_a_single_channel_receiver() {
    let a = ShureAcnAdapter::new("qlxd-1", localhost());
    assert!(a.get_state(1).is_ok());
    assert!(matches!(a.get_state(2), Err(AdapterError::UnsupportedChannel(2))));
}

#[test]
fn identify_explains_itself_when_nothing_has_been_heard() {
    let mut a = ShureAcnAdapter::new("qlxd-1", localhost());
    assert_eq!(a.identify(), Err(AdapterError::Connection("not connected".to_string())));
    a.set_connected();
    let err = a.identify().unwrap_err();
    let AdapterError::Protocol(message) = err else {
        panic!("expected a protocol error");
    };
    assert!(message.contains("every ~2 s"));
}

fn hex(s: &str) -> Vec<u8> {
    let s: String = s.chars().filter(|c| !c.is_whitespace()).collect();
    (0..s.len()).step_by(2).map(|i| u8::from_str_radix(&s[i..i + 2], 16).unwrap()).collect()
}

const EVENT: &str = "001000004153432d45312e3137000000705f00000001dd47e0d7000011dda000000eddcccccc\
704902f17100001ee80000005c0000005cffffffff00007032ffff000000020000700904020200081502700c040202000114ffffffce\
700904020200010100700a040202000812ffc9";

#[test]
fn telemetry_brings_one_event_for_a_datagram() {
    let mut a = ShureAcnAdapter::new("qlxd-1", localhost());
    assert_eq!(a.id(), "qlxd-1");
    let event = a.hear_telemetry(&hex(EVENT)).unwrap();
    assert_eq!(event.address, MicAddress::new("qlxd-1", 1));
    // The level is the floor and there are no bars: no reading.
    assert_eq!(event.state.rf_level_dbm, None);
    assert!(a.hear_telemetry(b"something else").is_none());
}

#[test]
fn a_receiver_is_identified_by_what_it_advertises() {
    let mut a = ShureAcnAdapter::new("qlxd-1", localhost());
    a.set_connected();
    let reply = |attrs: &[u8]| {
        let mut pkt = vec![2u8, 7, 0, 0, 0, 0, 0, 0, 0, 0, 0, 1, 0, 0, 0, 0];
        pkt.extend_from_slice(&(attrs.len() as u16).to_be_bytes());
        pkt.extend_from_slice(attrs);
        pkt
    };
    a.hear_discovery(&reply(b"(acn-fctn=Yamaha Console)"));
    assert!(a.identify().is_err());
    a.hear_discovery(&reply(b"(acn-fctn=QLXD4)"));
    let info = a.identify().unwrap();
    assert_eq!(info.vendor, "Shure");
    assert_eq!(info.model, "QLXD4");
    assert_eq!(info.address, localhost());
}

#[test]
fn names_are_remembered_and_bring_no_event() {
    let mut o = Observed::default();
    assert!(!o.apply(&report(PROP_MODEL_NAME, Value::Text("ULXD4".to_string()))));
    assert!(!o.apply(&report(PROP_DEVICE_NAME, Value::Text("House 1".to_string()))));
    assert!(!o.apply(&report(PROP_CHANNEL_NAME, Value::Text("Vox".to_string()))));
    assert_eq!(o.advertisement.as_ref().unwrap().model.as_deref(), Some("ULXD4"));
    assert_eq!(o.device_name.as_deref(), Some("House 1"));
    assert_eq!(o.channel_name.as_deref(), Some("Vox"));
    assert!(!o.apply(&report(PROP_RF_BARS, Value::Int8(1))));
    // Every report of a datagram counts, also after one that is worth publishing.
    let all = [
        report(PROP_RF_BARS, Value::UInt8(0)),
        report(PROP_DEVICE_NAME, Value::Text("House 2".to_string())),
    ];
    assert!(o.apply_all(&all));
    assert_eq!(o.device_name.as_deref(), Some("House 2"));
    // A negative count other than the sentinel keeps its octet.
    assert!(o.apply(&report(PROP_BATTERY_BARS, Value::Int8(-2))));
    assert_eq!(o.battery_bars, Some(254));
}
