use dante_babelbox::address::IpAddress;
use dante_babelbox::bridge::adapter::AdapterError;
use dante_babelbox::mic::json::{parse_json, Json};
use dante_babelbox::mic::sennheiser::{
    antenna_from_divi, extract_updates, parse_indexed, SennheiserAdapter, Update,
    SUBSCRIBE_LIFETIME_SECS,
};
use dante_babelbox::mic::{AntennaDiversity, MicAddress, Reading};

fn json(text: &str) -> Json {
    parse_json(text.as_bytes()).unwrap()
}

fn float(x: f64) -> Reading {
    Reading::Float(x.to_bits())
}

#[test]
fn extracts_mute_and_frequency_converting_khz_to_mhz() {
    let root = json(r#"{"rx1": {"mute": true, "frequency": 614125}}"#);
    let updates = extract_updates(&root);
    assert!(updates.contains(&Update::Mute { channel: 1, muted: true }));
    let khz = 614125;
    assert!(updates.contains(&Update::Frequency { channel: 1, khz: Reading::Unsigned(khz) }));
    assert_eq!(khz as f64 / 1000.0, 614.125);
}

#[test]
fn extracts_metering_fields_with_documented_antenna_codes() {
    let root = json(r#"{"m": {"rx2": {"rssi": -45.5, "rsqi": 92, "divi": 2, "af": -20.3}}}"#);
    let updates = extract_updates(&root);
    assert!(updates.contains(&Update::Rssi { channel: 2, dbm: float(-45.5) }));
    assert!(updates.contains(&Update::Rsqi { channel: 2, percent: 92 }));
    assert!(updates.contains(&Update::Divi { channel: 2, antenna: Some(AntennaDiversity::B) }));
    assert!(updates.contains(&Update::Af { channel: 2, dbfs: float(-20.3) }));
}

#[test]
fn extracts_battery_using_matching_rx_channel_as_tx_index() {
    let root = json(r#"{"mates": {"tx3": {"battery": {"gauge": 65, "lifetime": 312}}}}"#);
    let updates = extract_updates(&root);
    assert!(updates.contains(&Update::BatteryGauge { channel: 3, percent: Some(65) }));
    assert!(updates.contains(&Update::BatteryLifetime { channel: 3, minutes: Some(312) }));
}

#[test]
fn missing_battery_fields_stay_none_not_guessed() {
    let root = json(r#"{"mates": {"tx1": {"battery": {}}}}"#);
    let updates = extract_updates(&root);
    assert!(updates.contains(&Update::BatteryGauge { channel: 1, percent: None }));
    assert!(updates.contains(&Update::BatteryLifetime { channel: 1, minutes: None }));
}

#[test]
fn extracts_device_identity() {
    let root = json(
        r#"{"device": {"identity": {"vendor": "Sennheiser electronic SE & CO KG", "product": "EW-DX EM 2"}}}"#,
    );
    let updates = extract_updates(&root);
    assert_eq!(
        updates,
        vec![Update::Identity {
            vendor: Some("Sennheiser electronic SE & CO KG".to_string()),
            product: Some("EW-DX EM 2".to_string()),
        }]
    );
}

#[test]
fn get_state_subscribes_once_and_the_initial_notification_populates_it() {
    let mut adapter = SennheiserAdapter::new("ewdx-1", IpAddress::V4(0x7f00_0001));
    assert!(adapter.get_state(1, 0).is_none());

    // The request asks for channel 1's mute, frequency, meters and battery.
    let request = SennheiserAdapter::subscribe_request(1);
    let received: serde_json::Value = serde_json::from_str(&request).unwrap();
    let sub = &received["osc"]["state"]["subscribe"][0];
    assert!(sub["rx1"]["mute"].is_null());
    assert!(sub["m"]["rx1"]["rssi"].is_null());
    assert!(sub["mates"]["tx1"]["battery"]["gauge"].is_null());
    assert_eq!(sub["#"]["lifetime"], SUBSCRIBE_LIFETIME_SECS);

    // The first notification holds the current values.
    let reply = r#"{
        "rx1": {"mute": false},
        "m": {"rx1": {"rssi": -50.0, "rsqi": 88, "divi": 1, "af": -18.0}},
        "mates": {"tx1": {"battery": {"gauge": 72, "lifetime": 245}}}
    }"#;
    let events = adapter.receive(reply.as_bytes());

    let state = adapter.get_state(1, 0).unwrap().unwrap();
    assert_eq!(state.battery_percent, Some(72));
    assert_eq!(state.battery_minutes_remaining, Some(245));
    assert_eq!(state.rf_level_dbm, Some(float(-50.0)));
    assert_eq!(state.rf_quality_percent, Some(88));
    assert_eq!(state.antenna, Some(AntennaDiversity::A));
    assert_eq!(state.audio_level_dbfs, Some(float(-18.0)));
    assert!(!state.muted);

    assert_eq!(events.len(), 1);
    assert_eq!(events[0].address, MicAddress::new("ewdx-1", 1));
    assert_eq!(events[0].state, state);
}

#[test]
fn sennheiser_requests_are_the_documented_json() {
    assert_eq!(
        SennheiserAdapter::identity_request(),
        r#"{"device":{"identity":{"product":null,"vendor":null}}}"#
    );
    assert_eq!(SennheiserAdapter::set_mute(2, true), r#"{"rx2":{"mute":true}}"#);
    assert_eq!(SennheiserAdapter::set_mute(10, false), r#"{"rx10":{"mute":false}}"#);
    let text = [
        r##"{"osc":{"state":{"subscribe":[{"#":{"lifetime":3600},"##,
        r#""m":{"rx3":{"af":null,"divi":null,"rsqi":null,"rssi":null}},"#,
        r#""mates":{"tx3":{"battery":{"gauge":null,"lifetime":null}}},"#,
        r#""rx3":{"frequency":null,"mute":null}}]}}}"#,
    ]
    .concat();
    assert_eq!(SennheiserAdapter::subscribe_request(3), text);
}

#[test]
fn json_is_read_as_it_stands() {
    assert_eq!(
        json(r#"{"b": [null, true, 1, -2, 0.5, "t"], "a": {}, "big": 18446744073709551615}"#),
        Json::Object(vec![
            ("a".to_string(), Json::Object(vec![])),
            (
                "b".to_string(),
                Json::List(vec![
                    Json::Null,
                    Json::Bool(true),
                    Json::Number(Reading::Unsigned(1)),
                    Json::Number(Reading::Signed(-2)),
                    Json::Number(float(0.5)),
                    Json::Text("t".to_string()),
                ])
            ),
            ("big".to_string(), Json::Number(Reading::Unsigned(u64::MAX))),
        ])
    );
    assert!(parse_json(b"{").is_none());
    assert!(parse_json(b"").is_none());
    assert!(parse_json(&[0xff]).is_none());
}

#[test]
fn values_of_another_type_are_left_out() {
    assert_eq!(extract_updates(&json("[1]")), vec![]);
    let root = json(
        r#"{"rx1": {"mute": 1, "frequency": "x"}, "m": 3, "mates": [], "device": {"identity": {"vendor": 1}},
            "other": {"mute": true}, "rx": {"mute": true}, "rx70000": {"mute": true}}"#,
    );
    assert_eq!(extract_updates(&root), vec![]);
    let root = json(r#"{"m": {"tx1": {"rssi": 1}, "rx1": {"rsqi": -1, "divi": 9, "af": 3}}}"#);
    assert_eq!(
        extract_updates(&root),
        vec![
            Update::Divi { channel: 1, antenna: None },
            Update::Af { channel: 1, dbfs: Reading::Unsigned(3) },
        ]
    );
    let root = json(r#"{"m": {"rx1": {"rsqi": 300}}, "mates": {"tx1": {"battery": {"gauge": 257, "lifetime": 65537}}}}"#);
    assert_eq!(
        extract_updates(&root),
        vec![
            Update::Rsqi { channel: 1, percent: 44 },
            Update::BatteryGauge { channel: 1, percent: Some(1) },
            Update::BatteryLifetime { channel: 1, minutes: Some(1) },
        ]
    );
    assert_eq!(antenna_from_divi(0), Some(AntennaDiversity::Inactive));
    assert_eq!(parse_indexed("tx12", "tx"), Some(12));
    assert_eq!(parse_indexed("rx", "rx"), None);
}

#[test]
fn identities_are_put_together() {
    let mut adapter = SennheiserAdapter::new("ewdx-1", IpAddress::V4(0x0a00_001f));
    assert_eq!(adapter.id(), "ewdx-1");
    assert!(adapter.identify(0).is_none());
    assert_eq!(
        adapter.identify(20),
        Some(Err(AdapterError::Protocol("no reply for device identity".to_string())))
    );
    assert!(adapter.receive(br#"{"device": {"identity": {"vendor": "S"}}}"#).is_empty());
    let info = adapter.identify(0).unwrap().unwrap();
    assert_eq!((info.vendor.as_str(), info.model.as_str()), ("S", ""));
    adapter.receive(br#"{"device": {"identity": {"product": "EW"}}}"#);
    let info = adapter.identify(0).unwrap().unwrap();
    assert_eq!((info.vendor.as_str(), info.model.as_str()), ("S", "EW"));
    assert_eq!(info.address, IpAddress::V4(0x0a00_001f));
}

#[test]
fn a_reply_brings_one_event_for_each_channel_it_touches() {
    let mut adapter = SennheiserAdapter::new("ewdx-1", IpAddress::V4(1));
    let reply = r#"{"rx2": {"mute": true}, "m": {"rx1": {"rsqi": 5}, "rx2": {"rsqi": 6}}, "rx1": {"frequency": 1}}"#;
    let events = adapter.receive(reply.as_bytes());
    // Members are walked by key: "m" first.
    assert_eq!(events.len(), 2);
    assert_eq!(events[0].address.channel, 1);
    assert_eq!(events[0].state.rf_quality_percent, Some(5));
    assert_eq!(events[0].state.frequency_khz, Some(Reading::Unsigned(1)));
    assert_eq!(events[1].address.channel, 2);
    assert!(events[1].state.muted);
    assert!(adapter.receive(b"not json").is_empty());
    assert!(adapter.get_state(2, 0).unwrap().unwrap().muted);
    assert_eq!(
        adapter.get_state(3, 20),
        Some(Err(AdapterError::Protocol("no reply for channel 3 mic state".to_string())))
    );
}
