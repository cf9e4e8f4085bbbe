use dante_babelbox::address::IpAddress;
use dante_babelbox::mic::capture::{read_packets, udp_payload, Packet};
use dante_babelbox::mic::acn::{
    PropertyReport, PropertyValue, NO_RECENT_DATA, PROP_BATTERY_BARS, PROP_CHANNEL_NAME,
    PROP_DEVICE_NAME, PROP_FREQUENCY_KHZ, PROP_MODEL_NAME, PROP_RF_BARS, PROP_RF_LEVEL_DBM,
    PROP_UNRESOLVED_INDICATOR, PROP_UNRESOLVED_LEVEL,
};
use dante_babelbox::mic::config::{Config, MicConfig, MicKind};
use dante_babelbox::mic::digest::{Change, Digest};
use dante_babelbox::mic::slp::Advertisement;
use dante_babelbox::mic::{
    empty_state, format_event, AntennaDiversity, MicAddress, MicEvent, MicState, Reading,
};

fn mic(id: &str, kind: MicKind, address: u32, port: Option<u16>) -> MicConfig {
    MicConfig { id: id.to_string(), kind, address: IpAddress::V4(address), port }
}

#[test]
fn parses_example_config() {
    let cfg = Config {
        mics: vec![
            mic("ulxd-1", MicKind::ShureUlxd, 0x0a00_001e, Some(2202)),
            mic("ewdx-1", MicKind::SennheiserEwdx, 0x0a00_001f, None),
        ],
    };
    assert!(cfg.validate().is_ok());
    assert_eq!(cfg.mics.len(), 2);
    assert_eq!(cfg.mics[0].kind, MicKind::ShureUlxd);
    assert_eq!(cfg.mics[0].port, Some(2202));
    assert_eq!(cfg.mics[1].kind, MicKind::SennheiserEwdx);
    assert_eq!(cfg.mics[1].port, None);
    assert_eq!(cfg.mics[0].remote_port(), 2202);
    assert_eq!(cfg.mics[1].remote_port(), 45);
    assert_eq!(mic("a", MicKind::ShureAxient, 1, None).remote_port(), 2202);
    assert_eq!(mic("a", MicKind::SennheiserEwdx, 1, Some(9)).remote_port(), 9);
}

#[test]
fn rejects_duplicate_ids() {
    let cfg = Config {
        mics: vec![
            mic("ulxd-1", MicKind::ShureUlxd, 0x0a00_001e, Some(2202)),
            mic("ulxd-1", MicKind::SennheiserEwdx, 0x0a00_001f, None),
        ],
    };
    assert!(cfg.validate().is_err());
    assert_eq!(cfg.validate().unwrap_err(), "duplicate mic id 'ulxd-1' in config");
    assert!(Config { mics: vec![] }.validate().is_ok());
}

#[test]
fn formats_event_with_missing_fields_as_na() {
    let event = MicEvent {
        address: MicAddress::new("ulxd-1", 1),
        state: MicState {
            battery_percent: Some(82),
            battery_minutes_remaining: None,
            rf_level_dbm: Some(Reading::Signed(-45)),
            rf_quality_percent: None,
            audio_level_dbfs: None,
            muted: false,
            frequency_khz: Some(Reading::Unsigned(614125)),
            antenna: Some(AntennaDiversity::A),
            ..empty_state()
        },
    };
    let line = format_event(&event, "-45", "", "614.125");
    assert!(line.starts_with("ulxd-1 ch1:"));
    assert!(line.contains("battery=82%"));
    assert!(line.contains("runtime=n/a"));
    assert!(line.contains("rf=-45dBm"));
    assert!(line.contains("antenna=A"));
    assert!(line.contains("mute=false"));
    assert_eq!(
        line,
        "ulxd-1 ch1: battery=82% runtime=n/a rf=-45dBm quality=n/a af=n/a antenna=A freq=614.125MHz mute=false"
    );
}

#[test]
fn formats_every_field_that_is_there() {
    let event = MicEvent {
        address: MicAddress::new("x", 12),
        state: MicState {
            battery_minutes_remaining: Some(120),
            rf_quality_percent: Some(7),
            audio_level_dbfs: Some(Reading::Signed(-18)),
            muted: true,
            antenna: Some(AntennaDiversity::Inactive),
            ..empty_state()
        },
    };
    assert_eq!(
        format_event(&event, "unused", "-18", "unused"),
        "x ch12: battery=n/a runtime=120min rf=n/a quality=7% af=-18dBFS antenna=none freq=n/a mute=true"
    );
}

fn frame(payload: &[u8]) -> Vec<u8> {
    let mut f = vec![0u8; 12];
    f.extend_from_slice(&[0x08, 0x00]);
    let mut ip = vec![0u8; 20];
    ip[0] = 0x45;
    ip[9] = 17;
    f.extend_from_slice(&ip);
    f.extend_from_slice(&[0, 1, 0, 2]);
    f.extend_from_slice(&((payload.len() + 8) as u16).to_be_bytes());
    f.extend_from_slice(&[0, 0]);
    f.extend_from_slice(payload);
    f
}

#[test]
fn udp_payloads_are_found_in_frames() {
    let f = frame(b"hello");
    assert_eq!(udp_payload(&f), Some(&b"hello"[..]));
    // Trailing padding is not payload.
    let mut padded = f.clone();
    padded.extend_from_slice(&[0; 9]);
    assert_eq!(udp_payload(&padded), Some(&b"hello"[..]));
    assert_eq!(udp_payload(&f[..f.len() - 1]), None);
    let mut tcp = f.clone();
    tcp[23] = 6;
    assert_eq!(udp_payload(&tcp), None);
    let mut v6 = f.clone();
    v6[14] = 0x65;
    assert_eq!(udp_payload(&v6), None);
    let mut arp = f.clone();
    arp[13] = 0x06;
    assert_eq!(udp_payload(&arp), None);
    assert_eq!(udp_payload(&[]), None);
}

#[test]
fn captures_of_the_older_format_are_read_in_both_byte_orders() {
    for little in [true, false] {
        let number = |n: u32| if little { n.to_le_bytes() } else { n.to_be_bytes() };
        let mut s = number(0xa1b2_c3d4).to_vec();
        s.extend_from_slice(&[0; 20]);
        for (sec, data) in [(2u32, &b"ab"[..]), (3, &b"c"[..])] {
            s.extend_from_slice(&number(sec));
            s.extend_from_slice(&number(5));
            s.extend_from_slice(&number(data.len() as u32));
            s.extend_from_slice(&number(99));
            s.extend_from_slice(data);
        }
        let expected = vec![
            Packet { timestamp_us: 2_000_005, data: b"ab".to_vec() },
            Packet { timestamp_us: 3_000_005, data: b"c".to_vec() },
        ];
        assert_eq!(read_packets(&s).unwrap(), expected);
        // A packet that is cut off ends the list.
        assert_eq!(read_packets(&s[..s.len() - 1]).unwrap().len(), 1);
        assert_eq!(read_packets(&s[..24]).unwrap().len(), 0);
    }
    assert_eq!(read_packets(b"abcd").unwrap_err(), "not a pcap or pcapng file");
    assert!(read_packets(b"").is_err());
}

#[test]
fn captures_of_the_newer_format_are_read_in_both_byte_orders() {
    for little in [true, false] {
        let number = |n: u32| if little { n.to_le_bytes() } else { n.to_be_bytes() };
        let mut s = vec![0x0a, 0x0d, 0x0d, 0x0a];
        s.extend_from_slice(&number(16));
        s.extend_from_slice(&number(0x1a2b_3c4d));
        s.extend_from_slice(&number(16));
        // A block of another type is passed over.
        s.extend_from_slice(&number(1));
        s.extend_from_slice(&number(12));
        s.extend_from_slice(&number(12));
        // A packet.
        s.extend_from_slice(&number(6));
        s.extend_from_slice(&number(36));
        for n in [0u32, 1, 7, 3, 3] {
            s.extend_from_slice(&number(n));
        }
        s.extend_from_slice(b"xyz\0");
        s.extend_from_slice(&number(36));
        let expected = vec![Packet { timestamp_us: (1 << 32) + 7, data: b"xyz".to_vec() }];
        assert_eq!(read_packets(&s).unwrap(), expected);
        assert_eq!(read_packets(&s[..s.len() - 1]).unwrap(), vec![]);
    }
}

#[test]
fn a_digest_announces_changes_and_keeps_the_last_values() {
    let mut digest = Digest::new();
    let mut note = |address: u32, value: PropertyValue| digest.note(&PropertyReport { address, value });
    let text = |s: &str| PropertyValue::Text(s.to_string());

    assert_eq!(note(PROP_MODEL_NAME, text("QLXD4")), None);
    assert_eq!(
        note(PROP_DEVICE_NAME, text("Rack 1")),
        Some(Change::DeviceName("Rack 1".to_string()))
    );
    assert_eq!(note(PROP_DEVICE_NAME, text("Rack 1")), None);
    assert_eq!(
        note(PROP_CHANNEL_NAME, text("Vox")),
        Some(Change::ChannelName("Vox".to_string()))
    );
    assert_eq!(
        note(PROP_FREQUENCY_KHZ, PropertyValue::UInt32(614_125)),
        Some(Change::FrequencyKhz(614_125))
    );
    assert_eq!(note(PROP_RF_LEVEL_DBM, PropertyValue::Int32(-45)), Some(Change::RfLevelDbm(-45)));
    assert_eq!(note(PROP_RF_BARS, PropertyValue::UInt8(3)), Some(Change::RfBars(3)));
    assert_eq!(note(PROP_RF_BARS, PropertyValue::UInt8(3)), None);
    assert_eq!(note(PROP_RF_BARS, PropertyValue::UInt8(4)), Some(Change::RfBars(4)));
    assert_eq!(
        note(PROP_BATTERY_BARS, PropertyValue::Int8(NO_RECENT_DATA)),
        Some(Change::BatteryBars(-1))
    );
    assert_eq!(note(PROP_UNRESOLVED_LEVEL, PropertyValue::Int16(7)), None);
    assert_eq!(note(PROP_UNRESOLVED_INDICATOR, PropertyValue::UInt8(1)), None);
    // A value of the wrong width says nothing.
    assert_eq!(note(PROP_RF_LEVEL_DBM, PropertyValue::UInt8(1)), None);

    assert_eq!(digest.model.as_deref(), Some("QLXD4"));
    assert_eq!((digest.rf_bars, digest.rf_level_dbm), (Some(4), Some(-45)));
    assert_eq!(digest.unresolved, 2);
    assert!(digest.telemetry);
    assert!(!Digest::new().telemetry);
}

#[test]
fn a_model_is_announced_once() {
    let mut digest = Digest::new();
    let mut ad = Advertisement::default();
    ad.model = Some("QLXD4".to_string());
    assert!(!digest.note_advertisement(&ad));
    ad.user_name = Some("Rack 1".to_string());
    assert!(digest.note_advertisement(&ad));
    ad.user_name = Some("Rack 2".to_string());
    assert!(!digest.note_advertisement(&ad));
    ad.model = Some("ULXD4".to_string());
    assert!(digest.note_advertisement(&ad));
    assert_eq!(digest.advertised, vec!["QLXD4".to_string(), "ULXD4".to_string()]);
}
