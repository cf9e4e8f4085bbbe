use dante_babelbox::mic::acn::{
    decode_property, properties_in_datagram, property_kind, walk_pdus, PropertyKind,
    PropertyReport, PropertyValue as Value, ADDR_HEADER_4BYTE_ABSOLUTE, NO_RECENT_DATA,
    PROP_AF_OUTPUT_LEVEL, PROP_BATTERY_BARS, PROP_BATTERY_CHARGE, PROP_BATTERY_RUN_TIME,
    PROP_CHANNEL_NAME, PROP_DEVICE_NAME, PROP_FREQUENCY_KHZ, PROP_MODEL_NAME, PROP_RF_BARS,
    PROP_RF_LEVEL_DBM, PROP_UNKNOWN_0104, PROP_UNRESOLVED_INDICATOR, PROP_UNRESOLVED_LEVEL,
};


    /// A real `EVENT` datagram from the QLXD4 in
    /// `qlxd4-battery-swap.pcap`, receiver -> console, with **no carrier
    /// present**: RF pinned at the -50 dBm floor and 0 RF bars.
    const REAL_EVENT: &str = "001000004153432d45312e3137000000705f00000001dd47e0d7000011dda000000eddcccccc\
704902f17100001ee80000005c0000005cffffffff00007032ffff000000020000700904020200081502700c040202000114ffffffce\
700904020200010100700a040202000812ffc9";

    fn hex(s: &str) -> Vec<u8> {
        let s: String = s.chars().filter(|c| !c.is_whitespace()).collect();
        (0..s.len())
            .step_by(2)
            .map(|i| u8::from_str_radix(&s[i..i + 2], 16).unwrap())
            .collect()
    }

    #[test]
    fn decodes_a_real_event_from_the_receiver() {
        let props = properties_in_datagram(&hex(REAL_EVENT));
        assert_eq!(props.len(), 4, "this frame carries four properties");

        assert_eq!(
            props[0],
            PropertyReport {
                address: PROP_UNRESOLVED_INDICATOR,
                value: Value::UInt8(2)
            }
        );
        assert_eq!(
            props[1],
            PropertyReport {
                address: PROP_RF_LEVEL_DBM,
                value: Value::Int32(-50)
            },
            "the no-carrier floor, exactly as the spec records it"
        );
        assert_eq!(
            props[2],
            PropertyReport {
                address: PROP_RF_BARS,
                value: Value::UInt8(0)
            },
            "0 bars with no transmitter on"
        );
        assert_eq!(
            props[3],
            PropertyReport {
                address: PROP_UNRESOLVED_LEVEL,
                value: Value::Int16(-55)
            },
            "drifting near -55 with no carrier - which is why it is not audio"
        );
    }

    #[test]
    fn a_datagram_without_the_acn_preamble_is_ignored() {
        assert!(properties_in_datagram(b"not an acn packet at all").is_empty());
    }

    #[test]
    fn an_unknown_address_stops_decoding_rather_than_misaligning() {
        // Width is unknowable for an address outside the table, so the
        // property is dropped instead of consuming an arbitrary number of
        // bytes and corrupting everything after it.
        let header = [ADDR_HEADER_4BYTE_ABSOLUTE];
        let data = [0x09, 0x99, 0x99, 0x99, 0x42];
        assert!(decode_property(&header, &data).is_none());
    }

    #[test]
    fn text_properties_use_the_inclusive_length_prefix() {
        // "0009 House 1" - 7 characters plus the two length bytes.
        let mut data = PROP_DEVICE_NAME.to_be_bytes().to_vec();
        data.extend_from_slice(&9u16.to_be_bytes());
        data.extend_from_slice(b"House 1");
        let report = decode_property(&[ADDR_HEADER_4BYTE_ABSOLUTE], &data).unwrap();
        assert_eq!(report.value, Value::Text("House 1".into()));
    }

    #[test]
    fn battery_bars_carry_a_no_data_sentinel_distinct_from_empty() {
        let mut data = PROP_BATTERY_BARS.to_be_bytes().to_vec();
        data.push(0xFF); // -1
        let report = decode_property(&[ADDR_HEADER_4BYTE_ABSOLUTE], &data).unwrap();
        assert_eq!(report.value, Value::Int8(NO_RECENT_DATA));

        let mut data = PROP_BATTERY_BARS.to_be_bytes().to_vec();
        data.push(0); // a real zero-bar reading
        let report = decode_property(&[ADDR_HEADER_4BYTE_ABSOLUTE], &data).unwrap();
        assert_eq!(report.value, Value::Int8(0));
    }

    #[test]
    fn pdu_inheritance_reuses_the_previous_vector_and_header() {
        // Two PDUs: the first declares vector and header, the second sets
        // only the data flag and must inherit both.
        let mut buf = Vec::new();
        buf.extend_from_slice(&[0x70, 0x06, 0xAA, 0xBB, 0x01]); // flags 7, len 6
        buf.push(0x99);
        buf.extend_from_slice(&[0x10, 0x03, 0x77]); // flags 1, len 3, data only

        let pdus = walk_pdus(&buf, 2, 1);
        assert_eq!(pdus.len(), 2);
        assert_eq!(pdus[0].vector, &[0xAA, 0xBB]);
        assert_eq!(pdus[0].header, &[0x01]);
        assert_eq!(pdus[1].vector, &[0xAA, 0xBB], "vector is inherited");
        assert_eq!(pdus[1].header, &[0x01], "header is inherited");
        assert_eq!(pdus[1].data, &[0x77]);
    }

    #[test]
    fn a_truncated_pdu_is_dropped_rather_than_read_past_the_buffer() {
        let buf = [0x70, 0x40, 0x01, 0x02];
        assert!(walk_pdus(&buf, 2, 1).is_empty());
    }

#[test]
fn every_known_property_has_its_kind() {
    for address in [PROP_MODEL_NAME, PROP_DEVICE_NAME, PROP_CHANNEL_NAME] {
        assert_eq!(property_kind(address), Some(PropertyKind::Text));
    }
    for address in [PROP_AF_OUTPUT_LEVEL, PROP_BATTERY_BARS, PROP_BATTERY_CHARGE] {
        assert_eq!(property_kind(address), Some(PropertyKind::Int8));
    }
    for address in [PROP_RF_BARS, PROP_UNRESOLVED_INDICATOR, PROP_UNKNOWN_0104] {
        assert_eq!(property_kind(address), Some(PropertyKind::UInt8));
    }
    for address in [PROP_UNRESOLVED_LEVEL, PROP_BATTERY_RUN_TIME] {
        assert_eq!(property_kind(address), Some(PropertyKind::Int16));
    }
    assert_eq!(property_kind(PROP_FREQUENCY_KHZ), Some(PropertyKind::UInt32));
    assert_eq!(property_kind(PROP_RF_LEVEL_DBM), Some(PropertyKind::Int32));
    assert_eq!(property_kind(0x0999_9999), None);
}

#[test]
fn a_wide_length_is_three_octets() {
    let mut buf = vec![0xF0, 0x00, 0x07, 0xAA, 0x01, 0x55, 0x66];
    buf.extend_from_slice(&[0x40, 0x03, 0xBB]);
    let pdus = walk_pdus(&buf, 1, 1);
    assert_eq!(pdus.len(), 2);
    assert_eq!(pdus[0].vector, &[0xAA]);
    assert_eq!(pdus[0].header, &[0x01]);
    assert_eq!(pdus[0].data, &[0x55, 0x66]);
    assert_eq!(pdus[1].vector, &[0xBB]);
    assert_eq!(pdus[1].header, &[0x01]);
    assert_eq!(pdus[1].data, &[0x55, 0x66]);
    assert!(walk_pdus(&[0xF0, 0x00], 1, 1).is_empty());
    assert!(walk_pdus(&[0x00, 0x01], 1, 1).is_empty());
}

#[test]
fn data_that_is_left_out_is_inherited_too() {
    let buf = [0x70, 0x06, 0xAA, 0xBB, 0x01, 0x99, 0x60, 0x05, 0xCC, 0xDD, 0x02];
    let pdus = walk_pdus(&buf, 2, 1);
    assert_eq!(pdus.len(), 2);
    assert_eq!(pdus[1].vector, &[0xCC, 0xDD]);
    assert_eq!(pdus[1].header, &[0x02]);
    assert_eq!(pdus[1].data, &[0x99]);
    // Nothing stands before the first.
    let pdus = walk_pdus(&[0x00, 0x02], 2, 1);
    assert_eq!(pdus.len(), 1);
    assert!(pdus[0].vector.is_empty() && pdus[0].header.is_empty() && pdus[0].data.is_empty());
}

#[test]
fn a_value_that_is_cut_off_is_no_value() {
    let header = [ADDR_HEADER_4BYTE_ABSOLUTE];
    let mut data = PROP_RF_LEVEL_DBM.to_be_bytes().to_vec();
    data.extend_from_slice(&[0xff, 0xff, 0xff]);
    assert!(decode_property(&header, &data).is_none());
    data.push(0xce);
    assert_eq!(decode_property(&header, &data).unwrap().value, Value::Int32(-50));
    assert!(decode_property(&[0x01], &data).is_none());
    assert!(decode_property(&[], &data).is_none());
    assert!(decode_property(&header, &data[..3]).is_none());
    let mut text = PROP_DEVICE_NAME.to_be_bytes().to_vec();
    text.extend_from_slice(&[0, 4, b'a']);
    assert!(decode_property(&header, &text).is_none());
    // A length below its own two octets is an empty text.
    text[5] = 1;
    assert_eq!(decode_property(&header, &text).unwrap().value, Value::Text(String::new()));
}

#[test]
fn text_that_is_no_utf8_is_replaced() {
    let mut data = PROP_DEVICE_NAME.to_be_bytes().to_vec();
    data.extend_from_slice(&[0, 4, 0xff, b'a']);
    let report = decode_property(&[ADDR_HEADER_4BYTE_ABSOLUTE], &data).unwrap();
    assert_eq!(report.value, Value::Text("\u{fffd}a".to_string()));
}
