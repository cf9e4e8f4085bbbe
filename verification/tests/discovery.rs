use dante_babelbox::address::IpAddress;
use dante_babelbox::discovery::dante_control::{
    build_device_name_query, build_rx_query, build_tx_query, is_answer, parse_device_name,
    parse_rx_page, parse_tx_friendly_page, parse_tx_info_page, RxQuery, TxQuery, BODY_HEADER_SIZE,
    OPCODE_DEVICE_NAME, OPCODE_TX_CHANNEL_INFO, OPCODE_TX_CHANNEL_NAMES, PROTOCOL_ID,
    RESPONSE_HEADER_SIZE, RX_RECORD_SIZE, TX_FRIENDLY_RECORD_SIZE, TX_RECORD_SIZE,
};
use dante_babelbox::discovery::{add_resolved, arc_ports, DanteDevice};



#[test]
fn device_name_query_matches_control_packet_framing() {
    let packet = build_device_name_query(1);
    assert_eq!(
        packet,
        [0x27, 0xFF, 0x00, 0x0A, 0x00, 0x01, 0x10, 0x02, 0x00, 0x00]
    );
}

#[test]
fn rx_query_matches_known_bytes() {
    let packet = build_rx_query(0, 0x1234);
    assert_eq!(
        packet,
        [0x27, 0xFF, 0x00, 0x10, 0x12, 0x34, 0x30, 0x00, 0x00, 0x00, 0x00, 0x01, 0x00, 0x01, 0x00, 0x00]
    );
}

#[test]
fn tx_query_selects_opcode_and_pages() {
    let raw = build_tx_query(0, false, 0);
    assert_eq!(&raw[6..8], &OPCODE_TX_CHANNEL_INFO.to_be_bytes());
    let friendly = build_tx_query(1, true, 0);
    assert_eq!(&friendly[6..8], &OPCODE_TX_CHANNEL_NAMES.to_be_bytes());
    assert_eq!(&friendly[10..14], &[0x00, 0x01, 0x00, 33]);
}

#[test]
fn device_name_strips_header_and_terminator() {
    let mut response = vec![0x27, 0xFF, 0x00, 0x16, 0x9e, 0x7f, 0x10, 0x02, 0x00, 0x01];
    response.extend_from_slice(b"avio-aes3-1\x00");
    assert_eq!(parse_device_name(&response).as_deref(), Some("avio-aes3-1"));
}

#[test]
fn device_name_too_short_is_none() {
    assert_eq!(parse_device_name(&[0u8; 10]), None);
}

#[test]
fn rx_page_decodes_a_live_subscription() {
    let mut response = vec![0u8; RESPONSE_HEADER_SIZE + BODY_HEADER_SIZE + RX_RECORD_SIZE];
    let strings_base = response.len() as u16;
    response.extend_from_slice(b"rx-1\x00mix-hi\x00mixer\x00");

    let record = RESPONSE_HEADER_SIZE + BODY_HEADER_SIZE;
    response[record..record + 2].copy_from_slice(&1u16.to_be_bytes());
    let tx_channel_pointer = strings_base + 5;
    let tx_device_pointer = strings_base + 12;
    let rx_channel_pointer = strings_base;
    response[record + 6..record + 8].copy_from_slice(&tx_channel_pointer.to_be_bytes());
    response[record + 8..record + 10].copy_from_slice(&tx_device_pointer.to_be_bytes());
    response[record + 10..record + 12].copy_from_slice(&rx_channel_pointer.to_be_bytes());

    let channels = parse_rx_page(&response, 1);
    assert_eq!(channels.len(), 1);
    assert_eq!(channels[0].number, 1);
    assert_eq!(channels[0].tx_channel_name.as_deref(), Some("mix-hi"));
    assert_eq!(channels[0].tx_device_name.as_deref(), Some("mixer"));
}

#[test]
fn rx_page_unsubscribed_channel_has_no_tx_device_name() {
    let mut response = vec![0u8; RESPONSE_HEADER_SIZE + BODY_HEADER_SIZE + RX_RECORD_SIZE];
    let strings_base = response.len() as u16;
    response.extend_from_slice(b"unused-1\x00");

    let record = RESPONSE_HEADER_SIZE + BODY_HEADER_SIZE;
    response[record..record + 2].copy_from_slice(&1u16.to_be_bytes());
    response[record + 6..record + 8].copy_from_slice(&0u16.to_be_bytes());
    response[record + 8..record + 10].copy_from_slice(&0u16.to_be_bytes());
    response[record + 10..record + 12].copy_from_slice(&strings_base.to_be_bytes());

    let channels = parse_rx_page(&response, 1);
    assert_eq!(channels[0].tx_channel_name.as_deref(), Some("unused-1"));
    assert_eq!(channels[0].tx_device_name, None);
}

#[test]
fn rx_page_stops_at_gap() {
    let response = vec![0u8; RESPONSE_HEADER_SIZE + BODY_HEADER_SIZE + RX_RECORD_SIZE];
    assert!(parse_rx_page(&response, 1).is_empty());
}

#[test]
fn tx_info_page_parses_names() {
    let mut response = vec![0u8; RESPONSE_HEADER_SIZE + BODY_HEADER_SIZE + TX_RECORD_SIZE * 2];
    let strings_base = response.len() as u16;
    response.extend_from_slice(b"ch-1\x00ch-2\x00");

    let first = RESPONSE_HEADER_SIZE + BODY_HEADER_SIZE;
    response[first..first + 2].copy_from_slice(&1u16.to_be_bytes());
    response[first + 6..first + 8].copy_from_slice(&strings_base.to_be_bytes());

    let second = first + TX_RECORD_SIZE;
    response[second..second + 2].copy_from_slice(&2u16.to_be_bytes());
    response[second + 6..second + 8].copy_from_slice(&(strings_base + 5).to_be_bytes());

    let channels = parse_tx_info_page(&response, 1);
    assert_eq!(channels.len(), 2);
    assert_eq!(channels[0].name.as_deref(), Some("ch-1"));
    assert_eq!(channels[1].name.as_deref(), Some("ch-2"));
}

#[test]
fn tx_friendly_page_parses_names() {
    let mut response = vec![0u8; RESPONSE_HEADER_SIZE + BODY_HEADER_SIZE + TX_FRIENDLY_RECORD_SIZE];
    let strings_base = response.len() as u16;
    response.extend_from_slice(b"Kick\x00");

    let record = RESPONSE_HEADER_SIZE + BODY_HEADER_SIZE;
    response[record + 2..record + 4].copy_from_slice(&1u16.to_be_bytes());
    response[record + 4..record + 6].copy_from_slice(&strings_base.to_be_bytes());

    let names = parse_tx_friendly_page(&response);
    assert_eq!(names, vec![(1, "Kick".to_string())]);
}


#[test]
fn query_device_name_resolves_from_mock_reply() {
    let query = build_device_name_query(1);
    let mut reply = vec![0u8; RESPONSE_HEADER_SIZE];
    reply[0..2].copy_from_slice(&PROTOCOL_ID.to_be_bytes());
    reply[4..6].copy_from_slice(&query[4..6]);
    reply[6..8].copy_from_slice(&OPCODE_DEVICE_NAME.to_be_bytes());
    reply.extend_from_slice(b"stagebox-1\x00");
    assert!(is_answer(&reply, 1));
    assert!(!is_answer(&reply, 2));
    assert!(!is_answer(&reply[..5], 1));
    assert_eq!(parse_device_name(&reply).as_deref(), Some("stagebox-1"));
}

#[test]
fn query_rx_channels_stops_after_short_page() {
    let mut query = RxQuery::new();
    let (id, request) = query.next_request().unwrap();
    assert_eq!(request, build_rx_query(0, 1));

    let mut response = vec![0u8; RESPONSE_HEADER_SIZE];
    response[4..6].copy_from_slice(&id.to_be_bytes());
    response.extend_from_slice(&[0u8; BODY_HEADER_SIZE + RX_RECORD_SIZE]);
    let strings_base = response.len() as u16;
    response.extend_from_slice(b"in-1\x00tx-out-1\x00stagebox-1\x00");

    let record = RESPONSE_HEADER_SIZE + BODY_HEADER_SIZE;
    response[record..record + 2].copy_from_slice(&1u16.to_be_bytes());
    let tx_channel_pointer = strings_base + 5;
    let tx_device_pointer = strings_base + 14;
    let rx_channel_pointer = strings_base;
    response[record + 6..record + 8].copy_from_slice(&tx_channel_pointer.to_be_bytes());
    response[record + 8..record + 10].copy_from_slice(&tx_device_pointer.to_be_bytes());
    response[record + 10..record + 12].copy_from_slice(&rx_channel_pointer.to_be_bytes());
    query.reply(Some(&response));

    assert!(query.next_request().is_none());
    let channels = query.into_channels();
    assert_eq!(channels.len(), 1);
    assert_eq!(channels[0].number, 1);
    assert_eq!(channels[0].tx_channel_name.as_deref(), Some("tx-out-1"));
    assert_eq!(channels[0].tx_device_name.as_deref(), Some("stagebox-1"));
}

fn rx_page(id: u16, first: u16, count: u16) -> Vec<u8> {
    let mut response = vec![0u8; RESPONSE_HEADER_SIZE + BODY_HEADER_SIZE];
    response[4..6].copy_from_slice(&id.to_be_bytes());
    for i in 0..count {
        let mut record = [0u8; RX_RECORD_SIZE];
        record[0..2].copy_from_slice(&(first + i).to_be_bytes());
        response.extend_from_slice(&record);
    }
    response
}

#[test]
fn full_pages_are_followed_by_another() {
    let mut query = RxQuery::new();
    for page in 0..8u16 {
        let (id, request) = query.next_request().unwrap();
        assert_eq!(id, page + 1);
        assert_eq!(request, build_rx_query(page, id));
        query.reply(Some(&rx_page(id, page * 16 + 1, 16)));
    }
    assert!(query.next_request().is_none());
    assert_eq!(query.into_channels().len(), 128);

    // A reply to something else, and none at all, end the query.
    let mut query = RxQuery::new();
    query.reply(Some(&rx_page(7, 1, 16)));
    assert!(query.next_request().is_none());
    assert!(query.into_channels().is_empty());
    let mut query = RxQuery::new();
    query.reply(None);
    assert!(query.next_request().is_none());
}

#[test]
fn names_that_users_gave_take_precedence() {
    let mut query = TxQuery::new();
    let (id, request) = query.next_request().unwrap();
    assert_eq!((id, request), (1, build_tx_query(0, true, 1)));
    let mut response = vec![0u8; RESPONSE_HEADER_SIZE + BODY_HEADER_SIZE + TX_FRIENDLY_RECORD_SIZE];
    response[4..6].copy_from_slice(&id.to_be_bytes());
    let base = response.len() as u16;
    response.extend_from_slice(b"Kick\x00");
    response[14..16].copy_from_slice(&2u16.to_be_bytes());
    response[16..18].copy_from_slice(&base.to_be_bytes());
    query.reply(Some(&response));

    let (id, request) = query.next_request().unwrap();
    assert_eq!((id, request), (5, build_tx_query(0, false, 5)));
    let mut response = vec![0u8; RESPONSE_HEADER_SIZE + BODY_HEADER_SIZE + TX_RECORD_SIZE * 2];
    response[4..6].copy_from_slice(&id.to_be_bytes());
    let base = response.len() as u16;
    response.extend_from_slice(b"ch-1\x00ch-2\x00");
    response[12..14].copy_from_slice(&1u16.to_be_bytes());
    response[18..20].copy_from_slice(&base.to_be_bytes());
    response[20..22].copy_from_slice(&2u16.to_be_bytes());
    response[26..28].copy_from_slice(&(base + 5).to_be_bytes());
    query.reply(Some(&response));

    assert!(query.next_request().is_none());
    let channels = query.into_channels();
    assert_eq!(channels.len(), 2);
    assert_eq!(channels[0].name.as_deref(), Some("ch-1"));
    assert_eq!(channels[1].name.as_deref(), Some("Kick"));
}

/// A full page of transmit channels, from `first` on. A record has its channel's number at `number`
/// and the place of its name, if `name` gives one, at `pointer`.
fn tx_page(
    id: u16,
    first: u16,
    size: usize,
    (number, pointer): (usize, usize),
    name: impl Fn(u16) -> Option<String>,
) -> Vec<u8> {
    let records = RESPONSE_HEADER_SIZE + BODY_HEADER_SIZE;
    let mut response = vec![0u8; records + 32 * size];
    response[4..6].copy_from_slice(&id.to_be_bytes());
    for i in 0..32u16 {
        let at = records + i as usize * size;
        response[at + number..at + number + 2].copy_from_slice(&(first + i).to_be_bytes());
        if let Some(name) = name(first + i) {
            let place = response.len() as u16;
            response[at + pointer..at + pointer + 2].copy_from_slice(&place.to_be_bytes());
            response.extend_from_slice(name.as_bytes());
            response.push(0);
        }
    }
    response
}

#[test]
fn a_channel_without_a_given_name_does_not_hide_those_on_later_pages() {
    let given = |channel: u16| match channel {
        5 => None,
        33 => Some("Kick".to_string()),
        _ => Some(format!("given-{channel}")),
    };
    let own = |channel: u16| Some(format!("raw-{channel}"));
    let mut query = TxQuery::new();
    let mut asked = 0;
    while let Some((id, request)) = query.next_request() {
        asked += 1;
        let page = if id <= 4 { id - 1 } else { id - 5 };
        assert_eq!(request, build_tx_query(page, id <= 4, id));
        let first = page * 32 + 1;
        if page >= 2 {
            query.reply(None);
        } else if id <= 4 {
            query.reply(Some(&tx_page(id, first, TX_FRIENDLY_RECORD_SIZE, (2, 4), given)));
        } else {
            query.reply(Some(&tx_page(id, first, TX_RECORD_SIZE, (0, 6), own)));
        }
    }
    assert_eq!(asked, 6);
    let channels = query.into_channels();
    assert_eq!(channels.len(), 64);
    for (i, channel) in channels.iter().enumerate() {
        let number = i as u16 + 1;
        assert_eq!(channel.number, number);
        assert_eq!(channel.name, given(number).or(own(number)));
    }
    assert_eq!(channels[4].name.as_deref(), Some("raw-5"));
    assert_eq!(channels[32].name.as_deref(), Some("Kick"));
}

#[test]
fn text_that_is_no_utf8_is_no_name() {
    let mut response = vec![0u8; 10];
    response.extend_from_slice(&[0xff, 0]);
    assert_eq!(parse_device_name(&response), None);
    let mut response = vec![0u8; 10];
    response.extend_from_slice("\u{e9}\u{0}".as_bytes());
    assert_eq!(parse_device_name(&response).as_deref(), Some("\u{e9}"));
}

#[test]
fn arc_ports_keeps_only_arc_service_entries() {
    let five = IpAddress::V4(0x0a00_0005);
    let six = IpAddress::V4(0x0a00_0006);
    let devices = vec![
        DanteDevice {
            name: "Mixer._netaudio-arc._udp.local.".to_string(),
            addresses: vec![five],
            port: 4440,
        },
        DanteDevice {
            name: "Mixer._netaudio-chan._udp.local.".to_string(),
            addresses: vec![five],
            port: 4455,
        },
        DanteDevice {
            name: "Stagebox._netaudio-chan._udp.local.".to_string(),
            addresses: vec![six],
            port: 4460,
        },
    ];

    let ports = arc_ports(&devices);
    assert_eq!(ports.len(), 1);
    assert_eq!(ports.get(five), Some(4440));
    assert_eq!(ports.get(six), None);
}

#[test]
fn a_device_that_is_named_like_the_control_service_is_not_taken_for_it() {
    let device = |name: &str, address| DanteDevice {
        name: name.to_string(),
        addresses: vec![IpAddress::V4(address)],
        port: 4440,
    };
    let ports = arc_ports(&[
        device("my_netaudio-arc box._netaudio-chan._udp.local.", 1),
        device("my_netaudio-arc box._netaudio-arc._udp.local.", 2),
        device("_netaudio-chan._udp.local.._netaudio-arc._udp.local.", 3),
        device("plain._netaudio-chan._udp.local.", 4),
    ]);
    assert_eq!(ports.len(), 2);
    assert_eq!(ports.get(IpAddress::V4(2)), Some(4440));
    assert_eq!(ports.get(IpAddress::V4(3)), Some(4440));
}

#[test]
fn a_later_advertisement_of_an_address_counts() {
    let device = |name: &str, addresses: Vec<IpAddress>, port| DanteDevice {
        name: format!("{name}._netaudio-arc._udp.local."),
        addresses,
        port,
    };
    let (a, b) = (IpAddress::V4(1), IpAddress::V6(2));
    let ports = arc_ports(&[device("x", vec![a, b], 1), device("y", vec![b], 2)]);
    assert_eq!(ports.len(), 2);
    assert_eq!(ports.get(a), Some(1));
    assert_eq!(ports.get(b), Some(2));
}

#[test]
fn an_advertisement_is_taken_in_once() {
    let device = |name: &str, port| DanteDevice { name: name.to_string(), addresses: vec![], port };
    let mut found = Vec::new();
    add_resolved(&mut found, device("a", 1));
    add_resolved(&mut found, device("b", 2));
    add_resolved(&mut found, device("a", 3));
    assert_eq!(found, vec![device("a", 1), device("b", 2)]);
}
