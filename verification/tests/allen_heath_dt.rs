use dante_babelbox::allen_heath::dt::{
    conmon, decode_firmware_version, decode_status, device_eui64, encode_poll, encode_set,
    msg_type, parse_conmon, wrap_conmon, DtDecodeError, DtPreamp, FLAG_PAD, FLAG_PHANTOM,
    GAIN_REFERENCE, PREAMP_COUNT, VENDOR_ID,
};


#[test]
fn vendor_id_is_allenhth() {
    assert_eq!(&VENDOR_ID, b"AllenHth");
    assert_eq!(VENDOR_ID.len(), 8);
}

#[test]
fn set_encodes_type_channel_gain_flags() {
    let msg = encode_set(3, DtPreamp { gain: 0x8000, pad: false, phantom: true });
    assert_eq!(msg[0], msg_type::SET_MIC_PRE);
    assert_eq!(msg[1], 3);
    assert_eq!([msg[2], msg[3]], 0x8000u16.to_be_bytes());
    assert_eq!(msg[4], FLAG_PHANTOM);
}

#[test]
fn flags_byte_packs_pad_and_phantom_independently() {
    assert_eq!(DtPreamp { gain: 0, pad: false, phantom: false }.flags_byte(), 0);
    assert_eq!(DtPreamp { gain: 0, pad: true, phantom: false }.flags_byte(), FLAG_PAD);
    assert_eq!(DtPreamp { gain: 0, pad: false, phantom: true }.flags_byte(), FLAG_PHANTOM);
    assert_eq!(
        DtPreamp { gain: 0, pad: true, phantom: true }.flags_byte(),
        FLAG_PAD | FLAG_PHANTOM
    );
}

#[test]
fn full_status_decodes_sixteen_preamps() {
    let mut payload = vec![msg_type::STATUS_FULL];
    for i in 0..PREAMP_COUNT as u16 {
        let gain = 0x1000 + i;
        payload.extend_from_slice(&gain.to_be_bytes());
        // even preamps: pad on; multiples of 3: phantom on
        let mut flags = 0;
        if i % 2 == 0 {
            flags |= FLAG_PAD;
        }
        if i % 3 == 0 {
            flags |= FLAG_PHANTOM;
        }
        payload.push(flags);
    }
    let decoded = decode_status(&payload).unwrap();
    assert_eq!(decoded.len(), PREAMP_COUNT);
    assert_eq!(decoded[0], DtPreamp { gain: 0x1000, pad: true, phantom: true });
    assert_eq!(decoded[1], DtPreamp { gain: 0x1001, pad: false, phantom: false });
    assert_eq!(decoded[15].gain, 0x100F);
}

#[test]
fn set_then_decode_round_trips_one_preamp() {
    let pre = DtPreamp { gain: 0xABCD, pad: true, phantom: false };
    // Splice the encoded fields into a single-entry full-status body and
    // read them back — proves gain byte order and flag bits are consistent
    // between encode and decode.
    let set = encode_set(0, pre);
    let mut want = vec![msg_type::STATUS_FULL, set[2], set[3], set[4]];
    // pad the remaining 15 entries so the length check passes
    want.extend(std::iter::repeat_n(0u8, (PREAMP_COUNT - 1) * 3));
    let decoded = decode_status(&want).unwrap();
    assert_eq!(decoded[0], pre);
}

#[test]
fn flags_only_status_uses_reference_gain() {
    let mut payload = vec![msg_type::STATUS_FLAGS];
    payload.extend(std::iter::repeat_n(FLAG_PAD, PREAMP_COUNT));
    let decoded = decode_status(&payload).unwrap();
    assert_eq!(decoded.len(), PREAMP_COUNT);
    assert!(decoded.iter().all(|p| p.gain == GAIN_REFERENCE && p.pad && !p.phantom));
}

#[test]
fn truncated_status_is_rejected_not_panicked() {
    assert_eq!(decode_status(&[]), Err(DtDecodeError::Truncated { need: 1, got: 0 }));
    let short = vec![msg_type::STATUS_FULL, 0x00, 0x01];
    assert!(matches!(decode_status(&short), Err(DtDecodeError::Truncated { .. })));
}

#[test]
fn unknown_selector_is_reported() {
    assert_eq!(
        decode_status(&[0x7f, 0, 0, 0]),
        Err(DtDecodeError::UnknownStatusSelector(0x7f))
    );
}

#[test]
fn firmware_version_reads_bytes_4_5_6() {
    let payload = vec![0, 0, 0, 0, 1, 6, 3];
    assert_eq!(decode_firmware_version(&payload), Some((1, 6, 3)));
    assert_eq!(decode_firmware_version(&[0, 0, 0]), None);
}

#[test]
fn parses_a_real_dvs_conmon_header() {
    // First 24 bytes of an actual 84-byte status frame captured from a DVS
    // on 224.0.0.233:8708, plus a couple body bytes.
    let pkt = bytes(
        "fffe 0054 0000 0000 36ec26fffe9c7240 4175 64696e617465 0800",
    );
    let f = parse_conmon(&pkt).unwrap();
    assert_eq!(f.magic, conmon::MAGIC_STATUS);
    assert_eq!(f.device_id, bytes("36ec26fffe9c7240")[..]);
    assert_eq!(&f.vendor, b"Audinate");
    assert_eq!(f.body, bytes("0800"));
}

#[test]
fn wrap_then_parse_round_trips_an_allenhth_body() {
    let dev = device_eui64([0x00, 0x11, 0x22, 0x33, 0x44, 0x55]);
    assert_eq!(dev, bytes("001122fffe334455")[..]);
    let body = encode_set(2, DtPreamp { gain: 0x4000, pad: true, phantom: false });
    let pkt = wrap_conmon(conmon::MAGIC_STATUS, 7, dev, VENDOR_ID, &body);
    assert_eq!(u16::from_be_bytes([pkt[2], pkt[3]]) as usize, pkt.len());
    let f = parse_conmon(&pkt).unwrap();
    assert_eq!(f.seqnum, 7);
    assert_eq!(&f.vendor, b"AllenHth");
    assert_eq!(f.body, body);
}

fn bytes(hex: &str) -> Vec<u8> {
    let clean: String = hex.chars().filter(|c| !c.is_whitespace()).collect();
    (0..clean.len())
        .step_by(2)
        .map(|i| u8::from_str_radix(&clean[i..i + 2], 16).unwrap())
        .collect()
}

#[test]
fn a_poll_is_one_octet() {
    assert_eq!(encode_poll(), vec![0x01]);
}

#[test]
fn dt_errors_explain_themselves() {
    let short = [msg_type::STATUS_FULL, 0x00, 0x01];
    assert_eq!(decode_status(&short), Err(DtDecodeError::Truncated { need: 49, got: 3 }));
    assert_eq!(
        decode_status(&short).unwrap_err().message(),
        "DT status payload truncated: need 49 bytes, got 3"
    );
    assert_eq!(
        decode_status(&[msg_type::STATUS_FLAGS; 16]).unwrap_err(),
        DtDecodeError::Truncated { need: 17, got: 16 }
    );
    assert_eq!(
        decode_status(&[0x7f]).unwrap_err().message(),
        "DT status has unknown selector 0x7f"
    );
}

#[test]
fn an_envelope_keeps_its_layout() {
    let pkt = wrap_conmon(0xfffe, 0x0102, [1, 2, 3, 4, 5, 6, 7, 8], VENDOR_ID, &[9]);
    assert_eq!(&pkt[..8], &[0xff, 0xfe, 0, 25, 1, 2, 0, 0]);
    assert_eq!(&pkt[8..16], &[1, 2, 3, 4, 5, 6, 7, 8]);
    assert_eq!(&pkt[16..], b"AllenHth\x09");
    assert!(parse_conmon(&pkt[..23]).is_none());
}

#[test]
fn flags_ignore_the_bits_that_mean_nothing() {
    let mut payload = vec![msg_type::STATUS_FLAGS];
    payload.extend(std::iter::repeat(0xfeu8).take(16));
    let decoded = decode_status(&payload).unwrap();
    assert!(decoded.iter().all(|p| !p.pad && p.phantom));
}
