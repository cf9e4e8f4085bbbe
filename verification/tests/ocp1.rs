use dante_babelbox::float32::Float32;
use dante_babelbox::ocp1::classes::{block, level, single_value, ClassIdentification};
use dante_babelbox::ocp1::client::{
    heartbeat_secs, read_class, read_role, subscription_params, Client,
};
use dante_babelbox::ocp1::enumerate::{
    parse_bare_onos, parse_members, parse_object_identifications, DiscoveredObject, Walk,
};
use dante_babelbox::ocp1::error::Error;
use dante_babelbox::ocp1::ono::{reserved, Ono};
use dante_babelbox::ocp1::pdu::{
    decode_pdu, encode_command, encode_keepalive, encode_response, frame, pdu_len, status_name,
    Command, MemberId, Message, PduType, Response, SYNC_VAL,
};
use dante_babelbox::ocp1::value::{Reader, Writer};

// Object numbers and classes

#[test]
fn managers_and_the_root_block_are_reserved() {
    assert!(Ono(reserved::DEVICE_MANAGER).is_reserved());
    assert!(Ono(reserved::ROOT_BLOCK).is_reserved());
    assert!(!Ono(101).is_reserved());
    assert!(!Ono(0x1000_8206).is_reserved());
}

#[test]
fn onos_display_as_padded_hex() {
    assert_eq!(Ono(0x0100_8206).to_text(), "0x01008206");
}

#[test]
fn single_value_accessors_follow_the_get_1_set_2_convention() {
    assert_eq!(single_value::get(level::GAIN), MemberId::new(4, 1));
    assert_eq!(single_value::set(level::GAIN), MemberId::new(4, 2));
    assert_eq!(single_value::property(level::MUTE), MemberId::new(4, 1));
}

#[test]
fn class_depth_matches_the_def_level_of_its_own_properties() {
    let gain = ClassIdentification { fields: vec![1, 1, 1, 5], version: 2 };
    assert_eq!(gain.depth(), level::GAIN);
    assert_eq!(gain.name(), Some("OcaGain"));
}

#[test]
fn unknown_vendor_classes_have_no_standard_name() {
    let vendor = ClassIdentification { fields: vec![1, 1, 1, 128, 3], version: 1 };
    assert_eq!(vendor.name(), None);
    assert_eq!(vendor.depth(), 5);
}

#[test]
fn only_ocablock_counts_as_a_container() {
    assert!(ClassIdentification { fields: vec![1, 1, 3], version: 2 }.is_block());
    assert!(!ClassIdentification { fields: vec![1, 1, 1, 5], version: 2 }.is_block());
}

#[test]
fn get_members_candidates_lead_with_the_primary_constant() {
    assert_eq!(block::get_members_candidates()[0], block::get_members());
    // Every candidate is defined at OcaBlock's own level.
    assert!(block::get_members_candidates().iter().all(|m| m.def_level == level::BLOCK));
}

// Values

#[test]
fn round_trips_scalars_big_endian() {
    let mut w = Writer::new();
    w.u32(0x0102_0304).u32((-57.5f32).to_bits()).bool(true).string("Gain");
    let bytes = w.finish();
    assert_eq!(&bytes[..4], &[0x01, 0x02, 0x03, 0x04]);

    let mut r = Reader::new(&bytes);
    assert_eq!(r.u32().unwrap(), 0x0102_0304);
    assert_eq!(f32::from_bits(r.u32().unwrap()), -57.5);
    assert!(r.bool().unwrap());
    assert_eq!(r.string().unwrap(), "Gain");
    assert!(r.is_empty());
}

#[test]
fn every_width_round_trips() {
    let mut w = Writer::new();
    w.u8(1).u16(2).u64(3).i8(-1).i16(-2).i32(-3).i64(-4).bytes(b"xy").raw(b"z");
    let bytes = w.finish();
    let mut r = Reader::new(&bytes);
    assert_eq!(r.u8(), Ok(1));
    assert_eq!(r.u16(), Ok(2));
    assert_eq!(r.u64(), Ok(3));
    assert_eq!(r.i8(), Ok(-1));
    assert_eq!(r.i16(), Ok(-2));
    assert_eq!(r.i32(), Ok(-3));
    assert_eq!(r.i64(), Ok(-4));
    assert_eq!(r.bytes(), Ok(&b"xy"[..]));
    assert_eq!(r.remaining(), b"z");
    assert_eq!(r.take(2), Err(Error::Truncated));
    assert_eq!(r.take(1), Ok(&b"z"[..]));
    assert_eq!(r.u8(), Err(Error::Truncated));
}

#[test]
fn reader_reports_truncation_instead_of_panicking() {
    let mut r = Reader::new(&[0x00, 0x04, 0xff]);
    assert!(matches!(r.bytes(), Err(Error::Truncated)));
}

#[test]
fn list_is_u16_count_prefixed() {
    let mut w = Writer::new();
    w.u16(3).u32(10).u32(20).u32(30);
    let bytes = w.finish();
    let mut r = Reader::new(&bytes);
    assert_eq!(r.list::<u32>().unwrap(), vec![10, 20, 30]);
}

#[test]
fn text_off_the_wire_is_read_leniently() {
    let mut r = Reader::new(&[0, 2, 0xff, b'a']);
    assert_eq!(r.string().unwrap(), "\u{fffd}a");
}

// PDUs

/// The canonical 12-byte keepalive frame: sync, v1, size 11, type 4, one message, 5 seconds.
const KEEPALIVE_5S: &[u8] =
    &[0x3B, 0x00, 0x01, 0x00, 0x00, 0x00, 0x0B, 0x04, 0x00, 0x01, 0x00, 0x05];

#[test]
fn encodes_the_canonical_keepalive_frame() {
    assert_eq!(encode_keepalive(5), KEEPALIVE_5S);
}

#[test]
fn pdu_size_excludes_the_sync_byte() {
    let len = pdu_len(KEEPALIVE_5S).unwrap().unwrap();
    assert_eq!(len, 12);
    assert_eq!(u32::from_be_bytes([0, 0, 0, 0x0B]) as usize + 1, len);
}

#[test]
fn decodes_keepalive() {
    match decode_pdu(KEEPALIVE_5S).unwrap().as_slice() {
        [Message::KeepAlive { heartbeat_secs: 5 }] => {}
        other => panic!("unexpected {other:?}"),
    }
}

#[test]
fn command_layout_matches_the_documented_offsets() {
    let cmd = Command {
        handle: 0x0000_0001,
        target: 0x0000_0004,
        method: MemberId::new(3, 1),
        param_count: 1,
        params: vec![0xAA, 0xBB],
    };
    let pdu = encode_command(&cmd, true);

    assert_eq!(pdu[0], SYNC_VAL);
    assert_eq!(pdu[7], PduType::CommandResponseRequired.to_u8());
    // CommandSize at 10, Handle at 14, TargetONo at 18, MethodID at 22.
    assert_eq!(&pdu[10..14], &(19u32).to_be_bytes());
    assert_eq!(&pdu[14..18], &1u32.to_be_bytes());
    assert_eq!(&pdu[18..22], &4u32.to_be_bytes());
    assert_eq!(&pdu[22..24], &3u16.to_be_bytes());
    assert_eq!(&pdu[24..26], &1u16.to_be_bytes());
    assert_eq!(pdu[26], 1);
    assert_eq!(&pdu[27..], &[0xAA, 0xBB]);
    assert_eq!(pdu_len(&pdu).unwrap().unwrap(), pdu.len());
}

#[test]
fn round_trips_a_response_through_its_own_encoder() {
    let response = Response { handle: 7, status: 0, param_count: 1, params: vec![0x12, 0x34] };
    let pdu = encode_response(&response);
    assert_eq!(pdu_len(&pdu).unwrap().unwrap(), pdu.len());

    match decode_pdu(&pdu).unwrap().as_slice() {
        [Message::Response(r)] => {
            assert_eq!(r.handle, 7);
            assert!(r.ok());
            assert_eq!(r.param_count, 1);
            assert_eq!(r.params, vec![0x12, 0x34]);
        }
        other => panic!("unexpected {other:?}"),
    }
}

#[test]
fn round_trips_a_command_through_its_own_encoder() {
    for response_required in [true, false] {
        let cmd = Command {
            handle: 9,
            target: 77,
            method: MemberId::new(4, 2),
            param_count: 2,
            params: vec![1, 2, 3],
        };
        match decode_pdu(&encode_command(&cmd, response_required)).unwrap().as_slice() {
            [Message::Command(c)] => {
                assert_eq!((c.handle, c.target, c.method), (9, 77, MemberId::new(4, 2)));
                assert_eq!((c.param_count, c.params.as_slice()), (2, &[1u8, 2, 3][..]));
            }
            other => panic!("unexpected {other:?}"),
        }
    }
}

#[test]
fn non_zero_status_becomes_an_error() {
    let r = Response { handle: 1, status: 5, param_count: 0, params: vec![] };
    let err = r.into_result().unwrap_err();
    assert!(matches!(err, Error::Status { code: 5, name: "BadONo" }));
    assert_eq!(status_name(0), "OK");
}

#[test]
fn pdu_len_waits_for_more_bytes() {
    assert_eq!(pdu_len(&KEEPALIVE_5S[..4]).unwrap(), None);
    assert_eq!(pdu_len(&KEEPALIVE_5S[..11]).unwrap(), None);
    assert!(matches!(pdu_len(&[0x00; 12]), Err(Error::BadSync(0))));
}

#[test]
fn decodes_a_property_changed_notification() {
    let mut params = Writer::new();
    params
        .bytes(&[0xDE, 0xAD]) // NotificationID
        .u32(0x0100_8206) // emitter ONo
        .u16(1)
        .u16(1) // event id (OcaRoot::PropertyChanged)
        .u16(4)
        .u16(1) // property id (OcaGain::Gain)
        .u32((-6.0f32).to_bits()) // new value
        .u8(1); // change type
    let params = params.finish();

    let mut body = Writer::new();
    // NotificationSize covers itself(4) + target(4) + method(4) + count(1).
    body.u32((13 + params.len()) as u32).u32(0x0000_0004).u16(3).u16(1).u8(3).raw(&params);
    let pdu = frame(PduType::Notification, &body.finish());

    match decode_pdu(&pdu).unwrap().as_slice() {
        [Message::Notification(n)] => {
            assert_eq!(n.emitter, 0x0100_8206);
            assert_eq!(n.property, MemberId::new(4, 1));
            assert_eq!(f32::from_bits(Reader::new(&n.value).u32().unwrap()), -6.0);
        }
        other => panic!("unexpected {other:?}"),
    }
}

#[test]
fn ocp1_errors_explain_themselves() {
    let mut version = KEEPALIVE_5S.to_vec();
    version[2] = 2;
    assert_eq!(pdu_len(&version), Err(Error::BadVersion(2)));
    let mut kind = KEEPALIVE_5S.to_vec();
    kind[7] = 9;
    assert_eq!(decode_pdu(&kind).unwrap_err(), Error::UnknownPduType(9));
    let mut length = KEEPALIVE_5S.to_vec();
    length[6] = 1;
    assert_eq!(pdu_len(&length), Err(Error::BadLength(1)));
    for (e, text) in [
        (Error::Io("broken".to_string()), "io: broken"),
        (Error::Disconnected, "connection closed"),
        (Error::Timeout, "timed out waiting for a response"),
        (Error::Truncated, "truncated message"),
        (Error::BadSync(0), "bad sync byte 0x00"),
        (Error::BadVersion(2), "unsupported protocol version 2"),
        (Error::BadLength(1), "implausible pdu length 1"),
        (Error::UnknownPduType(9), "unknown pdu type 9"),
        (Error::Status { code: 5, name: "BadONo" }, "device returned BadONo (5)"),
    ] {
        assert_eq!(e.message(), text);
    }
}

// The client

#[test]
fn subscription_params_target_the_emitters_property_changed_event() {
    let params = subscription_params(Ono(0x1000_8206), true);
    let mut r = Reader::new(&params);
    assert_eq!(r.u32().unwrap(), 0x1000_8206);
    assert_eq!(r.u16().unwrap(), 1); // PropertyChanged def level
    assert_eq!(r.u16().unwrap(), 1); // PropertyChanged index
}

#[test]
fn remove_subscription_omits_the_add_only_fields() {
    assert!(subscription_params(Ono(1), false).len() < subscription_params(Ono(1), true).len());
}

#[test]
fn request_response_round_trip() {
    let mut client = Client::new();
    let request = client.get(Ono(0x1000_8206), level::GAIN);
    let sent = decode_pdu(&request.frame).unwrap();
    let [Message::Command(cmd)] = sent.as_slice() else {
        panic!("unexpected {sent:?}");
    };
    assert_eq!(cmd.handle, request.handle);
    // The device answers with a gain of -6 dB.
    let mut params = Writer::new();
    params.u32((-6.0f32).to_bits());
    let reply = Response { handle: cmd.handle, status: 0, param_count: 1, params: params.finish() };
    let (messages, in_step) = client.receive(&encode_response(&reply));
    assert!(in_step);
    match messages.as_slice() {
        [Message::Response(r)] => {
            assert_eq!(r.handle, request.handle);
            assert_eq!(f32::from_bits(Reader::new(&r.params).u32().unwrap()), -6.0);
        }
        other => panic!("unexpected {other:?}"),
    }
}

#[test]
fn a_response_is_handed_out_once_and_only_if_awaited() {
    let mut client = Client::new();
    let request = client.get(Ono(7), level::GAIN);
    let reply = encode_response(&Response {
        handle: request.handle,
        status: 0,
        param_count: 0,
        params: vec![],
    });
    assert_eq!(client.receive(&reply).0.len(), 1);
    assert_eq!(client.receive(&reply).0.len(), 0);
    let request = client.get(Ono(7), level::GAIN);
    client.cancel(request.handle);
    let late = encode_response(&Response {
        handle: request.handle,
        status: 0,
        param_count: 0,
        params: vec![],
    });
    assert_eq!(client.receive(&late).0.len(), 0);
}

#[test]
fn a_closed_connection_awaits_nothing() {
    let mut client = Client::new();
    let requests = [client.get(Ono(7), level::GAIN), client.get(Ono(8), level::GAIN)];
    client.close();
    for request in requests {
        let late = encode_response(&Response {
            handle: request.handle,
            status: 0,
            param_count: 0,
            params: vec![],
        });
        assert_eq!(client.receive(&late).0.len(), 0);
    }
    // Handles go on from where they were.
    assert_eq!(client.get(Ono(7), level::GAIN).handle, 3);
}

#[test]
fn reads_may_end_anywhere_and_garbage_ends_the_stream() {
    let mut stream = KEEPALIVE_5S.to_vec();
    let mut client = Client::new();
    let request = client.get(Ono(7), level::GAIN);
    stream.extend_from_slice(&encode_response(&Response {
        handle: request.handle,
        status: 0,
        param_count: 1,
        params: vec![1],
    }));
    let mut got = 0;
    for octet in &stream {
        let (messages, in_step) = client.receive(&[*octet]);
        assert!(in_step);
        got += messages.len();
    }
    assert_eq!(got, 1);
    assert!(!client.receive(&[0u8; 12]).1);
}

#[test]
fn values_are_set_as_they_go_over_the_wire() {
    let mut client = Client::new();
    let params = |frame: &[u8]| match decode_pdu(frame).unwrap().as_slice() {
        [Message::Command(c)] => {
            assert_eq!(c.method, MemberId::new(4, 2));
            assert_eq!(c.param_count, 1);
            c.params.clone()
        }
        other => panic!("unexpected {other:?}"),
    };
    assert_eq!(params(&client.set_u8(Ono(7), 4, 9).frame), vec![9]);
    assert_eq!(params(&client.set_u16(Ono(7), 4, 0x0102).frame), vec![1, 2]);
    assert_eq!(params(&client.set_i32(Ono(7), 4, -2).frame), vec![0xff, 0xff, 0xff, 0xfe]);
    let gain = Float32::from_bits((-6.0f32).to_bits());
    assert_eq!(params(&client.set_f32(Ono(7), 4, gain).frame), (-6.0f32).to_be_bytes().to_vec());
    assert_eq!(params(&client.set_string(Ono(7), 4, "ab").frame), vec![0, 2, b'a', b'b']);
    // Handles count up, and 0 is never one.
    let first = client.subscribe(Ono(7)).handle;
    assert_eq!(client.unsubscribe(Ono(7)).handle, first + 1);
}

#[test]
fn class_and_role_are_asked_of_the_root_class() {
    let mut client = Client::new();
    for (request, method) in [
        (client.class_of(Ono(7)), MemberId::new(1, 1)),
        (client.role_of(Ono(7)), MemberId::new(1, 5)),
    ] {
        match decode_pdu(&request.frame).unwrap().as_slice() {
            [Message::Command(c)] => {
                assert_eq!((c.target, c.method, c.param_count), (7, method, 0));
                assert!(c.params.is_empty());
            }
            other => panic!("unexpected {other:?}"),
        }
    }
}

#[test]
fn class_and_role_are_read_out_of_replies() {
    let mut w = Writer::new();
    w.u16(4).u16(1).u16(1).u16(1).u16(5).u32(2);
    let class = read_class(&w.finish()).unwrap();
    assert_eq!(class.fields, vec![1, 1, 1, 5]);
    assert_eq!(class.version, 2);
    let mut w = Writer::new();
    w.string("Gain 1");
    assert_eq!(read_role(&w.finish()).unwrap(), "Gain 1");
    assert!(read_class(&[0]).is_err());
    assert!(read_role(&[0, 9]).is_err());
    assert_eq!(heartbeat_secs(5), 5);
}

// Enumeration

fn object_identification(w: &mut Writer, ono: u32, fields: &[u16], version: u32) {
    w.u32(ono).u16(fields.len() as u16);
    for f in fields {
        w.u16(*f);
    }
    w.u32(version);
}

#[test]
fn parses_the_rich_member_form() {
    let mut w = Writer::new();
    w.u16(2);
    object_identification(&mut w, 0x1001, &[1, 1, 1, 5], 2); // OcaGain
    object_identification(&mut w, 0x1002, &[1, 1, 3], 2); // OcaBlock
    let members = parse_members(&w.finish());

    assert_eq!(members.len(), 2);
    assert_eq!(members[0].ono, Ono(0x1001));
    assert_eq!(members[0].class.as_ref().unwrap().name(), Some("OcaGain"));
    assert!(members[1].class.as_ref().unwrap().is_block());
}

#[test]
fn falls_back_to_bare_onos_when_the_rich_parse_does_not_fit() {
    let mut w = Writer::new();
    w.u16(3).u32(10).u32(20).u32(30);
    let params = w.finish();
    let members = parse_members(&params);

    assert_eq!(members.len(), 3);
    assert_eq!(members.iter().map(|m| m.ono.0).collect::<Vec<_>>(), vec![10, 20, 30]);
    // No inline class: the caller has to ask the device for each one.
    assert!(members.iter().all(|m| m.class.is_none()));
    assert_eq!(parse_bare_onos(&params).unwrap().len(), 3);
}

/// Octets that are left over reject the rich reading.
#[test]
fn a_partially_consumed_buffer_is_not_accepted_as_the_rich_form() {
    let mut w = Writer::new();
    w.u16(1);
    object_identification(&mut w, 0x1001, &[1, 1, 1, 5], 2);
    w.raw(&[0xFF, 0xFF]); // trailing junk
    assert!(parse_object_identifications(&w.finish()).is_none());
}

#[test]
fn an_empty_list_parses_to_no_members() {
    let mut w = Writer::new();
    w.u16(0);
    assert!(parse_members(&w.finish()).is_empty());
}

#[test]
fn garbage_yields_no_members_rather_than_an_error() {
    assert!(parse_members(&[0xFF, 0xFF, 0x01]).is_empty());
}

#[test]
fn qualified_role_joins_the_container_path() {
    let object = DiscoveredObject {
        ono: Ono(0x1001),
        class: ClassIdentification { fields: vec![1, 1, 1, 5], version: 2 },
        role: "Gain".into(),
        path: vec!["Inputs".into(), "Input 3".into()],
    };
    assert_eq!(object.qualified_role(), "Inputs/Input 3/Gain");
}

/// Answers a walk's questions for a small tree: a block with a gain, and a list that loops back.
fn reply(ono: u32, method: MemberId) -> Result<Vec<u8>, Error> {
    let mut w = Writer::new();
    if method == block::get_members() {
        match ono {
            100 => {
                w.u16(2).u32(200).u32(300);
            }
            200 => {
                w.u16(2).u32(201).u32(100);
            }
            _ => return Err(Error::Status { code: 6, name: "ParameterError" }),
        }
    } else if method == MemberId::new(1, 1) {
        match ono {
            200 => {
                w.u16(3).u16(1).u16(1).u16(3).u32(2);
            }
            201 => {
                w.u16(4).u16(1).u16(1).u16(1).u16(5).u32(2);
            }
            _ => return Err(Error::Status { code: 5, name: "BadONo" }),
        }
    } else if method == MemberId::new(1, 5) {
        w.string(if ono == 200 { "Inputs" } else { "Gain" });
    } else {
        return Err(Error::Timeout);
    }
    Ok(w.finish())
}

#[test]
fn a_walk_finds_the_objects_of_a_tree_once() {
    let mut walk = Walk::new(Ono(100));
    let mut questions = 0;
    while let Some((ono, method)) = walk.next_question() {
        questions += 1;
        assert!(questions < 50);
        walk.answer(reply(ono.0, method));
    }
    let found = walk.into_found();
    assert_eq!(found.iter().map(|o| o.ono.0).collect::<Vec<_>>(), vec![201]);
    assert_eq!(found[0].qualified_role(), "Inputs/Gain");
    assert_eq!(found[0].class.name(), Some("OcaGain"));
}

#[test]
fn a_silent_device_has_no_objects() {
    // Only "wrong method" justifies asking in another way.
    for (error, asked) in [
        (Error::Timeout, 1),
        (Error::Status { code: 11, name: "BadMethod" }, block::get_members_candidates().len()),
    ] {
        let mut walk = Walk::new(Ono(100));
        let mut questions = 0;
        while let Some((ono, _)) = walk.next_question() {
            assert_eq!(ono, Ono(100));
            questions += 1;
            walk.answer(Err(error.clone()));
        }
        assert_eq!(questions, asked);
        assert!(walk.into_found().is_empty());
    }
}
