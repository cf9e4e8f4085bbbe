use dante_babelbox::mic::slp::{
    parse_attr_reply, parse_attribute_list, Advertisement, FUNCTION_ATTR_RPLY, SLP_VERSION,
};


    /// The QLXD4's advertisement exactly as recorded in the spec.
    const REAL_ATTRS: &str = "(cid=DD47E0D7-0000-11DD-A000-000EDDCCCCCC),\
(acn-fctn=QLXD4),(acn-uacn=QLXD4),(acn-services=esta.dmp),\
(csl-esta.dmp=esta.sdt/169.254.216.224:57383;esta.dmp/cd:CCEAC054-E139-11DF-84BA-0015C5F3F612),\
(device-description=$:tftp://169.254.216.224/$.ddl)";

    #[test]
    fn parses_the_receivers_real_advertisement() {
        let ad = parse_attribute_list(REAL_ATTRS);
        assert_eq!(ad.model.as_deref(), Some("QLXD4"));
        assert_eq!(ad.user_name.as_deref(), Some("QLXD4"));
        assert_eq!(
            ad.cid.as_deref(),
            Some("DD47E0D7-0000-11DD-A000-000EDDCCCCCC")
        );
        assert_eq!(ad.sdt_endpoint.as_deref(), Some("169.254.216.224:57383"));
        assert_eq!(
            ad.dcid.as_deref(),
            Some("CCEAC054-E139-11DF-84BA-0015C5F3F612")
        );
        assert!(ad.is_receiver());
    }

    #[test]
    fn a_console_advertisement_is_not_mistaken_for_a_receiver() {
        let ad =
            parse_attribute_list("(cid=X),(acn-fctn=Yamaha Console),(acn-uacn=Yamaha Console)");
        assert_eq!(ad.model.as_deref(), Some("Yamaha Console"));
        assert!(!ad.is_receiver());
    }

    #[test]
    fn the_cid_low_bytes_match_the_device_mac() {
        // 00:0e:dd:47:e0:d7 -> DD47E0D7. Documented as derivable, and
        // asserted here so a future change to CID handling notices.
        let ad = parse_attribute_list(REAL_ATTRS);
        assert!(ad.cid.unwrap().starts_with("DD47E0D7"));
    }

    #[test]
    fn parses_a_whole_slp_datagram() {
        let attrs = REAL_ATTRS.as_bytes();
        let mut pkt = vec![
            SLP_VERSION,
            FUNCTION_ATTR_RPLY,
            0,
            0,
            0,
            0,
            0,
            0,
            0,
            0,
            0,
            1,
        ];
        pkt.extend_from_slice(&2u16.to_be_bytes()); // lang tag length
        pkt.extend_from_slice(b"en");
        pkt.extend_from_slice(&0u16.to_be_bytes()); // error code
        pkt.extend_from_slice(&(attrs.len() as u16).to_be_bytes());
        pkt.extend_from_slice(attrs);

        let ad = parse_attr_reply(&pkt).unwrap();
        assert_eq!(ad.model.as_deref(), Some("QLXD4"));
    }

    #[test]
    fn other_slp_functions_and_error_replies_are_ignored() {
        let mut pkt = vec![SLP_VERSION, 1, 0, 0, 0, 0, 0, 0, 0, 0, 0, 1];
        pkt.extend_from_slice(&0u16.to_be_bytes());
        pkt.extend_from_slice(&0u16.to_be_bytes());
        pkt.extend_from_slice(&0u16.to_be_bytes());
        assert!(
            parse_attr_reply(&pkt).is_none(),
            "function 1 is not an AttrRply"
        );

        let mut err = vec![
            SLP_VERSION,
            FUNCTION_ATTR_RPLY,
            0,
            0,
            0,
            0,
            0,
            0,
            0,
            0,
            0,
            1,
        ];
        err.extend_from_slice(&0u16.to_be_bytes());
        err.extend_from_slice(&5u16.to_be_bytes()); // non-zero error
        err.extend_from_slice(&0u16.to_be_bytes());
        assert!(parse_attr_reply(&err).is_none());
    }

#[test]
fn a_list_without_groups_says_nothing() {
    assert_eq!(parse_attribute_list(""), Advertisement::default());
    assert_eq!(parse_attribute_list("(no value),(other=1)"), Advertisement::default());
    let ad = parse_attribute_list("( cid = a=b ),(acn-fctn=),(csl-esta.dmp= esta.sdt/x ; y)");
    assert_eq!(ad.cid.as_deref(), Some("a=b"));
    assert_eq!(ad.model.as_deref(), Some(""));
    assert_eq!(ad.sdt_endpoint.as_deref(), Some("x"));
    assert_eq!(ad.dcid, None);
    assert!(!ad.is_receiver());
    for model in ["QLXD4", "ULXD4Q", "AD4D"] {
        let ad = parse_attribute_list(&format!("(acn-fctn={model})"));
        assert!(ad.is_receiver());
        assert_eq!(ad.duplicate(), ad);
    }
}

#[test]
fn a_reply_that_is_cut_off_is_none() {
    let mut pkt = vec![SLP_VERSION, FUNCTION_ATTR_RPLY, 0, 0, 0, 0, 0, 0, 0, 0, 0, 1, 0, 2];
    pkt.extend_from_slice(b"en");
    pkt.extend_from_slice(&[0, 0, 0, 7]);
    pkt.extend_from_slice(b"(cid=X)");
    assert_eq!(parse_attr_reply(&pkt).unwrap().cid.as_deref(), Some("X"));
    for n in 0..pkt.len() {
        assert!(parse_attr_reply(&pkt[..n]).is_none());
    }
}
