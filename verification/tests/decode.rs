use bgp_rs::{
    AddPathDirection, Capabilities, Cursor, Error, FlowspecFilter, Header, Identifier, Message,
    NLRIEncoding,
    Notification, Open, OpenCapability, OpenParameter, PathAttribute, Prefix, Reader, RouteRefresh,
    Update, AFI, SAFI,
};

#[test]
fn test_bad_bgp_type() {
    let mut data = vec![0xff; 16];
    data.extend_from_slice(&[0, 19, 11]);
    let buffer = Cursor::new(&data);
    let mut reader = Reader::new(buffer);
    let res = reader.read();
    assert!(res.is_err());
}

#[test]
fn test_header_type() {
    let mut data = vec![0xff; 16];
    data.extend_from_slice(&[0, 19, 4]);
    let mut buffer = Cursor::new(&data);
    let header = Header::parse(&mut buffer).unwrap();
    assert_eq!(header.marker.len(), 16);
    assert_eq!(header.length, 19);
    assert_eq!(header.record_type, 4);
}

#[test]
fn test_open_decode() {
    let data = vec![
        0x4, // Version
        0xfd, 0xe8, // ASN
        0, 0x3c, // Hold Timer
        0x01, 0x01, 0x01, 0x01, // Identifier
        26, // Parameter Length
        0x02, 0x06, 0x01, 0x04, 0x00, 0x02, 0x00, 0x01, // IPv6 - Unicast
        0x02, 0x06, 0x41, 0x04, 0x00, 0x00, 0xfd, 0xe8, // 4-byte ASN
        0x02, 0x02, 0x02, 0x00, // Route Refresh
        0x02, 0x04, 0xf0, 0x00, 0x00, 0x00 // Unknown
    ];
    let mut buf = Cursor::new(&data);
    let open = Open::parse(&mut buf).expect("Decoding OPEN");
    assert_eq!(open.version, 4);
    assert_eq!(open.peer_asn, 65000);
    assert_eq!(open.hold_timer, 60);
    assert_eq!(open.identifier, 0x01010101);
    match &open.parameters[0] {
        OpenParameter::Capabilities(caps) => match caps[0] {
            OpenCapability::MultiProtocol((afi, safi)) => {
                assert_eq!(afi, AFI::IPV6);
                assert_eq!(safi, SAFI::Unicast);
            }
            _ => unreachable!(),
        },
        _ => panic!("Should have MPBGP Parameter"),
    }
    match &open.parameters[1] {
        OpenParameter::Capabilities(caps) => match caps[0] {
            OpenCapability::FourByteASN(asn) => {
                assert_eq!(asn, 65000);
            }
            _ => unreachable!(),
        },
        _ => panic!("Should have FourByteASN Parameter"),
    }
    match &open.parameters[2] {
        OpenParameter::Capabilities(caps) => match caps[0] {
            OpenCapability::RouteRefresh => (),
            _ => unreachable!(),
        },
        _ => panic!("Should have FourByteASN Parameter"),
    }
    match &open.parameters[3] {
        OpenParameter::Capabilities(caps) => match caps[0] {
            OpenCapability::Unknown { cap_code, .. } => {
                assert_eq!(cap_code, 0xf0);
            }
            _ => unreachable!(),
        },
        _ => panic!("Should have Unknown Parameter"),
    }
    assert_eq!(open.parameters.len(), 4);
    assert_eq!(buf.position(), data.len());
    let mut written = vec![];
    open.encode(&mut written).unwrap();
    assert_eq!(written, data);
    assert_eq!(open.clone().parameters, open.parameters);
}

#[test]
fn test_bad_open_length() {
    let data = vec![
        0x4, // Version
        0xfd, 0xe8, // ASN
        0, 0x3c, // Hold Timer
        0x01, 0x01, 0x01, 0x01, // Identifier
        40, // Parameter Length (20 extra bytes)
        0x02, 0x06, 0x01, 0x04, 0x00, 0x02, 0x00, 0x01, // IPv6 - Unicast
        0x02, 0x06, 0x41, 0x04, 0x00, 0x00, 0xfd, 0xe8, // 4-byte ASN
        0x02, 0x02, 0x02, 0x00 // Route Refresh
    ];
    let mut buf = Cursor::new(&data);
    let res = Open::parse(&mut buf);
    assert!(res.is_err());
    assert!(matches!(res, Err(Error::InvalidParameterLength)));
}

#[test]
fn open_parameter_that_overshoots_is_refused() {
    // The parameters are declared as five bytes, the one parameter in
    // them declares a value of six.
    let data = vec![4, 0xfd, 0xe8, 0, 0x3c, 1, 1, 1, 1, 5, 2, 6, 1, 4, 0, 2, 0, 1];
    let mut buf = Cursor::new(&data);
    assert!(matches!(Open::parse(&mut buf), Err(Error::InvalidParameterLength)));
    let data = vec![4, 0xfd, 0xe8, 0, 0x3c, 1, 1, 1];
    let mut buf = Cursor::new(&data);
    assert!(matches!(Open::parse(&mut buf), Err(Error::UnexpectedEof)));
}

#[test]
fn test_notification_parse_no_data() {
    let header = Header {
        marker: [0xff; 16],
        length: 19,
        record_type: 4,
    };
    let data = vec![6, 3];
    let mut buf = Cursor::new(&data);
    let notification = Notification::parse(&header, &mut buf).expect("Parsing Notification");
    assert_eq!(notification.major_err_code, 6);
    assert_eq!(notification.minor_err_code, 3);
    assert!(notification.data.is_empty());
}

#[test]
fn test_notification_parse_with_data() {
    let mut data = vec![4, 0];
    data.extend_from_slice(b"Hold Timer Expired");
    let header = Header {
        marker: [0xff; 16],
        length: data.len() as u16 + 19,
        record_type: 4,
    };
    let mut buf = Cursor::new(&data);
    let notification = Notification::parse(&header, &mut buf).expect("Parsing Notification");
    assert_eq!(notification.major_err_code, 4);
    assert_eq!(notification.minor_err_code, 0);
    assert_eq!(&notification.message().unwrap(), "Hold Timer Expired");
}

#[test]
fn test_update_bogus_withdraw_length() {
    let update_data = vec![
        0, 80, // Withdrawn Routes Length (this is too many bytes)
        0, 46, // Path Attribute Length
        64, 1, 1, 0, // ORIGIN
        64, 2, 4, 2, 1, 251, 255, // AS_PATH
        64, 3, 4, 10, 0, 14, 1,  // NEXT_HOP
        128, 4, 4, 0, 0, 0, 0, // MED
        64, 5, 4, 0, 0, 0, 100, // LOCAL_PREF
        128, 10, 4, 10, 0, 34, 4, // CLUSTER LIST
        128, 9, 4, 10, 0, 15, 1, // ORIGINATOR_ID
        // NLRI
        0, 0, 0, 1, 32, 5, 5, 5, 5, // 5.5.5.5/32 w/ Path ID 1
        0, 0, 0, 1, 32, 192, 168, 1, 5   // 192.168.1.5/32 w/ Path ID 1
    ];
    let header_length = 19 + update_data.len();
    let mut buf = Cursor::new(&update_data);
    let header = Header {
        marker: [0xff; 16],
        length: header_length as u16,
        record_type: 2,
    };
    let res = Update::parse(&header, &mut buf, &Capabilities::default());
    assert!(res.is_err());
    assert!(matches!(res, Err(Error::MalformedMessage)));
    // The two bytes of the length were read, and nothing after them.
    assert_eq!(buf.position(), 2);
}

#[test]
fn test_update_bogus_attributes_length() {
    let update_data = vec![
        0, 0, // Withdrawn Routes Length
        0, 80, // Path Attribute Length (too many bytes)
        64, 1, 1, 0, // ORIGIN
        64, 2, 4, 2, 1, 251, 255, // AS_PATH
        64, 3, 4, 10, 0, 14, 1,  // NEXT_HOP
        128, 4, 4, 0, 0, 0, 0, // MED
        64, 5, 4, 0, 0, 0, 100, // LOCAL_PREF
        128, 10, 4, 10, 0, 34, 4, // CLUSTER LIST
        128, 9, 4, 10, 0, 15, 1, // ORIGINATOR_ID
    ];
    let header_length = 19 + update_data.len();
    let mut buf = Cursor::new(&update_data);
    let header = Header {
        marker: [0xff; 16],
        length: header_length as u16,
        record_type: 2,
    };
    let res = Update::parse(&header, &mut buf, &Capabilities::default());
    assert!(res.is_err());
    assert!(matches!(res, Err(Error::MalformedMessage)));
    // Both lengths were read, and nothing after them.
    assert_eq!(buf.position(), 4);
}

#[test]
fn test_update_extended_path_support() {
    let update_data = vec![
        0, 18, // Withdrawn Routes Length
        // NLRI
        0, 0, 0, 1, 32, 5, 5, 5, 5, // 5.5.5.5/32 w/ Path ID 1
        0, 0, 0, 1, 32, 192, 168, 1, 5,   // 192.168.1.5/32 w/ Path ID 1
        0, 46, // Path Attribute Length
        64, 1, 1, 0, // ORIGIN
        64, 2, 4, 2, 1, 251, 255, // AS_PATH
        64, 3, 4, 10, 0, 14, 1,  // NEXT_HOP
        128, 4, 4, 0, 0, 0, 0, // MED
        64, 5, 4, 0, 0, 0, 100, // LOCAL_PREF
        128, 10, 4, 10, 0, 34, 4, // CLUSTER LIST
        128, 9, 4, 10, 0, 15, 1, // ORIGINATOR_ID
    ];
    let header_length = 19 + update_data.len();
    let mut buf = Cursor::new(&update_data);
    let header = Header {
        marker: [0xff; 16],
        length: header_length as u16,
        record_type: 2,
    };
    let capabilities = Capabilities::from_parameters(vec![OpenParameter::Capabilities(vec![
        OpenCapability::AddPath(vec![
            (AFI::IPV4, SAFI::Unicast, AddPathDirection::SendReceivePaths)
        ]),
    ])]);
    let update = Update::parse(&header, &mut buf, &capabilities).unwrap();
    assert_eq!(update.withdrawn_routes.len(), 2);
    for route in &update.withdrawn_routes {
        match route {
            NLRIEncoding::IP_WITH_PATH_ID(_) => (),
            _ => panic!("Expected Path ID"),
        }
    }
    assert_eq!(update.attributes.len(), 7);
    assert!(update.announced_routes.is_empty());
    assert!(update.is_withdrawal());
    assert!(!update.is_announcement());
    assert!(matches!(update.get(Identifier::LOCAL_PREF), Some(PathAttribute::LOCAL_PREF(100))));
    assert!(update.get(Identifier::COMMUNITY).is_none());
}

#[test]
fn update_errors() {
    let caps = Capabilities::default();
    let header = |length: u16| Header { marker: [0xff; 16], length, record_type: 2 };
    let data = vec![0, 0, 0, 0];
    let mut buf = Cursor::new(&data);
    assert!(matches!(Update::parse(&header(22), &mut buf, &caps), Err(Error::MalformedMessage)));
    let data = vec![0];
    let mut buf = Cursor::new(&data);
    assert!(matches!(Update::parse(&header(23), &mut buf, &caps), Err(Error::UnexpectedEof)));
    // The attributes are cut short within their section.
    let data = vec![0, 0, 0, 5, 0x40, 1, 1, 0, 0x40];
    let mut buf = Cursor::new(&data);
    assert!(matches!(Update::parse(&header(28), &mut buf, &caps), Err(Error::UnexpectedEof)));
    // An attribute that declares more bytes than its section holds.
    let data = vec![0, 0, 0, 5, 0x40, 5, 4, 0, 0];
    let mut buf = Cursor::new(&data);
    assert!(matches!(Update::parse(&header(28), &mut buf, &caps), Err(Error::MalformedMessage)));
    // An attribute whose decoder runs out of bytes within a block of
    // its own.
    let data = vec![0, 0, 0, 7, 0xe0, 20, 4, 0, 1, 0, 0];
    let mut buf = Cursor::new(&data);
    assert!(matches!(Update::parse(&header(30), &mut buf, &caps), Err(Error::UnexpectedEof)));
    // An attribute that does not decode is left out, and so is one of
    // an unknown kind.
    let data = vec![0, 0, 0, 14, 0x40, 1, 1, 9, 0x80, 190, 0, 0x40, 5, 4, 0, 0, 0, 1, 8, 10];
    let mut buf = Cursor::new(&data);
    let update = Update::parse(&header(23 + 14 + 2), &mut buf, &caps).unwrap();
    assert_eq!(update.attributes.len(), 1);
    assert_eq!(update.announced_routes, vec![NLRIEncoding::IP(Prefix::new(AFI::IPV4, 8, vec![10]))]);
    // The announced routes are what the header's length leaves.
    let mut buf = Cursor::new(&data);
    assert!(matches!(
        Update::parse(&header(23 + 14 + 3), &mut buf, &caps),
        Err(Error::UnexpectedEof)
    ));
    // A prefix longer than the family allows, in bytes that do not read
    // as routes with path identifiers either.
    let data = vec![0, 6, 40, 1, 1, 1, 1, 40, 0, 0];
    let mut buf = Cursor::new(&data);
    assert!(matches!(Update::parse(&header(29), &mut buf, &caps), Err(Error::MalformedNlri)));
}

#[test]
fn reader_reads_each_kind() {
    let mut data = vec![0xff; 16];
    data.extend_from_slice(&[0, 19, 4]);
    data.extend_from_slice(&[0xff; 16]);
    data.extend_from_slice(&[0, 23, 5, 0, 2, 1, 1]);
    data.extend_from_slice(&[0xff; 16]);
    data.extend_from_slice(&[0, 23, 3, 6, 3, b'h', b'i']);
    data.extend_from_slice(&[0xff; 16]);
    data.extend_from_slice(&[0, 29, 1, 4, 0xfd, 0xe8, 0, 60, 1, 1, 1, 1, 0]);
    data.extend_from_slice(&[0xff; 16]);
    data.extend_from_slice(&[0, 23, 2, 0, 0, 0, 0]);
    data.extend_from_slice(&[0xff; 16]);
    data.extend_from_slice(&[0, 19, 9]);
    let mut reader = Reader { stream: Cursor::new(&data), capabilities: Capabilities::default() };
    let (header, message) = reader.read().unwrap();
    assert_eq!(header.record_type, 4);
    assert!(matches!(message, Message::KeepAlive));
    let (header, message) = reader.read().unwrap();
    assert_eq!(header.length, 23);
    match message {
        Message::RouteRefresh(RouteRefresh { afi, safi, subtype }) => {
            assert_eq!(afi, AFI::IPV6);
            assert_eq!(safi, SAFI::Unicast);
            assert_eq!(subtype, 1);
        },
        other => panic!("unexpected {:?}", other),
    }
    let (_, message) = reader.read().unwrap();
    match &message {
        Message::Notification(n) => {
            assert_eq!(n.data, b"hi".to_vec());
            assert_eq!(n.to_string(), "Cease / 3 hi");
        },
        other => panic!("unexpected {:?}", other),
    }
    assert!(matches!(message.clone(), Message::Notification(_)));
    let (_, message) = reader.read().unwrap();
    match message {
        Message::Open(open) => {
            assert_eq!(open.peer_asn, 65000);
            assert!(open.parameters.is_empty());
        },
        other => panic!("unexpected {:?}", other),
    }
    let (_, message) = reader.read().unwrap();
    match message {
        Message::Update(update) => {
            assert!(!update.is_announcement());
            assert!(!update.is_withdrawal());
            assert!(update.clone().attributes.is_empty());
        },
        other => panic!("unexpected {:?}", other),
    }
    assert!(matches!(reader.read(), Err(Error::UnknownMessageType(9))));
    let empty: Vec<u8> = vec![];
    let cursor = Cursor::new(&empty);
    let capabilities = Capabilities::default();
    let mut reader = Reader { stream: cursor, capabilities: &capabilities };
    assert!(matches!(reader.read(), Err(Error::UnexpectedEof)));
}

#[test]
fn route_refresh_errors() {
    let data = vec![0, 9, 0, 1];
    let mut buf = Cursor::new(&data);
    assert!(matches!(RouteRefresh::parse(&mut buf), Err(Error::UnsupportedAfi(9))));
    let data = vec![0, 1, 0, 9];
    let mut buf = Cursor::new(&data);
    assert!(matches!(RouteRefresh::parse(&mut buf), Err(Error::UnsupportedSafi(9))));
    let data = vec![0, 1, 0];
    let mut buf = Cursor::new(&data);
    assert!(matches!(RouteRefresh::parse(&mut buf), Err(Error::UnexpectedEof)));
}

#[test]
fn messages_are_written_as_they_were_read() {
    let mut keepalive = vec![0xff; 16];
    keepalive.extend_from_slice(&[0, 19, 4]);
    let mut refresh = vec![0xff; 16];
    refresh.extend_from_slice(&[0, 23, 5, 0, 2, 1, 128]);
    let mut notification = vec![0xff; 16];
    notification.extend_from_slice(&[0, 24, 3, 2, 2, 0xfd, 0xe8, 7]);
    // An UPDATE of one withdrawn and one announced route, without attributes.
    let mut update = vec![0xff; 16];
    update.extend_from_slice(&[0, 30, 2, 0, 4, 24, 10, 1, 2, 0, 0, 16, 172, 16]);
    // An UPDATE with an origin, a path, a next hop, a discriminator, a
    // preference, a cluster list, an originator, communities and an
    // aggregator, and one announced route.
    let mut announcement = vec![0xff; 16];
    announcement.extend_from_slice(&[0, 93, 2, 0, 0, 0, 66]);
    announcement.extend_from_slice(&[
        0x40, 0x01, 0x01, 0x00, 0x40, 0x02, 0x04, 0x02, 0x01, 0xfb, 0xff, 0x40, 0x03, 0x04, 0x0a,
        0x00, 0x0e, 0x01, 0x80, 0x04, 0x04, 0x00, 0x00, 0x00, 0x00, 0x40, 0x05, 0x04, 0x00, 0x00,
        0x00, 0x64, 0x80, 0x0a, 0x04, 0x0a, 0x00, 0x22, 0x04, 0x80, 0x09, 0x04, 0x0a, 0x00, 0x0f,
        0x01, 0xc0, 0x08, 0x08, 0xfb, 0xff, 0x00, 0x01, 0xfb, 0xff, 0x00, 0x02, 0xc0, 0x07, 0x06,
        0xfb, 0xff, 0x0a, 0x00, 0x0f, 0x01,
    ]);
    announcement.extend_from_slice(&[24, 10, 0, 14]);
    assert_eq!(announcement.len(), 93);
    // The same path in four bytes, where a number needs them.
    let mut wide = vec![0xff; 16];
    wide.extend_from_slice(&[0, 40, 2, 0, 0, 0, 13]);
    wide.extend_from_slice(&[0x40, 0x01, 0x01, 0x02, 0x40, 0x02, 0x06, 0x02, 0x01, 0, 1, 0, 0]);
    wide.extend_from_slice(&[24, 10, 0, 14]);
    // IPv6 routes announced and withdrawn in multiprotocol attributes.
    let mut v6 = vec![0xff; 16];
    v6.extend_from_slice(&[0, 74, 2, 0, 0, 0, 51]);
    v6.extend_from_slice(&[0x40, 0x01, 0x01, 0x00, 0x40, 0x02, 0x04, 0x02, 0x01, 0xfb, 0xff]);
    v6.extend_from_slice(&[0x80, 0x0e, 26, 0, 2, 1, 16]);
    v6.extend_from_slice(&[0x20, 0x01, 0x0d, 0xb8, 0, 0, 0, 0, 0, 0, 0, 0, 0, 0, 0, 1]);
    v6.extend_from_slice(&[0, 32, 0x20, 0x01, 0x0d, 0xb8]);
    v6.extend_from_slice(&[0x80, 0x0f, 8, 0, 2, 1, 32, 0x20, 0x01, 0x0d, 0xb9]);
    assert_eq!(v6.len(), 74);
    // A flow specification announced for IPv4, under an empty path.
    let mut flow = vec![0xff; 16];
    flow.extend_from_slice(&[0, 51, 2, 0, 0, 0, 28]);
    flow.extend_from_slice(&[0x40, 0x01, 0x01, 0x00, 0x40, 0x02, 0x00]);
    flow.extend_from_slice(&[0x80, 0x0e, 18, 0, 1, 133, 0, 0, 12]);
    flow.extend_from_slice(&[0x01, 24, 10, 0, 1, 0x03, 0x81, 0x06, 0x04, 0x91, 0x1f, 0x90]);
    assert_eq!(flow.len(), 51);
    // A flow specification withdrawn for IPv6, with bitmask, one-byte and
    // fragment components.
    let mut flow6 = vec![0xff; 16];
    flow6.extend_from_slice(&[0, 49, 2, 0, 0, 0, 26]);
    flow6.extend_from_slice(&[0x80, 0x0f, 23, 0, 2, 133, 19]);
    flow6.extend_from_slice(&[0x02, 32, 0, 0x20, 0x01, 0x0d, 0xb8]);
    flow6.extend_from_slice(&[0x09, 0x81, 0x02, 0x0b, 0x81, 0x2e, 0x0c, 0x80, 0x01]);
    flow6.extend_from_slice(&[0x07, 0x81, 0x08]);
    assert_eq!(flow6.len(), 49);
    // An OPEN with four parameters of capabilities.
    let mut open = vec![0xff; 16];
    open.extend_from_slice(&[0, 55, 1]);
    open.extend_from_slice(&[
        0x04, 0xfd, 0xe8, 0x00, 0x3c, 0x01, 0x01, 0x01, 0x01, 0x1a, 0x02, 0x06, 0x01, 0x04, 0x00,
        0x02, 0x00, 0x01, 0x02, 0x06, 0x41, 0x04, 0x00, 0x00, 0xfd, 0xe8, 0x02, 0x02, 0x02, 0x00,
        0x02, 0x04, 0xf0, 0x00, 0x00, 0x00,
    ]);
    for wire in
        [keepalive, refresh, notification, update, announcement, wide, v6, flow, flow6, open]
    {
        let mut reader = Reader::new(Cursor::new(&wire));
        let (header, message) = reader.read().unwrap();
        assert_eq!(header.length as usize, wire.len());
        assert_eq!(reader.stream.position(), wire.len());
        let mut out = vec![];
        message.encode(&mut out).unwrap();
        assert_eq!(out, wire);
    }
}

#[test]
fn a_prefix_is_written_as_it_was_read() {
    let wire = vec![17, 10, 10, 128];
    let mut buf = Cursor::new(&wire);
    let prefix = Prefix::parse(&mut buf, AFI::IPV4).unwrap();
    assert_eq!(buf.position(), 4);
    assert_eq!(prefix.wire_octets(), vec![10, 10, 128]);
    let route = NLRIEncoding::IP(prefix);
    let mut out = vec![];
    route.encode(&mut out).unwrap();
    assert_eq!(out, wire);
}

#[test]
fn bits_beyond_the_length_are_not_written() {
    // Seventeen bits over 10.10.255: the last octet keeps its first bit.
    let prefix = Prefix::new(AFI::IPV4, 17, vec![10, 10, 255]);
    assert_eq!(prefix.masked_octets(), &[10, 10, 255]);
    assert_eq!(prefix.wire_octets(), vec![10, 10, 128]);
    let mut out = vec![];
    NLRIEncoding::IP(prefix).encode(&mut out).unwrap();
    assert_eq!(out, vec![17, 10, 10, 128]);
    let mut buf = Cursor::new(&out);
    let read = Prefix::parse(&mut buf, AFI::IPV4).unwrap();
    assert_eq!(read, Prefix::new(AFI::IPV4, 17, vec![10, 10, 128]));
    // The same after a path identifier.
    let prefix = Prefix::new(AFI::IPV4, 18, vec![1, 1, 1, 1]);
    let mut out = vec![];
    NLRIEncoding::IP_WITH_PATH_ID((prefix, 7)).encode(&mut out).unwrap();
    assert_eq!(out, vec![0, 0, 0, 7, 18, 1, 1, 0]);
    // Whole octets and an empty prefix are written as they are.
    let mut out = vec![];
    NLRIEncoding::IP(Prefix::new(AFI::IPV4, 16, vec![1, 255, 9])).encode(&mut out).unwrap();
    assert_eq!(out, vec![16, 1, 255]);
    let mut out = vec![];
    NLRIEncoding::IP(Prefix::new(AFI::IPV6, 0, vec![])).encode(&mut out).unwrap();
    assert_eq!(out, vec![0]);
    let mut out = vec![];
    NLRIEncoding::IP(Prefix::new(AFI::IPV6, 1, vec![0xff])).encode(&mut out).unwrap();
    assert_eq!(out, vec![1, 0x80]);
    // A prefix component of a flow specification.
    let filter = FlowspecFilter::DestinationPrefix(Prefix::new(AFI::IPV4, 20, vec![192, 168, 0xff]));
    let mut out = vec![];
    filter.encode(&mut out).unwrap();
    assert_eq!(out, vec![1, 20, 192, 168, 0xf0]);
}

#[test]
fn a_reserved_octet_is_not_kept() {
    // A multiprotocol capability under a reserved octet of one.
    let mut wire = vec![0xff; 16];
    wire.extend_from_slice(&[0, 37, 1]);
    wire.extend_from_slice(&[4, 0xfd, 0xe8, 0, 60, 1, 1, 1, 1, 8, 2, 6, 1, 4, 0, 1, 1, 1]);
    let mut reader = Reader::new(Cursor::new(&wire));
    let (_, message) = reader.read().unwrap();
    let mut out = vec![];
    message.encode(&mut out).unwrap();
    assert_eq!(out.len(), wire.len());
    assert_eq!(out[35], 0);
    assert_eq!(out[..35], wire[..35]);
    assert_eq!(out[36], wire[36]);
}

#[test]
fn a_path_in_more_bytes_than_it_needs_is_written_in_two() {
    // One AS number of four bytes that fits two.
    let mut wire = vec![0xff; 16];
    wire.extend_from_slice(&[0, 32, 2, 0, 0, 0, 9, 0x40, 0x02, 0x06, 0x02, 0x01, 0, 0, 0, 7]);
    let mut reader = Reader::new(Cursor::new(&wire));
    let (_, message) = reader.read().unwrap();
    let mut out = vec![];
    message.encode(&mut out).unwrap();
    let mut expected = vec![0xff; 16];
    expected.extend_from_slice(&[0, 30, 2, 0, 0, 0, 7, 0x40, 0x02, 0x04, 0x02, 0x01, 0, 7]);
    assert_eq!(out, expected);
}

#[test]
fn a_value_in_more_bytes_than_it_needs_is_written_in_fewer() {
    // Port 80 in two bytes.
    let wire = vec![0x04, 0x91, 0x00, 0x50];
    let mut buf = Cursor::new(&wire);
    let filter = FlowspecFilter::parse(&mut buf, AFI::IPV4).unwrap();
    assert_eq!(buf.position(), 4);
    let mut out = vec![];
    filter.encode(&mut out).unwrap();
    assert_eq!(out, vec![0x04, 0x81, 0x50]);
}
