use bgp_rs::{
    ASPath, AddPathDirection, Capabilities, Cursor, Error, Identifier, IpAddr, Ipv4Addr, Ipv6Addr,
    MPReachNLRI, MPUnreachNLRI, NLRIEncoding, OpenCapability, OpenParameter, Origin, PathAttribute,
    Prefix, ReadCountingStream, Segment, AFI, SAFI,
};
use bgp_rs::update::attributes::read_attribute;

fn attr_roundtrip(attr: &PathAttribute, capabilities: &Capabilities) {
    let mut bytes = vec![];
    attr.encode(&mut bytes).unwrap();
    let mut buffer = Cursor::new(&bytes);
    let result = PathAttribute::parse(&mut buffer, capabilities).unwrap();

    // Now compare bytes for both:
    let cursor_depth = buffer.position();
    // Only take the bytes that were read
    let written_bytes = bytes[..cursor_depth].to_vec();
    let roundtrip_bytes = {
        let mut rb = vec![];
        result.encode(&mut rb).unwrap();
        rb
    };
    assert_eq!(written_bytes, roundtrip_bytes, "Error roundtripping: {:?}", attr);
}

fn v6_prefix_2620_10_20(length: u8) -> Prefix {
    Prefix::new(AFI::IPV6, length, vec![0x26, 0x20, 0, 0x10, 0, 0x20, 0, 0, 0, 0, 0, 0, 0, 0, 0, 0])
}

fn next_hop_3001_1() -> Vec<u8> {
    vec![0x30, 0x01, 0, 0, 0, 0, 0, 0, 0, 0, 0, 0, 0, 0, 0, 1]
}

#[test]
fn test_attr_roundtrips() {
    let attrs = vec![
        (PathAttribute::ORIGIN(Origin::IGP), None),
        (PathAttribute::ORIGIN(Origin::EGP), None),
        (PathAttribute::ORIGIN(Origin::INCOMPLETE), None),
        (
            PathAttribute::AS_PATH(ASPath {
                segments: vec![Segment::AS_SEQUENCE(vec![100, 200])],
            }),
            None,
        ),
        (
            PathAttribute::AS_PATH(ASPath {
                segments: vec![
                    Segment::AS_SET(vec![100, 200]),
                    Segment::AS_SET(vec![100, 200]),
                ],
            }),
            None,
        ),
        (PathAttribute::NEXT_HOP(IpAddr::V4(Ipv4Addr { bits: 0x01010101 })), None),
        (PathAttribute::MULTI_EXIT_DISC(500), None),
        (PathAttribute::MULTI_EXIT_DISC(3200001010), None),
        (PathAttribute::LOCAL_PREF(100), None),
        (PathAttribute::AGGREGATOR((100, Ipv4Addr { bits: 0x01010101 })), None),
        (PathAttribute::COMMUNITY(vec![100, 9000008]), None),
        (
            PathAttribute::MP_REACH_NLRI(MPReachNLRI {
                afi: AFI::IPV4,
                safi: SAFI::Unicast,
                next_hop: vec![1, 1, 1, 1],
                announced_routes: vec![
                    NLRIEncoding::IP(Prefix::new(AFI::IPV4, 24, vec![10, 10, 10, 0])),
                    NLRIEncoding::IP(Prefix::new(AFI::IPV4, 24, vec![20, 20, 20, 0])),
                ],
            }),
            None,
        ),
        (
            PathAttribute::MP_REACH_NLRI(MPReachNLRI {
                afi: AFI::IPV6,
                safi: SAFI::Unicast,
                next_hop: next_hop_3001_1(),
                announced_routes: vec![
                    NLRIEncoding::IP(v6_prefix_2620_10_20(64)),
                    NLRIEncoding::IP(v6_prefix_2620_10_20(64)),
                ],
            }),
            None,
        ),
        (
            PathAttribute::MP_REACH_NLRI(MPReachNLRI {
                afi: AFI::IPV6,
                safi: SAFI::Unicast,
                next_hop: next_hop_3001_1(),
                announced_routes: vec![
                    NLRIEncoding::IP_WITH_PATH_ID((v6_prefix_2620_10_20(64), 10)),
                    NLRIEncoding::IP_WITH_PATH_ID((v6_prefix_2620_10_20(64), 20)),
                ],
            }),
            Some(Capabilities::from_parameters(vec![
                OpenParameter::Capabilities(vec![OpenCapability::AddPath(vec![(
                    AFI::IPV4,
                    SAFI::Unicast,
                    AddPathDirection::SendReceivePaths,
                )])]),
            ])),
        ),
        (
            PathAttribute::MP_UNREACH_NLRI(MPUnreachNLRI {
                afi: AFI::IPV4,
                safi: SAFI::Unicast,
                withdrawn_routes: vec![
                    NLRIEncoding::IP(Prefix::new(AFI::IPV4, 24, vec![10, 10, 10, 0])),
                    NLRIEncoding::IP(Prefix::new(AFI::IPV4, 24, vec![20, 20, 20, 0])),
                ],
            }),
            None,
        ),
        (
            PathAttribute::MP_UNREACH_NLRI(MPUnreachNLRI {
                afi: AFI::IPV6,
                safi: SAFI::Unicast,
                withdrawn_routes: vec![
                    NLRIEncoding::IP(v6_prefix_2620_10_20(64)),
                    NLRIEncoding::IP(v6_prefix_2620_10_20(64)),
                ],
            }),
            None,
        ),
        (
            PathAttribute::EXTENDED_COMMUNITIES(vec![100, 9000008, 10e50 as u64]),
            None,
        ),
        (
            PathAttribute::AS4_PATH(ASPath {
                segments: vec![Segment::AS_SEQUENCE(vec![100, 200])],
            }),
            None,
        ),
        (
            PathAttribute::AS4_PATH(ASPath {
                segments: vec![
                    Segment::AS_SET(vec![100, 200]),
                    Segment::AS_SET(vec![100, 200]),
                ],
            }),
            None,
        ),
    ];

    for (attr, caps) in attrs {
        attr_roundtrip(&attr, &caps.unwrap_or_default());
    }
}

#[test]
fn test_unknown_attribute() {
    let attr_data: Vec<u8> = vec![0x80, 190 /* not valid */, 4, 0, 0, 0, 0];
    let mut buf = Cursor::new(&attr_data);
    let res = PathAttribute::parse(&mut buf, &Capabilities::default());
    assert!(res.is_err());
}

#[test]
fn test_read_counter_overflow() {
    let data: Vec<u8> = (0..10).collect();
    let length = data.len();
    let mut buf = Cursor::new(&data);
    let mut counter = ReadCountingStream::new(&mut buf, length).unwrap();
    // the read is longer than what is left, so it will overrun
    assert!(counter.read_exact(16).is_err());
}

#[test]
fn unknown_attribute_is_named_and_its_bytes_are_passed() {
    let attr_data: Vec<u8> = vec![0x80, 190, 4, 0, 0, 0, 0, 0x40, 1, 1, 2];
    let mut buf = Cursor::new(&attr_data);
    let res = PathAttribute::parse(&mut buf, &Capabilities::default());
    assert_eq!(res.unwrap_err(), Error::UnknownAttribute(190));
    assert_eq!(buf.position(), 7);
    let next = PathAttribute::parse(&mut buf, &Capabilities::default()).unwrap();
    assert!(matches!(next, PathAttribute::ORIGIN(Origin::INCOMPLETE)));
    assert_eq!(buf.position(), 11);
}

#[test]
fn counting_stream_is_held_to_its_window() {
    let data: Vec<u8> = vec![1, 2, 3, 4, 5, 6];
    let mut buf = Cursor::new(&data);
    assert_eq!(ReadCountingStream::new(&mut buf, 7).unwrap_err(), Error::UnexpectedEof);
    assert_eq!(buf.position(), 0);
    let mut counter = ReadCountingStream::new(&mut buf, 4).unwrap();
    assert_eq!(buf.position(), 4);
    assert_eq!(counter.remaining(), 4);
    assert_eq!(counter.read_u16(), Ok(0x0102));
    assert_eq!(counter.read_u32(), Err(Error::MalformedAttribute));
    assert_eq!(counter.remaining(), 2);
    assert_eq!(counter.read_u8(), Ok(3));
    assert_eq!(counter.read_exact(1).unwrap(), &[4]);
    assert_eq!(counter.read_u8(), Err(Error::MalformedAttribute));
}

#[test]
fn attribute_cut_short_leaves_the_stream_after_what_was_read() {
    let caps = Capabilities::default();
    // The frame declares four bytes, two are there.
    let attr_data: Vec<u8> = vec![0x80, 4, 4, 0, 0];
    let mut buf = Cursor::new(&attr_data);
    assert_eq!(PathAttribute::parse(&mut buf, &caps).unwrap_err(), Error::MalformedMessage);
    assert_eq!(buf.position(), 3);
    // The same under a length of two bytes.
    let attr_data: Vec<u8> = vec![0x90, 4, 0, 4, 0, 0];
    let mut buf = Cursor::new(&attr_data);
    assert_eq!(PathAttribute::parse(&mut buf, &caps).unwrap_err(), Error::MalformedMessage);
    assert_eq!(buf.position(), 4);
    // An extended length of which one byte is missing.
    let attr_data: Vec<u8> = vec![0x90, 4, 0];
    let mut buf = Cursor::new(&attr_data);
    assert_eq!(PathAttribute::parse(&mut buf, &caps).unwrap_err(), Error::UnexpectedEof);
    assert_eq!(buf.position(), 2);
    // No length, no type code, nothing at all.
    let attr_data: Vec<u8> = vec![0x80, 4];
    let mut buf = Cursor::new(&attr_data);
    assert_eq!(PathAttribute::parse(&mut buf, &caps).unwrap_err(), Error::UnexpectedEof);
    assert_eq!(buf.position(), 2);
    let attr_data: Vec<u8> = vec![0x80];
    let mut buf = Cursor::new(&attr_data);
    assert_eq!(PathAttribute::parse(&mut buf, &caps).unwrap_err(), Error::UnexpectedEof);
    assert_eq!(buf.position(), 1);
    let attr_data: Vec<u8> = vec![];
    let mut buf = Cursor::new(&attr_data);
    assert_eq!(PathAttribute::parse(&mut buf, &caps).unwrap_err(), Error::UnexpectedEof);
    assert_eq!(buf.position(), 0);
}

#[test]
fn attribute_decoder_cannot_read_past_its_length() {
    let caps = Capabilities::default();
    // A MED that declares two bytes, followed by an ORIGIN.
    let attr_data: Vec<u8> = vec![0x80, 4, 2, 0, 1, 0x40, 1, 1, 0];
    let mut buf = Cursor::new(&attr_data);
    assert_eq!(PathAttribute::parse(&mut buf, &caps).unwrap_err(), Error::MalformedAttribute);
    assert_eq!(buf.position(), 5);
    assert!(matches!(
        PathAttribute::parse(&mut buf, &caps).unwrap(),
        PathAttribute::ORIGIN(Origin::IGP)
    ));
}

#[test]
fn attribute_longer_than_its_value_is_passed_whole() {
    let caps = Capabilities::default();
    // A LOCAL_PREF that declares six bytes: four are the value.
    let attr_data: Vec<u8> = vec![0x40, 5, 6, 0, 0, 0, 100, 9, 9, 0x40, 1, 1, 1];
    let mut buf = Cursor::new(&attr_data);
    assert!(matches!(
        PathAttribute::parse(&mut buf, &caps).unwrap(),
        PathAttribute::LOCAL_PREF(100)
    ));
    assert_eq!(buf.position(), 9);
}

#[test]
fn extended_length_is_read_and_written() {
    let caps = Capabilities::default();
    let communities: Vec<u32> = (0..64).collect();
    let attr = PathAttribute::COMMUNITY(communities.clone());
    let mut bytes = vec![];
    attr.encode(&mut bytes).unwrap();
    assert_eq!(&bytes[..4], &[0xd0, 8, 1, 0]);
    assert_eq!(bytes.len(), 4 + 256);
    let mut buf = Cursor::new(&bytes);
    match PathAttribute::parse(&mut buf, &caps).unwrap() {
        PathAttribute::COMMUNITY(v) => assert_eq!(v, communities),
        other => panic!("unexpected {:?}", other),
    }
    let short = PathAttribute::COMMUNITY((0..63).collect());
    let mut bytes = vec![];
    short.encode(&mut bytes).unwrap();
    assert_eq!(&bytes[..3], &[0xc0, 8, 252]);
    assert_eq!(bytes.len(), 3 + 252);
}

#[test]
fn default_flags_by_kind() {
    let cases: Vec<(PathAttribute, Vec<u8>)> = vec![
        (PathAttribute::ORIGIN(Origin::EGP), vec![0x40, 1, 1, 1]),
        (PathAttribute::NEXT_HOP(IpAddr::V4(Ipv4Addr { bits: 0x0a000e01 })), vec![0x40, 3, 4, 10, 0, 14, 1]),
        (PathAttribute::MULTI_EXIT_DISC(7), vec![0x80, 4, 4, 0, 0, 0, 7]),
        (PathAttribute::LOCAL_PREF(100), vec![0x40, 5, 4, 0, 0, 0, 100]),
        (PathAttribute::ORIGINATOR_ID(0x0a000f01), vec![0x80, 9, 4, 10, 0, 15, 1]),
        (PathAttribute::CLUSTER_LIST(vec![0x0a002204]), vec![0x80, 10, 4, 10, 0, 34, 4]),
        (PathAttribute::EXTENDED_COMMUNITIES(vec![0x8006000000000000]), vec![0xc0, 16, 8, 0x80, 6, 0, 0, 0, 0, 0, 0]),
        (
            PathAttribute::AGGREGATOR((0x1fbff, Ipv4Addr { bits: 1 })),
            vec![0xc0, 7, 8, 0, 1, 0xfb, 0xff, 0, 0, 0, 1],
        ),
        (PathAttribute::AGGREGATOR((0xfbff, Ipv4Addr { bits: 1 })), vec![0xc0, 7, 6, 0xfb, 0xff, 0, 0, 0, 1]),
        (
            PathAttribute::NEXT_HOP(IpAddr::V6(Ipv6Addr { bits: 0x2001_0db8_0000_0000_0000_0000_0000_0001 })),
            vec![0x40, 3, 16, 0x20, 1, 0x0d, 0xb8, 0, 0, 0, 0, 0, 0, 0, 0, 0, 0, 0, 1],
        ),
    ];
    for (attr, expected) in cases {
        let mut bytes = vec![];
        attr.encode(&mut bytes).unwrap();
        assert_eq!(bytes, expected, "{:?}", attr);
    }
}

#[test]
fn attributes_without_a_wire_form_are_refused() {
    let mut bytes = vec![5];
    assert_eq!(PathAttribute::ATOMIC_AGGREGATOR.encode(&mut bytes), Err(Error::UnsupportedEncoding));
    assert_eq!(PathAttribute::AIGP((1, vec![1])).encode(&mut bytes), Err(Error::UnsupportedEncoding));
    assert_eq!(
        PathAttribute::AS_PATH(ASPath { segments: vec![Segment::AS_SEQUENCE(vec![1; 256])] })
            .encode(&mut bytes),
        Err(Error::EncodeOverflow)
    );
    assert_eq!(
        PathAttribute::EXTENDED_COMMUNITIES(vec![0; 8192]).encode(&mut bytes),
        Err(Error::EncodeOverflow)
    );
    assert_eq!(bytes, vec![5]);
}

#[test]
fn every_kind_has_its_code() {
    let cases: Vec<(Identifier, u8)> = vec![
        (Identifier::ORIGIN, 1),
        (Identifier::AS_PATH, 2),
        (Identifier::NEXT_HOP, 3),
        (Identifier::MULTI_EXIT_DISC, 4),
        (Identifier::LOCAL_PREF, 5),
        (Identifier::ATOMIC_AGGREGATOR, 6),
        (Identifier::AGGREGATOR, 7),
        (Identifier::COMMUNITY, 8),
        (Identifier::ORIGINATOR_ID, 9),
        (Identifier::CLUSTER_LIST, 10),
        (Identifier::DPA, 11),
        (Identifier::ADVERTISER, 12),
        (Identifier::CLUSTER_ID, 13),
        (Identifier::MP_REACH_NLRI, 14),
        (Identifier::MP_UNREACH_NLRI, 15),
        (Identifier::EXTENDED_COMMUNITIES, 16),
        (Identifier::AS4_PATH, 17),
        (Identifier::AS4_AGGREGATOR, 18),
        (Identifier::SSA, 19),
        (Identifier::CONNECTOR, 20),
        (Identifier::AS_PATHLIMIT, 21),
        (Identifier::PMSI_TUNNEL, 22),
        (Identifier::TUNNEL_ENCAPSULATION, 23),
        (Identifier::TRAFFIC_ENGINEERING, 24),
        (Identifier::IPV6_SPECIFIC_EXTENDED_COMMUNITY, 25),
        (Identifier::AIGP, 26),
        (Identifier::PE_DISTINGUISHER_LABELS, 27),
        (Identifier::ENTROPY_LABEL_CAPABILITY, 28),
        (Identifier::BGP_LS, 29),
        (Identifier::LARGE_COMMUNITY, 32),
        (Identifier::BGPSEC_PATH, 33),
        (Identifier::BGP_PREFIX_SID, 34),
        (Identifier::ATTR_SET, 128),
    ];
    for (id, code) in cases {
        assert_eq!(id.code(), code);
    }
    assert_eq!(PathAttribute::ATOMIC_AGGREGATOR.id(), Identifier::ATOMIC_AGGREGATOR);
    assert_eq!(PathAttribute::LARGE_COMMUNITY(vec![]).id(), Identifier::LARGE_COMMUNITY);
    assert_eq!(PathAttribute::ATTR_SET((1, vec![])).id(), Identifier::ATTR_SET);
}

fn parse_one(bytes: Vec<u8>) -> Result<PathAttribute, Error> {
    let mut buf = Cursor::new(&bytes);
    PathAttribute::parse(&mut buf, &Capabilities::default())
}

#[test]
fn each_kind_is_decoded() {
    assert!(matches!(parse_one(vec![0x40, 6, 0]).unwrap(), PathAttribute::ATOMIC_AGGREGATOR));
    match parse_one(vec![0xc0, 7, 6, 0xfd, 0xe8, 10, 0, 0, 1]).unwrap() {
        PathAttribute::AGGREGATOR((asn, ip)) => {
            assert_eq!(asn, 65000);
            assert_eq!(ip, Ipv4Addr { bits: 0x0a000001 });
        },
        other => panic!("unexpected {:?}", other),
    }
    match parse_one(vec![0xc0, 7, 8, 0, 1, 0xfd, 0xe8, 10, 0, 0, 1]).unwrap() {
        PathAttribute::AGGREGATOR((asn, ip)) => {
            assert_eq!(asn, 0x1fde8);
            assert_eq!(ip, Ipv4Addr { bits: 0x0a000001 });
        },
        other => panic!("unexpected {:?}", other),
    }
    match parse_one(vec![0xc0, 18, 8, 0, 1, 0xfd, 0xe8, 10, 0, 0, 2]).unwrap() {
        PathAttribute::AS4_AGGREGATOR((asn, ip)) => {
            assert_eq!(asn, 0x1fde8);
            assert_eq!(ip, Ipv4Addr { bits: 0x0a000002 });
        },
        other => panic!("unexpected {:?}", other),
    }
    match parse_one(vec![0x80, 11, 6, 0, 7, 0, 0, 1, 0]).unwrap() {
        PathAttribute::DPA((asn, value)) => {
            assert_eq!(asn, 7);
            assert_eq!(value, 256);
        },
        other => panic!("unexpected {:?}", other),
    }
    match parse_one(vec![0xe0, 20, 14, 0, 1, 0, 0, 88, 214, 0, 0, 2, 142, 207, 210, 141, 181]).unwrap() {
        PathAttribute::CONNECTOR(ip) => assert_eq!(ip, Ipv4Addr { bits: 0xcfd28db5 }),
        other => panic!("unexpected {:?}", other),
    }
    match parse_one(vec![0xc0, 21, 5, 9, 0, 0, 0xfd, 0xe8]).unwrap() {
        PathAttribute::AS_PATHLIMIT((limit, asn)) => {
            assert_eq!(limit, 9);
            assert_eq!(asn, 65000);
        },
        other => panic!("unexpected {:?}", other),
    }
    match parse_one(vec![0xc0, 23, 7, 0, 8, 0, 3, 1, 2, 3]).unwrap() {
        PathAttribute::TUNNEL_ENCAPSULATION((kind, value)) => {
            assert_eq!(kind, 8);
            assert_eq!(value, vec![1, 2, 3]);
        },
        other => panic!("unexpected {:?}", other),
    }
    match parse_one(vec![
        0xc0, 25, 20, 0, 2, 0x20, 1, 0, 0, 0, 0, 0, 0, 0, 0, 0, 0, 0, 0, 0, 9, 0, 200,
    ])
    .unwrap()
    {
        PathAttribute::IPV6_SPECIFIC_EXTENDED_COMMUNITY((transitive, subtype, global, local)) => {
            assert_eq!(transitive, 0);
            assert_eq!(subtype, 2);
            assert_eq!(global, Ipv6Addr { bits: 0x2001_0000_0000_0000_0000_0000_0000_0009 });
            assert_eq!(local, 200);
        },
        other => panic!("unexpected {:?}", other),
    }
    match parse_one(vec![0x80, 26, 11, 1, 0, 11, 0, 0, 0, 0, 0, 0, 0, 50]).unwrap() {
        PathAttribute::AIGP((kind, value)) => {
            assert_eq!(kind, 1);
            assert_eq!(value, vec![0, 0, 0, 0, 0, 0, 0, 50]);
        },
        other => panic!("unexpected {:?}", other),
    }
    assert!(matches!(
        parse_one(vec![0x80, 28, 2, 0, 0]).unwrap(),
        PathAttribute::ENTROPY_LABEL_CAPABILITY
    ));
    match parse_one(vec![0xc0, 32, 12, 0, 0, 0, 1, 0, 0, 0, 2, 0, 0, 0, 3]).unwrap() {
        PathAttribute::LARGE_COMMUNITY(v) => assert_eq!(v, vec![(1, 2, 3)]),
        other => panic!("unexpected {:?}", other),
    }
    match parse_one(vec![0x80, 10, 9, 0, 0, 0, 1, 0, 0, 0, 2, 7]).unwrap() {
        PathAttribute::CLUSTER_LIST(v) => assert_eq!(v, vec![1, 2]),
        other => panic!("unexpected {:?}", other),
    }
    match parse_one(vec![0x40, 3, 16, 0x20, 1, 0, 0, 0, 0, 0, 0, 0, 0, 0, 0, 0, 0, 0, 1]).unwrap() {
        PathAttribute::NEXT_HOP(ip) => {
            assert_eq!(ip, IpAddr::V6(Ipv6Addr { bits: 0x2001_0000_0000_0000_0000_0000_0000_0001 }))
        },
        other => panic!("unexpected {:?}", other),
    }
}

#[test]
fn each_decoder_error() {
    assert_eq!(parse_one(vec![0x40, 1, 1, 3]).unwrap_err(), Error::UnknownOrigin(3));
    assert_eq!(parse_one(vec![0x40, 1, 0]).unwrap_err(), Error::MalformedAttribute);
    assert_eq!(parse_one(vec![0x80, 26, 3, 1, 0, 2]).unwrap_err(), Error::MalformedAigp);
    assert_eq!(parse_one(vec![0x80, 26, 4, 1, 0, 9, 0]).unwrap_err(), Error::MalformedAttribute);
    assert_eq!(parse_one(vec![0xe0, 20, 4, 0, 1, 0, 0]).unwrap_err(), Error::UnexpectedEof);
    assert_eq!(parse_one(vec![0x40, 2, 3, 2, 1, 0]).unwrap_err(), Error::MalformedAsPath);
    assert_eq!(parse_one(vec![0x40, 2, 4, 3, 1, 0, 9]).unwrap_err(), Error::MalformedAsPath);
    assert_eq!(parse_one(vec![0x80, 14, 4, 0, 9, 1, 0]).unwrap_err(), Error::UnsupportedAfi(9));
    assert_eq!(parse_one(vec![0x80, 15, 3, 0, 1, 9]).unwrap_err(), Error::UnsupportedSafi(9));
    match parse_one(vec![0x80, 15, 3, 0, 1, 134]).unwrap() {
        PathAttribute::MP_UNREACH_NLRI(m) => {
            assert_eq!(m.afi, AFI::IPV4);
            assert_eq!(m.safi, SAFI::FlowspecVPN);
            assert!(m.withdrawn_routes.is_empty());
        },
        other => panic!("unexpected {:?}", other),
    }
    assert_eq!(parse_one(vec![0x80, 15, 4, 0, 1, 134, 0]).unwrap_err(), Error::UnsupportedSafi(134));
}

#[test]
fn attribute_set_skips_what_does_not_decode() {
    // AS 65000, then an ORIGIN, an unknown attribute, a MED, and a frame
    // that is cut short.
    let bytes = vec![
        0xc0, 128, 24, 0, 0, 0xfd, 0xe8, 0x40, 1, 1, 0, 0x80, 190, 2, 0, 0, 0x80, 4, 4, 0, 0, 0, 9,
        0x40, 5, 4, 0,
    ];
    match parse_one(bytes).unwrap() {
        PathAttribute::ATTR_SET((asn, attributes)) => {
            assert_eq!(asn, 65000);
            assert_eq!(attributes.len(), 2);
            assert!(matches!(attributes[0], PathAttribute::ORIGIN(Origin::IGP)));
            assert!(matches!(attributes[1], PathAttribute::MULTI_EXIT_DISC(9)));
        },
        other => panic!("unexpected {:?}", other),
    }
    let copy = parse_one(vec![0xc0, 128, 8, 0, 0, 0, 1, 0x40, 1, 1, 2]).unwrap().clone();
    assert!(matches!(copy, PathAttribute::ATTR_SET((1, _))));
}

#[test]
fn origin_names() {
    assert_eq!(&(Origin::IGP).to_string(), "IGP");
    assert_eq!(&(Origin::EGP).to_string(), "EGP");
    assert_eq!(&(Origin::INCOMPLETE).to_string(), "Incomplete");
}

#[test]
fn frame_and_body_fail_apart() {
    let caps = Capabilities::default();
    // An ORIGIN of an unknown value, then a MED: the body fails, the frame holds.
    let attr_data: Vec<u8> = vec![0x40, 1, 1, 9, 0x80, 4, 4, 0, 0, 0, 7];
    let mut buf = Cursor::new(&attr_data);
    assert!(matches!(read_attribute(&mut buf, &caps), Ok(Err(Error::UnknownOrigin(9)))));
    assert_eq!(buf.position(), 4);
    assert!(matches!(
        read_attribute(&mut buf, &caps),
        Ok(Ok(PathAttribute::MULTI_EXIT_DISC(7)))
    ));
    assert_eq!(buf.position(), 11);
    // A MED of which two bytes are missing: the frame fails.
    let attr_data: Vec<u8> = vec![0x80, 4, 4, 0, 0];
    let mut buf = Cursor::new(&attr_data);
    assert!(matches!(read_attribute(&mut buf, &caps), Err(Error::MalformedMessage)));
    assert_eq!(buf.position(), 3);
    let attr_data: Vec<u8> = vec![0x80, 4];
    let mut buf = Cursor::new(&attr_data);
    assert!(matches!(read_attribute(&mut buf, &caps), Err(Error::UnexpectedEof)));
    assert_eq!(buf.position(), 2);
}

fn limited(bytes: &[u8], code: u8, length: u16) -> (Result<PathAttribute, Error>, usize) {
    let mut cursor = Cursor::new(bytes);
    let mut stream = ReadCountingStream::new(&mut cursor, bytes.len()).unwrap();
    let r = PathAttribute::parse_limited(&mut stream, &Capabilities::default(), 0, code, length);
    (r, bytes.len() - stream.remaining())
}

#[test]
fn values_cut_short_are_read_up_to_their_last_whole_field() {
    // An AGGREGATOR whose AS number is there and whose address is not.
    let (r, at) = limited(&[0, 0, 0xfd, 0xe8, 10, 0], 7, 8);
    assert_eq!(r.unwrap_err(), Error::MalformedAttribute);
    assert_eq!(at, 4);
    let (r, at) = limited(&[0xfd, 0xe8, 10, 0], 7, 6);
    assert_eq!(r.unwrap_err(), Error::MalformedAttribute);
    assert_eq!(at, 2);
    let (r, at) = limited(&[0xfd], 7, 6);
    assert_eq!(r.unwrap_err(), Error::MalformedAttribute);
    assert_eq!(at, 0);
    // DPA, AS4_AGGREGATOR and AS_PATHLIMIT without their second field.
    let (r, at) = limited(&[0, 1, 0], 11, 6);
    assert_eq!(r.unwrap_err(), Error::MalformedAttribute);
    assert_eq!(at, 2);
    let (r, at) = limited(&[0, 0, 0, 1, 10, 0, 0], 18, 8);
    assert_eq!(r.unwrap_err(), Error::MalformedAttribute);
    assert_eq!(at, 4);
    let (r, at) = limited(&[5, 0, 0], 21, 5);
    assert_eq!(r.unwrap_err(), Error::MalformedAttribute);
    assert_eq!(at, 1);
    // An IPv6-specific extended community that ends within its address.
    let (r, at) = limited(&[0, 2, 0x20, 1, 0, 0, 0, 0, 0, 0], 25, 20);
    assert_eq!(r.unwrap_err(), Error::MalformedAttribute);
    assert_eq!(at, 2);
    // And one whose local part is missing.
    let mut bytes = vec![0, 2];
    bytes.extend_from_slice(&[0; 16]);
    bytes.push(1);
    let (r, at) = limited(&bytes, 25, 20);
    assert_eq!(r.unwrap_err(), Error::MalformedAttribute);
    assert_eq!(at, 18);
    // PMSI tunnel without its label, tunnel encapsulation without its
    // length, AIGP without its length.
    let (r, at) = limited(&[1, 0, 0], 22, 9);
    assert_eq!(r.unwrap_err(), Error::MalformedAttribute);
    assert_eq!(at, 1);
    let (r, at) = limited(&[0, 1, 0], 23, 4);
    assert_eq!(r.unwrap_err(), Error::MalformedAttribute);
    assert_eq!(at, 2);
    let (r, at) = limited(&[1, 0], 26, 3);
    assert_eq!(r.unwrap_err(), Error::MalformedAttribute);
    assert_eq!(at, 1);
    // An AIGP with an inner length below its own header.
    let (r, at) = limited(&[1, 0, 2, 9, 9], 26, 5);
    assert_eq!(r.unwrap_err(), Error::MalformedAigp);
    assert_eq!(at, 3);
}

#[test]
fn lists_cut_short_are_read_up_to_their_last_whole_number() {
    // Two communities are declared, one and a half are there.
    let (r, at) = limited(&[0, 1, 0, 2, 0, 3], 8, 8);
    assert_eq!(r.unwrap_err(), Error::MalformedAttribute);
    assert_eq!(at, 4);
    let (r, at) = limited(&[0, 1, 0], 10, 4);
    assert_eq!(r.unwrap_err(), Error::MalformedAttribute);
    assert_eq!(at, 0);
    // An extended community of which seven bytes are there.
    let (r, at) = limited(&[0, 1, 2, 3, 4, 5, 6], 16, 8);
    assert_eq!(r.unwrap_err(), Error::MalformedAttribute);
    assert_eq!(at, 0);
    let (r, at) = limited(&[0, 1, 2, 3, 4, 5, 6, 7, 8, 9], 16, 16);
    assert_eq!(r.unwrap_err(), Error::MalformedAttribute);
    assert_eq!(at, 8);
    // A large community whose third part is missing.
    let (r, at) = limited(&[0, 0, 0, 1, 0, 0, 0, 2, 0, 0], 32, 12);
    assert_eq!(r.unwrap_err(), Error::MalformedAttribute);
    assert_eq!(at, 8);
    // Lists that are all there.
    let (r, at) = limited(&[0, 1, 0, 2, 0, 3, 0, 4], 8, 8);
    assert!(matches!(r, Ok(PathAttribute::COMMUNITY(v)) if v == vec![0x10002, 0x30004]));
    assert_eq!(at, 8);
}

#[test]
fn pmsi_tunnel_takes_the_bytes_it_declares() {
    // Flags, a label of four bytes, and four bytes of identifier.
    let (r, at) = limited(&[1, 0, 0, 0, 5, 9, 8, 7, 6], 22, 9);
    assert!(matches!(r, Ok(PathAttribute::PMSI_TUNNEL((1, 5, id))) if id == vec![9, 8, 7, 6]));
    assert_eq!(at, 9);
    // One without an identifier.
    let (r, at) = limited(&[1, 0, 0, 0, 5], 22, 5);
    assert!(matches!(r, Ok(PathAttribute::PMSI_TUNNEL((1, 5, id))) if id.is_empty()));
    assert_eq!(at, 5);
    // A declared length that does not hold flags and label.
    let (r, at) = limited(&[1, 0, 0, 0, 5], 22, 4);
    assert_eq!(r.unwrap_err(), Error::MalformedAttribute);
    assert_eq!(at, 5);
    // Within its frame.
    let attr_data: Vec<u8> = vec![0xc0, 22, 9, 1, 0, 0, 0, 5, 9, 8, 7, 6];
    let mut buf = Cursor::new(&attr_data);
    let attribute = PathAttribute::parse(&mut buf, &Capabilities::default()).unwrap();
    assert!(matches!(attribute, PathAttribute::PMSI_TUNNEL((1, 5, _))));
    assert_eq!(buf.position(), 12);
}

#[test]
fn both_aggregators_take_an_as_number_of_two_bytes_under_six() {
    let (r, at) = limited(&[0xfb, 0xff, 10, 0, 0, 1], 18, 6);
    assert!(matches!(
        r,
        Ok(PathAttribute::AS4_AGGREGATOR((0xfbff, Ipv4Addr { bits: 0x0a000001 })))
    ));
    assert_eq!(at, 6);
    let (r, at) = limited(&[0, 1, 0xfb, 0xff, 10, 0, 0, 1], 18, 8);
    assert!(matches!(
        r,
        Ok(PathAttribute::AS4_AGGREGATOR((0x1fbff, Ipv4Addr { bits: 0x0a000001 })))
    ));
    assert_eq!(at, 8);
    let (r, _) = limited(&[0xfb, 0xff, 10, 0, 0, 1], 7, 6);
    assert!(matches!(r, Ok(PathAttribute::AGGREGATOR((0xfbff, Ipv4Addr { bits: 0x0a000001 })))));
    // An aggregator that needs four bytes is written and read in four.
    let attribute = PathAttribute::AGGREGATOR((0x1fbff, Ipv4Addr { bits: 0x0a000001 }));
    attr_roundtrip(&attribute, &Capabilities::default());
}
