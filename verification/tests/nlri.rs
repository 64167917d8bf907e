use bgp_rs::update::nlri::{
    parse_flowspec, parse_l2vpn, parse_mpls, parse_mplsvpn, parse_nlri, parse_unicast,
};
use bgp_rs::{
    Capabilities, Cursor, Error, FlowspecFilter, MPReachNLRI, MPUnreachNLRI, NLRIEncoding, Prefix,
    ReadCountingStream, AFI, SAFI,
};

#[test]
fn test_parse_nlri_ip_add_path() {
    let data = vec![0, 0, 0, 10, 17, 10, 10, 128];
    let mut nlri_data = Cursor::new(&data);

    let capabilities = Capabilities {
        EXTENDED_PATH_NLRI_SUPPORT: true,
        ..Capabilities::default()
    };
    let result = parse_nlri(AFI::IPV4, SAFI::Unicast, &capabilities, &mut nlri_data, 8).unwrap();

    assert!(matches!(
        &result[0],
        NLRIEncoding::IP_WITH_PATH_ID((_prefix, _pathid))
    ));
}

#[test]
fn test_parse_nlri_mpls_add_path() {
    let data = vec![0, 0, 0, 10, 41, 0, 0, 0, 10, 10, 128];
    let mut nlri_data = Cursor::new(&data);

    let capabilities = Capabilities {
        EXTENDED_PATH_NLRI_SUPPORT: true,
        ..Capabilities::default()
    };
    let result = parse_nlri(AFI::IPV4, SAFI::Mpls, &capabilities, &mut nlri_data, 11).unwrap();

    assert!(matches!(
        &result[0],
        NLRIEncoding::IP_MPLS_WITH_PATH_ID((_prefix, _label, _pathid))
    ));
}

#[test]
fn test_parse_nlri_mpls() {
    let data = vec![41, 0, 0, 0, 10, 10, 128];
    let mut nlri_data = Cursor::new(&data);

    let capabilities = Capabilities {
        EXTENDED_PATH_NLRI_SUPPORT: true,
        ..Capabilities::default()
    };
    let result = parse_nlri(AFI::IPV4, SAFI::Mpls, &capabilities, &mut nlri_data, 7).unwrap();

    assert!(matches!(
        &result[0],
        NLRIEncoding::IP_MPLS((_prefix, _label))
    ));
}

#[test]
fn test_parse_l2vpn() {
    let data = vec![
        19, 0, 0, 0, 0, 0, 0, 0, 100, 0, 10, 0, 10, 0, 10, 0, 0, 0, 0,
    ];
    let mut nlri_data = Cursor::new(&data);

    let result = parse_l2vpn(&mut nlri_data).unwrap();
    assert!(matches!(&result[0], NLRIEncoding::L2VPN(_)));
}

#[test]
fn test_parse_nlri_flowspec() {
    // FlowspecFilter::Prefix redirect
    let data = vec![
        0x26, 0x01, 0x80, 0x00, 0x30, 0x01, 0x00, 0x99, 0x00, 0x0b, 0x00, 0x00, 0x00, 0x00, 0x00,
        0x00, 0x00, 0x00, 0x00, 0x10, 0x02, 0x80, 0x00, 0x30, 0x01, 0x00, 0x99, 0x00, 0x0a, 0x00,
        0x00, 0x00, 0x00, 0x00, 0x00, 0x00, 0x00, 0x00, 0x10,
    ];
    let mut nlri_data = Cursor::new(&data);

    let capabilities = Capabilities::default();
    let result = parse_nlri(AFI::IPV6, SAFI::Flowspec, &capabilities, &mut nlri_data, 39).unwrap();

    assert!(matches!(&result[0], NLRIEncoding::FLOWSPEC(_filters)));
}

#[test]
fn labeled_routes_hold_their_values() {
    let data = vec![0, 0, 0, 10, 41, 0, 0, 0, 10, 10, 128];
    let mut cursor = Cursor::new(&data);
    assert_eq!(
        parse_mpls(AFI::IPV4, &mut cursor).unwrap(),
        NLRIEncoding::IP_MPLS_WITH_PATH_ID((Prefix::new(AFI::IPV4, 17, vec![10, 10, 128, 0]), 0, 10))
    );
    assert_eq!(cursor.position(), 11);
    let data = vec![41, 0, 0, 0, 10, 10, 128];
    let mut cursor = Cursor::new(&data);
    assert_eq!(
        parse_mpls(AFI::IPV4, &mut cursor).unwrap(),
        NLRIEncoding::IP_MPLS((Prefix::new(AFI::IPV4, 17, vec![10, 10, 128, 0]), 0))
    );
    let data = vec![
        112, 0, 0, 1, 0, 0, 0, 100, 0, 0, 0, 7, 192, 168, 1,
    ];
    let mut cursor = Cursor::new(&data);
    assert_eq!(
        parse_mplsvpn(AFI::IPV4, &mut cursor).unwrap(),
        NLRIEncoding::IP_VPN_MPLS((
            (100u64 << 32) | 7,
            Prefix::new(AFI::IPV4, 24, vec![192, 168, 1, 0]),
            0
        ))
    );
    assert_eq!(cursor.position(), 15);
    let data = vec![
        0, 19, 0, 0, 0, 1, 0, 0, 0, 100, 0, 10, 0, 11, 0, 12, 1, 2, 3,
    ];
    let mut cursor = Cursor::new(&data);
    assert_eq!(
        parse_l2vpn(&mut cursor).unwrap(),
        vec![NLRIEncoding::L2VPN(((1u64 << 32) | 100, 10, 11, 12, 0x010203))]
    );
}

#[test]
fn labeled_routes_that_cannot_be_are_malformed() {
    for bits in [0u8, 1, 16, 23] {
        let data = vec![bits, 0, 0, 0, 10, 10, 128];
        let mut cursor = Cursor::new(&data);
        assert_eq!(parse_mpls(AFI::IPV4, &mut cursor), Err(Error::MalformedNlri));
    }
    // 24 + 40 bits do not fit an IPv4 address.
    let data = vec![64, 0, 0, 0, 10, 10, 128, 1, 1];
    let mut cursor = Cursor::new(&data);
    assert_eq!(parse_mpls(AFI::IPV4, &mut cursor), Err(Error::MalformedNlri));
    let data = vec![41, 0, 0, 0, 10, 10];
    let mut cursor = Cursor::new(&data);
    assert_eq!(parse_mpls(AFI::IPV4, &mut cursor), Err(Error::UnexpectedEof));
    let data = vec![41, 0, 0, 0, 10, 10, 128];
    let mut cursor = Cursor::new(&data);
    assert_eq!(parse_mpls(AFI::L2VPN, &mut cursor), Err(Error::UnsupportedAfi(0x19)));
    let data = vec![87, 0, 0, 1, 0, 0, 0, 100, 0, 0, 0, 7];
    let mut cursor = Cursor::new(&data);
    assert_eq!(parse_mplsvpn(AFI::IPV4, &mut cursor), Err(Error::MalformedNlri));
    let data = vec![0, 0, 0, 1, 0, 0, 0, 100, 0, 0, 0, 7];
    let mut cursor = Cursor::new(&data);
    assert_eq!(parse_mplsvpn(AFI::IPV4, &mut cursor), Err(Error::MalformedNlri));
    let data = vec![88, 0, 0, 1, 0, 0, 0, 100, 0, 0, 0];
    let mut cursor = Cursor::new(&data);
    assert_eq!(parse_mplsvpn(AFI::IPV4, &mut cursor), Err(Error::UnexpectedEof));
    let data = vec![0, 19, 0];
    let mut cursor = Cursor::new(&data);
    assert_eq!(parse_l2vpn(&mut cursor), Err(Error::UnexpectedEof));
}

#[test]
fn plain_routes_with_and_without_identifiers() {
    let data = vec![0, 0, 0, 1, 32, 5, 5, 5, 5, 0, 0, 0, 1, 32, 192, 168, 1, 5];
    let mut cursor = Cursor::new(&data);
    let routes =
        parse_nlri(AFI::IPV4, SAFI::Unicast, &Capabilities::default(), &mut cursor, 18).unwrap();
    assert_eq!(
        routes,
        vec![
            NLRIEncoding::IP_WITH_PATH_ID((Prefix::new(AFI::IPV4, 32, vec![5, 5, 5, 5]), 1)),
            NLRIEncoding::IP_WITH_PATH_ID((Prefix::new(AFI::IPV4, 32, vec![192, 168, 1, 5]), 1)),
        ]
    );
    let data = vec![24, 172, 17, 2, 24, 172, 17, 1, 0];
    let mut cursor = Cursor::new(&data);
    let routes =
        parse_nlri(AFI::IPV4, SAFI::Multicast, &Capabilities::default(), &mut cursor, 9).unwrap();
    assert_eq!(
        routes,
        vec![
            NLRIEncoding::IP(Prefix::new(AFI::IPV4, 24, vec![172, 17, 2])),
            NLRIEncoding::IP(Prefix::new(AFI::IPV4, 24, vec![172, 17, 1])),
            NLRIEncoding::IP(Prefix::new(AFI::IPV4, 0, vec![])),
        ]
    );
    let mut cursor = Cursor::new(&data);
    assert_eq!(
        parse_unicast(&mut cursor, AFI::IPV4, false).unwrap(),
        NLRIEncoding::IP(Prefix::new(AFI::IPV4, 24, vec![172, 17, 2]))
    );
    assert_eq!(cursor.position(), 4);
    let mut cursor = Cursor::new(&data);
    assert_eq!(
        parse_unicast(&mut cursor, AFI::IPV4, true).unwrap(),
        NLRIEncoding::IP_WITH_PATH_ID((Prefix::new(AFI::IPV4, 24, vec![172, 17, 1]), 0x18ac1102))
    );
    let mut cursor = Cursor::new(&data);
    assert_eq!(
        parse_nlri(AFI::IPV4, SAFI::FlowspecVPN, &Capabilities::default(), &mut cursor, 9),
        Err(Error::UnsupportedSafi(134))
    );
    let mut cursor = Cursor::new(&data);
    assert_eq!(
        parse_nlri(AFI::IPV4, SAFI::FlowspecVPN, &Capabilities::default(), &mut cursor, 0),
        Ok(vec![])
    );
}

#[test]
fn flowspec_is_held_to_its_length() {
    // The length says five bytes, the one filter takes three.
    let data = vec![5, 3, 0x81, 6, 3, 0x81];
    let mut cursor = Cursor::new(&data);
    assert_eq!(parse_flowspec(AFI::IPV4, &mut cursor), Err(Error::UnexpectedEof));
    let data = vec![3, 3, 0x81, 6, 0xff];
    let mut cursor = Cursor::new(&data);
    match parse_flowspec(AFI::IPV4, &mut cursor).unwrap() {
        NLRIEncoding::FLOWSPEC(filters) => {
            assert_eq!(filters.len(), 1);
            assert!(matches!(filters[0], FlowspecFilter::IpProtocol(_)));
        },
        other => panic!("unexpected {:?}", other),
    }
    assert_eq!(cursor.position(), 4);
    let data = vec![9, 3, 0x81];
    let mut cursor = Cursor::new(&data);
    assert_eq!(parse_flowspec(AFI::IPV4, &mut cursor), Err(Error::UnexpectedEof));
}

#[test]
fn families_of_routes() {
    let v4 = NLRIEncoding::IP(Prefix::new(AFI::IPV4, 8, vec![10]));
    let v6 = NLRIEncoding::IP(Prefix::new(AFI::IPV6, 8, vec![0x20]));
    let flow = NLRIEncoding::FLOWSPEC(vec![]);
    assert!(v4.is_ipv4());
    assert!(!v6.is_ipv4());
    assert!(!flow.is_ipv4());
    assert!(!NLRIEncoding::IP_WITH_PATH_ID((Prefix::new(AFI::IPV4, 8, vec![10]), 1)).is_ipv4());
    assert_eq!(v4.afi(), AFI::IPV4);
    assert_eq!(v6.afi(), AFI::IPV6);
    assert_eq!(flow.afi(), AFI::IPV4);
    assert_eq!(v6.safi(), SAFI::Unicast);
    assert_eq!(flow.safi(), SAFI::Flowspec);
    assert_eq!(v6.clone(), v6);
}

#[test]
fn routes_without_a_wire_form_are_refused() {
    let mut bytes = vec![1];
    let prefix = Prefix::new(AFI::IPV4, 8, vec![10]);
    assert_eq!(
        NLRIEncoding::IP_MPLS((prefix.clone(), 3)).encode(&mut bytes),
        Err(Error::UnsupportedEncoding)
    );
    assert_eq!(
        NLRIEncoding::L2VPN((1, 2, 3, 4, 5)).encode(&mut bytes),
        Err(Error::UnsupportedEncoding)
    );
    assert_eq!(
        NLRIEncoding::IP(Prefix::new(AFI::IPV4, 32, vec![10])).encode(&mut bytes),
        Err(Error::UnsupportedEncoding)
    );
    let mut filters = vec![];
    for _ in 0..86 {
        filters.push(FlowspecFilter::IpProtocol(vec![(bgp_rs::NumericOperator::new(1), 6)]));
    }
    assert_eq!(NLRIEncoding::FLOWSPEC(filters).encode(&mut bytes), Err(Error::EncodeOverflow));
    assert_eq!(bytes, vec![1]);
    NLRIEncoding::IP_VPN_MPLS((0x0102030405060708, prefix.clone(), 0x0a0b0c0d))
        .encode(&mut bytes)
        .unwrap();
    assert_eq!(bytes, vec![1, 10, 11, 12, 13, 1, 2, 3, 4, 5, 6, 7, 8, 10]);
    let mut bytes = vec![];
    NLRIEncoding::IP_WITH_PATH_ID((prefix, 0x01020304)).encode(&mut bytes).unwrap();
    assert_eq!(bytes, vec![1, 2, 3, 4, 8, 10]);
}

fn reach(bytes: &[u8], length: u16) -> Result<MPReachNLRI, Error> {
    let mut cursor = Cursor::new(bytes);
    let mut stream = ReadCountingStream::new(&mut cursor, bytes.len()).unwrap();
    MPReachNLRI::parse(&mut stream, length, &Capabilities::default())
}

fn unreach(bytes: &[u8], length: u16) -> Result<MPUnreachNLRI, Error> {
    let mut cursor = Cursor::new(bytes);
    let mut stream = ReadCountingStream::new(&mut cursor, bytes.len()).unwrap();
    MPUnreachNLRI::parse(&mut stream, length, &Capabilities::default())
}

#[test]
fn multiprotocol_attributes() {
    let bytes = [0, 2, 1, 2, 0xfe, 0x80, 0, 64, 0x20, 1, 0x0d, 0xb8, 0, 0, 0, 1];
    let m = reach(&bytes, 16).unwrap();
    assert_eq!(m.afi, AFI::IPV6);
    assert_eq!(m.safi, SAFI::Unicast);
    assert_eq!(m.next_hop, vec![0xfe, 0x80]);
    assert_eq!(
        m.announced_routes,
        vec![NLRIEncoding::IP(Prefix::new(AFI::IPV6, 64, vec![0x20, 1, 0x0d, 0xb8, 0, 0, 0, 1]))]
    );
    let mut written = vec![];
    m.encode(&mut written).unwrap();
    assert_eq!(written, bytes.to_vec());
    assert_eq!(m.clone().announced_routes, m.announced_routes);

    let bytes = [0, 25, 65, 0, 0, 0, 19, 0, 0, 0, 1, 0, 0, 0, 100, 0, 10, 0, 11, 0, 12, 1, 2, 3];
    let m = reach(&bytes, 24).unwrap();
    assert_eq!(
        m.announced_routes,
        vec![NLRIEncoding::L2VPN(((1u64 << 32) | 100, 10, 11, 12, 0x010203))]
    );
    assert_eq!(reach(&[0x40, 4, 71, 0, 0], 5).unwrap_err(), Error::UnsupportedAfi(0x4004));
    assert_eq!(reach(&[0, 1, 1, 4, 1, 1, 1, 1, 0], 8).unwrap_err(), Error::MalformedAttribute);
    assert_eq!(reach(&[0, 1, 1, 4, 1, 1], 6).unwrap_err(), Error::MalformedAttribute);
    assert_eq!(reach(&[0, 1, 1, 0, 0, 24, 10], 7).unwrap_err(), Error::UnexpectedEof);
    assert_eq!(reach(&[0, 1, 1, 0, 0, 33, 1, 1, 1, 1, 1], 11).unwrap_err(), Error::MalformedNlri);

    let bytes = [0, 1, 1, 24, 10, 10, 10, 24, 20, 20, 20];
    let m = unreach(&bytes, 11).unwrap();
    assert_eq!(m.afi, AFI::IPV4);
    assert_eq!(m.withdrawn_routes.len(), 2);
    let mut written = vec![];
    m.encode(&mut written).unwrap();
    assert_eq!(written, bytes.to_vec());
    assert_eq!(m.clone().withdrawn_routes, m.withdrawn_routes);
    assert_eq!(unreach(&[0, 1, 1], 2).unwrap_err(), Error::MalformedAttribute);
    assert_eq!(unreach(&[0, 1], 3).unwrap_err(), Error::MalformedAttribute);
    assert_eq!(unreach(&[0, 25, 65, 8, 1], 5).unwrap_err(), Error::UnsupportedAfi(25));
    let long_hop = MPReachNLRI {
        afi: AFI::IPV4,
        safi: SAFI::Unicast,
        next_hop: vec![0; 256],
        announced_routes: vec![],
    };
    let mut written = vec![];
    assert_eq!(long_hop.encode(&mut written), Err(Error::EncodeOverflow));
    assert!(written.is_empty());
}

#[test]
fn records_cut_short_are_read_up_to_their_last_whole_field() {
    // The label is there, the route distinguisher is not.
    let data = vec![88, 0, 0, 1, 0, 0, 0, 100, 0, 0, 0];
    let mut cursor = Cursor::new(&data);
    assert_eq!(parse_mplsvpn(AFI::IPV4, &mut cursor), Err(Error::UnexpectedEof));
    assert_eq!(cursor.position(), 4);
    let data = vec![88, 0, 0];
    let mut cursor = Cursor::new(&data);
    assert_eq!(parse_mplsvpn(AFI::IPV4, &mut cursor), Err(Error::UnexpectedEof));
    assert_eq!(cursor.position(), 1);
    // A length below label and route distinguisher.
    let data = vec![87, 0, 0, 1, 0, 0, 0, 100, 0, 0, 0, 7];
    let mut cursor = Cursor::new(&data);
    assert_eq!(parse_mplsvpn(AFI::IPV4, &mut cursor), Err(Error::MalformedNlri));
    assert_eq!(cursor.position(), 1);
    // A VPLS record that ends within its route distinguisher, and one
    // that ends before its label block offset.
    let data = vec![0, 19, 0];
    let mut cursor = Cursor::new(&data);
    assert_eq!(parse_l2vpn(&mut cursor), Err(Error::UnexpectedEof));
    assert_eq!(cursor.position(), 2);
    let data = vec![0, 19, 0, 0, 0, 0, 0, 0, 0, 1, 0, 5, 0];
    let mut cursor = Cursor::new(&data);
    assert_eq!(parse_l2vpn(&mut cursor), Err(Error::UnexpectedEof));
    assert_eq!(cursor.position(), 12);
}

#[test]
fn next_hop_cut_short() {
    // Four bytes of next hop are declared, two are there.
    let bytes = [0, 1, 1, 4, 10, 0];
    let mut cursor = Cursor::new(&bytes);
    let mut stream = ReadCountingStream::new(&mut cursor, bytes.len()).unwrap();
    let r = MPReachNLRI::parse(&mut stream, 6, &Capabilities::default());
    assert_eq!(r.unwrap_err(), Error::MalformedAttribute);
    assert_eq!(stream.remaining(), 2);
    // The next hop is there, the reserved octet is not.
    let bytes = [0, 1, 1, 2, 10, 0];
    let mut cursor = Cursor::new(&bytes);
    let mut stream = ReadCountingStream::new(&mut cursor, bytes.len()).unwrap();
    let r = MPReachNLRI::parse(&mut stream, 6, &Capabilities::default());
    assert_eq!(r.unwrap_err(), Error::MalformedAttribute);
    assert_eq!(stream.remaining(), 0);
}
