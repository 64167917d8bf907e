use bgp_rs::endian::{push_bytes, push_u128, push_u16, push_u32, push_u64, push_u8};
use bgp_rs::text::push_decimal;
use bgp_rs::util::{clear_trailing_bits, has_trailing_bits};
use bgp_rs::{
    Capabilities, Cursor, Error, FlowspecFilter, Header, Notification, Open, OpenCapability,
    OpenParameter, Prefix, ReadCountingStream, Reader, Update, AFI, SAFI,
};

#[test]
fn cursor_reads_big_endian() {
    let data: Vec<u8> = (1..=20).collect();
    let mut cursor = Cursor::new(&data);
    assert_eq!(cursor.read_u8(), Ok(0x01));
    assert_eq!(cursor.read_u16(), Ok(0x0203));
    assert_eq!(cursor.read_u24(), Ok(0x040506));
    assert_eq!(cursor.read_u32(), Ok(0x0708090a));
    assert_eq!(cursor.read_u64(), Ok(0x0b0c0d0e0f101112));
    assert_eq!(cursor.position(), 18);
    assert_eq!(cursor.remaining(), 2);
    assert_eq!(cursor.read_u32(), Err(Error::UnexpectedEof));
    assert_eq!(cursor.read_u24(), Err(Error::UnexpectedEof));
    assert_eq!(cursor.read_u64(), Err(Error::UnexpectedEof));
    assert_eq!(cursor.position(), 18);
    assert_eq!(cursor.read_exact(2).unwrap(), &[19, 20]);
    assert_eq!(cursor.read_u8(), Err(Error::UnexpectedEof));
    assert_eq!(cursor.read_exact(0).unwrap(), &[] as &[u8]);
    cursor.set_position(30);
    assert_eq!(cursor.remaining(), 0);
    assert_eq!(cursor.read_exact(0), Err(Error::UnexpectedEof));
    assert_eq!(cursor.get_ref(), &data[..]);
}

#[test]
fn counting_stream_reads_big_endian() {
    let data: Vec<u8> = (1..=32).collect();
    let mut cursor = Cursor::new(&data);
    let mut stream = ReadCountingStream::new(&mut cursor, 31).unwrap();
    assert_eq!(stream.read_u128(), Ok(0x0102030405060708090a0b0c0d0e0f10));
    assert_eq!(stream.read_u64(), Ok(0x1112131415161718));
    assert_eq!(stream.read_u32(), Ok(0x191a1b1c));
    assert_eq!(stream.read_u16(), Ok(0x1d1e));
    assert_eq!(stream.read_u16(), Err(Error::MalformedAttribute));
    assert_eq!(stream.read_u8(), Ok(0x1f));
    assert_eq!(stream.read_u128(), Err(Error::MalformedAttribute));
    assert_eq!(stream.read_u64(), Err(Error::MalformedAttribute));
    assert_eq!(cursor.position(), 31);
}

#[test]
fn values_are_written_big_endian() {
    let mut buf = vec![0xaa];
    push_u8(&mut buf, 1);
    push_u16(&mut buf, 0x0203);
    push_u32(&mut buf, 0x04050607);
    push_u64(&mut buf, 0x08090a0b0c0d0e0f);
    push_u128(&mut buf, 0x101112131415161718191a1b1c1d1e1f);
    push_bytes(&mut buf, &[0x20, 0x21]);
    let mut expected = vec![0xaa];
    expected.extend(1..=0x21u8);
    assert_eq!(buf, expected);
}

#[test]
fn family_codes() {
    let afis = [(AFI::IPV4, 1u16, "IPv4"), (AFI::IPV6, 2, "IPv6"), (AFI::L2VPN, 0x19, "L2VPN"), (AFI::BGPLS, 0x4004, "BGPLS")];
    for (afi, code, name) in afis {
        assert_eq!(afi.code(), code);
        assert_eq!(AFI::try_from(code), Ok(afi));
        assert_eq!(afi.to_string(), name);
    }
    assert_eq!(AFI::try_from(404), Err(Error::UnsupportedAfi(404)));
    assert_eq!(AFI::try_from(0), Err(Error::UnsupportedAfi(0)));
    let safis = [
        (SAFI::Unicast, 1u8, "Unicast"),
        (SAFI::Multicast, 2, "Multicast"),
        (SAFI::Mpls, 4, "MPLS"),
        (SAFI::MulticastVpn, 5, "Multicast VPN"),
        (SAFI::Vpls, 65, "VPLS"),
        (SAFI::Evpn, 70, "EVPN"),
        (SAFI::BgpLs, 71, "BGPLS"),
        (SAFI::BgpLsVpn, 72, "BGPLSVPN"),
        (SAFI::MplsVpn, 128, "MPLS VPN"),
        (SAFI::Rtc, 132, "RTC"),
        (SAFI::Flowspec, 133, "Flowspec"),
        (SAFI::FlowspecVPN, 134, "Flowspec VPN"),
    ];
    for (safi, code, name) in safis {
        assert_eq!(safi.code(), code);
        assert_eq!(SAFI::try_from(code), Ok(safi));
        assert_eq!(safi.to_string(), name);
    }
    assert_eq!(SAFI::try_from(250), Err(Error::UnsupportedSafi(250)));
    assert_eq!(AFI::IPV4.max_prefix_bits(), Some(32));
    assert_eq!(AFI::IPV6.max_prefix_bits(), Some(128));
    assert_eq!(AFI::L2VPN.max_prefix_bits(), None);
    assert_eq!(AFI::IPV4.empty_buffer(), vec![0; 4]);
    assert_eq!(AFI::IPV6.empty_buffer(), vec![0; 16]);
    assert_eq!(AFI::BGPLS.empty_buffer(), Vec::<u8>::new());
}

#[test]
fn notification_text() {
    assert_eq!(&(Notification::new(6, 3).to_string()), "Cease / 3 ");
    assert_eq!(&(Notification::new(9, 0).to_string()), "Major Code 9 / 0 ");
    assert_eq!(
        &(Notification::with_data(2, 1, b"Unsupported Capability".to_vec()).to_string()),
        "OPEN Message Error / 1 Unsupported Capability",
    );
    assert_eq!(Notification::new(1, 0).major(), "Message Header Error");
    assert_eq!(Notification::new(3, 0).major(), "UPDATE Message Error");
    assert_eq!(Notification::new(4, 0).major(), "Hold Timer Expired");
    assert_eq!(Notification::new(5, 0).major(), "Finite State Machine");
    assert_eq!(Notification::new(0, 0).major(), "Major Code 0");
    assert_eq!(Notification::new(255, 0).major(), "Major Code 255");
    assert_eq!(Notification::new(6, 200).minor(), "200");
    assert_eq!(Notification::new(6, 17).minor(), "17");
    assert_eq!(Notification::new(6, 3).message(), Some(String::new()));
    // Bytes that are no text give no message, and an empty one in the line.
    let odd = Notification::with_data(6, 3, vec![0xff, 0xfe]);
    assert_eq!(odd.message(), None);
    assert_eq!(odd.to_string(), "Cease / 3 ");
    let text = Notification::with_data(6, 3, "d\u{e9}j\u{e0}".as_bytes().to_vec());
    assert_eq!(text.message(), Some("d\u{e9}j\u{e0}".to_string()));
    assert_eq!(text.clone().data, text.data);
}

#[test]
fn decimal_text() {
    let mut out = String::from("n=");
    push_decimal(&mut out, 0);
    push_decimal(&mut out, 10);
    push_decimal(&mut out, 4294967295);
    assert_eq!(out, "n=0104294967295");
}

#[test]
fn bits_beyond_a_prefix() {
    assert!(!has_trailing_bits(0xff, 8));
    assert!(!has_trailing_bits(0xff, 0));
    assert!(has_trailing_bits(0x01, 7));
    assert!(!has_trailing_bits(0xfe, 7));
    assert!(has_trailing_bits(0x7f, 1));
    assert!(!has_trailing_bits(0x80, 17));
    assert!(has_trailing_bits(0xc0, 17));
    assert_eq!(clear_trailing_bits(0xff, 17), 0x80);
    assert_eq!(clear_trailing_bits(0xff, 16), 0xff);
    assert_eq!(clear_trailing_bits(0xff, 23), 0xfe);
    assert_eq!(clear_trailing_bits(0x41, 2), 0x40);
    assert_eq!(clear_trailing_bits(0x12, 0), 0x12);
}

#[test]
fn errors_that_report_malformed_input() {
    assert!(Error::MalformedMessage.is_malformed());
    assert!(Error::MalformedAttribute.is_malformed());
    assert!(Error::MalformedAsPath.is_malformed());
    assert!(Error::MalformedNlri.is_malformed());
    assert!(Error::MalformedAigp.is_malformed());
    assert!(!Error::UnexpectedEof.is_malformed());
    assert!(!Error::UnknownAttribute(3).is_malformed());
    assert!(Error::UnexpectedEof.is_eof());
    assert!(!Error::MalformedMessage.is_eof());
}

#[test]
fn failed_reads_leave_the_cursor_where_reading_stopped() {
    let caps = Capabilities::default();
    // The octets of the prefix are not all there: the length was read.
    let data = vec![0xaa, 24, 10, 10];
    let mut cursor = Cursor::new(&data);
    cursor.set_position(1);
    assert_eq!(Prefix::parse(&mut cursor, AFI::IPV4), Err(Error::UnexpectedEof));
    assert_eq!(cursor.position(), 2);

    // The second pair lacks its second value byte: the type, the first
    // pair and the second operator were read.
    let data = vec![3, 0x01, 6, 0x11, 1];
    let mut cursor = Cursor::new(&data);
    assert_eq!(FlowspecFilter::parse(&mut cursor, AFI::IPV4), Err(Error::UnexpectedEof));
    assert_eq!(cursor.position(), 4);
    let data = vec![13, 1, 1];
    let mut cursor = Cursor::new(&data);
    assert_eq!(
        FlowspecFilter::parse(&mut cursor, AFI::IPV4),
        Err(Error::UnsupportedFlowspecFilter(13))
    );
    assert_eq!(cursor.position(), 1);
    let data = vec![3, 0xb1, 0, 0];
    let mut cursor = Cursor::new(&data);
    assert_eq!(FlowspecFilter::parse(&mut cursor, AFI::IPV4), Err(Error::MalformedNlri));
    assert_eq!(cursor.position(), 2);

    // The parameters are declared longer than what follows: the ten
    // bytes before them were read.
    let data = vec![4, 0xfd, 0xe8, 0, 0x3c, 1, 1, 1, 1, 5, 2, 6, 1, 4];
    let mut cursor = Cursor::new(&data);
    assert!(matches!(Open::parse(&mut cursor), Err(Error::InvalidParameterLength)));
    assert_eq!(cursor.position(), 10);
    let data = vec![4, 0xfd, 0xe8, 0, 0x3c, 1, 1];
    let mut cursor = Cursor::new(&data);
    assert!(matches!(Open::parse(&mut cursor), Err(Error::UnexpectedEof)));
    assert_eq!(cursor.position(), 5);
    // A parameter that fails to read: the parameters were taken whole.
    let data = vec![4, 0xfd, 0xe8, 0, 0x3c, 1, 1, 1, 1, 4, 2, 6, 1, 4, 9];
    let mut cursor = Cursor::new(&data);
    assert!(matches!(Open::parse(&mut cursor), Err(Error::InvalidParameterLength)));
    assert_eq!(cursor.position(), 14);

    // A capability that does not decode: the parameter was taken whole.
    let data = vec![2, 6, 1, 4, 0, 9, 0, 1, 7];
    let mut cursor = Cursor::new(&data);
    assert_eq!(OpenParameter::parse(&mut cursor), Err(Error::UnsupportedAfi(9)));
    assert_eq!(cursor.position(), 8);
    let data = vec![1, 3, 0, 1, 0];
    let mut cursor = Cursor::new(&data);
    assert_eq!(OpenCapability::parse(&mut cursor), Err(Error::InvalidCapabilityLength(1)));
    assert_eq!(cursor.position(), 2);

    let header = Header { marker: [0xff; 16], length: 30, record_type: 3 };
    let data = vec![6, 3, 1];
    let mut cursor = Cursor::new(&data);
    assert!(matches!(Notification::parse(&header, &mut cursor), Err(Error::UnexpectedEof)));
    assert_eq!(cursor.position(), 2);

    // The attributes are cut short: their section was taken whole.
    let header = Header { marker: [0xff; 16], length: 28, record_type: 2 };
    let data = vec![0, 0, 0, 5, 0x40, 1, 1, 0, 0x40, 9];
    let mut cursor = Cursor::new(&data);
    assert!(matches!(Update::parse(&header, &mut cursor, &caps), Err(Error::UnexpectedEof)));
    assert_eq!(cursor.position(), 9);
    let header = Header { marker: [0xff; 16], length: 22, record_type: 2 };
    let mut cursor = Cursor::new(&data);
    assert!(matches!(Update::parse(&header, &mut cursor, &caps), Err(Error::MalformedMessage)));
    assert_eq!(cursor.position(), 0);

    let data = vec![0xff; 17];
    let mut cursor = Cursor::new(&data);
    assert!(matches!(Header::parse(&mut cursor), Err(Error::UnexpectedEof)));
    assert_eq!(cursor.position(), 16);

    let mut data = vec![0xff; 16];
    data.extend_from_slice(&[0, 19, 4]);
    data.extend_from_slice(&[0xff; 16]);
    data.extend_from_slice(&[0, 23, 5, 0, 9, 0, 1]);
    data.extend_from_slice(&[0xff; 16]);
    data.extend_from_slice(&[0, 19, 9]);
    let mut reader = Reader::new(Cursor::new(&data));
    assert!(reader.read().is_ok());
    // The family code was read and refused.
    assert!(matches!(reader.read(), Err(Error::UnsupportedAfi(9))));
    assert_eq!(reader.stream.position(), 19 + 19 + 2);
    reader.stream.set_position(19 + 23);
    assert!(matches!(reader.read(), Err(Error::UnknownMessageType(9))));
    assert_eq!(reader.stream.position(), 19 + 23 + 19);
}
