use bgp_rs::update::flowspec::{into_num_op, value_display};
use bgp_rs::{
    BinaryOperator, Cursor, Error, FlowspecFilter, FragmentOperator, NumericOperator, Prefix, AFI,
};

fn filter_roundtrip(filter: &FlowspecFilter, afi: AFI) {
    let mut bytes = vec![];
    filter.encode(&mut bytes).unwrap();
    let mut buffer = Cursor::new(&bytes);
    let result = FlowspecFilter::parse(&mut buffer, afi).unwrap();
    // Now compare bytes for both:

    let cursor_depth = buffer.position();
    // Only take the bytes that were read
    let written_bytes = bytes[..cursor_depth].to_vec();
    let roundtrip_bytes = {
        let mut rb = vec![];
        result.encode(&mut rb).unwrap();
        rb
    };
    assert_eq!(written_bytes, roundtrip_bytes, "Error roundtripping: {:?}", filter);
}

fn eq() -> NumericOperator {
    NumericOperator::new(NumericOperator::EQ)
}

fn gt() -> NumericOperator {
    NumericOperator::new(NumericOperator::GT)
}

fn lt() -> NumericOperator {
    NumericOperator::new(NumericOperator::LT)
}

#[test]
fn test_filter_roundtrips() {
    let v4 = || Prefix::new(AFI::IPV4, 16, vec![192, 168, 0, 0]);
    let v6 = || {
        Prefix::new(AFI::IPV6, 64, vec![0x26, 0x20, 0, 0x10, 0, 0x20, 0, 0, 0, 0, 0, 0, 0, 0, 0, 0])
    };
    let filters = vec![
        FlowspecFilter::DestinationPrefix(v4()),
        FlowspecFilter::DestinationPrefix(v6()),
        FlowspecFilter::SourcePrefix(v4()),
        FlowspecFilter::SourcePrefix(v6()),
        FlowspecFilter::IpProtocol(vec![(eq(), 80), (eq(), 8080)]),
        FlowspecFilter::Port(vec![(gt(), 80), (lt(), 8080)]),
        FlowspecFilter::DestinationPort(vec![(eq(), 443)]),
        FlowspecFilter::SourcePort(vec![(eq(), 22)]),
        FlowspecFilter::IcmpType(vec![(eq(), 2), (eq(), 1)]),
        FlowspecFilter::IcmpCode(vec![(eq(), 2), (eq(), 1)]),
        FlowspecFilter::TcpFlags(vec![
            (BinaryOperator::new(BinaryOperator::MATCH), 2),
            (BinaryOperator::new(BinaryOperator::NOT), 8),
        ]),
        FlowspecFilter::PacketLength(vec![(lt(), 64), (gt(), 1500)]),
    ];

    for filter in filters {
        filter_roundtrip(&filter, AFI::IPV4);
    }
}

#[test]
fn filters_are_read_back_as_written() {
    let filters = vec![
        (FlowspecFilter::DestinationPrefix(Prefix::new(AFI::IPV4, 16, vec![192, 168])), AFI::IPV4),
        (FlowspecFilter::SourcePrefix(Prefix::new(AFI::IPV6, 17, vec![0x26, 0x20, 0x80])), AFI::IPV6),
        (
            FlowspecFilter::IpProtocol(vec![
                (NumericOperator::new(0x01), 6),
                (NumericOperator::new(0x11), 300),
                (NumericOperator::new(0xa1), 70000),
            ]),
            AFI::IPV4,
        ),
        (
            FlowspecFilter::TcpFlags(vec![
                (BinaryOperator::new(0x01), 2),
                (BinaryOperator::new(0x91), 0x0102),
            ]),
            AFI::IPV4,
        ),
        (FlowspecFilter::DSCP(vec![(NumericOperator::new(0x81), 46)]), AFI::IPV4),
        (
            FlowspecFilter::Fragment(vec![
                (FragmentOperator::new(0x01), 0),
                (FragmentOperator::new(0x88), 0),
            ]),
            AFI::IPV4,
        ),
    ];
    for (filter, afi) in filters {
        let mut bytes = vec![];
        filter.encode(&mut bytes).unwrap();
        let mut buffer = Cursor::new(&bytes);
        assert_eq!(FlowspecFilter::parse(&mut buffer, afi).unwrap(), filter);
        assert_eq!(buffer.position(), bytes.len());
        assert_eq!(filter.clone(), filter);
    }
}

#[test]
fn filter_codes() {
    let filters = vec![
        FlowspecFilter::DestinationPrefix(Prefix::new(AFI::IPV4, 0, vec![])),
        FlowspecFilter::SourcePrefix(Prefix::new(AFI::IPV4, 0, vec![])),
        FlowspecFilter::IpProtocol(vec![]),
        FlowspecFilter::Port(vec![]),
        FlowspecFilter::DestinationPort(vec![]),
        FlowspecFilter::SourcePort(vec![]),
        FlowspecFilter::IcmpType(vec![]),
        FlowspecFilter::IcmpCode(vec![]),
        FlowspecFilter::TcpFlags(vec![]),
        FlowspecFilter::PacketLength(vec![]),
        FlowspecFilter::DSCP(vec![]),
        FlowspecFilter::Fragment(vec![]),
    ];
    for (i, filter) in filters.iter().enumerate() {
        assert_eq!(filter.code() as usize, i + 1);
    }
}

#[test]
fn value_widths_are_the_smallest_that_fit() {
    let mut bytes = vec![];
    FlowspecFilter::PacketLength(vec![
        (NumericOperator::new(0xb3), 255),
        (NumericOperator::new(0x83), 256),
        (NumericOperator::new(0x03), 65535),
        (NumericOperator::new(0x03), 65536),
    ])
    .encode(&mut bytes)
    .unwrap();
    assert_eq!(
        bytes,
        vec![10, 0x03, 255, 0x13, 1, 0, 0x13, 255, 255, 0xa3, 0, 1, 0, 0]
    );
    let mut bytes = vec![];
    FlowspecFilter::TcpFlags(vec![
        (BinaryOperator::new(0x91), 255),
        (BinaryOperator::new(0x01), 256),
    ])
    .encode(&mut bytes)
    .unwrap();
    assert_eq!(bytes, vec![9, 0x01, 255, 0x91, 1, 0]);
    let mut bytes = vec![];
    FlowspecFilter::IcmpCode(vec![(NumericOperator::new(0xb1), 3)]).encode(&mut bytes).unwrap();
    assert_eq!(bytes, vec![8, 0x81, 3]);
}

#[test]
fn filter_errors() {
    let cases: Vec<(Vec<u8>, Error)> = vec![
        (vec![], Error::UnexpectedEof),
        (vec![0], Error::UnsupportedFlowspecFilter(0)),
        (vec![13, 1, 1], Error::UnsupportedFlowspecFilter(13)),
        (vec![1, 24, 10, 10], Error::UnexpectedEof),
        (vec![3], Error::UnexpectedEof),
        (vec![3, 0x01, 6], Error::UnexpectedEof),
        (vec![3, 0x91, 6], Error::UnexpectedEof),
        (vec![3, 0xb1, 0, 0, 0, 0, 0, 0, 0, 6], Error::MalformedNlri),
        (vec![7, 0x01], Error::UnexpectedEof),
        (vec![12, 0x01, 0], Error::UnexpectedEof),
    ];
    for (bytes, error) in cases {
        let mut buffer = Cursor::new(&bytes);
        assert_eq!(FlowspecFilter::parse(&mut buffer, AFI::IPV4), Err(error), "{:?}", bytes);
    }
    let mut bytes = vec![4];
    assert_eq!(
        FlowspecFilter::DestinationPrefix(Prefix::new(AFI::IPV4, 24, vec![10])).encode(&mut bytes),
        Err(Error::UnsupportedEncoding)
    );
    assert_eq!(bytes, vec![4]);
}

#[test]
fn filter_text() {
    assert_eq!(
        FlowspecFilter::DestinationPrefix(Prefix::new(AFI::IPV4, 32, vec![192, 168, 0, 1])).to_string(),
        "Dst 192.168.0.1/32"
    );
    assert_eq!(
        FlowspecFilter::SourcePrefix(Prefix::new(AFI::IPV4, 32, vec![10, 0, 0, 9])).to_string(),
        "Src 10.0.0.9/32"
    );
    assert_eq!(
        FlowspecFilter::Port(vec![(eq(), 80), (NumericOperator::new(0x45), 8080)]).to_string(),
        "Port =80, && <=8080"
    );
    assert_eq!(FlowspecFilter::IpProtocol(vec![(gt(), 6)]).to_string(), "Protocol >6");
    assert_eq!(FlowspecFilter::DestinationPort(vec![]).to_string(), "DstPort ");
    assert_eq!(FlowspecFilter::SourcePort(vec![(eq(), 22)]).to_string(), "SrcPort =22");
    assert_eq!(FlowspecFilter::PacketLength(vec![(lt(), 1500)]).to_string(), "Packet Length <1500");
    assert_eq!(FlowspecFilter::IcmpCode(vec![(eq(), 0)]).to_string(), "Icmp Code =0");
    assert_eq!(FlowspecFilter::IcmpType(vec![(eq(), 255)]).to_string(), "Icmp type =255");
    assert_eq!(FlowspecFilter::DSCP(vec![(eq(), 46)]).to_string(), "DSCP =46");
    assert_eq!(
        FlowspecFilter::TcpFlags(vec![(BinaryOperator::new(2), 0x12)]).to_string(),
        "TCP Flags !18"
    );
    assert_eq!(
        FlowspecFilter::Fragment(vec![(FragmentOperator::new(4), 0), (FragmentOperator::new(8), 0)])
            .to_string(),
        "Fragment First 0, Last 0"
    );
    assert_eq!(value_display("x", &vec![(eq(), 4000000000u32)]), "x =4000000000");
}

#[test]
fn raw_pairs_become_numeric_pairs() {
    assert_eq!(
        into_num_op(vec![(0x81u8, 7u32), (0x02, 9)]),
        vec![(NumericOperator::new(0x81), 7u32), (NumericOperator::new(0x02), 9)]
    );
    assert_eq!(into_num_op::<u8>(vec![]), vec![]);
}
