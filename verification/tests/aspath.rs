use bgp_rs::{ASPath, Capabilities, Cursor, Error, PathAttribute, ReadCountingStream, Segment};

#[test]
fn origin_of_a_path() {
    let aspath = ASPath {
        segments: vec![
            Segment::AS_SEQUENCE(vec![100, 200]),
            Segment::AS_SEQUENCE(vec![300, 400]),
        ],
    };
    assert_eq!(aspath.origin(), Some(400));

    let aspath = ASPath {
        segments: vec![Segment::AS_SET(vec![100, 200]), Segment::AS_SET(vec![300, 400])],
    };
    assert_eq!(aspath.origin(), None);
    assert_eq!(ASPath { segments: vec![] }.origin(), None);
    assert_eq!(ASPath { segments: vec![Segment::AS_SEQUENCE(vec![])] }.origin(), None);
    assert_eq!(
        ASPath { segments: vec![Segment::AS_SET(vec![1]), Segment::AS_SEQUENCE(vec![2])] }.origin(),
        Some(2)
    );
}

#[test]
fn four_byte_numbers_are_found() {
    let aspath = ASPath { segments: vec![Segment::AS_SEQUENCE(vec![100, 200])] };
    assert!(!aspath.has_4_byte_asns());
    let aspath = ASPath { segments: vec![Segment::AS_SEQUENCE(vec![90123000, 200])] };
    assert!(aspath.has_4_byte_asns());
    assert!(!Segment::AS_SET(vec![65535]).has_4_byte_asns());
    assert!(Segment::AS_SET(vec![1, 65536]).has_4_byte_asns());
    assert!(!ASPath { segments: vec![] }.has_4_byte_asns());
}

#[test]
fn sequence_of_a_path() {
    let aspath = ASPath {
        segments: vec![
            Segment::AS_SEQUENCE(vec![100, 200]),
            Segment::AS_SEQUENCE(vec![300, 400]),
        ],
    };
    assert_eq!(aspath.sequence(), Some(vec![100, 200, 300, 400]));

    let aspath = ASPath {
        segments: vec![Segment::AS_SET(vec![100, 200]), Segment::AS_SET(vec![300, 400])],
    };
    assert_eq!(aspath.sequence(), None);
    assert_eq!(ASPath { segments: vec![] }.sequence(), Some(vec![]));
}

fn parse_path(bytes: &[u8]) -> Result<Vec<Segment>, Error> {
    let mut cursor = Cursor::new(bytes);
    let mut stream = ReadCountingStream::new(&mut cursor, bytes.len()).unwrap();
    Segment::parse_unknown_segments(&mut stream, bytes.len() as u16)
}

#[test]
fn width_that_closes_is_chosen() {
    // Only the two-byte reading ends at the length.
    assert_eq!(
        parse_path(&[2, 2, 0, 100, 0, 200]).unwrap(),
        vec![Segment::AS_SEQUENCE(vec![100, 200])]
    );
    // Only the four-byte reading ends at the length.
    assert_eq!(
        parse_path(&[2, 1, 0, 1, 0, 0]).unwrap(),
        vec![Segment::AS_SEQUENCE(vec![65536])]
    );
    assert_eq!(
        parse_path(&[1, 2, 0, 0, 0, 100, 0, 0, 0, 200, 2, 1, 0, 3, 0, 0]).unwrap(),
        vec![Segment::AS_SET(vec![100, 200]), Segment::AS_SEQUENCE(vec![0x30000])]
    );
}

#[test]
fn four_bytes_are_chosen_where_both_widths_close() {
    // Two-byte reading: [0x0200, 0x0200] and two empty segments.
    // Four-byte reading: one segment of two numbers.
    assert_eq!(
        parse_path(&[2, 2, 2, 0, 2, 0, 2, 0, 2, 0]).unwrap(),
        vec![Segment::AS_SEQUENCE(vec![0x02000200, 0x02000200])]
    );
    assert_eq!(parse_path(&[]).unwrap(), vec![]);
    assert_eq!(parse_path(&[1, 0]).unwrap(), vec![Segment::AS_SET(vec![])]);
}

#[test]
fn path_that_closes_under_no_width_is_malformed() {
    assert_eq!(parse_path(&[2, 1, 0]), Err(Error::MalformedAsPath));
    assert_eq!(parse_path(&[2]), Err(Error::MalformedAsPath));
    // The walk closes, but the first segment is of no known type.
    assert_eq!(parse_path(&[3, 1, 0, 9]), Err(Error::MalformedAsPath));
    // A second segment of no known type stops the walk.
    assert_eq!(parse_path(&[2, 1, 0, 9, 7, 1, 0, 9]), Err(Error::MalformedAsPath));
}

#[test]
fn path_longer_than_its_window_is_refused() {
    let bytes = [2, 1, 0, 9];
    let mut cursor = Cursor::new(&bytes);
    let mut stream = ReadCountingStream::new(&mut cursor, 4).unwrap();
    assert_eq!(
        Segment::parse_unknown_segments(&mut stream, 6),
        Err(Error::MalformedAttribute)
    );
    let mut cursor = Cursor::new(&bytes);
    let mut stream = ReadCountingStream::new(&mut cursor, 4).unwrap();
    let path = ASPath::parse(&mut stream, 4, &Capabilities::default()).unwrap();
    assert_eq!(path.segments, vec![Segment::AS_SEQUENCE(vec![9])]);
}

#[test]
fn fixed_width_readers() {
    let bytes = [2, 2, 0, 100, 0, 200, 1, 1, 0, 7];
    let mut cursor = Cursor::new(&bytes);
    assert_eq!(
        Segment::parse_u16_segments(&mut cursor, 10).unwrap(),
        vec![Segment::AS_SEQUENCE(vec![100, 200]), Segment::AS_SET(vec![7])]
    );
    assert_eq!(cursor.position(), 10);
    let bytes = [2, 1, 0, 1, 0, 0];
    let mut cursor = Cursor::new(&bytes);
    assert_eq!(
        Segment::parse_u32_segments(&mut cursor, 6).unwrap(),
        vec![Segment::AS_SEQUENCE(vec![65536])]
    );
    let mut cursor = Cursor::new(&bytes);
    assert_eq!(Segment::parse_u32_segments(&mut cursor, 4), Err(Error::MalformedAsPath));
    let mut cursor = Cursor::new(&bytes);
    assert_eq!(Segment::parse_u16_segments(&mut cursor, 8), Err(Error::MalformedAsPath));
    let bytes = [2, 2, 0, 1];
    let mut cursor = Cursor::new(&bytes);
    assert_eq!(Segment::parse_u16_segments(&mut cursor, 6), Err(Error::UnexpectedEof));
    // The first of the two numbers was read.
    assert_eq!(cursor.position(), 4);
    let bytes = [2, 2, 0, 0, 0, 1, 0, 0, 0];
    let mut cursor = Cursor::new(&bytes);
    assert_eq!(Segment::parse_u32_segments(&mut cursor, 10), Err(Error::UnexpectedEof));
    assert_eq!(cursor.position(), 6);
    // A segment of a type that is none is refused after its numbers.
    let bytes = [3, 1, 0, 1, 9];
    let mut cursor = Cursor::new(&bytes);
    assert_eq!(Segment::parse_u16_segments(&mut cursor, 4), Err(Error::MalformedAsPath));
    assert_eq!(cursor.position(), 4);
}

#[test]
fn path_is_written_in_the_width_it_needs() {
    let path = ASPath {
        segments: vec![Segment::AS_SEQUENCE(vec![100, 200]), Segment::AS_SET(vec![300])],
    };
    let mut bytes = vec![];
    path.encode(&mut bytes).unwrap();
    assert_eq!(bytes, vec![2, 2, 0, 100, 0, 200, 1, 1, 1, 44]);
    let path = ASPath {
        segments: vec![Segment::AS_SEQUENCE(vec![100, 65536]), Segment::AS_SET(vec![300])],
    };
    let mut bytes = vec![];
    path.encode(&mut bytes).unwrap();
    assert_eq!(bytes, vec![2, 2, 0, 0, 0, 100, 0, 1, 0, 0, 1, 1, 0, 0, 1, 44]);
    let copy = PathAttribute::AS_PATH(path).clone();
    assert!(matches!(copy, PathAttribute::AS_PATH(_)));
}
