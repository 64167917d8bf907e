use bgp_rs::util::detect_add_path_prefix;
use bgp_rs::Cursor;

#[test]
fn test_with_path_id() {
    let nlri_data = vec![
        // 5.5.5.5/32 PathId 1
        0x00, 0x00, 0x00, 0x01, 0x20, 0x05, 0x05, 0x05, 0x05,
        // 192.168.1.5/32 PathId 1
        0x00, 0x00, 0x00, 0x01, 0x20, 0xc0, 0xa8, 0x01, 0x05,
    ];
    let mut buf = Cursor::new(&nlri_data);
    let add_path = detect_add_path_prefix(&mut buf, 255).expect("detecting add_path");
    assert!(add_path);
}

#[test]
fn test_without_path_id1() {
    let nlri_data = vec![
        // 172.17.2.0/24
        0x18, 0xac, 0x11, 0x02,
        // 172.17.1.0/24
        0x18, 0xac, 0x11, 0x01,
        // 172.17.0.0/24
        0x18, 0xac, 0x11, 0x00,

    ];
    let mut buf = Cursor::new(&nlri_data);
    let add_path = detect_add_path_prefix(&mut buf, 255).expect("detecting add_path");
    assert!(!add_path);
}

#[test]
fn test_without_path_id2() {
    let nlri_data = vec![
        // 172.17.2.0/24
        0x18, 0xac, 0x11, 0x02,
        // 172.17.1.0/24
        0x18, 0xac, 0x11, 0x01,

    ];
    let mut buf = Cursor::new(&nlri_data);
    let add_path = detect_add_path_prefix(&mut buf, 16).expect("detecting add_path");
    assert!(!add_path);
}

#[test]
fn detection_leaves_the_cursor_in_place() {
    let nlri_data = vec![0xaa, 0x00, 0x00, 0x00, 0x01, 0x20, 0x05, 0x05, 0x05, 0x05];
    let mut buf = Cursor::new(&nlri_data);
    buf.set_position(1);
    assert_eq!(detect_add_path_prefix(&mut buf, 32), Ok(true));
    assert_eq!(buf.position(), 1);
}

#[test]
fn detection_prefers_plain_when_both_readings_hold() {
    // One /0 prefix alone reads well without identifiers, and with them
    // there is no complete record to object to.
    let nlri_data = vec![0x00];
    let mut buf = Cursor::new(&nlri_data);
    assert_eq!(detect_add_path_prefix(&mut buf, 32), Ok(false));
    let empty: Vec<u8> = vec![];
    let mut buf = Cursor::new(&empty);
    assert_eq!(detect_add_path_prefix(&mut buf, 32), Ok(false));
}

#[test]
fn detection_refuses_identifiers_when_bits_trail_the_prefix() {
    // With identifiers the record would be 10.128.0.0/9 with a bit set
    // beyond the ninth; without them the bytes do not read either.
    let nlri_data = vec![0x00, 0x00, 0x00, 0x01, 0x09, 0x0a, 0xc0];
    let mut buf = Cursor::new(&nlri_data);
    assert_eq!(detect_add_path_prefix(&mut buf, 32), Ok(false));
    let nlri_data = vec![0x00, 0x00, 0x00, 0x01, 0x09, 0x0a, 0x80];
    let mut buf = Cursor::new(&nlri_data);
    assert_eq!(detect_add_path_prefix(&mut buf, 32), Ok(true));
}
