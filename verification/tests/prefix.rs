use bgp_rs::{Cursor, Error, Prefix, AFI};

#[test]
fn test_prefix_masked_octets() {
    let prefix = Prefix::new(AFI::IPV4, 32, vec![1, 1, 1, 1]);
    assert_eq!(prefix.masked_octets(), &[1, 1, 1, 1]);
    assert_eq!(&prefix.to_string(), "1.1.1.1/32");

    let prefix = Prefix::new(AFI::IPV4, 16, vec![1, 1, 1, 1]);
    assert_eq!(prefix.masked_octets(), &[1, 1]);
    assert_eq!(&prefix.to_string(), "1.1.1.1/16");

    let prefix = Prefix::new(AFI::IPV4, 18, vec![1, 1, 1, 1]);
    assert_eq!(prefix.masked_octets(), &[1, 1, 1]);
    assert_eq!(&prefix.to_string(), "1.1.1.1/18");
}

#[test]
fn test_prefix_bad_length() {
    let data = vec![35, 5, 5, 5, 5];
    let mut buf = Cursor::new(&data);
    assert!(Prefix::parse(&mut buf, AFI::IPV4).is_err());
    // Only the length octet was read.
    assert_eq!(buf.position(), 1);
    let data = vec![145, 48, 1, 0, 16, 0, 16, 0];
    let mut buf = Cursor::new(&data);
    assert!(Prefix::parse(&mut buf, AFI::IPV6).is_err());
    assert_eq!(buf.position(), 1);
}

#[test]
fn prefix_too_long_for_family_is_malformed() {
    let data = vec![33, 5, 5, 5, 5, 5];
    let mut buf = Cursor::new(&data);
    assert_eq!(Prefix::parse(&mut buf, AFI::IPV4), Err(Error::MalformedNlri));
    let data = vec![129];
    let mut buf = Cursor::new(&data);
    assert_eq!(Prefix::parse(&mut buf, AFI::IPV6), Err(Error::MalformedNlri));
}

#[test]
fn prefix_parse_reads_only_the_covered_octets() {
    let data = vec![17, 10, 10, 128, 99];
    let mut buf = Cursor::new(&data);
    let prefix = Prefix::parse(&mut buf, AFI::IPV4).unwrap();
    assert_eq!(prefix, Prefix::new(AFI::IPV4, 17, vec![10, 10, 128]));
    assert_eq!(buf.position(), 4);
    assert_eq!(prefix.address(), Some(vec![10, 10, 128, 0]));
    assert_eq!(prefix.octet_length(), 3);
}

#[test]
fn prefix_parse_errors() {
    let data: Vec<u8> = vec![];
    let mut buf = Cursor::new(&data);
    assert_eq!(Prefix::parse(&mut buf, AFI::IPV4), Err(Error::UnexpectedEof));
    let data = vec![24, 10, 10];
    let mut buf = Cursor::new(&data);
    assert_eq!(Prefix::parse(&mut buf, AFI::IPV4), Err(Error::UnexpectedEof));
    assert_eq!(buf.position(), 1);
    let data = vec![24, 10, 10, 10];
    let mut buf = Cursor::new(&data);
    assert_eq!(Prefix::parse(&mut buf, AFI::L2VPN), Err(Error::UnsupportedAfi(0x19)));
    assert_eq!(buf.position(), 1);
}

#[test]
fn prefix_text_of_both_families() {
    let prefix = Prefix::new(AFI::IPV4, 24, vec![192, 168, 1]);
    assert_eq!(prefix.to_string(), "192.168.1.0/24");
    let prefix = Prefix::new(AFI::IPV6, 16, vec![0x21, 0x00]);
    assert_eq!(prefix.to_string(), "2100::/16");
    let prefix = Prefix::new(
        AFI::IPV6,
        128,
        vec![0x30, 0x01, 0, 0x99, 0, 0x0b, 0, 0, 0, 0, 0, 0, 0, 0, 0, 0x10],
    );
    assert_eq!(prefix.to_string(), "3001:99:b::10/128");
    let prefix = Prefix::new(AFI::IPV6, 0, vec![]);
    assert_eq!(prefix.to_string(), "::/0");
    let prefix = Prefix::new(
        AFI::IPV6,
        128,
        vec![0x20, 0x01, 0x0d, 0xb8, 0, 0, 0, 1, 0, 1, 0, 0, 0, 0, 0, 1],
    );
    assert_eq!(prefix.to_string(), "2001:db8:0:1:1::1/128");
    let prefix = Prefix::new(
        AFI::IPV6,
        128,
        vec![0x20, 0x01, 0, 0, 0, 1, 0, 0, 0, 1, 0, 0, 0, 1, 0, 1],
    );
    assert_eq!(prefix.to_string(), "2001:0:1:0:1:0:1:1/128");
    let prefix = Prefix::new(
        AFI::IPV6,
        128,
        vec![0, 0, 0, 0, 0, 0, 0, 0, 0, 0, 0xff, 0xff, 192, 0, 2, 1],
    );
    assert_eq!(prefix.to_string(), "::ffff:192.0.2.1/128");
}

#[test]
fn prefix_without_its_octets_is_not_well_formed() {
    assert!(Prefix::new(AFI::IPV4, 32, vec![1, 1, 1, 1]).is_wf());
    assert!(!Prefix::new(AFI::IPV4, 32, vec![1, 1]).is_wf());
    assert!(Prefix::new(AFI::IPV4, 0, vec![]).is_wf());
}
