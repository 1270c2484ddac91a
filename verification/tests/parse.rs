use linkframe::errors::ParseError;
use linkframe::ipaddr::IpAddress;
use linkframe::macaddr::MacAddress;

#[test]
fn mac_format_normalizes_case_and_padding() {
    let parsed = MacAddress::from_str("AA:B:0:1:FF:0c").unwrap();
    assert_eq!(parsed.format(), "aa:0b:00:01:ff:0c");
}

#[test]
fn mac_format_then_parse_is_identity() {
    let a = MacAddress::from([0x00, 0x1a, 0xff, 0x07, 0x80, 0x5e]);
    let text = a.format();
    let b = MacAddress::from_str(text.as_str()).unwrap();
    assert_eq!(a, b);
}

#[test]
fn mac_parse_rejects_malformed_groups() {
    assert_eq!(MacAddress::from_str(""), Err(ParseError::MalformedGroup));
    assert_eq!(MacAddress::from_str("aa:bb:cc:dd:ee:"), Err(ParseError::MalformedGroup));
    assert_eq!(MacAddress::from_str("aa::cc:dd:ee:ff"), Err(ParseError::MalformedGroup));
    assert_eq!(MacAddress::from_str("zz:bb:cc:dd:ee:ff"), Err(ParseError::MalformedGroup));
    assert_eq!(MacAddress::from_str("aaa:bb:cc:dd:ee:ff"), Err(ParseError::MalformedGroup));
    assert_eq!(MacAddress::from_str("aa.bb.cc.dd.ee.ff"), Err(ParseError::MalformedGroup));
}

#[test]
fn mac_parse_rejects_wrong_group_count() {
    assert_eq!(MacAddress::from_str("aa:bb:cc:dd:ee"), Err(ParseError::WrongGroupCount));
    assert_eq!(MacAddress::from_str("aa:bb:cc:dd:ee:ff:00"), Err(ParseError::WrongGroupCount));
    assert_eq!(MacAddress::from_str("ff"), Err(ParseError::WrongGroupCount));
    assert_eq!(MacAddress::from_str("aabbccddeeff"), Err(ParseError::MalformedGroup));
}

#[test]
fn mac_from_bytes_rejects_short_slices() {
    let bytes = [1u8, 2, 3, 4, 5];
    assert_eq!(MacAddress::from_bytes(&bytes), Err(ParseError::TooFewBytes));
    let longer = [1u8, 2, 3, 4, 5, 6, 7, 8];
    let a = MacAddress::from_bytes(&longer).unwrap();
    assert_eq!(a.format(), "01:02:03:04:05:06");
}

#[test]
fn mac_broadcast_only_for_all_ff() {
    assert!(MacAddress::from([0xff; 6]).is_broadcast());
    let samples: [[u8; 6]; 5] = [
        [0x00, 0x00, 0x00, 0x00, 0x00, 0x00],
        [0xff, 0xff, 0xff, 0xff, 0xff, 0xfe],
        [0x7f, 0xff, 0xff, 0xff, 0xff, 0xff],
        [0x12, 0x34, 0x56, 0x78, 0x9a, 0xbc],
        [0xff, 0x00, 0xff, 0x00, 0xff, 0x00],
    ];
    for s in samples.iter() {
        assert!(!MacAddress::from(*s).is_broadcast());
    }
}

#[test]
fn ip_format_then_parse_is_identity() {
    let a = IpAddress::from([0, 255, 10, 1]);
    let text = a.format();
    assert_eq!(text, "0.255.10.1");
    let b = IpAddress::from_str(text.as_str()).unwrap();
    assert_eq!(a, b);
}

#[test]
fn ip_parse_reproduces_canonical_text() {
    for s in ["0.0.0.0", "1.2.3.40", "255.255.255.255", "192.168.10.9"] {
        let a = IpAddress::from_str(s).unwrap();
        assert_eq!(a.format(), s);
    }
}

#[test]
fn ip_parse_accepts_leading_zeros_but_formats_plainly() {
    let a = IpAddress::from_str("127.0.0.01").unwrap();
    assert_eq!(a.format(), "127.0.0.1");
}

#[test]
fn ip_parse_rejects_malformed_groups() {
    assert_eq!(IpAddress::from_str(""), Err(ParseError::MalformedGroup));
    assert_eq!(IpAddress::from_str("256.0.0.1"), Err(ParseError::MalformedGroup));
    assert_eq!(IpAddress::from_str("1.2..3"), Err(ParseError::MalformedGroup));
    assert_eq!(IpAddress::from_str("1.2.3.a"), Err(ParseError::MalformedGroup));
    assert_eq!(IpAddress::from_str("1.2.3.4."), Err(ParseError::MalformedGroup));
}

#[test]
fn ip_parse_rejects_wrong_group_count() {
    assert_eq!(IpAddress::from_str("1.2.3"), Err(ParseError::WrongGroupCount));
    assert_eq!(IpAddress::from_str("1.2.3.4.5"), Err(ParseError::WrongGroupCount));
}

#[test]
fn ip_from_bytes_rejects_short_slices() {
    let bytes = [9u8, 9, 9];
    assert_eq!(IpAddress::from_bytes(&bytes), Err(ParseError::TooFewBytes));
    let longer = [10u8, 0, 0, 7, 99];
    let a = IpAddress::from_bytes(&longer).unwrap();
    assert_eq!(a.format(), "10.0.0.7");
}

#[test]
fn ip_broadcast_only_for_all_ff() {
    assert!(IpAddress::from([255, 255, 255, 255]).is_broadcast());
    let samples: [[u8; 4]; 5] = [
        [0, 0, 0, 0],
        [255, 255, 255, 254],
        [127, 255, 255, 255],
        [10, 20, 30, 40],
        [255, 0, 255, 0],
    ];
    for s in samples.iter() {
        assert!(!IpAddress::from(*s).is_broadcast());
    }
}
