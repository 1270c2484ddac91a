use linkframe::errors::DecodeError;
use linkframe::frame::Frame;
use linkframe::macaddr::MacAddress;

#[test]
fn encode_concrete_frame_bytes() {
    let dest = MacAddress::from_str("aa:bb:cc:dd:ee:ff").unwrap();
    let src = MacAddress::from_str("11:22:33:44:55:66").unwrap();
    let frame = Frame::new(&dest, &src, 0x2333, &String::from("hi"), 0);
    let buffer = frame.to_buffer();
    let expected: Vec<u8> = vec![
        0xaa, 0xbb, 0xcc, 0xdd, 0xee, 0xff, 0x11, 0x22, 0x33, 0x44, 0x55, 0x66, 0x23, 0x33, 0x68,
        0x69, 0x00, 0x00, 0x00, 0x00,
    ];
    assert_eq!(buffer.len(), 20);
    assert_eq!(buffer, expected);

    let decoded = Frame::from_buffer(buffer.as_slice()).unwrap();
    assert_eq!(decoded.dest_mac, dest);
    assert_eq!(decoded.src_mac, src);
    assert_eq!(decoded.ethernet_type, 0x2333);
    assert_eq!(decoded.message, Some(String::from("hi")));
    assert_eq!(decoded.checksum, 0);
}

#[test]
fn encode_decode_roundtrip_ascii() {
    let dest = MacAddress::from([1, 2, 3, 4, 5, 6]);
    let src = MacAddress::from([9, 8, 7, 6, 5, 4]);
    let message = String::from("Hello, how are you? Greetting from veth0.");
    let frame = Frame::new(&dest, &src, 0x0800, &message, 0xdeadbeef);
    let buffer = frame.to_buffer();
    assert_eq!(buffer.len(), 18 + message.len());

    let decoded = Frame::from_buffer(buffer.as_slice()).unwrap();
    assert_eq!(decoded.dest_mac, dest);
    assert_eq!(decoded.src_mac, src);
    assert_eq!(decoded.ethernet_type, 0x0800);
    assert_eq!(decoded.message, Some(message));
    assert_eq!(decoded.checksum, 0xdeadbeef);
}

#[test]
fn encode_decode_roundtrip_multibyte_utf8() {
    let dest = MacAddress::from([0xff; 6]);
    let src = MacAddress::from([0; 6]);
    let message = String::from("héllo wörld — ≤ 5000 bytes ✓");
    let frame = Frame::new(&dest, &src, 0xffff, &message, u32::MAX);
    let buffer = frame.to_buffer();
    assert_eq!(buffer.len(), 18 + message.len());

    let decoded = Frame::from_buffer(buffer.as_slice()).unwrap();
    assert_eq!(decoded.message, Some(message));
    assert_eq!(decoded.ethernet_type, 0xffff);
    assert_eq!(decoded.checksum, u32::MAX);
}

#[test]
fn encode_decode_roundtrip_empty_payload() {
    let dest = MacAddress::from([1; 6]);
    let src = MacAddress::from([2; 6]);
    let frame = Frame::new(&dest, &src, 0x1234, &String::new(), 7);
    let buffer = frame.to_buffer();
    assert_eq!(buffer.len(), 18);

    let decoded = Frame::from_buffer(buffer.as_slice()).unwrap();
    assert_eq!(decoded.message, Some(String::new()));
    assert_eq!(decoded.checksum, 7);
}

#[test]
fn decode_rejects_short_buffers() {
    assert_eq!(Frame::from_buffer(&[]).unwrap_err(), DecodeError::TooShort);
    let seventeen = [0u8; 17];
    assert_eq!(Frame::from_buffer(&seventeen).unwrap_err(), DecodeError::TooShort);
}

#[test]
fn decode_minimum_buffer_has_empty_payload() {
    let mut buffer = vec![0u8; 18];
    buffer[12] = 0x23;
    buffer[13] = 0x33;
    let decoded = Frame::from_buffer(buffer.as_slice()).unwrap();
    assert_eq!(decoded.ethernet_type, 0x2333);
    assert_eq!(decoded.message, Some(String::new()));
    assert_eq!(decoded.checksum, 0);
}

#[test]
fn decode_invalid_utf8_payload_degrades_to_absent_message() {
    let mut buffer = vec![0u8; 19];
    buffer[14] = 0xff;
    let decoded = Frame::from_buffer(buffer.as_slice()).unwrap();
    assert_eq!(decoded.message, None);
    assert_eq!(decoded.checksum, 0);
}

#[test]
fn decode_reads_big_endian_fields_from_both_ends() {
    let mut buffer = vec![0u8; 22];
    for (i, b) in buffer.iter_mut().enumerate() {
        *b = i as u8;
    }
    let decoded = Frame::from_buffer(buffer.as_slice()).unwrap();
    assert_eq!(decoded.dest_mac, MacAddress::from([0, 1, 2, 3, 4, 5]));
    assert_eq!(decoded.src_mac, MacAddress::from([6, 7, 8, 9, 10, 11]));
    assert_eq!(decoded.ethernet_type, 0x0c0d);
    assert_eq!(decoded.message, Some(String::from_utf8(vec![14, 15, 16, 17]).unwrap()));
    assert_eq!(decoded.checksum, 0x12131415);
}
