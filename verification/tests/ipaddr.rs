use linkframe::ipaddr::IpAddress;

#[test]
fn ipaddr_test_from_str() {
    let addr = "127.0.0.1";
    let ip_addr = IpAddress::from_str(addr).unwrap();

    let result = ip_addr.format();
    assert_eq!(addr, result);
}

#[test]
fn test_from_4_bytes_array() {
    let addr = [127, 0, 0, 1];
    let ip_addr = IpAddress::from(addr);

    let expect = "127.0.0.1";
    let result = ip_addr.format();

    assert_eq!(expect, result);
}

#[test]
fn test_from_4_bytes_array_ref() {
    let addr = [127, 0, 0, 1];
    let ip_addr = IpAddress::from(&addr);

    let expect = "127.0.0.1";
    let result = ip_addr.format();
    assert_eq!(expect, result);
}

#[test]
fn test_from_array_ref() {
    let addr = vec![127, 0, 0, 1];
    let ip_addr = IpAddress::from_bytes(addr.as_slice()).unwrap();

    let expect = "127.0.0.1";
    let result = ip_addr.format();
    assert_eq!(expect, result);
}

#[test]
fn test_equal() {
    let addr1 = IpAddress::from_str("127.0.0.1").unwrap();
    let addr2 = IpAddress::from([127, 0, 0, 1]);
    let addr3 = IpAddress::from([127, 127, 127, 127]);

    assert_eq!(addr1 == addr2, true);
    assert_eq!(addr1 == addr3, false);
}

#[test]
fn ipaddr_test_is_broadcast() {
    let addr1 = IpAddress::from_str("127.0.0.1").unwrap();
    let addr2 = IpAddress::from_str("255.255.255.255").unwrap();

    assert_eq!(addr1.is_broadcast(), false);
    assert_eq!(addr2.is_broadcast(), true);
}
