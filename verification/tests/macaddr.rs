use linkframe::macaddr::MacAddress;

#[test]
fn macaddr_test_is_broadcast() {
    let addr1 = MacAddress::from_str("11:22:33:44:55:66").unwrap();
    assert_eq!(addr1.is_broadcast(), false);

    let addr2 = MacAddress::from_str("ff:ff:ff:ff:ff:ff").unwrap();
    assert_eq!(addr2.is_broadcast(), true);
}

#[test]
fn macaddr_test_from_str() {
    let mac = "11:22:33:44:55:66";
    let address = MacAddress::from_str(mac);

    let result = address.unwrap().format();
    assert_eq!(result, "11:22:33:44:55:66");
}

#[test]
fn test_from_array() {
    let array1: Vec<u8> = vec![0x11, 0x22, 0x33, 0x44, 0x55, 0x66];
    let addr1 = MacAddress::from_bytes(array1.as_slice()).unwrap();

    let result = addr1.format();
    assert_eq!(result, String::from("11:22:33:44:55:66"));
}
