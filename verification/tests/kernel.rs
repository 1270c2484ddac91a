use linkframe::device::Device;
use linkframe::errors::ConstructionError;
use linkframe::errors::HandlerError;
use linkframe::errors::RegistryError;
use linkframe::ipaddr::IpAddress;
use linkframe::kernel::FrameHandler;
use linkframe::kernel::Kernel;
use linkframe::macaddr::MacAddress;
use linkframe::netif::InterfaceInfo;

struct CollectHandler {
    seen: Vec<Vec<u8>>,
    fail: bool,
}

impl FrameHandler for CollectHandler {
    fn on_frame(&mut self, buffer: &[u8], caplen: usize) -> Result<(), HandlerError> {
        if self.fail {
            return Err(HandlerError);
        }
        self.seen.push(buffer[..caplen].to_vec());
        Ok(())
    }
}

fn listing() -> Vec<InterfaceInfo> {
    vec![
        InterfaceInfo {
            name: String::from("a"),
            mac: Some(MacAddress::from([0x0a, 0, 0, 0, 0, 1])),
            addrs: vec![None, Some(IpAddress::from([10, 0, 0, 1]))],
        },
        InterfaceInfo {
            name: String::from("b"),
            mac: Some(MacAddress::from([0x0b, 0, 0, 0, 0, 2])),
            addrs: vec![Some(IpAddress::from([10, 0, 0, 2]))],
        },
        InterfaceInfo {
            name: String::from("nomac"),
            mac: None,
            addrs: vec![Some(IpAddress::from([10, 0, 0, 3]))],
        },
        InterfaceInfo {
            name: String::from("noip"),
            mac: Some(MacAddress::from([0x0c, 0, 0, 0, 0, 4])),
            addrs: vec![None],
        },
    ]
}

#[test]
fn registry_scenario_find_and_unknown_device() {
    let ifs = listing();
    let mut kernel: Kernel<CollectHandler> = Kernel::new();
    assert_eq!(kernel.register_with("a", &ifs).unwrap(), 0);
    assert_eq!(kernel.register_with("b", &ifs).unwrap(), 1);

    assert_eq!(kernel.find_device("b"), Some(1));
    assert_eq!(kernel.find_device("a"), Some(0));
    assert_eq!(kernel.find_device("c"), None);

    let r = kernel.send_frame(&String::from("x"), 0x2333, &MacAddress::from([0xff; 6]), 5);
    assert_eq!(r, Err(RegistryError::UnknownDevice));
}

#[test]
fn registry_send_uses_device_source_address() {
    let ifs = listing();
    let mut kernel: Kernel<CollectHandler> = Kernel::new();
    kernel.register_with("a", &ifs).unwrap();
    kernel.register_with("b", &ifs).unwrap();

    let dest = MacAddress::from([0xff; 6]);
    let frame = kernel.send_frame(&String::from("hi"), 0x2333, &dest, 1).unwrap();
    assert_eq!(frame[0..6], [0xff, 0xff, 0xff, 0xff, 0xff, 0xff]);
    assert_eq!(frame[6..12], [0x0b, 0, 0, 0, 0, 2]);
    assert_eq!(frame[12..14], [0x23, 0x33]);
    assert_eq!(frame[14..16], [0x68, 0x69]);
    assert_eq!(frame[16..20], [0, 0, 0, 0]);
}

#[test]
fn registry_construction_errors() {
    let ifs = listing();
    let mut kernel: Kernel<CollectHandler> = Kernel::new();
    assert_eq!(kernel.register_with("missing", &ifs), Err(ConstructionError::InterfaceNotFound));
    assert_eq!(kernel.register_with("nomac", &ifs), Err(ConstructionError::NoHardwareAddress));
    assert_eq!(kernel.register_with("noip", &ifs), Err(ConstructionError::NoNetworkAddress));
    assert_eq!(kernel.find_device("missing"), None);
}

#[test]
fn registry_duplicate_names_first_match_wins() {
    let mut ifs = listing();
    ifs.push(InterfaceInfo {
        name: String::from("a"),
        mac: Some(MacAddress::from([0xaa, 0xaa, 0, 0, 0, 0])),
        addrs: vec![Some(IpAddress::from([10, 9, 9, 9]))],
    });
    let mut kernel: Kernel<CollectHandler> = Kernel::new();
    kernel.register_with("a", &ifs).unwrap();
    kernel.register_with("a", &ifs).unwrap();
    assert_eq!(kernel.find_device("a"), Some(0));
    let d = kernel.get_device("a").unwrap();
    assert_eq!(d.mac_addr, MacAddress::from([0x0a, 0, 0, 0, 0, 1]));
}

#[test]
fn dispatch_invokes_stored_handler() {
    let ifs = listing();
    let mut kernel: Kernel<CollectHandler> = Kernel::new();
    kernel.register_with("a", &ifs).unwrap();

    let buffer = vec![1u8, 2, 3, 4];
    assert_eq!(kernel.dispatch_frame(buffer.as_slice(), buffer.len()), Ok(()));

    kernel.set_callback(CollectHandler { seen: Vec::new(), fail: false });
    assert_eq!(kernel.dispatch_frame(buffer.as_slice(), buffer.len()), Ok(()));
    assert_eq!(kernel.dispatch_frame(&[9u8, 9], 1), Ok(()));
    let h = kernel.callback.as_ref().unwrap();
    assert_eq!(h.seen, vec![vec![1u8, 2, 3, 4], vec![9u8]]);

    kernel.set_callback(CollectHandler { seen: Vec::new(), fail: true });
    assert_eq!(kernel.dispatch_frame(buffer.as_slice(), buffer.len()), Err(HandlerError));
}

#[test]
fn test_init_device() {
    let device_name = "veth1-2";
    let device = Device::new(device_name);
    if let Ok(d) = &device {
        assert_eq!(d.device_name().as_str(), device_name);
    }
}

#[test]
fn device_resolve_and_send() {
    let ifs = listing();
    let d = Device::resolve("a", &ifs).unwrap();
    assert_eq!(d.device_name().as_str(), "a");
    assert_eq!(d.mac_addr, MacAddress::from([0x0a, 0, 0, 0, 0, 1]));
    assert_eq!(d.ip_addr, IpAddress::from([10, 0, 0, 1]));

    let dest = MacAddress::from([1, 1, 1, 1, 1, 1]);
    let frame = d.send_frame(&String::from("ok"), 0x0042, &dest);
    assert_eq!(frame.len(), 20);
    assert_eq!(frame[6..12], [0x0a, 0, 0, 0, 0, 1]);

    assert_eq!(Device::resolve("missing", &ifs).unwrap_err(), ConstructionError::InterfaceNotFound);
    assert_eq!(Device::resolve("nomac", &ifs).unwrap_err(), ConstructionError::NoHardwareAddress);
    assert_eq!(Device::resolve("noip", &ifs).unwrap_err(), ConstructionError::NoNetworkAddress);
}
