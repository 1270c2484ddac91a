//! An addressable link endpoint: an interface name with the hardware and
//! network addresses resolved for it at construction. The raw capture
//! handle that performs the physical send and receive stays with the caller
//! doing that I/O; this type carries everything the frame logic needs.

use crate::errors::ConstructionError;
use crate::frame::frame_bytes;
use crate::frame::Frame;
use crate::ipaddr::IpAddress;
use crate::macaddr::MacAddress;
use crate::netif::first_named;
use crate::netif::first_v4_at;
use crate::netif::list_interfaces;
use crate::netif::no_v4;
use crate::netif::none_named;
use crate::netif::InterfaceInfo;
use crate::text::str_eq;
use vstd::prelude::*;
use vstd::string::*;

verus! {

/// A device: its operator-supplied name and its cached addresses, resolved
/// once and never re-resolved.
#[derive(Debug)]
pub struct Device {
    pub device_name: String,
    pub mac_addr: MacAddress,
    pub ip_addr: IpAddress,
}

/// The device carries the name it was asked for, the hardware address of
/// the first interface of that name, and that interface's first IPv4
/// address.
pub open spec fn resolves_to(ifs: Seq<InterfaceInfo>, name: Seq<char>, d: Device) -> bool {
    &&& d.device_name@ == name
    &&& exists|j: int|
        #[trigger] first_named(ifs, name, j) && (ifs[j].mac matches Some(m) && d.mac_addr@ == m@)
            && (exists|k: int|
            #[trigger] first_v4_at(ifs[j].addrs@, k) && d.ip_addr@ == ifs[j].addrs@[k]->0@)
}

/// The first interface of this name reports no hardware address.
pub open spec fn lacks_mac(ifs: Seq<InterfaceInfo>, name: Seq<char>) -> bool {
    exists|j: int| #[trigger] first_named(ifs, name, j) && ifs[j].mac is None
}

/// The first interface of this name has a hardware address but no IPv4 one.
pub open spec fn lacks_v4(ifs: Seq<InterfaceInfo>, name: Seq<char>) -> bool {
    exists|j: int|
        #[trigger] first_named(ifs, name, j) && ifs[j].mac is Some && no_v4(ifs[j].addrs@)
}

impl Device {
    /// Resolves a device from an interface listing: the first interface of
    /// the given name, which must report a hardware address and at least one
    /// IPv4 address; each missing piece is its own construction error.
    pub fn resolve(name: &str, interfaces: &Vec<InterfaceInfo>) -> (r: Result<Device, ConstructionError>)
        ensures
            r == Err::<Device, ConstructionError>(ConstructionError::InterfaceNotFound)
                <==> none_named(interfaces@, name@),
            r == Err::<Device, ConstructionError>(ConstructionError::NoHardwareAddress)
                <==> lacks_mac(interfaces@, name@),
            r == Err::<Device, ConstructionError>(ConstructionError::NoNetworkAddress) <==> lacks_v4(
                interfaces@,
                name@,
            ),
            r matches Ok(d) ==> resolves_to(interfaces@, name@, d),
    {
        let n = interfaces.len();
        let mut i: usize = 0;
        while i < n
            invariant
                n == interfaces@.len(),
                i <= n,
                forall|k: int| 0 <= k < i ==> #[trigger] interfaces@[k].name@ != name@,
            decreases n - i,
        {
            let iface = &interfaces[i];
            if str_eq(iface.name.as_str(), name) {
                proof {
                    assert(first_named(interfaces@, name@, i as int));
                }
                match &iface.mac {
                    Some(m) => {
                        let addrs = &iface.addrs;
                        let an = addrs.len();
                        let mut k: usize = 0;
                        #[verifier::loop_isolation(false)]
                        while k < an
                            invariant
                                k <= an,
                                forall|l: int| 0 <= l < k ==> #[trigger] addrs@[l] is None,
                            decreases an - k,
                        {
                            match addrs[k] {
                                Some(ip) => {
                                    proof {
                                        assert(first_v4_at(addrs@, k as int));
                                        assert(first_named(interfaces@, name@, i as int));
                                    }
                                    let d = Device {
                                        device_name: name.to_owned(),
                                        mac_addr: *m,
                                        ip_addr: ip,
                                    };
                                    proof {
                                        assert(resolves_to(interfaces@, name@, d));
                                        assert(!none_named(interfaces@, name@));
                                        assert(!lacks_mac(interfaces@, name@));
                                        assert(!lacks_v4(interfaces@, name@));
                                    }
                                    return Ok(d);
                                },
                                None => {
                                    k = k + 1;
                                },
                            }
                        }
                        proof {
                            assert(no_v4(addrs@));
                            assert(lacks_v4(interfaces@, name@));
                            assert(!none_named(interfaces@, name@));
                            assert(!lacks_mac(interfaces@, name@));
                        }
                        return Err(ConstructionError::NoNetworkAddress);
                    },
                    None => {
                        proof {
                            assert(lacks_mac(interfaces@, name@));
                            assert(!none_named(interfaces@, name@));
                            assert(!lacks_v4(interfaces@, name@));
                        }
                        return Err(ConstructionError::NoHardwareAddress);
                    },
                }
            }
            i = i + 1;
        }
        proof {
            assert(none_named(interfaces@, name@));
            assert(!lacks_mac(interfaces@, name@));
            assert(!lacks_v4(interfaces@, name@));
        }
        Err(ConstructionError::InterfaceNotFound)
    }

    /// Opens a device by name against this machine's interface listing.
    /// What the listing holds depends on the machine; whatever it holds,
    /// a device that comes back is resolved from it by name.
    pub fn new(name: &str) -> (r: Result<Device, ConstructionError>)
        ensures
            r matches Ok(d) ==> d.device_name@ == name@,
    {
        let interfaces = list_interfaces();
        Device::resolve(name, &interfaces)
    }

    /// The operator-supplied name.
    pub fn device_name(&self) -> (r: &String)
        ensures
            r@ == self.device_name@,
    {
        &self.device_name
    }

    /// Encodes one frame from this device: its own hardware address as the
    /// source, a zero trailer, and the given message as payload. The caller
    /// hands the bytes to the capture backend for transmission.
    pub fn send_frame(&self, message: &String, ethernet_type: u16, dest_mac: &MacAddress) -> (frame:
        Vec<u8>)
        ensures
            frame@ == frame_bytes(
                dest_mac@,
                self.mac_addr@,
                ethernet_type,
                Some(message@),
                0u32,
            ),
    {
        let f = Frame::new(dest_mac, &self.mac_addr, ethernet_type, message, 0);
        f.to_buffer()
    }
}

} // verus!
