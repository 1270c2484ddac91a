//! The machine's interface listing, reduced to plain values: a name, an
//! optional hardware address, and the assigned network entries with their
//! IPv4 addresses (a `None` entry stands for a non-IPv4 one).

use crate::ipaddr::IpAddress;
use crate::macaddr::MacAddress;
use vstd::prelude::*;

verus! {

/// One network interface as the enumeration backend reports it.
#[derive(Debug)]
pub struct InterfaceInfo {
    /// The operating-system name of the interface.
    pub name: String,
    /// Its hardware address, when it has one.
    pub mac: Option<MacAddress>,
    /// Its assigned network addresses, in order; `None` marks an entry of
    /// another address family.
    pub addrs: Vec<Option<IpAddress>>,
}

/// Relies on `pnet::datalink::interfaces`: the interfaces of this machine,
/// each converted to its name, hardware address and network entries. What
/// comes back depends on the machine, so nothing more is promised.
#[verifier::external_body]
pub(crate) fn list_interfaces() -> (r: Vec<InterfaceInfo>) {
    pnet::datalink::interfaces()
        .into_iter()
        .map(|i| InterfaceInfo {
            name: i.name,
            mac: i.mac.map(|m| MacAddress::from(m.octets())),
            addrs: i
                .ips
                .iter()
                .map(|n| match n {
                    pnet::ipnetwork::IpNetwork::V4(v4) => Some(IpAddress::from(v4.ip().octets())),
                    pnet::ipnetwork::IpNetwork::V6(_) => None,
                })
                .collect(),
        })
        .collect()
}

/// `j` is the position of the first interface carrying this name.
pub open spec fn first_named(ifs: Seq<InterfaceInfo>, name: Seq<char>, j: int) -> bool {
    &&& 0 <= j < ifs.len()
    &&& ifs[j].name@ == name
    &&& forall|k: int| 0 <= k < j ==> #[trigger] ifs[k].name@ != name
}

/// No interface carries this name.
pub open spec fn none_named(ifs: Seq<InterfaceInfo>, name: Seq<char>) -> bool {
    forall|k: int| 0 <= k < ifs.len() ==> #[trigger] ifs[k].name@ != name
}

/// `k` is the position of the first IPv4 entry.
pub open spec fn first_v4_at(addrs: Seq<Option<IpAddress>>, k: int) -> bool {
    &&& 0 <= k < addrs.len()
    &&& addrs[k] is Some
    &&& forall|l: int| 0 <= l < k ==> #[trigger] addrs[l] is None
}

/// There is no IPv4 entry at all.
pub open spec fn no_v4(addrs: Seq<Option<IpAddress>>) -> bool {
    forall|l: int| 0 <= l < addrs.len() ==> #[trigger] addrs[l] is None
}

} // verus!
