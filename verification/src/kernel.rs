//! The device registry and dispatcher: an ordered collection of devices
//! (insertion order is index order), and at most one registered handler for
//! inbound frames. The caller that owns the raw capture handles polls them
//! in registration order and hands each captured buffer to the dispatcher.

use crate::device::resolves_to;
use crate::device::Device;
use crate::errors::ConstructionError;
use crate::errors::HandlerError;
use crate::errors::RegistryError;
use crate::frame::frame_bytes;
use crate::macaddr::MacAddress;
use crate::netif::InterfaceInfo;
use crate::text::str_eq;
use vstd::prelude::*;
use vstd::string::*;

verus! {

/// The single inbound-frame handler of a registry. One value of an
/// implementing type is stored at a time; an error from it aborts the
/// current dispatch pass.
pub trait FrameHandler {
    /// Handles one captured buffer of the given captured length.
    fn on_frame(&mut self, buffer: &[u8], caplen: usize) -> Result<(), HandlerError>;
}

/// The registry: devices in registration order, and the handler slot.
pub struct Kernel<H: FrameHandler> {
    pub devices: Vec<Device>,
    pub callback: Option<H>,
}

impl<H: FrameHandler> Kernel<H> {
    /// An empty registry with no handler.
    pub fn new() -> (r: Self)
        ensures
            r.devices@.len() == 0,
            r.callback is None,
    {
        Kernel { devices: Vec::new(), callback: None }
    }

    /// Resolves a device from the given interface listing and appends it;
    /// its index is its registration position. Nothing changes on failure.
    pub fn register_with(&mut self, device_name: &str, interfaces: &Vec<InterfaceInfo>) -> (r:
        Result<usize, ConstructionError>)
        ensures
            final (self).callback == old(self).callback,
            r is Err ==> *final (self) == *old(self),
            r == Err::<usize, ConstructionError>(ConstructionError::InterfaceNotFound)
                <==> crate::netif::none_named(interfaces@, device_name@),
            r == Err::<usize, ConstructionError>(ConstructionError::NoHardwareAddress)
                <==> crate::device::lacks_mac(interfaces@, device_name@),
            r == Err::<usize, ConstructionError>(ConstructionError::NoNetworkAddress)
                <==> crate::device::lacks_v4(interfaces@, device_name@),
            r matches Ok(idx) ==> {
                &&& idx == old(self).devices@.len()
                &&& final (self).devices@ == old(self).devices@.push(final (self).devices@.last())
                &&& resolves_to(interfaces@, device_name@, final (self).devices@.last())
            },
    {
        match Device::resolve(device_name, interfaces) {
            Ok(d) => {
                let idx = self.devices.len();
                self.devices.push(d);
                Ok(idx)
            },
            Err(e) => Err(e),
        }
    }

    /// Opens a device by name against this machine's interface listing and
    /// registers it. Construction failures surface to the caller; nothing
    /// changes on failure.
    pub fn add_device(&mut self, device_name: &str) -> (r: Result<usize, ConstructionError>)
        ensures
            final (self).callback == old(self).callback,
            r is Err ==> *final (self) == *old(self),
            r matches Ok(idx) ==> {
                &&& idx == old(self).devices@.len()
                &&& final (self).devices@ == old(self).devices@.push(final (self).devices@.last())
                &&& final (self).devices@.last().device_name@ == device_name@
            },
    {
        let interfaces = crate::netif::list_interfaces();
        self.register_with(device_name, &interfaces)
    }

    /// A linear scan by name; the first match wins.
    pub fn find_device(&self, device_name: &str) -> (r: Option<usize>)
        ensures
            r matches Some(i) ==> {
                &&& i < self.devices@.len()
                &&& self.devices@[i as int].device_name@ == device_name@
                &&& forall|k: int|
                    0 <= k < i ==> #[trigger] self.devices@[k].device_name@ != device_name@
            },
            r is None <==> (forall|k: int|
                0 <= k < self.devices@.len() ==> #[trigger] self.devices@[k].device_name@
                    != device_name@),
    {
        let n = self.devices.len();
        let mut i: usize = 0;
        while i < n
            invariant
                n == self.devices@.len(),
                i <= n,
                forall|k: int| 0 <= k < i ==> #[trigger] self.devices@[k].device_name@ != device_name@,
            decreases n - i,
        {
            if str_eq(self.devices[i].device_name.as_str(), device_name) {
                return Some(i);
            }
            i = i + 1;
        }
        None
    }

    /// The first device of this name, if any is registered.
    pub fn get_device(&self, device_name: &str) -> (r: Option<&Device>)
        ensures
            r matches Some(d) ==> exists|i: int|
                {
                    &&& 0 <= i < self.devices@.len()
                    &&& *d == #[trigger] self.devices@[i]
                    &&& self.devices@[i].device_name@ == device_name@
                    &&& forall|k: int|
                        0 <= k < i ==> #[trigger] self.devices@[k].device_name@ != device_name@
                },
            r is None <==> (forall|k: int|
                0 <= k < self.devices@.len() ==> #[trigger] self.devices@[k].device_name@
                    != device_name@),
    {
        match self.find_device(device_name) {
            Some(i) => {
                let d = &self.devices[i];
                proof {
                    assert(0 <= i < self.devices@.len() && *d == self.devices@[i as int]
                        && self.devices@[i as int].device_name@ == device_name@ && forall|k: int|
                        0 <= k < i ==> #[trigger] self.devices@[k].device_name@ != device_name@);
                }
                Some(d)
            },
            None => None,
        }
    }

    /// Stores the handler, replacing any previous one.
    pub fn set_callback(&mut self, callback: H)
        ensures
            final (self).devices == old(self).devices,
            final (self).callback == Some(callback),
    {
        self.callback = Some(callback);
    }

    /// Encodes one frame for the device at the given index, with that
    /// device's hardware address as source and a zero trailer; an index out
    /// of range is the registry's own error. The caller hands the bytes to
    /// the capture backend of that device.
    pub fn send_frame(
        &self,
        message: &String,
        ethernet_type: u16,
        dest_mac: &MacAddress,
        id: usize,
    ) -> (r: Result<Vec<u8>, RegistryError>)
        ensures
            r == Err::<Vec<u8>, RegistryError>(RegistryError::UnknownDevice) <==> id
                >= self.devices@.len(),
            r matches Ok(frame) ==> id < self.devices@.len() && frame@ == frame_bytes(
                dest_mac@,
                self.devices@[id as int].mac_addr@,
                ethernet_type,
                Some(message@),
                0u32,
            ),
    {
        if id < self.devices.len() {
            let d = &self.devices[id];
            Ok(d.send_frame(message, ethernet_type, dest_mac))
        } else {
            Err(RegistryError::UnknownDevice)
        }
    }

    /// Hands one captured buffer to the stored handler, if one is set; an
    /// empty slot is not an error. The device list never changes.
    pub fn dispatch_frame(&mut self, buffer: &[u8], caplen: usize) -> (r: Result<(), HandlerError>)
        ensures
            final (self).devices == old(self).devices,
            old(self).callback is None ==> r is Ok && *final (self) == *old(self),
    {
        match self.callback.take() {
            Some(mut h) => {
                let r = h.on_frame(buffer, caplen);
                self.callback = Some(h);
                r
            },
            None => Ok(()),
        }
    }
}

} // verus!
