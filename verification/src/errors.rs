use vstd::prelude::*;

verus! {

/// Failure to build an address from text or from raw bytes.
#[derive(Debug, PartialEq, Eq, Structural, Clone, Copy)]
pub enum ParseError {
    /// The text does not split into the fixed number of groups.
    WrongGroupCount,
    /// A group is empty, holds a character outside the family's radix,
    /// or exceeds the value of one octet.
    MalformedGroup,
    /// A byte slice shorter than the address width was given.
    TooFewBytes,
}

/// Failure to decode a frame from a byte buffer.
#[derive(Debug, PartialEq, Eq, Structural, Clone, Copy)]
pub enum DecodeError {
    /// The buffer is shorter than the minimum frame (header plus trailer).
    TooShort,
}

/// Failure to construct a device from the machine's interface listing.
#[derive(Debug, PartialEq, Eq, Structural, Clone, Copy)]
pub enum ConstructionError {
    /// No interface of the requested name exists.
    InterfaceNotFound,
    /// The interface reports no hardware address.
    NoHardwareAddress,
    /// The interface has no IPv4-family network address assigned.
    NoNetworkAddress,
}

/// Failure reported by the device registry.
#[derive(Debug, PartialEq, Eq, Structural, Clone, Copy)]
pub enum RegistryError {
    /// The device index is out of range.
    UnknownDevice,
}

/// Error a frame handler may return to abort the current dispatch pass.
#[derive(Debug, PartialEq, Eq, Structural, Clone, Copy)]
pub struct HandlerError;

} // verus!
