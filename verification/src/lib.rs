//! A minimal link-layer frame toolkit: fixed-width hardware and network
//! address types, a frame codec over a flat byte layout, and a device
//! registry that routes outbound frames and dispatches inbound ones.

pub mod errors;
pub mod text;
pub mod ipaddr;
pub mod macaddr;
pub mod frame;
pub mod netif;
pub mod device;
pub mod kernel;
