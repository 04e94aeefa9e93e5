//! PCI configuration-space routing: validated bus/device/function addresses,
//! the bus registry with its INTx routing policy, and the legacy port-I/O and
//! ECAM configuration decoders.

pub mod address;
pub mod text;
pub mod access;
pub mod bus;
pub mod decoder;
