//! Probing an NVIDIA data-center GPU over PCI: decoding the configuration
//! header, walking the capability chain, building the BAR table and checked
//! access to the register window behind BAR0.

pub mod bits;
pub mod cpuid;
pub mod dev;
pub mod error;
pub mod le;
pub mod text;

pub use error::DeviceError;
