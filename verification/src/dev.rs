//! The PCI device handle and the GPU register object built on it.

pub mod bar;
pub mod caps;
pub mod config;
pub mod gpu;
pub mod pci;
pub mod region;

pub use bar::Bar;
pub use bar::MAX_BARS;
pub use config::RawConfig;
pub use gpu::GpuObject;
pub use pci::Config;
pub use pci::PciDevice;
pub use region::Region;
pub use config::HEADER_SIZE;
