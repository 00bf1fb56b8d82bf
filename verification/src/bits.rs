//! Fixed numbers of the device: identity, register offsets, the layout of
//! configuration space, and the confidential-computing mode.

use vstd::prelude::*;

verus! {

pub const NVIDIA_VENDOR_ID: u16 = 0x10de;

pub const NVIDIA_HOPPER_H100: u16 = 0x2331;

pub const MEM_FILE: &'static str = "/dev/mem";

pub const IOMEM_FILE: &'static str = "/proc/iomem";

pub const PCI_DEVICES: &'static str = "/sys/bus/pci/devices";

/// The text that marks the GPU's line in the listing of memory regions.
pub const IOMEM_MARKER: &'static str = "nvidia";

// Some important registers.
pub const NV_PMC_BOOT_0: u64 = 0x0;

pub const NV_PMC_ENABLE: u64 = 0x200;

pub const NV_PMC_DEVICE_ENABLE: u64 = 0x600;

/// The base of the physical address that the host wants to read through
/// the window between `NV_PMC_PRAMIN_START` and `NV_PMC_PRAMIN_END`.
pub const NV_HOST_MEM: u64 = 0x1700;

pub const NV_PROM_DATA: u64 = 0x300000;

pub const NV_CC_MODE: u64 = 0x1182cc;

pub const NV_PMC_PRAMIN_LEN: u64 = 0x100000;

pub const NV_PMC_PRAMIN_START: u64 = 0x700000;

pub const NV_PMC_PRAMIN_END: u64 = 0x800000;

pub const NV_MMIO_ERROR_PREFIX: u64 = 0xbadf;

// Clocks.
pub const NV_H100_CLOCK_LOW: u64 = 0xbb0080;

pub const NV_H100_CLOCK_HIGH: u64 = 0xbb0084;

pub const PCI_CFG_SPACE_SIZE: u64 = 256;

pub const PCI_CFG_SPACE_EXP_SIZE: u64 = 4096;

pub const PCI_CAPABILITY_LIST: u64 = 0x34;

pub const PCI_CAP_ID_EXP: u64 = 0x10;

pub const PCI_CAP_ID_PM: u64 = 0x01;

pub const PCI_EXT_CAP_ID_ERR: u64 = 0x01;

pub const PCI_EXP_CAP_ID_SRIOV: u64 = 0x10;

pub const CAP_ID_MASK: u64 = 0xff;

/// The value of the boot register of a region that does not answer.
pub const BOOT_UNMAPPED: u32 = 0xffff_ffff;

/// The capabilities pointer of a device without capabilities.
pub const NO_CAPABILITIES: u8 = 0xff;

/// The confidential-computing mode of the GPU, as its mode register gives
/// it.
#[derive(Clone, Copy, Debug, PartialEq, Eq, Structural)]
pub enum CcMode {
    /// The mode is off.
    Off,
    /// The mode is on.
    On,
    /// The mode is on with developer tools, which lets the host tune
    /// performance.
    DevTools,
    /// The register holds a pattern that names no mode; the pattern is kept.
    Unknown(u8),
}

pub const CC_MODE_OFF: u8 = 0x0;

pub const CC_MODE_ON: u8 = 0x1;

pub const CC_MODE_DEV_TOOLS: u8 = 0x3;

impl CcMode {
    /// The mode that the register value `raw` stands for.
    pub open spec fn decode(raw: u8) -> CcMode {
        if raw == CC_MODE_OFF {
            CcMode::Off
        } else if raw == CC_MODE_ON {
            CcMode::On
        } else if raw == CC_MODE_DEV_TOOLS {
            CcMode::DevTools
        } else {
            CcMode::Unknown(raw)
        }
    }

    /// The register value of the mode.
    pub open spec fn raw(self) -> u8 {
        match self {
            CcMode::Off => CC_MODE_OFF,
            CcMode::On => CC_MODE_ON,
            CcMode::DevTools => CC_MODE_DEV_TOOLS,
            CcMode::Unknown(raw) => raw,
        }
    }

    /// An unknown mode keeps a pattern that names no mode.
    pub open spec fn wf(self) -> bool {
        self matches CcMode::Unknown(raw) ==> raw != CC_MODE_OFF && raw != CC_MODE_ON && raw
            != CC_MODE_DEV_TOOLS
    }

    /// Decodes a register value. No bit is dropped: a value that names no
    /// mode comes back whole in `Unknown`.
    pub fn from_bits(raw: u8) -> (mode: CcMode)
        ensures
            mode == CcMode::decode(raw),
            mode.wf(),
            mode.raw() == raw,
    {
        if raw == CC_MODE_OFF {
            CcMode::Off
        } else if raw == CC_MODE_ON {
            CcMode::On
        } else if raw == CC_MODE_DEV_TOOLS {
            CcMode::DevTools
        } else {
            CcMode::Unknown(raw)
        }
    }

    /// The register value of the mode.
    pub fn bits(&self) -> (raw: u8)
        ensures
            raw == self.raw(),
            self.wf() ==> CcMode::decode(raw) == *self,
    {
        match self {
            CcMode::Off => CC_MODE_OFF,
            CcMode::On => CC_MODE_ON,
            CcMode::DevTools => CC_MODE_DEV_TOOLS,
            CcMode::Unknown(raw) => *raw,
        }
    }
}

} // verus!
