//! The register object of the GPU: the window behind BAR0, the checks that
//! a fresh mapping of it has to pass, and checked access to it.

use crate::bits::CcMode;
use crate::bits::BOOT_UNMAPPED;
use crate::bits::IOMEM_MARKER;
use crate::bits::NV_CC_MODE;
use crate::bits::NV_PMC_BOOT_0;
use crate::dev::bar::Bar;
use crate::dev::pci::PciDevice;
use crate::dev::pci::PciDeviceView;
use crate::dev::region::find_region;
use crate::dev::region::marked_region;
use crate::error::DeviceError;
use crate::le::le16;
use crate::le::le16_bytes;
use crate::le::le32;
use crate::le::le32_bytes;
use crate::le::push_le16;
use crate::le::push_le32;
use crate::le::read_le16;
use crate::le::read_le32;
use std::sync::Arc;
use vstd::prelude::*;
use vstd::slice::slice_subrange;
use vstd::slice::slice_to_vec;
use vstd::string::StringSliceAdditionalSpecFns;

verus! {

/// The number of bytes of the boot register.
pub const BOOT_WIDTH: usize = 4;

/// What a register object holds, as plain values.
pub struct GpuObjectView {
    /// The device that the object belongs to.
    pub device: PciDeviceView,
    /// The descriptor of the window.
    pub bar0: Bar,
    /// The bytes of the window, one for each byte of BAR0.
    pub window: Seq<u8>,
}

/// A structure representing a GPU object.
#[derive(Debug, Clone)]
pub struct GpuObject {
    /// The PCI device.
    device: Arc<PciDevice>,
    /// The first base address register.
    bar0: Bar,
    /// The window of the base address register, as mapped into memory.
    bar0_mapped: Vec<u8>,
}

impl View for GpuObject {
    type V = GpuObjectView;

    closed spec fn view(&self) -> GpuObjectView {
        GpuObjectView { device: self.device@, bar0: self.bar0, window: self.bar0_mapped@ }
    }
}

/// Whether an access of `width` bytes at `offset` stays within a window of
/// `size` bytes.
pub open spec fn in_window(size: int, offset: int, width: int) -> bool {
    offset + width <= size
}

/// The window with `data` written over its bytes from `offset` on.
pub open spec fn overwritten(window: Seq<u8>, offset: int, data: Seq<u8>) -> Seq<u8> {
    window.take(offset) + data + window.skip(offset + data.len())
}

/// The value of the boot register of a mapping: the 32 bits at its start.
pub open spec fn boot_of(mapped: Seq<u8>) -> int {
    le32(mapped, NV_PMC_BOOT_0 as int)
}

/// What the sanity check of a fresh mapping finds.
///
/// The mapping must hold the boot register and the register must not read
/// all-ones. If a line of the listing holds the marker, the region that the
/// line names must have been mapped a second time (`cross`), in its full
/// size, and both mappings must show the same boot value. If no line holds
/// the marker, the check passes without a second mapping.
pub open spec fn sanity_outcome(
    mapped: Seq<u8>,
    iomem: Seq<u8>,
    target: Seq<u8>,
    cross: Option<Seq<u8>>,
) -> Result<(), DeviceError> {
    if mapped.len() < BOOT_WIDTH {
        Err(DeviceError::OutOfRange)
    } else if boot_of(mapped) == BOOT_UNMAPPED {
        Err(DeviceError::SanityCheckFailed)
    } else {
        match marked_region(iomem, target) {
            Err(e) => Err(e),
            Ok(None) => Ok(()),
            Ok(Some(region)) => match cross {
                None => Err(DeviceError::IoError),
                Some(second) => {
                    if second.len() != region.size {
                        Err(DeviceError::IoError)
                    } else if second.len() < BOOT_WIDTH {
                        Err(DeviceError::OutOfRange)
                    } else if boot_of(second) != boot_of(mapped) {
                        Err(DeviceError::SanityCheckFailed)
                    } else {
                        Ok(())
                    }
                },
            },
        }
    }
}

/// What the construction of a register object finds: the device must have
/// its first BAR, the mapping must have the size of that BAR, and the
/// mapping must pass the sanity check with the marker of the GPU's driver.
pub open spec fn construction_outcome(
    device: PciDeviceView,
    mapped: Seq<u8>,
    iomem: Seq<u8>,
    cross: Option<Seq<u8>>,
) -> Result<(), DeviceError> {
    if maps_bar0(device, mapped) {
        sanity_outcome(mapped, iomem, IOMEM_MARKER.spec_bytes(), cross)
    } else {
        Err(DeviceError::IoError)
    }
}

/// The view of an optional slice.
pub open spec fn cross_view(cross: Option<&[u8]>) -> Option<Seq<u8>> {
    match cross {
        Some(bytes) => Some(bytes@),
        None => None,
    }
}

/// `Arc::clone` of std: another handle to the same device.
#[verifier::external_body]
fn share(device: &Arc<PciDevice>) -> (shared: Arc<PciDevice>)
    ensures
        shared == *device,
{
    device.clone()
}

impl GpuObject {
    /// The object is valid: its device is, its window is that of the
    /// device's first BAR, and its mapping has exactly the size of the
    /// window.
    pub closed spec fn wf(&self) -> bool {
        &&& self.device.wf()
        &&& self.bar0 == self.device@.bars[0]
        &&& self.bar0.populated()
        &&& self.bar0_mapped@.len() == self.bar0.size
    }

    /// What validity means in terms of the view.
    pub proof fn lemma_wf(&self)
        requires
            self.wf(),
        ensures
            self@.bar0 == self@.device.bars[0],
            self@.bar0.populated(),
            self@.window.len() == self@.bar0.size,
    {
    }

    /// Perform a sanity check to check if the given mapping is valid.
    ///
    /// This function reads the boot register of the mapping and compares
    /// it with the boot register of the region that the listing of memory
    /// regions gives for `target`, as `cross_mapped` shows that region. If
    /// the values are not the same, or the register reads all-ones, the
    /// check fails with `SanityCheckFailed`.
    pub fn sanity_check(
        mapped: &[u8],
        iomem: &str,
        target: &str,
        cross_mapped: Option<&[u8]>,
    ) -> (checked: Result<(), DeviceError>)
        ensures
            checked == sanity_outcome(
                mapped@,
                iomem.spec_bytes(),
                target.spec_bytes(),
                cross_view(cross_mapped),
            ),
    {
        if mapped.len() < BOOT_WIDTH {
            return Err(DeviceError::OutOfRange);
        }
        let boot = read_le32(mapped, NV_PMC_BOOT_0 as usize);
        if boot == BOOT_UNMAPPED {
            return Err(DeviceError::SanityCheckFailed);
        }
        let region = match find_region(iomem.as_bytes(), target.as_bytes()) {
            Err(e) => {
                return Err(e);
            },
            Ok(None) => {
                return Ok(());
            },
            Ok(Some(region)) => region,
        };
        let second = match cross_mapped {
            None => {
                return Err(DeviceError::IoError);
            },
            Some(second) => second,
        };
        if second.len() as u64 != region.size {
            return Err(DeviceError::IoError);
        }
        if second.len() < BOOT_WIDTH {
            return Err(DeviceError::OutOfRange);
        }
        let boot_val = read_le32(second, NV_PMC_BOOT_0 as usize);
        if boot_val != boot {
            return Err(DeviceError::SanityCheckFailed);
        }
        Ok(())
    }

    /// Create a new instance of `GpuObject` over a fresh mapping of the
    /// device's first BAR.
    ///
    /// `bar0_mapped` holds the bytes of the window, `iomem` the listing of
    /// memory regions, and `cross_mapped` the bytes of the region that the
    /// listing gives for the GPU's driver, where it gives one. Either the
    /// object comes back whole, or an error and nothing else.
    pub fn new(
        device: Arc<PciDevice>,
        bar0_mapped: Vec<u8>,
        iomem: &str,
        cross_mapped: Option<&[u8]>,
    ) -> (made: Result<GpuObject, DeviceError>)
        requires
            device.wf(),
        ensures
            match construction_outcome(
                device@,
                bar0_mapped@,
                iomem.spec_bytes(),
                cross_view(cross_mapped),
            ) {
                Ok(_) => made is Ok && made->Ok_0.wf() && made->Ok_0@ == (GpuObjectView {
                    device: device@,
                    bar0: device@.bars[0],
                    window: bar0_mapped@,
                }),
                Err(e) => made == Err::<GpuObject, DeviceError>(e),
            },
    {
        let bar0 = device.bar0();
        if !bar0.is_populated() || bar0_mapped.len() as u64 != bar0.size {
            return Err(DeviceError::IoError);
        }
        match GpuObject::sanity_check(bar0_mapped.as_slice(), iomem, IOMEM_MARKER, cross_mapped) {
            Err(e) => Err(e),
            Ok(_) => Ok(GpuObject { device, bar0, bar0_mapped }),
        }
    }

    /// Reads the confidential-computing mode from its register.
    pub fn query_cc_mode(&self) -> (mode: Result<CcMode, DeviceError>)
        requires
            self.wf(),
        ensures
            mode == if in_window(self@.window.len() as int, NV_CC_MODE as int, 1) {
                Ok::<CcMode, DeviceError>(CcMode::decode(self@.window[NV_CC_MODE as int]))
            } else {
                Err::<CcMode, DeviceError>(DeviceError::OutOfRange)
            },
    {
        match self.read8(NV_CC_MODE) {
            Ok(mode) => Ok(CcMode::from_bits(mode)),
            Err(e) => Err(e),
        }
    }

    /// Waits until the GPU has booted. A mapping that passed the sanity
    /// check belongs to a GPU that has, so there is nothing to wait for.
    pub fn wait_for_boot(&self) -> (done: Result<(), DeviceError>)
        ensures
            done is Ok,
    {
        Ok(())
    }

    /// Another handle to the device of the object.
    pub fn get_device_handle(&self) -> (device: Arc<PciDevice>)
        ensures
            device@ == self@.device,
            self.wf() ==> device.wf(),
    {
        share(&self.device)
    }

    /// The descriptor of the window.
    pub fn bar0(&self) -> (bar: Bar)
        ensures
            bar == self@.bar0,
    {
        self.bar0
    }

    /// Read the value at the given offset.
    ///
    /// Fails with `OutOfRange`, and reads nothing, where the `size` bytes
    /// from `offset` on do not all lie within the window.
    pub fn read(&self, offset: u64, size: u64) -> (bytes: Result<Vec<u8>, DeviceError>)
        requires
            self.wf(),
        ensures
            in_window(self@.window.len() as int, offset as int, size as int) ==> bytes is Ok
                && bytes->Ok_0@ == self@.window.subrange(offset as int, offset + size),
            !in_window(self@.window.len() as int, offset as int, size as int) ==> bytes == Err::<
                Vec<u8>,
                DeviceError,
            >(DeviceError::OutOfRange),
    {
        let len = self.bar0_mapped.len() as u64;
        if size > len || offset > len - size {
            return Err(DeviceError::OutOfRange);
        }
        let from = offset as usize;
        let to = (offset + size) as usize;
        Ok(slice_to_vec(slice_subrange(self.bar0_mapped.as_slice(), from, to)))
    }

    /// Write the value at the given offset.
    ///
    /// Fails with `OutOfRange`, and writes nothing, where the bytes of
    /// `data` from `offset` on would not all lie within the window.
    pub fn write(&mut self, offset: u64, data: &[u8]) -> (done: Result<(), DeviceError>)
        requires
            old(self).wf(),
        ensures
            final(self).wf(),
            in_window(old(self)@.window.len() as int, offset as int, data@.len() as int) ==> done
                is Ok && final(self)@ == (GpuObjectView {
                window: overwritten(old(self)@.window, offset as int, data@),
                ..old(self)@
            }),
            !in_window(old(self)@.window.len() as int, offset as int, data@.len() as int) ==> done
                == Err::<(), DeviceError>(DeviceError::OutOfRange) && final(self)@ == old(self)@,
    {
        let size = self.bar0_mapped.len();
        if data.len() > size || offset > (size - data.len()) as u64 {
            return Err(DeviceError::OutOfRange);
        }
        let at = offset as usize;
        let mut k: usize = 0;
        while k < data.len()
            invariant
                k <= data@.len(),
                at + data@.len() <= size,
                size == self.bar0_mapped@.len(),
                size == old(self).bar0_mapped@.len(),
                self.bar0 == old(self).bar0,
                self.device == old(self).device,
                self.bar0_mapped@ == overwritten(
                    old(self).bar0_mapped@,
                    at as int,
                    data@.take(k as int),
                ),
            decreases data@.len() - k,
        {
            self.bar0_mapped[at + k] = data[k];
            assert(self.bar0_mapped@ == overwritten(
                old(self).bar0_mapped@,
                at as int,
                data@.take(k + 1),
            ));
            k += 1;
        }
        assert(data@.take(k as int) == data@);
        Ok(())
    }

    /// Reads the byte at the given offset.
    pub fn read8(&self, offset: u64) -> (value: Result<u8, DeviceError>)
        requires
            self.wf(),
        ensures
            value == if in_window(self@.window.len() as int, offset as int, 1) {
                Ok::<u8, DeviceError>(self@.window[offset as int])
            } else {
                Err::<u8, DeviceError>(DeviceError::OutOfRange)
            },
    {
        match self.read(offset, 1) {
            Ok(buf) => Ok(buf[0]),
            Err(e) => Err(e),
        }
    }

    /// Reads the little-endian 16-bit value at the given offset.
    pub fn read16(&self, offset: u64) -> (value: Result<u16, DeviceError>)
        requires
            self.wf(),
        ensures
            value == if in_window(self@.window.len() as int, offset as int, 2) {
                Ok::<u16, DeviceError>(le16(self@.window, offset as int) as u16)
            } else {
                Err::<u16, DeviceError>(DeviceError::OutOfRange)
            },
    {
        match self.read(offset, 2) {
            Ok(buf) => Ok(read_le16(buf.as_slice(), 0)),
            Err(e) => Err(e),
        }
    }

    /// Reads the little-endian 32-bit value at the given offset.
    pub fn read32(&self, offset: u64) -> (value: Result<u32, DeviceError>)
        requires
            self.wf(),
        ensures
            value == if in_window(self@.window.len() as int, offset as int, 4) {
                Ok::<u32, DeviceError>(le32(self@.window, offset as int) as u32)
            } else {
                Err::<u32, DeviceError>(DeviceError::OutOfRange)
            },
    {
        match self.read(offset, 4) {
            Ok(buf) => Ok(read_le32(buf.as_slice(), 0)),
            Err(e) => Err(e),
        }
    }

    /// Writes a byte at the given offset.
    pub fn write8(&mut self, offset: u64, data: u8) -> (done: Result<(), DeviceError>)
        requires
            old(self).wf(),
        ensures
            final(self).wf(),
            in_window(old(self)@.window.len() as int, offset as int, 1) ==> done is Ok && final(self)@ == (GpuObjectView {
                window: overwritten(old(self)@.window, offset as int, seq![data]),
                ..old(self)@
            }),
            !in_window(old(self)@.window.len() as int, offset as int, 1) ==> done == Err::<
                (),
                DeviceError,
            >(DeviceError::OutOfRange) && final(self)@ == old(self)@,
    {
        let mut bytes: Vec<u8> = Vec::new();
        bytes.push(data);
        assert(bytes@ == seq![data]);
        self.write(offset, bytes.as_slice())
    }

    /// Writes a 16-bit value at the given offset, in little-endian order.
    pub fn write16(&mut self, offset: u64, data: u16) -> (done: Result<(), DeviceError>)
        requires
            old(self).wf(),
        ensures
            final(self).wf(),
            in_window(old(self)@.window.len() as int, offset as int, 2) ==> done is Ok && final(self)@ == (GpuObjectView {
                window: overwritten(old(self)@.window, offset as int, le16_bytes(data)),
                ..old(self)@
            }),
            !in_window(old(self)@.window.len() as int, offset as int, 2) ==> done == Err::<
                (),
                DeviceError,
            >(DeviceError::OutOfRange) && final(self)@ == old(self)@,
    {
        let mut bytes: Vec<u8> = Vec::new();
        push_le16(&mut bytes, data);
        assert(bytes@ == le16_bytes(data));
        self.write(offset, bytes.as_slice())
    }

    /// Writes a 32-bit value at the given offset, in little-endian order.
    pub fn write32(&mut self, offset: u64, data: u32) -> (done: Result<(), DeviceError>)
        requires
            old(self).wf(),
        ensures
            final(self).wf(),
            in_window(old(self)@.window.len() as int, offset as int, 4) ==> done is Ok && final(self)@ == (GpuObjectView {
                window: overwritten(old(self)@.window, offset as int, le32_bytes(data)),
                ..old(self)@
            }),
            !in_window(old(self)@.window.len() as int, offset as int, 4) ==> done == Err::<
                (),
                DeviceError,
            >(DeviceError::OutOfRange) && final(self)@ == old(self)@,
    {
        let mut bytes: Vec<u8> = Vec::new();
        push_le32(&mut bytes, data);
        assert(bytes@ == le32_bytes(data));
        self.write(offset, bytes.as_slice())
    }
}

/// The last offset at which an access of `width` bytes stays within a
/// window of `size` bytes is `size - width`: one further it does not.
pub proof fn lemma_last_offset_in_window(size: int, width: int)
    requires
        0 <= width <= size,
    ensures
        in_window(size, size - width, width),
        !in_window(size, size - width + 1, width),
{
}

/// What was written can be read back: the bytes of the window from
/// `offset` on are `data`, and all other bytes are as before.
pub proof fn lemma_read_back(window: Seq<u8>, offset: int, data: Seq<u8>)
    requires
        0 <= offset,
        in_window(window.len() as int, offset, data.len() as int),
    ensures
        overwritten(window, offset, data).len() == window.len(),
        overwritten(window, offset, data).subrange(offset, offset + data.len()) == data,
        forall|i: int|
            0 <= i < window.len() && !(offset <= i < offset + data.len()) ==> overwritten(
                window,
                offset,
                data,
            )[i] == window[i],
{
    assert(overwritten(window, offset, data).subrange(offset, offset + data.len()) =~= data);
}

/// Whether the mapping can be that of the device's first BAR: the BAR is
/// there and the mapping has its size.
pub open spec fn maps_bar0(device: PciDeviceView, mapped: Seq<u8>) -> bool {
    device.bars[0].populated() && mapped.len() == device.bars[0].size
}

/// A boot register that reads all-ones fails the sanity check, and with it
/// the construction, whatever the listing and the second mapping hold.
pub proof fn lemma_unmapped_boot_fails(
    device: PciDeviceView,
    mapped: Seq<u8>,
    iomem: Seq<u8>,
    target: Seq<u8>,
    cross: Option<Seq<u8>>,
)
    requires
        mapped.len() >= BOOT_WIDTH,
        boot_of(mapped) == BOOT_UNMAPPED,
    ensures
        sanity_outcome(mapped, iomem, target, cross) == Err::<(), DeviceError>(
            DeviceError::SanityCheckFailed,
        ),
        maps_bar0(device, mapped) ==> construction_outcome(device, mapped, iomem, cross) == Err::<
            (),
            DeviceError,
        >(DeviceError::SanityCheckFailed),
{
}

/// Any other boot value passes the sanity check, and with it the
/// construction, where no line of the listing holds the marker, and where
/// the second mapping of the marked region shows the same value.
pub proof fn lemma_live_boot_passes(
    device: PciDeviceView,
    mapped: Seq<u8>,
    iomem: Seq<u8>,
    cross: Option<Seq<u8>>,
)
    requires
        maps_bar0(device, mapped),
        mapped.len() >= BOOT_WIDTH,
        boot_of(mapped) != BOOT_UNMAPPED,
        match marked_region(iomem, IOMEM_MARKER.spec_bytes()) {
            Ok(None) => true,
            Ok(Some(region)) => cross matches Some(second) && second.len() == region.size
                && second.len() >= BOOT_WIDTH && boot_of(second) == boot_of(mapped),
            Err(_) => false,
        },
    ensures
        sanity_outcome(mapped, iomem, IOMEM_MARKER.spec_bytes(), cross) == Ok::<(), DeviceError>(
            (),
        ),
        construction_outcome(device, mapped, iomem, cross) == Ok::<(), DeviceError>(()),
{
}

/// A second mapping that shows another boot value fails the sanity check,
/// and with it the construction, though the first mapping has a live boot
/// value.
pub proof fn lemma_cross_mismatch_fails(
    device: PciDeviceView,
    mapped: Seq<u8>,
    iomem: Seq<u8>,
    second: Seq<u8>,
)
    requires
        maps_bar0(device, mapped),
        mapped.len() >= BOOT_WIDTH,
        boot_of(mapped) != BOOT_UNMAPPED,
        marked_region(iomem, IOMEM_MARKER.spec_bytes()) matches Ok(Some(region)) && second.len()
            == region.size,
        second.len() >= BOOT_WIDTH,
        boot_of(second) != boot_of(mapped),
    ensures
        sanity_outcome(mapped, iomem, IOMEM_MARKER.spec_bytes(), Some(second)) == Err::<
            (),
            DeviceError,
        >(DeviceError::SanityCheckFailed),
        construction_outcome(device, mapped, iomem, Some(second)) == Err::<(), DeviceError>(
            DeviceError::SanityCheckFailed,
        ),
{
}

} // verus!
