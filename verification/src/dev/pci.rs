//! The handle of one PCI device: its configuration space, its capability
//! table and its BAR table.

use crate::bits::NO_CAPABILITIES;
use crate::bits::NVIDIA_HOPPER_H100;
use crate::bits::NVIDIA_VENDOR_ID;
use crate::dev::bar::all_parse;
use crate::dev::bar::lemma_stored_bounds;
use crate::dev::bar::line_outcome;
use crate::dev::bar::parse_line;
use crate::dev::bar::stored;
use crate::dev::bar::table_lines;
use crate::dev::bar::Bar;
use crate::dev::caps::chain;
use crate::dev::caps::distinct_ids;
use crate::dev::caps::is_chain;
use crate::dev::caps::lemma_chain_table;
use crate::dev::caps::nodes_at;
use crate::dev::caps::table;
use crate::dev::caps::walk;
use crate::dev::caps::MAX_NODES;
use crate::dev::bar::MAX_BARS;
use crate::dev::config::RawConfig;
use crate::dev::config::HEADER_SIZE;
use crate::error::DeviceError;
use crate::le::le16;
use crate::text::split;
use crate::text::NEWLINE;
use std::collections::HashMap;
use vstd::prelude::*;
use vstd::string::StringSliceAdditionalSpecFns;

verus! {

/// The configuration space of a device: the decoded header, and the bytes
/// that it was decoded from and that the capability chain lies in.
#[derive(Debug, Clone)]
pub struct Config {
    /// The header at the start of configuration space.
    pub config: RawConfig,
    /// The bytes of configuration space, as far as they were read.
    pub bytes: Vec<u8>,
}

impl Config {
    /// The header is the one that the bytes hold.
    pub open spec fn wf(&self) -> bool {
        self.bytes@.len() >= HEADER_SIZE && self.config.decodes(self.bytes@)
    }
}

/// What a device handle holds, as plain values.
pub struct PciDeviceView {
    /// The path of the device's directory.
    pub path: Seq<char>,
    /// The decoded header.
    pub header: RawConfig,
    /// The bytes of configuration space.
    pub space: Seq<u8>,
    /// The capability table: from a capability's id to the offset of its
    /// node in configuration space.
    pub caps: Map<u8, u64>,
    /// The six slots of the BAR table.
    pub bars: Seq<Bar>,
}

/// A structure representing a PCI device.
#[derive(Debug)]
pub struct PciDevice {
    /// The path
    path: String,
    /// The configuration space.
    config: Config,
    /// The capabilities of the PCI device.
    caps: HashMap<u8, u64>,
    /// The base address registers, we only need the first 6 ones.
    ///
    /// The populated ones stand first: slot 0 is the first memory BAR of
    /// the device, which for this GPU is the window of its registers.
    bars: [Bar; 6],
}

impl View for PciDevice {
    type V = PciDeviceView;

    closed spec fn view(&self) -> PciDeviceView {
        PciDeviceView {
            path: self.path@,
            header: self.config.config,
            space: self.config.bytes@,
            caps: self.caps@,
            bars: self.bars@,
        }
    }
}

/// Whether the header in `space` names the supported GPU.
pub open spec fn identity_matches(space: Seq<u8>) -> bool {
    le16(space, 0) == NVIDIA_VENDOR_ID && le16(space, 2) == NVIDIA_HOPPER_H100
}

/// Whether the populated slots of a BAR table stand before the empty ones,
/// and every slot is either.
pub open spec fn compact(bars: Seq<Bar>) -> bool {
    &&& forall|i: int| 0 <= i < bars.len() ==> (#[trigger] bars[i]).wf()
    &&& forall|i: int, j: int|
        0 <= i < j < bars.len() && (#[trigger] bars[j]).populated() ==> (#[trigger] bars[i]).populated()
}

/// The capability table that the walk leaves, or why it fails.
pub open spec fn caps_outcome(device: PciDeviceView) -> Result<Map<u8, u64>, DeviceError> {
    if device.header.capabilities_pointer == NO_CAPABILITIES {
        Err(DeviceError::NoCapabilities)
    } else {
        match chain(device.space, device.header.capabilities_pointer, MAX_NODES as nat) {
            Ok(nodes) => Ok(table(nodes, device.caps)),
            Err(e) => Err(e),
        }
    }
}

/// The BAR table that a resource table leaves in place of `before`, or a
/// parse error where one of its lines that count does not parse. The BARs
/// stored fill the table from slot 0; the slots behind them stay.
pub open spec fn bars_outcome(before: Seq<Bar>, resource: Seq<u8>) -> Result<Seq<Bar>, DeviceError> {
    let lines = table_lines(resource);
    if all_parse(lines) {
        Ok(stored(lines) + before.skip(stored(lines).len() as int))
    } else {
        Err(DeviceError::ParseError)
    }
}

impl PciDevice {
    /// The handle is valid: its header is the one at the start of its
    /// configuration space and names the supported GPU, and its BAR table
    /// has its populated slots first.
    pub closed spec fn wf(&self) -> bool {
        &&& self.config.wf()
        &&& identity_matches(self.config.bytes@)
        &&& self.bars@.len() == MAX_BARS
        &&& compact(self.bars@)
    }

    /// What validity means in terms of the view.
    pub proof fn lemma_wf(&self)
        requires
            self.wf(),
        ensures
            self@.space.len() >= HEADER_SIZE,
            self@.header.decodes(self@.space),
            identity_matches(self@.space),
            self@.header.vendor == NVIDIA_VENDOR_ID,
            self@.header.device == NVIDIA_HOPPER_H100,
            self@.bars.len() == MAX_BARS,
            compact(self@.bars),
            self@.caps.dom().finite(),
    {
    }

    /// Create a new instance of `PciDevice` from the path of the device's
    /// directory and the bytes of its configuration space.
    ///
    /// Fails with `ShortRead` where there are fewer bytes than the header
    /// has, and with `UnexpectedDevice` where the header names another
    /// vendor or device. The new handle has no capability and no BAR yet.
    pub fn new(path: &str, space: Vec<u8>) -> (made: Result<PciDevice, DeviceError>)
        ensures
            space@.len() < HEADER_SIZE ==> made == Err::<PciDevice, DeviceError>(
                DeviceError::ShortRead,
            ),
            space@.len() >= HEADER_SIZE && !identity_matches(space@) ==> made == Err::<
                PciDevice,
                DeviceError,
            >(DeviceError::UnexpectedDevice),
            space@.len() >= HEADER_SIZE && identity_matches(space@) ==> made is Ok && {
                let device = made->Ok_0;
                &&& device.wf()
                &&& device@.path == path@
                &&& device@.space == space@
                &&& device@.header.decodes(space@)
                &&& device@.caps == Map::<u8, u64>::empty()
                &&& device@.bars == Seq::new(MAX_BARS as nat, |i: int| Bar::empty())
            },
    {
        let config = match RawConfig::from_bytes(space.as_slice()) {
            Ok(config) => config,
            Err(e) => {
                return Err(e);
            },
        };
        if config.device != NVIDIA_HOPPER_H100 || config.vendor != NVIDIA_VENDOR_ID {
            return Err(DeviceError::UnexpectedDevice);
        }
        let bars: [Bar; 6] = [Bar::default(); 6];
        assert(bars@ =~= Seq::new(MAX_BARS as nat, |i: int| Bar::empty()));
        Ok(
            PciDevice {
                path: path.to_owned(),
                config: Config { config, bytes: space },
                caps: HashMap::new(),
                bars,
            },
        )
    }

    /// Initialize the capabilities of the PCI device.
    ///
    /// Walks the chain of capability nodes in configuration space from the
    /// header's capabilities pointer, and enters each node in the table
    /// under its id. Fails with `NoCapabilities` where the pointer says
    /// that there are none, with `ShortRead` where a node lies outside the
    /// bytes at hand, and with `MalformedCapabilityChain` where the chain
    /// loops. A failed walk leaves the handle as it was.
    pub fn init_caps(&mut self) -> (done: Result<(), DeviceError>)
        requires
            old(self).wf(),
        ensures
            final(self).wf(),
            match caps_outcome(old(self)@) {
                Ok(caps) => done is Ok && final(self)@ == (PciDeviceView { caps, ..old(self)@ }),
                Err(e) => done == Err::<(), DeviceError>(e) && final(self)@ == old(self)@,
            },
            old(self)@.header.capabilities_pointer == NO_CAPABILITIES ==> done == Err::<
                (),
                DeviceError,
            >(DeviceError::NoCapabilities) && final(self)@.caps == old(self)@.caps,
    {
        if self.config.config.capabilities_pointer == NO_CAPABILITIES {
            return Err(DeviceError::NoCapabilities);
        }
        let nodes = match walk(self.config.bytes.as_slice(), self.config.config.capabilities_pointer) {
            Ok(nodes) => nodes,
            Err(e) => {
                return Err(e);
            },
        };
        let mut k: usize = 0;
        assert(nodes@.take(0) == Seq::<(u8, u8)>::empty());
        while k < nodes.len()
            invariant
                k <= nodes@.len(),
                self.wf(),
                self@ == (PciDeviceView { caps: self@.caps, ..old(self)@ }),
                self@.caps == table(nodes@.take(k as int), old(self)@.caps),
            decreases nodes@.len() - k,
        {
            let (id, offset) = nodes[k];
            proof {
                let upto = nodes@.take(k + 1);
                assert(upto.drop_last() == nodes@.take(k as int));
                assert(upto.last() == nodes@[k as int]);
            }
            self.caps.insert(id, offset as u64);
            k += 1;
        }
        assert(nodes@.take(k as int) == nodes@);
        Ok(())
    }

    /// Initialize the base address registers of the PCI device from the
    /// text of its resource table.
    ///
    /// Each of the first six lines gives start address, end address and
    /// flags. A line of an I/O-space BAR or of a BAR without address is
    /// passed over; every other line fills the next free slot, so that slot
    /// 0 holds the first memory BAR. Fails with `ParseError` where one of
    /// those lines does not parse, and leaves the handle as it was.
    pub fn init_bars(&mut self, resource: &str) -> (done: Result<(), DeviceError>)
        requires
            old(self).wf(),
        ensures
            final(self).wf(),
            match bars_outcome(old(self)@.bars, resource.spec_bytes()) {
                Ok(bars) => done is Ok && final(self)@ == (PciDeviceView { bars, ..old(self)@ }),
                Err(e) => done == Err::<(), DeviceError>(e) && final(self)@ == old(self)@,
            },
    {
        let lines = split(resource.as_bytes(), NEWLINE);
        let count: usize = if lines.len() > MAX_BARS {
            MAX_BARS
        } else {
            lines.len()
        };
        let ghost counted = table_lines(resource.spec_bytes());
        let ghost before = self.bars@;
        let mut bars = self.bars;
        let mut i: usize = 0;
        let mut k: usize = 0;
        assert(counted.take(0) == Seq::<Seq<u8>>::empty());
        assert(before.skip(0) == before);
        while k < count
            invariant
                k <= count,
                count == counted.len(),
                count <= MAX_BARS,
                count <= lines@.len(),
                forall|j: int| 0 <= j < count ==> (#[trigger] lines@[j])@ == counted[j],
                forall|j: int| 0 <= j < k ==> line_outcome(#[trigger] counted[j]) is Ok,
                i == stored(counted.take(k as int)).len(),
                i <= k,
                before.len() == MAX_BARS,
                compact(before),
                *self == *old(self),
                self.wf(),
                counted == table_lines(resource.spec_bytes()),
                before == old(self)@.bars,
                bars@ == stored(counted.take(k as int)) + before.skip(i as int),
            decreases count - k,
        {
            proof {
                let upto = counted.take(k + 1);
                assert(upto.drop_last() == counted.take(k as int));
                assert(upto.last() == counted[k as int]);
            }
            match parse_line(lines[k].as_slice()) {
                Err(e) => {
                    return Err(e);
                },
                Ok(None) => {},
                Ok(Some(bar)) => {
                    bars[i] = bar;
                    assert(bars@ == stored(counted.take(k + 1)) + before.skip(i + 1));
                    i += 1;
                },
            }
            k += 1;
        }
        proof {
            assert(counted.take(k as int) == counted);
            lemma_stored_bounds(counted);
            let after = stored(counted) + before.skip(i as int);
            assert forall|a: int, b: int|
                0 <= a < b < after.len() && (#[trigger] after[b]).populated() implies (
            #[trigger] after[a]).populated() by {
                if a >= i {
                    assert(after[a] == before[a]);
                    assert(after[b] == before[b]);
                }
            }
            assert forall|a: int| 0 <= a < after.len() implies (#[trigger] after[a]).wf() by {
                if a >= i {
                    assert(after[a] == before[a]);
                }
            }
        }
        self.bars = bars;
        Ok(())
    }

    /// The path of the device's directory.
    pub fn path(&self) -> (path: &str)
        ensures
            path@ == self@.path,
    {
        self.path.as_str()
    }

    /// The configuration space of the device.
    pub fn config(&self) -> (config: &Config)
        ensures
            config.config == self@.header,
            config.bytes@ == self@.space,
            self.wf() ==> config.wf(),
    {
        &self.config
    }

    /// The offset of the capability with the given id, if the table has
    /// it.
    pub fn capability(&self, id: u8) -> (offset: Option<u64>)
        ensures
            match offset {
                Some(at) => self@.caps.contains_key(id) && self@.caps[id] == at,
                None => !self@.caps.contains_key(id),
            },
    {
        match self.caps.get(&id) {
            Some(at) => Some(*at),
            None => None,
        }
    }

    /// The number of entries of the capability table.
    pub fn capability_count(&self) -> (count: usize)
        ensures
            count == self@.caps.len(),
    {
        self.caps.len()
    }

    /// The BAR table.
    pub fn bars(&self) -> (bars: [Bar; 6])
        ensures
            bars@ == self@.bars,
    {
        self.bars
    }

    /// The first memory BAR of the device.
    pub fn bar0(&self) -> (bar: Bar)
        requires
            self.wf(),
        ensures
            bar == self@.bars[0],
            bar.wf(),
    {
        self.bars[0]
    }
}

/// On a device whose table is empty, a chain of `k` nodes with distinct
/// ids that ends in a node with next offset zero makes the walk succeed
/// and leaves exactly `k` entries, one under each node's id, which leads
/// to the node's offset.
pub proof fn lemma_walk_fills_table(device: PciDeviceView, offsets: Seq<u8>)
    requires
        device.header.capabilities_pointer != NO_CAPABILITIES,
        is_chain(device.space, device.header.capabilities_pointer, offsets),
        distinct_ids(nodes_at(device.space, offsets)),
        device.caps == Map::<u8, u64>::empty(),
    ensures
        caps_outcome(device) is Ok,
        caps_outcome(device)->Ok_0.dom().finite(),
        caps_outcome(device)->Ok_0.len() == offsets.len(),
        forall|i: int|
            0 <= i < offsets.len() ==> {
                let id = device.space[(#[trigger] offsets[i]) as int];
                caps_outcome(device)->Ok_0.contains_key(id) && caps_outcome(device)->Ok_0[id]
                    == offsets[i]
            },
{
    lemma_chain_table(device.space, device.header.capabilities_pointer, offsets);
}

} // verus!
