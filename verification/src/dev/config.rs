//! The configuration header of a PCI device, as its bytes lay it out.

use crate::error::DeviceError;
use crate::le::le16;
use crate::le::le16_bytes;
use crate::le::le32;
use crate::le::le32_bytes;
use crate::le::lemma_le16_roundtrip;
use crate::le::lemma_le32_roundtrip;
use crate::le::push_le16;
use crate::le::push_le32;
use crate::le::read_le16;
use crate::le::read_le32;
use vstd::prelude::*;

verus! {

/// The number of bytes of the configuration header.
pub const HEADER_SIZE: usize = 64;

/// The configuration header of a PCI device.
///
/// Every field stands at a fixed offset of the 64 bytes, in the order of
/// the fields below, multi-byte fields in little-endian order. The two
/// reserved fields keep their bytes, so that a header can be written back
/// as it was read.
#[derive(Debug, Clone, Copy)]
pub struct RawConfig {
    /// Offset 0.
    pub vendor: u16,
    /// Offset 2.
    pub device: u16,
    /// Offset 4.
    pub status: u16,
    /// Offset 6.
    pub command: u16,
    /// Offset 8.
    pub rev_id: u8,
    /// Offset 9.
    pub class_code: [u8; 3],
    /// Offset 12.
    pub bist: u8,
    /// Offset 13.
    pub header_type: u8,
    /// Offset 14.
    pub latency_timer: u8,
    /// Offset 15.
    pub cache_line_size: u8,
    /// Offset 16, four bytes each.
    pub bars: [u32; 6],
    /// Offset 40.
    pub cardbus_cis_pointer: u32,
    /// Offset 44.
    pub subsystem_vendor_id: u16,
    /// Offset 46.
    pub subsystem_id: u16,
    /// Offset 48.
    pub expansion_rom_base_address: u32,
    /// Offset 52.
    pub capabilities_pointer: u8,
    /// Offset 53, reserved.
    pub pad0: [u8; 3],
    /// Offset 56, reserved.
    pub pad1: u32,
    /// Offset 60.
    pub max_latency: u8,
    /// Offset 61.
    pub min_grant: u8,
    /// Offset 62.
    pub interrupt_pin: u8,
    /// Offset 63.
    pub interrupt_line: u8,
}

impl RawConfig {
    /// Whether every field holds what `bytes` has at the field's offset.
    pub open spec fn decodes(&self, bytes: Seq<u8>) -> bool {
        &&& self.vendor == le16(bytes, 0)
        &&& self.device == le16(bytes, 2)
        &&& self.status == le16(bytes, 4)
        &&& self.command == le16(bytes, 6)
        &&& self.rev_id == bytes[8]
        &&& self.class_code@ == bytes.subrange(9, 12)
        &&& self.bist == bytes[12]
        &&& self.header_type == bytes[13]
        &&& self.latency_timer == bytes[14]
        &&& self.cache_line_size == bytes[15]
        &&& self.bars@[0] == le32(bytes, 16)
        &&& self.bars@[1] == le32(bytes, 20)
        &&& self.bars@[2] == le32(bytes, 24)
        &&& self.bars@[3] == le32(bytes, 28)
        &&& self.bars@[4] == le32(bytes, 32)
        &&& self.bars@[5] == le32(bytes, 36)
        &&& self.cardbus_cis_pointer == le32(bytes, 40)
        &&& self.subsystem_vendor_id == le16(bytes, 44)
        &&& self.subsystem_id == le16(bytes, 46)
        &&& self.expansion_rom_base_address == le32(bytes, 48)
        &&& self.capabilities_pointer == bytes[52]
        &&& self.pad0@ == bytes.subrange(53, 56)
        &&& self.pad1 == le32(bytes, 56)
        &&& self.max_latency == bytes[60]
        &&& self.min_grant == bytes[61]
        &&& self.interrupt_pin == bytes[62]
        &&& self.interrupt_line == bytes[63]
    }

    /// The bytes at offsets 0 to 15: identity, status, class and timing.
    pub open spec fn head_bytes(&self) -> Seq<u8> {
        le16_bytes(self.vendor) + le16_bytes(self.device) + le16_bytes(self.status) + le16_bytes(
            self.command,
        ) + seq![self.rev_id] + self.class_code@ + seq![
            self.bist,
            self.header_type,
            self.latency_timer,
            self.cache_line_size,
        ]
    }

    /// The bytes at offsets 16 to 39: the six raw base address registers.
    pub open spec fn bar_bytes(&self) -> Seq<u8> {
        le32_bytes(self.bars@[0]) + le32_bytes(self.bars@[1]) + le32_bytes(self.bars@[2])
            + le32_bytes(self.bars@[3]) + le32_bytes(self.bars@[4]) + le32_bytes(self.bars@[5])
    }

    /// The bytes at offsets 40 to 63: subsystem, ROM, capabilities pointer,
    /// the reserved bytes and the interrupt fields.
    pub open spec fn tail_bytes(&self) -> Seq<u8> {
        le32_bytes(self.cardbus_cis_pointer) + le16_bytes(self.subsystem_vendor_id) + le16_bytes(
            self.subsystem_id,
        ) + le32_bytes(self.expansion_rom_base_address) + seq![self.capabilities_pointer]
            + self.pad0@ + le32_bytes(self.pad1) + seq![
            self.max_latency,
            self.min_grant,
            self.interrupt_pin,
            self.interrupt_line,
        ]
    }

    /// The 64 bytes of the header: each field at its offset.
    pub open spec fn encoding(&self) -> Seq<u8> {
        self.head_bytes() + self.bar_bytes() + self.tail_bytes()
    }

    /// Decodes the header that the first 64 bytes of `bytes` hold.
    ///
    /// Fails with `ShortRead`, and with nothing else, exactly when there
    /// are fewer than 64 bytes.
    pub fn from_bytes(bytes: &[u8]) -> (decoded: Result<RawConfig, DeviceError>)
        ensures
            bytes@.len() < HEADER_SIZE ==> decoded == Err::<RawConfig, DeviceError>(
                DeviceError::ShortRead,
            ),
            bytes@.len() >= HEADER_SIZE ==> decoded is Ok && decoded->Ok_0.decodes(bytes@),
    {
        if bytes.len() < HEADER_SIZE {
            return Err(DeviceError::ShortRead);
        }
        let class_code: [u8; 3] = [bytes[9], bytes[10], bytes[11]];
        let bars: [u32; 6] = [
            read_le32(bytes, 16),
            read_le32(bytes, 20),
            read_le32(bytes, 24),
            read_le32(bytes, 28),
            read_le32(bytes, 32),
            read_le32(bytes, 36),
        ];
        let pad0: [u8; 3] = [bytes[53], bytes[54], bytes[55]];
        assert(class_code@ =~= bytes@.subrange(9, 12));
        assert(pad0@ =~= bytes@.subrange(53, 56));
        Ok(
            RawConfig {
                vendor: read_le16(bytes, 0),
                device: read_le16(bytes, 2),
                status: read_le16(bytes, 4),
                command: read_le16(bytes, 6),
                rev_id: bytes[8],
                class_code,
                bist: bytes[12],
                header_type: bytes[13],
                latency_timer: bytes[14],
                cache_line_size: bytes[15],
                bars,
                cardbus_cis_pointer: read_le32(bytes, 40),
                subsystem_vendor_id: read_le16(bytes, 44),
                subsystem_id: read_le16(bytes, 46),
                expansion_rom_base_address: read_le32(bytes, 48),
                capabilities_pointer: bytes[52],
                pad0,
                pad1: read_le32(bytes, 56),
                max_latency: bytes[60],
                min_grant: bytes[61],
                interrupt_pin: bytes[62],
                interrupt_line: bytes[63],
            },
        )
    }

    /// Writes the header out as its 64 bytes.
    pub fn to_bytes(&self) -> (out: Vec<u8>)
        ensures
            out@ == self.encoding(),
            out@.len() == HEADER_SIZE,
    {
        let mut out: Vec<u8> = Vec::new();
        push_le16(&mut out, self.vendor);
        push_le16(&mut out, self.device);
        push_le16(&mut out, self.status);
        push_le16(&mut out, self.command);
        out.push(self.rev_id);
        out.push(self.class_code[0]);
        out.push(self.class_code[1]);
        out.push(self.class_code[2]);
        out.push(self.bist);
        out.push(self.header_type);
        out.push(self.latency_timer);
        out.push(self.cache_line_size);
        push_le32(&mut out, self.bars[0]);
        push_le32(&mut out, self.bars[1]);
        push_le32(&mut out, self.bars[2]);
        push_le32(&mut out, self.bars[3]);
        push_le32(&mut out, self.bars[4]);
        push_le32(&mut out, self.bars[5]);
        push_le32(&mut out, self.cardbus_cis_pointer);
        push_le16(&mut out, self.subsystem_vendor_id);
        push_le16(&mut out, self.subsystem_id);
        push_le32(&mut out, self.expansion_rom_base_address);
        out.push(self.capabilities_pointer);
        out.push(self.pad0[0]);
        out.push(self.pad0[1]);
        out.push(self.pad0[2]);
        push_le32(&mut out, self.pad1);
        out.push(self.max_latency);
        out.push(self.min_grant);
        out.push(self.interrupt_pin);
        out.push(self.interrupt_line);
        assert(out@ =~= self.encoding());
        out
    }
}

/// Decoding fixes every field: two headers that decode the same bytes are
/// the same header.
pub proof fn lemma_decoding_is_a_function(a: RawConfig, b: RawConfig, bytes: Seq<u8>)
    requires
        a.decodes(bytes),
        b.decodes(bytes),
    ensures
        a == b,
{
    assert(a.class_code =~= b.class_code);
    assert(a.pad0 =~= b.pad0);
    assert(a.bars =~= b.bars);
}

proof fn lemma_head_of_decoded(header: RawConfig, bytes: Seq<u8>)
    requires
        bytes.len() >= HEADER_SIZE,
        header.decodes(bytes),
    ensures
        header.head_bytes() == bytes.subrange(0, 16),
{
    lemma_le16_roundtrip(bytes, 0, 0);
    lemma_le16_roundtrip(bytes, 2, 0);
    lemma_le16_roundtrip(bytes, 4, 0);
    lemma_le16_roundtrip(bytes, 6, 0);
    let parts = bytes.subrange(0, 2) + bytes.subrange(2, 4) + bytes.subrange(4, 6)
        + bytes.subrange(6, 8) + seq![bytes[8]] + bytes.subrange(9, 12) + seq![
        bytes[12],
        bytes[13],
        bytes[14],
        bytes[15],
    ];
    assert(parts =~= bytes.subrange(0, 16));
}

proof fn lemma_bars_of_decoded(header: RawConfig, bytes: Seq<u8>)
    requires
        bytes.len() >= HEADER_SIZE,
        header.decodes(bytes),
    ensures
        header.bar_bytes() == bytes.subrange(16, 40),
{
    lemma_le32_roundtrip(bytes, 16, 0);
    lemma_le32_roundtrip(bytes, 20, 0);
    lemma_le32_roundtrip(bytes, 24, 0);
    lemma_le32_roundtrip(bytes, 28, 0);
    lemma_le32_roundtrip(bytes, 32, 0);
    lemma_le32_roundtrip(bytes, 36, 0);
    let parts = bytes.subrange(16, 20) + bytes.subrange(20, 24) + bytes.subrange(24, 28)
        + bytes.subrange(28, 32) + bytes.subrange(32, 36) + bytes.subrange(36, 40);
    assert(parts =~= bytes.subrange(16, 40));
}

proof fn lemma_tail_of_decoded(header: RawConfig, bytes: Seq<u8>)
    requires
        bytes.len() >= HEADER_SIZE,
        header.decodes(bytes),
    ensures
        header.tail_bytes() == bytes.subrange(40, 64),
{
    lemma_le32_roundtrip(bytes, 40, 0);
    lemma_le16_roundtrip(bytes, 44, 0);
    lemma_le16_roundtrip(bytes, 46, 0);
    lemma_le32_roundtrip(bytes, 48, 0);
    lemma_le32_roundtrip(bytes, 56, 0);
    let parts = bytes.subrange(40, 44) + bytes.subrange(44, 46) + bytes.subrange(46, 48)
        + bytes.subrange(48, 52) + seq![bytes[52]] + bytes.subrange(53, 56) + bytes.subrange(
        56,
        60,
    ) + seq![bytes[60], bytes[61], bytes[62], bytes[63]];
    assert(parts =~= bytes.subrange(40, 64));
}

/// Round trip from bytes: writing out a header that was decoded from
/// `bytes` gives the first 64 of those bytes again.
pub proof fn lemma_encoding_of_decoded(header: RawConfig, bytes: Seq<u8>)
    requires
        bytes.len() >= HEADER_SIZE,
        header.decodes(bytes),
    ensures
        header.encoding() == bytes.take(HEADER_SIZE as int),
{
    lemma_head_of_decoded(header, bytes);
    lemma_bars_of_decoded(header, bytes);
    lemma_tail_of_decoded(header, bytes);
    assert(bytes.subrange(0, 16) + bytes.subrange(16, 40) + bytes.subrange(40, 64) =~= bytes.take(
        64,
    ));
}

/// Round trip from a header: its encoding has 64 bytes and decodes to it.
pub proof fn lemma_decoding_of_encoded(header: RawConfig)
    ensures
        header.encoding().len() == HEADER_SIZE,
        header.decodes(header.encoding()),
{
    let bytes = header.encoding();
    lemma_le16_roundtrip(bytes, 0, header.vendor);
    lemma_le16_roundtrip(bytes, 0, header.device);
    lemma_le16_roundtrip(bytes, 0, header.status);
    lemma_le16_roundtrip(bytes, 0, header.command);
    lemma_le16_roundtrip(bytes, 0, header.subsystem_vendor_id);
    lemma_le16_roundtrip(bytes, 0, header.subsystem_id);
    lemma_le32_roundtrip(bytes, 0, header.bars@[0]);
    lemma_le32_roundtrip(bytes, 0, header.bars@[1]);
    lemma_le32_roundtrip(bytes, 0, header.bars@[2]);
    lemma_le32_roundtrip(bytes, 0, header.bars@[3]);
    lemma_le32_roundtrip(bytes, 0, header.bars@[4]);
    lemma_le32_roundtrip(bytes, 0, header.bars@[5]);
    lemma_le32_roundtrip(bytes, 0, header.cardbus_cis_pointer);
    lemma_le32_roundtrip(bytes, 0, header.expansion_rom_base_address);
    lemma_le32_roundtrip(bytes, 0, header.pad1);
    assert(header.class_code@ =~= bytes.subrange(9, 12));
    assert(header.pad0@ =~= bytes.subrange(53, 56));
}

} // verus!
