//! Little-endian integers in byte sequences.

use vstd::prelude::*;

verus! {

/// The 16-bit value whose little-endian bytes stand at `at` in `bytes`.
pub open spec fn le16(bytes: Seq<u8>, at: int) -> int {
    bytes[at] as int + 0x100 * (bytes[at + 1] as int)
}

/// The 32-bit value whose little-endian bytes stand at `at` in `bytes`.
pub open spec fn le32(bytes: Seq<u8>, at: int) -> int {
    bytes[at] as int + 0x100 * (bytes[at + 1] as int) + 0x1_0000 * (bytes[at + 2] as int)
        + 0x100_0000 * (bytes[at + 3] as int)
}

/// The two little-endian bytes of `value`.
pub open spec fn le16_bytes(value: u16) -> Seq<u8> {
    seq![(value as int % 0x100) as u8, (value as int / 0x100) as u8]
}

/// The four little-endian bytes of `value`.
pub open spec fn le32_bytes(value: u32) -> Seq<u8> {
    seq![
        (value as int % 0x100) as u8,
        (value as int / 0x100 % 0x100) as u8,
        (value as int / 0x1_0000 % 0x100) as u8,
        (value as int / 0x100_0000) as u8,
    ]
}

/// Reads the little-endian 16-bit value at `at`.
pub fn read_le16(bytes: &[u8], at: usize) -> (value: u16)
    requires
        at + 2 <= bytes@.len(),
    ensures
        value == le16(bytes@, at as int),
{
    let lo: u16 = bytes[at] as u16;
    let hi: u16 = bytes[at + 1] as u16;
    lo + 0x100 * hi
}

/// Reads the little-endian 32-bit value at `at`.
pub fn read_le32(bytes: &[u8], at: usize) -> (value: u32)
    requires
        at + 4 <= bytes@.len(),
    ensures
        value == le32(bytes@, at as int),
{
    let b0: u32 = bytes[at] as u32;
    let b1: u32 = bytes[at + 1] as u32;
    let b2: u32 = bytes[at + 2] as u32;
    let b3: u32 = bytes[at + 3] as u32;
    b0 + 0x100 * b1 + 0x1_0000 * b2 + 0x100_0000 * b3
}

/// Appends the two little-endian bytes of `value` to `out`.
pub fn push_le16(out: &mut Vec<u8>, value: u16)
    ensures
        final(out)@ == old(out)@ + le16_bytes(value),
{
    out.push((value % 0x100) as u8);
    out.push((value / 0x100) as u8);
}

/// Appends the four little-endian bytes of `value` to `out`.
pub fn push_le32(out: &mut Vec<u8>, value: u32)
    ensures
        final(out)@ == old(out)@ + le32_bytes(value),
{
    out.push((value % 0x100) as u8);
    out.push((value / 0x100 % 0x100) as u8);
    out.push((value / 0x1_0000 % 0x100) as u8);
    out.push((value / 0x100_0000) as u8);
}

/// Reading back what was written gives the value, and writing what was read
/// gives the bytes.
pub proof fn lemma_le16_roundtrip(bytes: Seq<u8>, at: int, value: u16)
    requires
        0 <= at,
        at + 2 <= bytes.len(),
    ensures
        0 <= le16(bytes, at) <= u16::MAX,
        le16_bytes(le16(bytes, at) as u16) == bytes.subrange(at, at + 2),
        le16(le16_bytes(value), 0) == value,
{
    assert(le16_bytes(le16(bytes, at) as u16) =~= bytes.subrange(at, at + 2));
}

/// The 32-bit counterpart of [`lemma_le16_roundtrip`].
pub proof fn lemma_le32_roundtrip(bytes: Seq<u8>, at: int, value: u32)
    requires
        0 <= at,
        at + 4 <= bytes.len(),
    ensures
        0 <= le32(bytes, at) <= u32::MAX,
        le32_bytes(le32(bytes, at) as u32) == bytes.subrange(at, at + 4),
        le32(le32_bytes(value), 0) == value,
{
    let v = le32(bytes, at);
    let high = bytes[at + 1] as int + 0x100 * (bytes[at + 2] as int) + 0x1_0000 * (bytes[at + 3] as int);
    let higher = bytes[at + 2] as int + 0x100 * (bytes[at + 3] as int);
    assert(v == bytes[at] as int + 0x100 * high);
    assert(v % 0x100 == bytes[at] as int && v / 0x100 == high);
    assert(high == bytes[at + 1] as int + 0x100 * higher);
    assert(high % 0x100 == bytes[at + 1] as int && high / 0x100 == higher);
    assert(v == bytes[at] as int + 0x100 * (bytes[at + 1] as int) + 0x1_0000 * higher);
    assert(v / 0x1_0000 == higher);
    assert(higher % 0x100 == bytes[at + 2] as int);
    assert(v / 0x100_0000 == bytes[at + 3] as int);
    assert(le32_bytes(v as u32) =~= bytes.subrange(at, at + 4));

    let x = value as int;
    let q1 = x / 0x100;
    let q2 = q1 / 0x100;
    let q3 = q2 / 0x100;
    assert(x == 0x100 * q1 + x % 0x100);
    assert(q1 == 0x100 * q2 + q1 % 0x100);
    assert(q2 == 0x100 * q3 + q2 % 0x100);
    assert(x / 0x1_0000 == q2);
    assert(x / 0x100_0000 == q3);
}

} // verus!
