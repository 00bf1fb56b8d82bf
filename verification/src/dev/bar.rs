//! Base address registers, and the resource table that describes them.

use crate::error::DeviceError;
use crate::text::hex_number;
use crate::text::parse_hex;
use crate::text::pieces;
use crate::text::split;
use crate::text::NEWLINE;
use crate::text::SPACE;
use vstd::prelude::*;
use vstd::slice::slice_subrange;

verus! {

/// The number of slots of a device's BAR table.
pub const MAX_BARS: usize = 6;

/// A structure representing a base address register (BAR).
#[derive(Debug, Copy, Clone, PartialEq, Eq, Structural)]
pub struct Bar {
    /// The address of the BAR.
    pub addr: u64,
    /// The size of the BAR.
    pub size: u64,
    /// The type of the BAR.
    pub is_64: bool,
}

impl Bar {
    /// The descriptor of a slot that holds no BAR.
    pub open spec fn empty() -> Bar {
        Bar { addr: 0, size: 0, is_64: false }
    }

    /// Whether the descriptor stands for a memory window.
    pub open spec fn populated(self) -> bool {
        self.addr != 0 && self.size >= 1
    }

    /// A descriptor either stands for a window, or for none with address
    /// and size both zero.
    pub open spec fn wf(self) -> bool {
        self.populated() || (self.addr == 0 && self.size == 0)
    }

    /// Tells whether the descriptor stands for a memory window.
    pub fn is_populated(&self) -> (yes: bool)
        ensures
            yes == self.populated(),
    {
        self.addr != 0 && self.size >= 1
    }
}

impl Default for Bar {
    fn default() -> (bar: Bar)
        ensures
            bar == Bar::empty(),
    {
        Bar { addr: 0, size: 0, is_64: false }
    }
}

/// A field without the `0x` in front of it, if it has one.
pub open spec fn unprefixed(field: Seq<u8>) -> Seq<u8> {
    if field.len() >= 2 && field[0] == 0x30 && field[1] == 0x78 {
        field.skip(2)
    } else {
        field
    }
}

/// The number that a field of a resource line writes: hexadecimal digits,
/// with or without `0x` in front, that fit in 64 bits.
pub open spec fn field_value(field: Seq<u8>) -> Option<u64> {
    hex_number(unprefixed(field))
}

/// Whether the flags mark a BAR in I/O space.
pub open spec fn flags_io(flags: u64) -> bool {
    flags & 0x1 != 0
}

/// Whether the flags mark a 64-bit BAR.
pub open spec fn flags_wide(flags: u64) -> bool {
    (flags >> 1) & 0x3 == 0x2
}

/// The start address, end address and flags that a resource line gives: its
/// first three fields between single spaces. `None` where the line has
/// fewer than three fields, or one of the three writes no number.
pub open spec fn line_fields(line: Seq<u8>) -> Option<(u64, u64, u64)> {
    let fields = pieces(line, SPACE);
    if fields.len() < 3 {
        None
    } else {
        match (field_value(fields[0]), field_value(fields[1]), field_value(fields[2])) {
            (Some(addr), Some(end), Some(flags)) => Some((addr, end, flags)),
            _ => None,
        }
    }
}

/// What a line of the resource table amounts to: a BAR to store, nothing
/// (`Ok(None)`: an I/O-space BAR or an unpopulated one), or a parse error.
/// A memory BAR that ends before it starts is a parse error too.
pub open spec fn line_outcome(line: Seq<u8>) -> Result<Option<Bar>, DeviceError> {
    match line_fields(line) {
        None => Err(DeviceError::ParseError),
        Some((addr, end, flags)) => {
            if flags_io(flags) || addr == 0 {
                Ok(None)
            } else if end < addr {
                Err(DeviceError::ParseError)
            } else {
                Ok(Some(Bar { addr, size: (end - addr + 1) as u64, is_64: flags_wide(flags) }))
            }
        },
    }
}

/// The BARs that the lines store, in the order of their lines. Lines that
/// store nothing leave no gap.
pub open spec fn stored(lines: Seq<Seq<u8>>) -> Seq<Bar>
    decreases lines.len(),
{
    if lines.len() == 0 {
        Seq::empty()
    } else {
        match line_outcome(lines.last()) {
            Ok(Some(bar)) => stored(lines.drop_last()).push(bar),
            _ => stored(lines.drop_last()),
        }
    }
}

/// Whether every line parses.
pub open spec fn all_parse(lines: Seq<Seq<u8>>) -> bool {
    forall|i: int| 0 <= i < lines.len() ==> line_outcome(#[trigger] lines[i]) is Ok
}

/// The lines of a resource table that count: the first six, or all where
/// there are fewer. The text after the last line feed is a line too.
pub open spec fn table_lines(text: Seq<u8>) -> Seq<Seq<u8>> {
    let all = pieces(text, NEWLINE);
    if all.len() > MAX_BARS {
        all.take(MAX_BARS as int)
    } else {
        all
    }
}

/// Reads one field of a resource line.
pub fn parse_field(field: &[u8]) -> (value: Option<u64>)
    ensures
        value == field_value(field@),
{
    if field.len() >= 2 && field[0] == 0x30 && field[1] == 0x78 {
        parse_hex(slice_subrange(field, 2, field.len()))
    } else {
        parse_hex(field)
    }
}

/// Reads one line of the resource table.
pub fn parse_line(line: &[u8]) -> (outcome: Result<Option<Bar>, DeviceError>)
    ensures
        outcome == line_outcome(line@),
        outcome matches Ok(Some(bar)) ==> bar.populated(),
{
    let fields = split(line, SPACE);
    if fields.len() < 3 {
        return Err(DeviceError::ParseError);
    }
    let addr = match parse_field(fields[0].as_slice()) {
        Some(value) => value,
        None => {
            return Err(DeviceError::ParseError);
        },
    };
    let end = match parse_field(fields[1].as_slice()) {
        Some(value) => value,
        None => {
            return Err(DeviceError::ParseError);
        },
    };
    let flags = match parse_field(fields[2].as_slice()) {
        Some(value) => value,
        None => {
            return Err(DeviceError::ParseError);
        },
    };
    // If the flag's bit 0 is set, then the BAR is not a MMIO BAR.
    // If the address is 0, then the BAR is not there.
    if flags & 0x1 != 0 || addr == 0 {
        return Ok(None);
    }
    if end < addr {
        return Err(DeviceError::ParseError);
    }
    let size = end - addr + 1;
    let is_64 = (flags >> 1) & 0x3 == 0x2;
    Ok(Some(Bar { addr, size, is_64 }))
}

/// A line whose flags have bit 0 set takes no slot: the BARs stored are
/// those of the lines before it.
pub proof fn lemma_io_line_takes_no_slot(lines: Seq<Seq<u8>>, line: Seq<u8>)
    requires
        line_fields(line) matches Some((_, _, flags)) && flags_io(flags),
    ensures
        line_outcome(line) == Ok::<Option<Bar>, DeviceError>(None),
        stored(lines.push(line)) == stored(lines),
{
    assert(lines.push(line).drop_last() == lines);
}

/// A line whose start address is zero takes no slot.
pub proof fn lemma_unpopulated_line_takes_no_slot(lines: Seq<Seq<u8>>, line: Seq<u8>)
    requires
        line_fields(line) matches Some((addr, _, _)) && addr == 0,
    ensures
        line_outcome(line) == Ok::<Option<Bar>, DeviceError>(None),
        stored(lines.push(line)) == stored(lines),
{
    assert(lines.push(line).drop_last() == lines);
}

/// A line of a populated memory BAR takes the next slot, with the size
/// that reaches from its start to its end and the width that bits 1 and 2
/// of its flags give.
pub proof fn lemma_memory_line_takes_next_slot(lines: Seq<Seq<u8>>, line: Seq<u8>)
    requires
        line_fields(line) matches Some((addr, end, flags)) && !flags_io(flags) && addr != 0 && addr
            <= end,
    ensures
        stored(lines.push(line)) == stored(lines).push(
            Bar {
                addr: line_fields(line).unwrap().0,
                size: (line_fields(line).unwrap().1 - line_fields(line).unwrap().0 + 1) as u64,
                is_64: flags_wide(line_fields(line).unwrap().2),
            },
        ),
{
    assert(lines.push(line).drop_last() == lines);
}

/// No more BARs are stored than there are lines, and each is populated.
pub proof fn lemma_stored_bounds(lines: Seq<Seq<u8>>)
    ensures
        stored(lines).len() <= lines.len(),
        forall|i: int| 0 <= i < stored(lines).len() ==> (#[trigger] stored(lines)[i]).populated(),
    decreases lines.len(),
{
    if lines.len() > 0 {
        lemma_stored_bounds(lines.drop_last());
    }
}

} // verus!
