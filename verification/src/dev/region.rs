//! The listing of physical memory regions, and the region in it that a
//! marker names.

use crate::error::DeviceError;
use crate::text::contains;
use crate::text::find;
use crate::text::hex_number;
use crate::text::parse_hex;
use crate::text::pieces;
use crate::text::scan;
use crate::text::span;
use crate::text::split;
use crate::text::ByteClass;
use crate::text::DASH;
use crate::text::NEWLINE;
use vstd::prelude::*;
use vstd::slice::slice_subrange;

verus! {

/// A range of physical addresses: `size` bytes from `start`.
#[derive(Debug, Copy, Clone, PartialEq, Eq, Structural)]
pub struct Region {
    /// The first address of the range.
    pub start: u64,
    /// The number of bytes of the range, at least one.
    pub size: u64,
}

/// The first word of a line: what stands between the blanks that the line
/// starts with and the next blank.
pub open spec fn leading_word(line: Seq<u8>) -> Seq<u8> {
    let body = line.skip(span(line, ByteClass::Blank, true));
    body.take(span(body, ByteClass::Blank, false))
}

/// The region that a word of the form `start-end` names, both ends in
/// hexadecimal digits and included in the region. `None` where the word is
/// of another form, ends before it starts, or spans more than 64 bits
/// count.
pub open spec fn word_region(word: Seq<u8>) -> Option<Region> {
    let ends = pieces(word, DASH);
    if ends.len() != 2 {
        None
    } else {
        match (hex_number(ends[0]), hex_number(ends[1])) {
            (Some(start), Some(end)) => {
                if start <= end && end - start + 1 <= u64::MAX {
                    Some(Region { start, size: (end - start + 1) as u64 })
                } else {
                    None
                }
            },
            _ => None,
        }
    }
}

/// The first of the lines that holds the marker.
pub open spec fn first_marked(lines: Seq<Seq<u8>>, marker: Seq<u8>) -> Option<Seq<u8>>
    decreases lines.len(),
{
    if lines.len() == 0 {
        None
    } else if contains(lines[0], marker) {
        Some(lines[0])
    } else {
        first_marked(lines.drop_first(), marker)
    }
}

/// The region of the first line of the listing that holds the marker:
/// `Ok(None)` where no line holds it, a parse error where that line does
/// not start with a range.
pub open spec fn marked_region(listing: Seq<u8>, marker: Seq<u8>) -> Result<
    Option<Region>,
    DeviceError,
> {
    match first_marked(pieces(listing, NEWLINE), marker) {
        None => Ok(None),
        Some(line) => match word_region(leading_word(line)) {
            Some(region) => Ok(Some(region)),
            None => Err(DeviceError::ParseError),
        },
    }
}

/// Reads the range that a line of the listing starts with.
pub fn parse_range(line: &[u8]) -> (region: Option<Region>)
    ensures
        region == word_region(leading_word(line@)),
        region matches Some(r) ==> r.size >= 1,
{
    assert(line@.skip(0) == line@);
    let from = scan(line, 0, ByteClass::Blank, true);
    let to = scan(line, from, ByteClass::Blank, false);
    let word = slice_subrange(line, from, to);
    assert(word@ == leading_word(line@));
    let ends = split(word, DASH);
    if ends.len() != 2 {
        return None;
    }
    let start = match parse_hex(ends[0].as_slice()) {
        Some(value) => value,
        None => {
            return None;
        },
    };
    let end = match parse_hex(ends[1].as_slice()) {
        Some(value) => value,
        None => {
            return None;
        },
    };
    if end < start || end - start == u64::MAX {
        return None;
    }
    Some(Region { start, size: end - start + 1 })
}

/// Looks in the listing for the first line that holds the marker, and
/// reads the range that it starts with.
pub fn find_region(listing: &[u8], marker: &[u8]) -> (found: Result<Option<Region>, DeviceError>)
    ensures
        found == marked_region(listing@, marker@),
        found matches Ok(Some(r)) ==> r.size >= 1,
{
    let lines = split(listing, NEWLINE);
    let ghost all = pieces(listing@, NEWLINE);
    let mut k: usize = 0;
    assert(all.skip(0) == all);
    while k < lines.len()
        invariant
            k <= lines@.len(),
            all == pieces(listing@, NEWLINE),
            lines@.len() == all.len(),
            forall|i: int| 0 <= i < lines@.len() ==> (#[trigger] lines@[i])@ == all[i],
            first_marked(all, marker@) == first_marked(all.skip(k as int), marker@),
        decreases lines@.len() - k,
    {
        let ghost rest = all.skip(k as int);
        assert(rest[0] == all[k as int]);
        assert(rest.drop_first() == all.skip(k + 1));
        if find(lines[k].as_slice(), marker) {
            return match parse_range(lines[k].as_slice()) {
                Some(region) => Ok(Some(region)),
                None => Err(DeviceError::ParseError),
            };
        }
        k += 1;
    }
    Ok(None)
}

} // verus!
