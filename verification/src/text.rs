//! Text as bytes: runs of a class of bytes, pieces between separators,
//! substring search and hexadecimal numbers.

use vstd::prelude::*;
use vstd::slice::slice_subrange;
use vstd::slice::slice_to_vec;

verus! {

/// The line separator of the tables this crate reads.
pub const NEWLINE: u8 = 0x0a;

/// The field separator of a resource-table line.
pub const SPACE: u8 = 0x20;

/// The separator between the two ends of an address range.
pub const DASH: u8 = 0x2d;

/// A class of bytes, for scanning.
#[derive(Clone, Copy, Debug)]
pub enum ByteClass {
    /// The one byte given.
    Is(u8),
    /// ASCII whitespace: space, tab, line feed, vertical tab, form feed,
    /// carriage return.
    Blank,
}

impl ByteClass {
    /// Whether `b` belongs to the class.
    pub open spec fn holds(self, b: u8) -> bool {
        match self {
            ByteClass::Is(c) => b == c,
            ByteClass::Blank => b == 0x20 || (0x09 <= b && b <= 0x0d),
        }
    }

    /// Tells whether `b` belongs to the class.
    pub fn has(self, b: u8) -> (yes: bool)
        ensures
            yes == self.holds(b),
    {
        match self {
            ByteClass::Is(c) => b == c,
            ByteClass::Blank => b == 0x20 || (0x09 <= b && b <= 0x0d),
        }
    }
}

/// The length of the longest prefix of `s` whose bytes are all inside the
/// class (`inside` true) or all outside it (`inside` false).
pub open spec fn span(s: Seq<u8>, class: ByteClass, inside: bool) -> int
    decreases s.len(),
{
    if s.len() > 0 && class.holds(s[0]) == inside {
        1 + span(s.drop_first(), class, inside)
    } else {
        0
    }
}

/// `span` is the one index that ends a run: every byte before it is on the
/// wanted side of the class, and the byte at it, if any, is not.
pub proof fn lemma_span(s: Seq<u8>, class: ByteClass, inside: bool, n: int)
    requires
        0 <= n <= s.len(),
        forall|j: int| 0 <= j < n ==> class.holds(#[trigger] s[j]) == inside,
        n < s.len() ==> class.holds(s[n]) != inside,
    ensures
        span(s, class, inside) == n,
    decreases s.len(),
{
    if n > 0 {
        let rest = s.drop_first();
        assert forall|j: int| 0 <= j < n - 1 implies class.holds(#[trigger] rest[j]) == inside by {
            assert(rest[j] == s[j + 1]);
        }
        lemma_span(rest, class, inside, n - 1);
    }
}

/// Finds where the run that starts at `from` ends.
pub fn scan(bytes: &[u8], from: usize, class: ByteClass, inside: bool) -> (end: usize)
    requires
        from <= bytes@.len(),
    ensures
        from <= end <= bytes@.len(),
        end - from == span(bytes@.skip(from as int), class, inside),
{
    let mut end: usize = from;
    while end < bytes.len() && class.has(bytes[end]) == inside
        invariant
            from <= end <= bytes@.len(),
            forall|j: int| from <= j < end ==> class.holds(#[trigger] bytes@[j]) == inside,
        decreases bytes@.len() - end,
    {
        end += 1;
    }
    proof {
        let rest = bytes@.skip(from as int);
        assert forall|j: int| 0 <= j < end - from implies class.holds(#[trigger] rest[j])
            == inside by {
            assert(rest[j] == bytes@[from + j]);
        }
        lemma_span(rest, class, inside, end - from);
    }
    end
}

/// The pieces of `s` between occurrences of `sep`: one more piece than there
/// are separators, so the empty text has one empty piece, and a text that
/// ends in a separator ends in an empty piece.
pub open spec fn pieces(s: Seq<u8>, sep: u8) -> Seq<Seq<u8>>
    decreases s.len(),
{
    let n = span(s, ByteClass::Is(sep), false);
    if 0 <= n < s.len() {
        seq![s.take(n)] + pieces(s.skip(n + 1), sep)
    } else {
        seq![s]
    }
}

/// Splits `bytes` at every `sep`.
pub fn split(bytes: &[u8], sep: u8) -> (parts: Vec<Vec<u8>>)
    ensures
        parts@.len() == pieces(bytes@, sep).len(),
        forall|i: int| 0 <= i < parts@.len() ==> (#[trigger] parts@[i])@ == pieces(bytes@, sep)[i],
{
    let mut parts: Vec<Vec<u8>> = Vec::new();
    let ghost mut done: Seq<Seq<u8>> = Seq::empty();
    let mut from: usize = 0;
    assert(bytes@.skip(0) == bytes@);
    loop
        invariant_except_break
            from <= bytes@.len(),
            pieces(bytes@, sep) == done + pieces(bytes@.skip(from as int), sep),
        invariant
            parts@.len() == done.len(),
            forall|i: int| 0 <= i < parts@.len() ==> (#[trigger] parts@[i])@ == done[i],
        ensures
            done == pieces(bytes@, sep),
        decreases bytes@.len() - from,
    {
        let end = scan(bytes, from, ByteClass::Is(sep), false);
        let part = slice_to_vec(slice_subrange(bytes, from, end));
        let ghost rest = bytes@.skip(from as int);
        proof {
            assert(part@ == rest.take(end - from));
            if end < bytes@.len() {
                assert(rest.skip(end - from + 1) == bytes@.skip(end + 1));
                assert(done.push(part@) + pieces(bytes@.skip(end + 1), sep) == done + (seq![part@]
                    + pieces(bytes@.skip(end + 1), sep)));
            } else {
                assert(part@ == rest);
                assert(done.push(part@) == done + seq![rest]);
            }
            done = done.push(part@);
        }
        parts.push(part);
        if end == bytes.len() {
            break ;
        }
        from = end + 1;
    }
    parts
}

/// Whether `pattern` stands in `s` at index `at`.
pub open spec fn occurs_at(s: Seq<u8>, pattern: Seq<u8>, at: int) -> bool {
    0 <= at && at + pattern.len() <= s.len() && s.subrange(at, at + pattern.len()) == pattern
}

/// Whether `pattern` stands somewhere in `s`. The empty pattern stands in
/// every text.
pub open spec fn contains(s: Seq<u8>, pattern: Seq<u8>) -> bool {
    exists|at: int| occurs_at(s, pattern, at)
}

/// Tells whether `pattern` stands in `bytes` at `at`.
pub fn matches_at(bytes: &[u8], pattern: &[u8], at: usize) -> (yes: bool)
    requires
        at + pattern@.len() <= bytes@.len(),
    ensures
        yes == occurs_at(bytes@, pattern@, at as int),
{
    let n = bytes.len();
    let mut k: usize = 0;
    while k < pattern.len()
        invariant
            k <= pattern@.len(),
            n == bytes@.len(),
            at + pattern@.len() <= bytes@.len(),
            forall|j: int| 0 <= j < k ==> bytes@[at + j] == pattern@[j],
        decreases pattern@.len() - k,
    {
        if bytes[at + k] != pattern[k] {
            proof {
                let window = bytes@.subrange(at as int, at + pattern@.len());
                assert(window[k as int] != pattern@[k as int]);
            }
            return false;
        }
        k += 1;
    }
    assert(bytes@.subrange(at as int, at + pattern@.len()) =~= pattern@);
    true
}

/// Tells whether `pattern` stands somewhere in `bytes`.
pub fn find(bytes: &[u8], pattern: &[u8]) -> (yes: bool)
    ensures
        yes == contains(bytes@, pattern@),
{
    if pattern.len() > bytes.len() {
        return false;
    }
    let last: usize = bytes.len() - pattern.len();
    let mut at: usize = 0;
    loop
        invariant
            last == bytes@.len() - pattern@.len(),
            at <= last,
            forall|j: int| 0 <= j < at ==> !occurs_at(bytes@, pattern@, j),
        decreases last - at,
    {
        if matches_at(bytes, pattern, at) {
            return true;
        }
        if at == last {
            return false;
        }
        at += 1;
    }
}

/// The value of a hexadecimal digit, upper or lower case.
pub open spec fn digit(b: u8) -> Option<int> {
    if 0x30 <= b <= 0x39 {
        Some(b - 0x30)
    } else if 0x61 <= b <= 0x66 {
        Some(b - 0x61 + 10)
    } else if 0x41 <= b <= 0x46 {
        Some(b - 0x41 + 10)
    } else {
        None
    }
}

/// Whether `s` is one or more hexadecimal digits.
pub open spec fn is_hex(s: Seq<u8>) -> bool {
    s.len() > 0 && forall|i: int| 0 <= i < s.len() ==> digit(#[trigger] s[i]) is Some
}

/// The number that the digits of `s` write in base 16, most significant
/// digit first.
pub open spec fn hex_value(s: Seq<u8>) -> int
    decreases s.len(),
{
    if s.len() == 0 {
        0
    } else {
        16 * hex_value(s.drop_last()) + digit(s.last()).unwrap()
    }
}

/// The number that `s` writes, if `s` is one or more hexadecimal digits and
/// the number fits in 64 bits.
pub open spec fn hex_number(s: Seq<u8>) -> Option<u64> {
    if is_hex(s) && hex_value(s) <= u64::MAX {
        Some(hex_value(s) as u64)
    } else {
        None
    }
}

/// The value of a prefix of digits is at most the value of the whole.
pub proof fn lemma_hex_value_grows(s: Seq<u8>, n: int)
    requires
        is_hex(s),
        0 <= n <= s.len(),
    ensures
        0 <= hex_value(s.take(n)) <= hex_value(s),
    decreases s.len() - n,
{
    if n == s.len() {
        assert(s.take(n) == s);
        lemma_hex_value_step(s, n);
    } else {
        lemma_hex_value_grows(s, n + 1);
        lemma_hex_value_step(s, n + 1);
    }
}

/// How the value of a prefix follows from that of the prefix one shorter.
pub proof fn lemma_hex_value_step(s: Seq<u8>, n: int)
    requires
        is_hex(s),
        0 <= n <= s.len(),
    ensures
        0 <= hex_value(s.take(n)),
        n > 0 ==> hex_value(s.take(n)) == 16 * hex_value(s.take(n - 1)) + digit(s[n - 1]).unwrap(),
    decreases n,
{
    if n > 0 {
        lemma_hex_value_step(s, n - 1);
        assert(s.take(n).drop_last() == s.take(n - 1));
        assert(s.take(n).last() == s[n - 1]);
    }
}

/// Reads the value of one hexadecimal digit.
pub fn digit_value(b: u8) -> (value: Option<u8>)
    ensures
        match value {
            Some(v) => digit(b) == Some(v as int),
            None => digit(b) is None,
        },
{
    if 0x30 <= b && b <= 0x39 {
        Some(b - 0x30)
    } else if 0x61 <= b && b <= 0x66 {
        Some(b - 0x61 + 10)
    } else if 0x41 <= b && b <= 0x46 {
        Some(b - 0x41 + 10)
    } else {
        None
    }
}

/// Reads a hexadecimal number that fills `bytes`.
pub fn parse_hex(bytes: &[u8]) -> (number: Option<u64>)
    ensures
        number == hex_number(bytes@),
{
    if bytes.len() == 0 {
        return None;
    }
    let mut value: u64 = 0;
    let mut i: usize = 0;
    while i < bytes.len()
        invariant
            i <= bytes@.len(),
            forall|j: int| 0 <= j < i ==> digit(#[trigger] bytes@[j]) is Some,
            value == hex_value(bytes@.take(i as int)),
        decreases bytes@.len() - i,
    {
        match digit_value(bytes[i]) {
            None => {
                return None;
            },
            Some(d) => {
                proof {
                    if is_hex(bytes@) {
                        lemma_hex_value_step(bytes@, i + 1);
                        lemma_hex_value_grows(bytes@, i + 1);
                    }
                }
                if value > (u64::MAX - d as u64) / 16 {
                    return None;
                }
                proof {
                    let s = bytes@.take(i + 1);
                    assert(s.drop_last() == bytes@.take(i as int));
                    assert(s.last() == bytes@[i as int]);
                }
                value = 16 * value + d as u64;
                i += 1;
            },
        }
    }
    assert(bytes@.take(i as int) == bytes@);
    Some(value)
}

} // verus!
