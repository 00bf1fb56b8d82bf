use nvtrust::dev::region::find_region;
use nvtrust::dev::region::parse_range;
use nvtrust::dev::region::Region;
use nvtrust::text::digit_value;
use nvtrust::text::find;
use nvtrust::text::matches_at;
use nvtrust::text::parse_hex;
use nvtrust::text::scan;
use nvtrust::text::split;
use nvtrust::text::ByteClass;
use nvtrust::DeviceError;

#[test]
fn split_gives_one_more_piece_than_separators() {
    assert_eq!(split(b"a b c", b' '), vec![b"a".to_vec(), b"b".to_vec(), b"c".to_vec()]);
    assert_eq!(split(b"", b' '), vec![Vec::<u8>::new()]);
    assert_eq!(split(b"abc", b' '), vec![b"abc".to_vec()]);
    assert_eq!(split(b" ", b' '), vec![Vec::<u8>::new(), Vec::new()]);
    assert_eq!(split(b"a\n", b'\n'), vec![b"a".to_vec(), Vec::new()]);
    assert_eq!(split(b"a  b", b' '), vec![b"a".to_vec(), Vec::new(), b"b".to_vec()]);
}

#[test]
fn split_agrees_with_the_standard_library() {
    for text in ["", "x", "one two", " lead", "trail ", "a  b   c", "   "] {
        let expected: Vec<Vec<u8>> = text.split(' ').map(|s| s.as_bytes().to_vec()).collect();
        assert_eq!(split(text.as_bytes(), b' '), expected, "text {:?}", text);
    }
}

#[test]
fn scan_finds_the_end_of_a_run() {
    let bytes = b"  \tword rest";
    assert_eq!(scan(bytes, 0, ByteClass::Blank, true), 3);
    assert_eq!(scan(bytes, 3, ByteClass::Blank, false), 7);
    assert_eq!(scan(bytes, 3, ByteClass::Is(b'd'), false), 6);
    assert_eq!(scan(bytes, 8, ByteClass::Blank, false), bytes.len());
    assert_eq!(scan(bytes, bytes.len(), ByteClass::Blank, true), bytes.len());
    assert!(ByteClass::Blank.has(b'\r'));
    assert!(!ByteClass::Blank.has(b'-'));
}

#[test]
fn find_looks_for_a_substring() {
    assert!(find(b"  bb000000-bbffffff : nvidia", b"nvidia"));
    assert!(find(b"nvidia", b"nvidia"));
    assert!(find(b"xnvidiax", b"nvidia"));
    assert!(!find(b"nvidi", b"nvidia"));
    assert!(!find(b"nvid ia", b"nvidia"));
    assert!(!find(b"", b"nvidia"));
    assert!(find(b"", b""));
    assert!(find(b"abc", b""));
    assert!(find(b"aab", b"ab"));
    assert!(matches_at(b"aab", b"ab", 1));
    assert!(!matches_at(b"aab", b"ab", 0));
}

#[test]
fn parse_hex_reads_digits_of_both_cases() {
    assert_eq!(parse_hex(b"0"), Some(0));
    assert_eq!(parse_hex(b"10"), Some(16));
    assert_eq!(parse_hex(b"bb0fffff"), Some(0xbb0fffff));
    assert_eq!(parse_hex(b"DeadBeef"), Some(0xdeadbeef));
    assert_eq!(parse_hex(b"0000000000000000000001"), Some(1));
    assert_eq!(digit_value(b'a'), Some(10));
    assert_eq!(digit_value(b'F'), Some(15));
    assert_eq!(digit_value(b'9'), Some(9));
    assert_eq!(digit_value(b'g'), None);
    assert_eq!(digit_value(b'/'), None);
    assert_eq!(digit_value(b':'), None);
    assert_eq!(digit_value(b'@'), None);
    assert_eq!(digit_value(b'`'), None);
}

#[test]
fn parse_hex_refuses_what_is_no_number() {
    assert_eq!(parse_hex(b""), None);
    assert_eq!(parse_hex(b"0x10"), None);
    assert_eq!(parse_hex(b"12 "), None);
    assert_eq!(parse_hex(b"-1"), None);
    assert_eq!(parse_hex(b"+1"), None);
    assert_eq!(parse_hex(b"1g"), None);
}

#[test]
fn parse_hex_stops_at_64_bits() {
    assert_eq!(parse_hex(b"ffffffffffffffff"), Some(u64::MAX));
    assert_eq!(parse_hex(b"10000000000000000"), None);
    assert_eq!(parse_hex(b"fffffffffffffffff"), None);
    assert_eq!(parse_hex(b"10000000000000000g"), None);
}

#[test]
fn parse_range_reads_the_first_word() {
    assert_eq!(
        parse_range(b"    bb000000-bbffffff : nvidia"),
        Some(Region { start: 0xbb000000, size: 0x1000000 })
    );
    assert_eq!(parse_range(b"0-0 : x"), Some(Region { start: 0, size: 1 }));
    assert_eq!(parse_range(b"10-1f"), Some(Region { start: 0x10, size: 0x10 }));
    assert_eq!(
        parse_range(b"1-ffffffffffffffff"),
        Some(Region { start: 1, size: u64::MAX })
    );
}

#[test]
fn parse_range_refuses_malformed_words() {
    assert_eq!(parse_range(b""), None);
    assert_eq!(parse_range(b"   "), None);
    assert_eq!(parse_range(b"bb000000 : nvidia"), None);
    assert_eq!(parse_range(b"bb000000- : nvidia"), None);
    assert_eq!(parse_range(b"-bb000000 : nvidia"), None);
    assert_eq!(parse_range(b"1-2-3 : nvidia"), None);
    assert_eq!(parse_range(b"2-1 : nvidia"), None);
    assert_eq!(parse_range(b"0x10-0x1f : nvidia"), None);
    assert_eq!(parse_range(b"0-ffffffffffffffff : all"), None);
    assert_eq!(parse_range(b": nvidia"), None);
}

#[test]
fn find_region_takes_the_first_marked_line() {
    let listing = "00000000-00000fff : Reserved\n\
                   \x20 bb000000-bbffffff : nvidia\n\
                   \x20 cc000000-ccffffff : nvidia\n";
    assert_eq!(
        find_region(listing.as_bytes(), b"nvidia"),
        Ok(Some(Region { start: 0xbb000000, size: 0x1000000 }))
    );
    assert_eq!(
        find_region(listing.as_bytes(), b"Reserved"),
        Ok(Some(Region { start: 0, size: 0x1000 }))
    );
}

#[test]
fn find_region_without_marked_line_finds_nothing() {
    assert_eq!(find_region(b"00000000-00000fff : Reserved\n", b"nvidia"), Ok(None));
    assert_eq!(find_region(b"", b"nvidia"), Ok(None));
    assert_eq!(find_region(b"garbage without a range\n", b"nvidia"), Ok(None));
}

#[test]
fn find_region_fails_on_malformed_marked_line() {
    assert_eq!(find_region(b"nvidia\n", b"nvidia"), Err(DeviceError::ParseError));
    assert_eq!(
        find_region(b"0-fff : Reserved\nzz-10 : nvidia\n10-1f : nvidia", b"nvidia"),
        Err(DeviceError::ParseError)
    );
}
