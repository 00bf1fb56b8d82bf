use nvtrust::dev::bar::parse_field;
use nvtrust::dev::bar::parse_line;
use nvtrust::dev::bar::Bar;
use nvtrust::dev::bar::MAX_BARS;
use nvtrust::dev::pci::PciDevice;
use nvtrust::DeviceError;

fn fresh_device() -> PciDevice {
    let mut space = vec![0u8; 256];
    space[0] = 0xde;
    space[1] = 0x10;
    space[2] = 0x31;
    space[3] = 0x23;
    PciDevice::new("dev", space).unwrap()
}

fn populated(device: &PciDevice) -> usize {
    device.bars().iter().filter(|bar| bar.is_populated()).count()
}

const MEM_LINE: &str = "00000000bb000000 00000000bb0fffff 0000000000040000";

#[test]
fn default_bar_is_empty() {
    let bar = Bar::default();
    assert_eq!(bar, Bar { addr: 0, size: 0, is_64: false });
    assert!(!bar.is_populated());
    assert_eq!(MAX_BARS, 6);
}

#[test]
fn line_with_io_flag_takes_no_slot() {
    assert_eq!(parse_line(b"0x000000000000e000 0x000000000000e07f 0x0000000000040101"), Ok(None));
    let mut device = fresh_device();
    device.init_bars("0x000000000000e000 0x000000000000e07f 0x0000000000040101").unwrap();
    assert_eq!(populated(&device), 0);
}

#[test]
fn io_line_skipped_twice_still_takes_no_slot() {
    let mut device = fresh_device();
    let text = "000000000000e000 000000000000e07f 0000000000040101\n\
                000000000000e000 000000000000e07f 0000000000040101";
    device.init_bars(text).unwrap();
    assert_eq!(populated(&device), 0);
    device.init_bars(text).unwrap();
    assert_eq!(populated(&device), 0);
}

#[test]
fn line_with_zero_start_takes_no_slot() {
    assert_eq!(parse_line(b"0x0000000000000000 0x0000000000000000 0x0000000000000000"), Ok(None));
    assert_eq!(parse_line(b"0 ffff 40200"), Ok(None));
    let mut device = fresh_device();
    device.init_bars("0x0000000000000000 0x0000000000000000 0x0000000000000000").unwrap();
    assert_eq!(populated(&device), 0);
}

#[test]
fn memory_line_is_stored() {
    let expected = Bar { addr: 0xbb000000, size: 0x100000, is_64: false };
    assert_eq!(parse_line(MEM_LINE.as_bytes()), Ok(Some(expected)));
}

#[test]
fn memory_line_with_wide_flags_is_64_bit() {
    let line = "00000000bb000000 00000000bb0fffff 0000000000040004";
    let expected = Bar { addr: 0xbb000000, size: 0x100000, is_64: true };
    assert_eq!(parse_line(line.as_bytes()), Ok(Some(expected)));
    let mut device = fresh_device();
    device.init_bars(line).unwrap();
    assert_eq!(device.bars()[0], expected);
    assert_eq!(device.bar0(), expected);
    assert_eq!(populated(&device), 1);
}

#[test]
fn width_comes_from_bits_one_and_two() {
    for (flags, wide) in [("0", false), ("2", false), ("4", true), ("6", false), ("8", false), ("c", true), ("14", true)] {
        let line = format!("1000 1fff {}", flags);
        let bar = parse_line(line.as_bytes()).unwrap().unwrap();
        assert_eq!(bar.is_64, wide, "flags {}", flags);
    }
}

#[test]
fn size_counts_both_ends() {
    assert_eq!(
        parse_line(b"10 10 0"),
        Ok(Some(Bar { addr: 0x10, size: 1, is_64: false }))
    );
    assert_eq!(
        parse_line(b"1 ffffffffffffffff 0"),
        Ok(Some(Bar { addr: 1, size: 0xffffffffffffffff, is_64: false }))
    );
}

#[test]
fn skipped_lines_leave_no_gap() {
    let text = "0x000000000000e000 0x000000000000e07f 0x0000000000040101\n\
                0x0000000000000000 0x0000000000000000 0x0000000000000000\n\
                0x00000000bb000000 0x00000000bbffffff 0x0000000000140204\n\
                0x0000000000000000 0x0000000000000000 0x0000000000000000\n\
                0x0000380000000000 0x0000381fffffffff 0x000000000014220c\n\
                0x0000000000000000 0x0000000000000000 0x0000000000000000\n\
                0x00000000bc000000 0x00000000bc07ffff 0x0000000000046200\n";
    let mut device = fresh_device();
    device.init_bars(text).unwrap();
    let bars = device.bars();
    assert_eq!(bars[0], Bar { addr: 0xbb000000, size: 0x1000000, is_64: true });
    assert_eq!(bars[1], Bar { addr: 0x380000000000, size: 0x2000000000, is_64: true });
    for bar in &bars[2..] {
        assert_eq!(*bar, Bar::default());
    }
}

#[test]
fn only_the_first_six_lines_count() {
    let mut text = String::new();
    for i in 1..=8u64 {
        text.push_str(&format!("{:x} {:x} 0\n", i * 0x1000, i * 0x1000 + 0xfff));
    }
    text.push_str("not a line at all");
    let mut device = fresh_device();
    device.init_bars(&text).unwrap();
    let bars = device.bars();
    for (i, bar) in bars.iter().enumerate() {
        assert_eq!(*bar, Bar { addr: (i as u64 + 1) * 0x1000, size: 0x1000, is_64: false });
    }
}

#[test]
fn malformed_line_fails_and_leaves_table_as_it_was() {
    let mut device = fresh_device();
    device.init_bars(MEM_LINE).unwrap();
    let before = device.bars();
    let text = "0000000000001000 0000000000001fff 0000000000040200\nzz 1 2";
    assert_eq!(device.init_bars(text).unwrap_err(), DeviceError::ParseError);
    assert_eq!(device.bars(), before);
}

#[test]
fn malformed_lines_are_parse_errors() {
    for line in [
        "",
        "1000",
        "1000 1fff",
        "1000  1fff 0",
        "1000\t1fff\t0",
        "g000 1fff 0",
        "1000 1fff 0x",
        "1000 1fff -1",
        "+1000 1fff 0",
        "10000000000000000 1fff 0",
        "2000 1fff 0",
    ] {
        assert_eq!(parse_line(line.as_bytes()), Err(DeviceError::ParseError), "line {:?}", line);
    }
}

#[test]
fn empty_line_among_the_first_six_is_malformed() {
    let mut device = fresh_device();
    let text = format!("{}\n", MEM_LINE);
    assert_eq!(device.init_bars(&text).unwrap_err(), DeviceError::ParseError);
    assert_eq!(populated(&device), 0);
}

#[test]
fn fields_after_the_third_are_not_read() {
    assert_eq!(
        parse_line(b"1000 1fff 0 whatever"),
        Ok(Some(Bar { addr: 0x1000, size: 0x1000, is_64: false }))
    );
}

#[test]
fn end_before_start_is_ignored_on_skipped_lines() {
    assert_eq!(parse_line(b"2000 1fff 1"), Ok(None));
}

#[test]
fn second_table_overwrites_from_slot_zero() {
    let mut device = fresh_device();
    device.init_bars("1000 1fff 0\n2000 2fff 0\n3000 3fff 0").unwrap();
    device.init_bars("a000 afff 4").unwrap();
    let bars = device.bars();
    assert_eq!(bars[0], Bar { addr: 0xa000, size: 0x1000, is_64: true });
    assert_eq!(bars[1], Bar { addr: 0x2000, size: 0x1000, is_64: false });
    assert_eq!(bars[2], Bar { addr: 0x3000, size: 0x1000, is_64: false });
    assert_eq!(bars[3], Bar::default());
}

#[test]
fn fields_read_hexadecimal_with_or_without_prefix() {
    assert_eq!(parse_field(b"0"), Some(0));
    assert_eq!(parse_field(b"0x0"), Some(0));
    assert_eq!(parse_field(b"ff"), Some(255));
    assert_eq!(parse_field(b"0xFF"), Some(255));
    assert_eq!(parse_field(b"0x00000000bb0fffff"), Some(0xbb0fffff));
    assert_eq!(parse_field(b"ffffffffffffffff"), Some(u64::MAX));
    assert_eq!(parse_field(b"0x"), None);
    assert_eq!(parse_field(b""), None);
    assert_eq!(parse_field(b"0x0x1"), None);
    assert_eq!(parse_field(b"x1"), None);
    assert_eq!(parse_field(b"0X1"), None);
}
