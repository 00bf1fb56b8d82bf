use nvtrust::dev::config::RawConfig;
use nvtrust::dev::config::HEADER_SIZE;
use nvtrust::dev::pci::PciDevice;
use nvtrust::le::push_le16;
use nvtrust::le::push_le32;
use nvtrust::le::read_le16;
use nvtrust::le::read_le32;
use nvtrust::DeviceError;

fn counting_bytes(len: usize) -> Vec<u8> {
    (0..len).map(|i| (i as u8).wrapping_mul(7).wrapping_add(3)).collect()
}

fn gpu_space(len: usize) -> Vec<u8> {
    let mut space = vec![0u8; len];
    space[0] = 0xde;
    space[1] = 0x10;
    space[2] = 0x31;
    space[3] = 0x23;
    space
}

#[test]
fn header_size_is_64() {
    assert_eq!(HEADER_SIZE, 64);
}

#[test]
fn from_bytes_reads_each_field_at_its_offset() {
    let bytes: Vec<u8> = (0u8..64).collect();
    let header = RawConfig::from_bytes(&bytes).unwrap();
    assert_eq!(header.vendor, 0x0100);
    assert_eq!(header.device, 0x0302);
    assert_eq!(header.status, 0x0504);
    assert_eq!(header.command, 0x0706);
    assert_eq!(header.rev_id, 8);
    assert_eq!(header.class_code, [9, 10, 11]);
    assert_eq!(header.bist, 12);
    assert_eq!(header.header_type, 13);
    assert_eq!(header.latency_timer, 14);
    assert_eq!(header.cache_line_size, 15);
    assert_eq!(
        header.bars,
        [0x13121110, 0x17161514, 0x1b1a1918, 0x1f1e1d1c, 0x23222120, 0x27262524]
    );
    assert_eq!(header.cardbus_cis_pointer, 0x2b2a2928);
    assert_eq!(header.subsystem_vendor_id, 0x2d2c);
    assert_eq!(header.subsystem_id, 0x2f2e);
    assert_eq!(header.expansion_rom_base_address, 0x33323130);
    assert_eq!(header.capabilities_pointer, 0x34);
    assert_eq!(header.pad0, [0x35, 0x36, 0x37]);
    assert_eq!(header.pad1, 0x3b3a3938);
    assert_eq!(header.max_latency, 0x3c);
    assert_eq!(header.min_grant, 0x3d);
    assert_eq!(header.interrupt_pin, 0x3e);
    assert_eq!(header.interrupt_line, 0x3f);
}

#[test]
fn from_bytes_then_to_bytes_gives_the_bytes_back() {
    let bytes = counting_bytes(64);
    let header = RawConfig::from_bytes(&bytes).unwrap();
    assert_eq!(header.to_bytes(), bytes);
}

#[test]
fn from_bytes_reads_only_the_first_64_bytes() {
    let bytes = counting_bytes(300);
    let header = RawConfig::from_bytes(&bytes).unwrap();
    assert_eq!(header.to_bytes(), bytes[..64].to_vec());
}

#[test]
fn to_bytes_then_from_bytes_gives_the_header_back() {
    let first = RawConfig::from_bytes(&counting_bytes(64)).unwrap();
    let second = RawConfig::from_bytes(&first.to_bytes()).unwrap();
    assert_eq!(second.to_bytes(), first.to_bytes());
    assert_eq!(second.vendor, first.vendor);
    assert_eq!(second.bars, first.bars);
    assert_eq!(second.pad1, first.pad1);
}

#[test]
fn from_bytes_is_deterministic() {
    let bytes = counting_bytes(64);
    let a = RawConfig::from_bytes(&bytes).unwrap();
    let b = RawConfig::from_bytes(&bytes).unwrap();
    assert_eq!(a.to_bytes(), b.to_bytes());
}

#[test]
fn from_bytes_fails_on_short_input() {
    for len in [0usize, 1, 32, 63] {
        let bytes = counting_bytes(len);
        assert_eq!(RawConfig::from_bytes(&bytes).unwrap_err(), DeviceError::ShortRead);
    }
}

#[test]
fn from_bytes_does_not_check_identity() {
    let bytes = vec![0u8; 64];
    let header = RawConfig::from_bytes(&bytes).unwrap();
    assert_eq!(header.vendor, 0);
    assert_eq!(header.device, 0);
}

#[test]
fn little_endian_reads_and_writes() {
    let bytes = [0x78u8, 0x56, 0x34, 0x12, 0xff];
    assert_eq!(read_le16(&bytes, 0), 0x5678);
    assert_eq!(read_le16(&bytes, 3), 0xff12);
    assert_eq!(read_le32(&bytes, 0), 0x12345678);
    assert_eq!(read_le32(&bytes, 1), 0xff123456);
    let mut out = Vec::new();
    push_le16(&mut out, 0xbeef);
    push_le32(&mut out, 0xdeadc0de);
    assert_eq!(out, vec![0xef, 0xbe, 0xde, 0xc0, 0xad, 0xde]);
}

#[test]
fn new_device_has_empty_tables() {
    let device = PciDevice::new("/sys/bus/pci/devices/0000:41:00.0", gpu_space(256)).unwrap();
    assert_eq!(device.path(), "/sys/bus/pci/devices/0000:41:00.0");
    assert_eq!(device.capability_count(), 0);
    for bar in device.bars() {
        assert_eq!(bar.addr, 0);
        assert_eq!(bar.size, 0);
        assert!(!bar.is_64);
        assert!(!bar.is_populated());
    }
    assert_eq!(device.config().config.vendor, 0x10de);
    assert_eq!(device.config().config.device, 0x2331);
    assert_eq!(device.config().bytes.len(), 256);
}

#[test]
fn new_device_fails_on_short_space() {
    let err = PciDevice::new("x", gpu_space(63)).unwrap_err();
    assert_eq!(err, DeviceError::ShortRead);
    let err = PciDevice::new("x", Vec::new()).unwrap_err();
    assert_eq!(err, DeviceError::ShortRead);
}

#[test]
fn new_device_accepts_exactly_the_header() {
    assert!(PciDevice::new("x", gpu_space(64)).is_ok());
}

#[test]
fn new_device_fails_on_other_vendor() {
    let mut space = gpu_space(256);
    space[0] = 0x86;
    space[1] = 0x80;
    assert_eq!(PciDevice::new("x", space).unwrap_err(), DeviceError::UnexpectedDevice);
}

#[test]
fn new_device_fails_on_other_device() {
    let mut space = gpu_space(256);
    space[2] = 0x30;
    assert_eq!(PciDevice::new("x", space).unwrap_err(), DeviceError::UnexpectedDevice);
}

#[test]
fn error_messages_differ() {
    let all = [
        DeviceError::ShortRead,
        DeviceError::UnexpectedDevice,
        DeviceError::NoCapabilities,
        DeviceError::MalformedCapabilityChain,
        DeviceError::ParseError,
        DeviceError::SanityCheckFailed,
        DeviceError::OutOfRange,
        DeviceError::IoError,
    ];
    for (i, a) in all.iter().enumerate() {
        assert!(!a.message().is_empty());
        for b in all.iter().skip(i + 1) {
            assert_ne!(a.message(), b.message());
        }
    }
    assert_eq!(DeviceError::NoCapabilities.message(), "no capabilities found");
}
