use nvtrust::dev::caps::walk;
use nvtrust::dev::caps::MAX_NODES;
use nvtrust::dev::pci::PciDevice;
use nvtrust::DeviceError;

fn space_with(cap_ptr: u8, nodes: &[(u8, u8, u8)]) -> Vec<u8> {
    let mut space = vec![0u8; 256];
    space[0] = 0xde;
    space[1] = 0x10;
    space[2] = 0x31;
    space[3] = 0x23;
    space[52] = cap_ptr;
    for &(offset, id, next) in nodes {
        space[offset as usize] = id;
        space[offset as usize + 1] = next;
    }
    space
}

fn device_with(cap_ptr: u8, nodes: &[(u8, u8, u8)]) -> PciDevice {
    PciDevice::new("dev", space_with(cap_ptr, nodes)).unwrap()
}

#[test]
fn no_capabilities_pointer_fails_and_leaves_table_empty() {
    let mut device = device_with(0xff, &[]);
    assert_eq!(device.init_caps().unwrap_err(), DeviceError::NoCapabilities);
    assert_eq!(device.capability_count(), 0);
    assert_eq!(device.capability(0), None);
}

#[test]
fn chain_of_three_gives_three_entries() {
    let mut device = device_with(0x40, &[(0x40, 0x01, 0x50), (0x50, 0x05, 0x60), (0x60, 0x10, 0)]);
    device.init_caps().unwrap();
    assert_eq!(device.capability_count(), 3);
    assert_eq!(device.capability(0x01), Some(0x40));
    assert_eq!(device.capability(0x05), Some(0x50));
    assert_eq!(device.capability(0x10), Some(0x60));
    assert_eq!(device.capability(0x11), None);
}

#[test]
fn chain_of_one_gives_one_entry() {
    let mut device = device_with(0x40, &[(0x40, 0x09, 0)]);
    device.init_caps().unwrap();
    assert_eq!(device.capability_count(), 1);
    assert_eq!(device.capability(0x09), Some(0x40));
}

#[test]
fn null_pointer_is_the_empty_chain() {
    let mut device = device_with(0, &[]);
    device.init_caps().unwrap();
    assert_eq!(device.capability_count(), 0);
}

#[test]
fn chain_may_run_backwards() {
    let mut device = device_with(0xa0, &[(0xa0, 0x01, 0x48), (0x48, 0x02, 0)]);
    device.init_caps().unwrap();
    assert_eq!(device.capability_count(), 2);
    assert_eq!(device.capability(0x01), Some(0xa0));
    assert_eq!(device.capability(0x02), Some(0x48));
}

#[test]
fn repeated_id_keeps_the_later_node() {
    let mut device = device_with(0x40, &[(0x40, 0x01, 0x50), (0x50, 0x01, 0)]);
    device.init_caps().unwrap();
    assert_eq!(device.capability_count(), 1);
    assert_eq!(device.capability(0x01), Some(0x50));
}

#[test]
fn looping_chain_fails_and_leaves_table_as_it_was() {
    let mut device = device_with(0x40, &[(0x40, 0x01, 0x50), (0x50, 0x05, 0x40)]);
    assert_eq!(device.init_caps().unwrap_err(), DeviceError::MalformedCapabilityChain);
    assert_eq!(device.capability_count(), 0);
}

#[test]
fn node_that_points_at_itself_fails() {
    let mut device = device_with(0x40, &[(0x40, 0x01, 0x40)]);
    assert_eq!(device.init_caps().unwrap_err(), DeviceError::MalformedCapabilityChain);
}

#[test]
fn node_outside_the_space_is_a_short_read() {
    let mut space = space_with(0x40, &[(0x40, 0x01, 0x80)]);
    space.truncate(0x82);
    let mut device = PciDevice::new("dev", space).unwrap();
    assert_eq!(device.init_caps().unwrap_err(), DeviceError::ShortRead);
    assert_eq!(device.capability_count(), 0);
}

#[test]
fn node_at_the_end_of_the_space_is_read() {
    let mut device = device_with(0xfc, &[(0xfc, 0x07, 0)]);
    device.init_caps().unwrap();
    assert_eq!(device.capability(0x07), Some(0xfc));
}

#[test]
fn node_that_reaches_past_the_end_is_a_short_read() {
    let mut device = device_with(0xfd, &[(0xfd, 0x07, 0)]);
    assert_eq!(device.init_caps().unwrap_err(), DeviceError::ShortRead);
}

#[test]
fn second_walk_keeps_and_renews_entries() {
    let mut device = device_with(0x40, &[(0x40, 0x01, 0x50), (0x50, 0x05, 0)]);
    device.init_caps().unwrap();
    device.init_caps().unwrap();
    assert_eq!(device.capability_count(), 2);
    assert_eq!(device.capability(0x05), Some(0x50));
}

#[test]
fn walk_returns_nodes_in_chain_order() {
    let space = space_with(0x40, &[(0x40, 0x01, 0x60), (0x60, 0x10, 0x50), (0x50, 0x05, 0)]);
    let nodes = walk(&space, 0x40).unwrap();
    assert_eq!(nodes, vec![(0x01, 0x40), (0x10, 0x60), (0x05, 0x50)]);
}

#[test]
fn walk_accepts_the_longest_chain_without_a_loop() {
    let mut space = vec![0u8; 260];
    for offset in 1u16..=255 {
        space[offset as usize + 1] = if offset == 255 { 0 } else { (offset + 1) as u8 };
    }
    let nodes = walk(&space, 1).unwrap();
    assert_eq!(nodes.len(), MAX_NODES);
    assert_eq!(nodes[0].1, 1);
    assert_eq!(nodes[254].1, 255);
}
