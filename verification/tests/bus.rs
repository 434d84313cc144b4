use whp_vmm::devices::bus::{Bus, BusError};

#[test]
fn one_device_per_address() {
    let mut bus = Bus::new();
    assert_eq!(bus.insert(7, 0x608, 4), Ok(()));
    assert_eq!(bus.insert(8, 0x60B, 1), Err(BusError::Overlap));
    assert_eq!(bus.insert(8, 0x60C, 0), Err(BusError::Overlap));
    assert_eq!(bus.insert(8, u64::MAX, 1), Err(BusError::Overlap));
    assert_eq!(bus.insert(8, 0x60C, 1), Ok(()));
    assert_eq!(bus.find(0x607), None);
    assert_eq!(bus.find(0x608), Some((7, 0)));
    assert_eq!(bus.find(0x60B), Some((7, 3)));
    assert_eq!(bus.find(0x60C), Some((8, 0)));
}
