use whp_vmm::memory::memory::{
    GuestAddress, MemoryAccessViolation, MemoryError, MemoryManager, MemoryPerms, MemoryRegion, MmioRegion,
};

fn memory() -> MemoryManager {
    let mut mem = MemoryManager::new();
    mem.register_region(MemoryRegion::new(
        GuestAddress(0x1000),
        0x1000,
        MemoryPerms::rwx(),
        Some(vec![0; 0x1000]),
    ));
    mem.register_region(MemoryRegion::new(
        GuestAddress(0x8000),
        0x100,
        MemoryPerms::new(true, false, false),
        Some(vec![7; 0x100]),
    ));
    mem.register_region(MemoryRegion::new(
        GuestAddress(0x9000),
        0x100,
        MemoryPerms::new(false, true, false),
        Some(vec![0; 0x100]),
    ));
    mem.register_region(MemoryRegion::new(GuestAddress(0xA000), 0x100, MemoryPerms::rw(), None));
    mem
}

#[test]
fn a_read_gives_back_what_a_write_wrote() {
    let mut mem = memory();
    assert_eq!(mem.write_guest_memory(&[1, 2, 3], GuestAddress(0x1100)), Ok(()));
    assert_eq!(mem.read_guest_memory(GuestAddress(0x1100), 3), Ok(vec![1, 2, 3]));
    assert_eq!(mem.read_guest_memory(GuestAddress(0x10FF), 5), Ok(vec![0, 1, 2, 3, 0]));
}

#[test]
fn a_write_leaves_other_bytes() {
    let mut mem = memory();
    mem.write_guest_memory(&[9; 4], GuestAddress(0x1200)).unwrap();
    assert_eq!(mem.read_guest_memory(GuestAddress(0x1204), 4), Ok(vec![0; 4]));
    assert_eq!(mem.read_guest_memory(GuestAddress(0x8000), 2), Ok(vec![7, 7]));
}

#[test]
fn refused_accesses() {
    let mut mem = memory();
    assert_eq!(mem.write_guest_memory(&[0], GuestAddress(0)), Err(MemoryError::NotAllocated));
    assert_eq!(mem.write_guest_memory(&[0; 2], GuestAddress(0x1FFE)), Err(MemoryError::WriteExceeds));
    assert_eq!(mem.write_guest_memory(&[0; 1], GuestAddress(0x1FFE)), Ok(()));
    assert_eq!(mem.read_guest_memory(GuestAddress(0x1FFF), 1), Err(MemoryError::ReadExceeds));
    assert_eq!(mem.write_guest_memory(&[0], GuestAddress(0x8000)), Err(MemoryError::ReadOnly));
    assert_eq!(mem.read_guest_memory(GuestAddress(0x9000), 1), Err(MemoryError::NotReadable));
    assert_eq!(mem.write_guest_memory(&[0], GuestAddress(0xA000)), Err(MemoryError::NoHostMemory));
    assert_eq!(MemoryError::NotAllocated.message(), "Memory not allocated");
    assert_eq!(MemoryError::WriteExceeds.message(), "Code exceeds allocated memory");
}

#[test]
fn accesses_past_the_end_of_the_address_space_are_refused() {
    let mut mem = MemoryManager::new();
    mem.register_region(MemoryRegion::new(
        GuestAddress(u64::MAX - 0xFF),
        0x100,
        MemoryPerms::rwx(),
        Some(vec![0; 0x100]),
    ));
    let top = GuestAddress(u64::MAX - 3);
    assert_eq!(mem.write_guest_memory(&[1, 2, 3], top), Ok(()));
    assert_eq!(mem.read_guest_memory(top, 3), Ok(vec![1, 2, 3]));
    assert_eq!(mem.write_guest_memory(&[1; 5], top), Err(MemoryError::WriteExceeds));
    assert_eq!(mem.read_guest_memory(top, usize::MAX), Err(MemoryError::ReadExceeds));
    assert_eq!(mem.store(7u32, top), Ok(()));
    assert_eq!(mem.load::<u32>(top), Ok(7));
    assert_eq!(mem.store(7u32, GuestAddress(u64::MAX - 2)), Err(MemoryError::WriteExceeds));
    assert_eq!(mem.load::<u32>(GuestAddress(u64::MAX)), Err(MemoryError::ReadExceeds));
}

#[test]
fn objects_and_atomics_read_back() {
    let mut mem = memory();
    assert_eq!(mem.write_obj(0x0102_0304u32, GuestAddress(0x1010)), Ok(()));
    assert_eq!(mem.read_obj::<u32>(GuestAddress(0x1010)), Ok(0x0102_0304));
    assert_eq!(mem.read_obj::<u8>(GuestAddress(0x1010)), Ok(0x04));
    assert_eq!(mem.store(0xBEEFu16, GuestAddress(0x1FFE)), Ok(()));
    assert_eq!(mem.load::<u16>(GuestAddress(0x1FFE)), Ok(0xBEEF));
    assert_eq!(mem.load::<u16>(GuestAddress(0x9000)), Err(MemoryError::NotReadable));
}

#[test]
fn only_the_latest_accesses_are_kept() {
    let mut mem = MemoryManager::new();
    for i in 0..1001u64 {
        mem.log_access(i, i % 2 == 0);
    }
    assert_eq!(mem.access_log.len(), 1000);
    assert_eq!(mem.access_log[0], (1, false, 1));
    assert_eq!(mem.access_log[999], (1000, true, 1000));
}

#[test]
fn memory_prints_its_map_and_its_accesses() {
    let mut mem = MemoryManager::new();
    assert_eq!(mem.print_memory_map(), "\n=== Memory Map ===\n");
    mem.register_region(MemoryRegion::new(GuestAddress(0x1000), 0x1000, MemoryPerms::rw(), None));
    mem.register_mmio(MmioRegion {
        gpa: GuestAddress(0xFEC0_0000),
        size: 0x20,
        name: "IOAPIC".to_string(),
        handler: None,
    });
    assert_eq!(
        mem.print_memory_map(),
        "\n=== Memory Map ===\nGPA: 0x0000000000001000 - 0x0000000000002000 - MemoryPerms(READ | WRITE)\n\n\
         === MMIO Regions ===\nGPA: 0x00000000FEC00000 - 0x00000000FEC00020 (IOAPIC)\n"
    );
    mem.log_access(1, false);
    mem.log_access(2, true);
    mem.log_access(3, false);
    assert_eq!(
        mem.print_access_log(2),
        "\n=== Recent Memory Accesses (last 2) ===\nGPA: 0x0000000000000002 - WRITE\nGPA: \
         0x0000000000000003 - READ\n"
    );
}

#[test]
fn violations_are_decoded() {
    let v = MemoryAccessViolation::from_exit_context(0b10001, 0x8000, 0x42);
    assert_eq!(v.action, MemoryPerms::new(false, true, false));
    assert_eq!(v.access_size, 4);
    assert_eq!(v.gpa, GuestAddress(0x8000));
    let v = MemoryAccessViolation::from_exit_context(0, 0x8000, 0x42);
    assert_eq!(v.action, MemoryPerms::new(true, false, false));
    let v = MemoryAccessViolation::from_exit_context(2, 0x8000, 0x42);
    assert_eq!(v.action, MemoryPerms::new(false, false, true));
}

#[test]
fn violations_are_explained() {
    let mut mem = memory();
    let v = MemoryAccessViolation::from_exit_context(1, 0x8000, 0x42);
    assert_eq!(
        mem.analyze_violation(&v),
        "Memory Access Violation:\n  GPA: 0x0000000000008000\n  Type: MemoryPerms(WRITE)\n  Size: 0 bytes\n  \
         RIP: 0x0000000000000042\n  Region: (0x0000000000008000 - 0x0000000000008100)\n  \
         Protection: MemoryPerms(READ)\n  ❌ Write access violation!\n"
    );
    mem.register_mmio(MmioRegion {
        gpa: GuestAddress(0xFEC0_0000),
        size: 0x20,
        name: "IOAPIC".to_string(),
        handler: None,
    });
    let v = MemoryAccessViolation::from_exit_context(0, 0xFEC0_0010, 0);
    assert!(mem
        .analyze_violation(&v)
        .ends_with("  MMIO Region: IOAPIC (0x00000000FEC00000 - 0x00000000FEC00020)\n"));
    let v = MemoryAccessViolation::from_exit_context(0, 0xFEC0_0020, 0);
    assert!(mem.analyze_violation(&v).ends_with("  ❌ GPA not mapped to any region!\n"));
}

#[test]
fn addresses_are_counted() {
    let a = GuestAddress::new(5);
    assert_eq!(a.checked_add(u64::MAX), None);
    assert_eq!(a.overflowing_add(u64::MAX), (GuestAddress(4), true));
    assert_eq!(a.checked_sub(6), None);
    assert_eq!(a.overflowing_sub(6), (GuestAddress(u64::MAX), true));
    assert_eq!(a.checked_offset_from(GuestAddress(2)), Some(3));
    assert_eq!(a.unchecked_add(1).raw_value(), 6);
}

#[test]
fn permissions_as_flags() {
    assert_eq!(MemoryPerms::rwx().to_flags(), 7);
    assert_eq!(MemoryPerms::rw().to_flags(), 3);
    assert_eq!(MemoryPerms::rx().to_flags(), 5);
    assert!(MemoryPerms::rwx().contains(MemoryPerms::rx()));
    assert!(!MemoryPerms::rw().contains(MemoryPerms::rx()));
}

#[test]
fn regions_know_their_bounds() {
    let mem = memory();
    let region = mem.find_region(GuestAddress(0x1FFF)).unwrap();
    assert_eq!(region.last_addr(), GuestAddress(0x1FFF));
    assert_eq!(region.start_addr(), GuestAddress(0x1000));
    assert_eq!(region.len(), 0x1000);
    assert!(mem.find_region(GuestAddress(0x2000)).is_none());
    assert!(mem.address_in_range(GuestAddress(0x8000)));
    assert!(!mem.address_in_range(GuestAddress(0x8100)));
}
