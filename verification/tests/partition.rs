use whp_vmm::device_manager::{
    pm_timer_bytes, register_devices, setup_ioapic, setup_pci_ecam, setup_virtio_block, setup_virtio_console, setup_virtio_rng,
};
use whp_vmm::emulator::Emulator;
use whp_vmm::linux_boot::{BootError, RegisterName, RegisterValue};
use whp_vmm::memory::layout::MemoryLayout;
use whp_vmm::memory::memory::{GuestAddress, MemoryError, MemoryPerms, MemoryRegion};
use whp_vmm::partition::{MapRange, Partition, PartitionError};

fn layout() -> MemoryLayout {
    MemoryLayout {
        boot_gdt_start: 0x500,
        boot_stack_pointer: 0x8ff0,
        zero_page_start: 0x7000,
        pml4_start: 0x9000,
        pdpte_start: 0xa000,
        cmdline_start: 0x2_0000,
        cmdline_max_size: 0x1_0000,
        high_ram_start: 0x10_0000,
        mem_32bit_reserved_start: 0xc000_0000,
        mem_32bit_reserved_size: 0x4000_0000,
        mem_32bit_devices_start: 0xc000_0000,
        mem_32bit_devices_size: 0x2800_0000,
        pci_mmconfig_start: 0xe800_0000,
        pci_mmconfig_size: 0x1000_0000,
        pci_mmio_config_size_per_segment: 0x10_0000,
        virtio_mmio_start: 0xd000_0000,
        virtio_mmio_size_per_device: 0x1000,
        ioapic_start: 0xfec0_0000,
        ioapic_size: 0x20,
        apic_start: 0xfee0_0000,
        ram_64bit_start: 0x1_0000_0000,
    }
}

fn small_layout() -> MemoryLayout {
    MemoryLayout {
        mem_32bit_reserved_start: 0x3000,
        mem_32bit_devices_start: 0x3000,
        ram_64bit_start: 0x1_0000,
        ..layout()
    }
}

fn machine(layout: MemoryLayout, memory: u64) -> Partition {
    let mut p = Partition::new(memory, layout, 1_000, 2_000_000_000);
    p.allocate_memory_with_size(memory, MemoryPerms::rwx(), Some(vec![0; memory as usize])).unwrap();
    p
}

fn text(r: Result<(), PartitionError>) -> String {
    r.unwrap_err().message()
}

#[test]
fn a_new_machine_is_blank() {
    let p = Partition::new(0x1_0000, layout(), 5, 6);
    assert_eq!(p.emulator, Emulator::new());
    assert_eq!((p.emulator.serial_ier, p.emulator.pci_address_config), (0, 0));
    let timer = p.device_manager.acpi_platform_addresses.pm_timer_address.unwrap();
    assert_eq!((timer.address_space_id, timer.register_bit_width, timer.access_size), (1, 32, 3));
    assert_eq!(timer.address, 0x608);
    assert_eq!((p.cpu_manager.cpus, p.cpu_manager.acpi_address), (0, None));
    assert_eq!(p.memory.acpi_address, None);
    assert_eq!((p.vm_start_tsc, p.tsc_frequency), (5, 6));
}

#[test]
fn small_memory_is_one_piece() {
    let mut p = Partition::new(0x3000, small_layout(), 0, 1);
    let ranges = p.allocate_memory_with_size(0x3000, MemoryPerms::rw(), Some(vec![1; 0x3000])).unwrap();
    assert_eq!(ranges, vec![MapRange { gpa: 0, size: 0x3000, flags: 3 }]);
    assert_eq!(p.memory.regions.len(), 1);
    assert_eq!(p.memory.regions[0].perms, MemoryPerms::rwx());
    assert_eq!(p.get_memory_size(), 0x3000);
}

#[test]
fn large_memory_goes_around_the_hole() {
    let mut p = Partition::new(0x5000, small_layout(), 0, 1);
    let mut source = vec![1; 0x3000];
    source.extend_from_slice(&[2; 0x2000]);
    let ranges = p.allocate_memory_with_size(0x5000, MemoryPerms::rwx(), Some(source)).unwrap();
    assert_eq!(
        ranges,
        vec![
            MapRange { gpa: 0, size: 0x3000, flags: 7 },
            MapRange { gpa: 0x1_0000, size: 0x2000, flags: 7 }
        ]
    );
    assert_eq!(p.read_memory(GuestAddress(0x2FF0), 2).unwrap(), vec![1, 1]);
    assert_eq!(p.read_memory(GuestAddress(0x1_0000), 2).unwrap(), vec![2, 2]);
    assert_eq!(p.read_memory(GuestAddress(0x3000), 1).unwrap_err().message(), "Memory not allocated");
    assert_eq!(p.get_memory_size(), 0x1_2000);
}

#[test]
fn memory_may_be_refused() {
    let mut p = Partition::new(0x3000, small_layout(), 0, 1);
    let r = p.allocate_memory_with_size(0x3000, MemoryPerms::rwx(), None);
    assert_eq!(r.unwrap_err().message(), "Failed to allocate memory");
    assert!(p.memory.regions.is_empty());
    let r = p.allocate_memory_with_size(u64::MAX, MemoryPerms::rwx(), None);
    assert_eq!(r.unwrap_err().message(), "Failed to allocate memory");
    let r = Partition::new(0, layout(), 0, 1).allocate_memory(Some(vec![0; 0x40_0000]));
    assert_eq!(r.unwrap(), vec![MapRange { gpa: 0, size: 0x40_0000, flags: 7 }]);
}

#[test]
fn code_and_files_are_written() {
    let mut p = machine(layout(), 0x1_0000);
    p.write_code(&[1, 2], GuestAddress(0x100)).unwrap();
    assert_eq!(p.load_file(&[3, 4, 5], GuestAddress(0x102)).unwrap(), 3);
    assert_eq!(p.read_memory(GuestAddress(0x100), 5).unwrap(), vec![1, 2, 3, 4, 5]);
    assert!(p.dump_memory(GuestAddress(0x100), 5).is_ok());
    let e = p.write_code(&[0], GuestAddress(0x2_0000)).unwrap_err();
    assert!(matches!(e, PartitionError::Memory(MemoryError::NotAllocated)));
    let e = p.load_file(&[0; 2], GuestAddress(0xFFFE)).unwrap_err();
    assert!(matches!(e, PartitionError::Memory(MemoryError::WriteExceeds)));
}

#[test]
fn unreadable_memory_is_explained() {
    let mut p = Partition::new(0, layout(), 0, 1);
    p.memory_manager_mut().register_region(MemoryRegion::new(
        GuestAddress(0),
        0x1000,
        MemoryPerms::new(false, true, false),
        Some(vec![0; 0x1000]),
    ));
    let e = p.read_memory(GuestAddress(0x10), 4).unwrap_err();
    assert_eq!(
        e.message(),
        "Memory access violation: Memory Access Violation:\n  GPA: 0x0000000000000010\n  Type: \
         MemoryPerms(READ)\n  Size: 4 bytes\n  RIP: 0x0000000000000000\n  Region: (0x0000000000000000 - \
         0x0000000000001000)\n  Protection: MemoryPerms(WRITE)\n  ❌ Read access violation!\n"
    );
    assert!(p.dump_memory(GuestAddress(0x10), 4).is_err());
}

#[test]
fn minimal_boot_parameters() {
    let mut p = machine(layout(), 0x1_0000);
    p.setup_linux_boot_params(GuestAddress(0x7000)).unwrap();
    let page = p.read_memory(GuestAddress(0x7000), 4096).unwrap();
    assert_eq!(&page[0x1f1..0x1f6], b"HdrS\0");
    assert_eq!(page[0x1f6], 0x08);
    assert_eq!(&page[0x1f7..0x1fb], &0x20_0000u32.to_le_bytes());
    assert_eq!(page[0x210], 1);
}

#[test]
fn the_kernel_entry_is_prepared() {
    let mut p = machine(layout(), 0x40_0000);
    let registers = p.setup_linux_registers(0x10_0200).unwrap();
    assert_eq!(registers[9], (RegisterName::Rip, RegisterValue::Reg64(0x10_0200)));
    assert_eq!(p.read_memory(GuestAddress(0x9000), 1).unwrap(), vec![0x03]);
    assert_eq!(p.read_memory(GuestAddress(0xa020), 1).unwrap(), vec![0]);
    p.write_code(&0x1000_0000u32.to_le_bytes(), GuestAddress(0x7260)).unwrap();
    p.setup_linux_registers(0xF800_0000).unwrap();
    assert_eq!(p.read_memory(GuestAddress(0xa028), 8).unwrap(), 0x1_4000_0083u64.to_le_bytes().to_vec());
    let e = machine(layout(), 0x7800).setup_linux_registers(0).unwrap_err();
    assert!(matches!(e, PartitionError::Memory(MemoryError::ReadExceeds)));
    let e = machine(layout(), 0x9800).setup_linux_registers(0).unwrap_err();
    assert!(matches!(e, PartitionError::Boot(BootError::Memory(MemoryError::WriteExceeds))));
    let e = p.load_linux_kernel(&[1, 2, 3]).unwrap_err();
    assert!(matches!(e, PartitionError::Boot(BootError::Read)));
    assert_eq!(
        p.setup_registers(0x1234),
        vec![
            (RegisterName::Rflags, RegisterValue::Reg64(2)),
            (RegisterName::Rip, RegisterValue::Reg64(0x1234))
        ]
    );
}

#[test]
fn device_regions_stay_apart() {
    let mut p = machine(layout(), 0x1_0000);
    let mut add = |gpa, size, name: &str| p.register_mmio_region(gpa, size, name.to_string(), None);
    assert!(add(0xFEC0_0000, 0x20, "IOAPIC").is_ok());
    assert_eq!(
        text(add(0xFEC0_0010, 0x20, "other")),
        "MMIO region 0xFEC00010-0xFEC00030 (other) overlaps with existing MMIO region \
         0xFEC00000-0xFEC00020 (IOAPIC)"
    );
    assert_eq!(
        text(add(0x8000, 0x10, "low")),
        "MMIO region 0x8000-0x8010 (low) overlaps with memory region 0x0-0xFFFF"
    );
    assert_eq!(
        text(add(0xFFFF, 0x10, "edge")),
        "MMIO region 0xFFFF-0x1000F (edge) overlaps with memory region 0x0-0xFFFF"
    );
    assert!(add(0xFEC0_0020, 0x20, "next").is_ok());
    assert_eq!(text(add(u64::MAX, 1, "far")), "MMIO region size overflow");
    assert!(add(0x1_0000, 0x10, "beside").is_ok());
    assert_eq!(p.memory.mmio_regions.len(), 3);
}

#[test]
fn the_power_management_timer_counts() {
    assert_eq!(pm_timer_bytes(1_000_000_000, 0, 4), 3_579_545u32.to_le_bytes().to_vec());
    assert_eq!(pm_timer_bytes(999_999_999, 0, 4), 3_579_544u32.to_le_bytes().to_vec());
    assert_eq!(pm_timer_bytes(0, 0, 2), vec![0, 0]);
    let ticks = 2_000_000_000_000u128 * 3_579_545 / 1_000_000_000;
    assert_eq!(pm_timer_bytes(2_000_000_000_000, 0, 4), (ticks as u32).to_le_bytes().to_vec());
    assert_eq!(pm_timer_bytes(1_000_000_000, 1, 2), 3_579_545u32.to_le_bytes()[1..3].to_vec());
    assert_eq!(pm_timer_bytes(1_000_000_000, 2, 4), vec![0x36, 0, 0, 0]);
    assert_eq!(pm_timer_bytes(1_000_000_000, u64::MAX, 1), vec![0]);
    assert_eq!(pm_timer_bytes(u128::MAX, 0, 0), Vec::<u8>::new());
}

#[test]
fn handlers_are_named_once() {
    let mut p = Partition::new(0, layout(), 0, 1);
    assert_eq!(p.register_mmio_handler("a".to_string()), 0);
    assert_eq!(p.register_mmio_handler("b".to_string()), 1);
    assert_eq!(p.register_mmio_handler("a".to_string()), 0);
    assert_eq!(p.mmio_handlers, vec!["a".to_string(), "b".to_string()]);
}

#[test]
fn the_machine_answers_the_hypervisor_leaves() {
    let mut p = Partition::new(0, layout(), 0, 1);
    assert_eq!(p.setup(), (0x4000_0000..=0x4000_0005).collect::<Vec<u32>>());
    p.configure(3);
    assert_eq!(p.cpu_manager().cpus, 3);
    p.cpu_manager_mut().set_cpu_count(4);
    assert_eq!(p.cpu_manager().cpus, 4);
    assert!(p.memory_manager().regions.is_empty());
}

#[test]
fn all_devices_are_registered() {
    let mut p = machine(layout(), 0x1_0000);
    register_devices(&mut p).unwrap();
    let regions: Vec<(u64, u64, String, Option<String>)> = p
        .memory
        .mmio_regions
        .iter()
        .map(|r| (r.gpa.0, r.size, r.name.clone(), r.handler.clone()))
        .collect();
    let row = |gpa, size, name: &str, handler: &str| (gpa, size, name.to_string(), Some(handler.to_string()));
    assert_eq!(
        regions,
        vec![
            row(0xfec0_0000, 0x20, "IOAPIC", "ioapic"),
            row(0xe800_0000, 0x1000_0000, "PCI ECAM", "pci_ecam"),
            row(0xd000_0000, 0x1000, "Virtio Block Device", "virtio_block"),
            row(0xd000_1000, 0x1000, "Virtio RNG Device", "virtio_rng"),
            row(0xd000_2000, 0x1000, "Virtio Console Device", "virtio_console"),
        ]
    );
    assert_eq!(p.mmio_handlers.len(), 5);
    let told: Vec<(String, u8, u64, u32)> = p
        .device_manager
        .virtio_mmio_devices
        .iter()
        .map(|d| (d.name.clone(), d.uid, d.base_address, d.irq))
        .collect();
    assert_eq!(
        told,
        vec![
            ("VBLK".to_string(), 1, 0xd000_0000, 20),
            ("VRNG".to_string(), 2, 0xd000_1000, 21),
            ("VCON".to_string(), 3, 0xd000_2000, 22),
        ]
    );
}

#[test]
fn a_refused_device_ends_registration() {
    let mut p = machine(MemoryLayout { pci_mmconfig_start: 0x1000, ..layout() }, 0x1_0000);
    assert!(register_devices(&mut p).is_err());
    assert_eq!(p.memory.mmio_regions.len(), 1);
    assert_eq!(p.mmio_handlers, vec!["ioapic".to_string()]);
    assert!(setup_ioapic(&mut p).is_err());
    assert!(setup_pci_ecam(&mut p).is_err());
    assert!(setup_virtio_block(&mut p).is_ok());
    assert!(setup_virtio_rng(&mut p).is_ok());
    assert!(setup_virtio_console(&mut p).is_ok());
    assert!(setup_virtio_block(&mut p).is_err());
}
