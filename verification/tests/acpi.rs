use acpi_tables::aml;
use acpi_tables::sdt::Sdt;
use acpi_tables::Aml;
use whp_vmm::aml::GenericAddress;
use whp_vmm::cpu::{Cpu, CpuManager};
use whp_vmm::device_manager::{DeviceManager, PciEcamHandler, SerialDevice, VirtioMmioDevice};
use whp_vmm::memory::layout::MemoryLayout;
use whp_vmm::memory::memory::GuestAddress;

fn layout() -> MemoryLayout {
    MemoryLayout {
        boot_gdt_start: 0x500,
        boot_stack_pointer: 0x8ff0,
        zero_page_start: 0x7000,
        pml4_start: 0x9000,
        pdpte_start: 0xa000,
        cmdline_start: 0x2_0000,
        cmdline_max_size: 0x1_0000,
        high_ram_start: 0x10_0000,
        mem_32bit_reserved_start: 0xc000_0000,
        mem_32bit_reserved_size: 0x4000_0000,
        mem_32bit_devices_start: 0xc000_0000,
        mem_32bit_devices_size: 0x2800_0000,
        pci_mmconfig_start: 0xe800_0000,
        pci_mmconfig_size: 0x1000_0000,
        pci_mmio_config_size_per_segment: 0x10_0000,
        virtio_mmio_start: 0xd000_0000,
        virtio_mmio_size_per_device: 0x1000,
        ioapic_start: 0xfec0_0000,
        ioapic_size: 0x20,
        apic_start: 0xfee0_0000,
        ram_64bit_start: 0x1_0000_0000,
    }
}

fn bytes_of(value: &dyn Aml) -> Vec<u8> {
    let mut bytes: Vec<u8> = Vec::new();
    value.to_aml_bytes(&mut bytes);
    bytes
}

fn cpu_device(name: &str, id: u32) -> Vec<u8> {
    bytes_of(&aml::Device::new(
        name.into(),
        vec![
            &aml::Name::new("_HID".into(), &"ACPI0007"),
            &aml::Name::new("_UID".into(), &id),
            &aml::Method::new("_STA".into(), 0, false, vec![&aml::Return::new(&0xfu8)]),
        ],
    ))
}

#[test]
fn a_processor_is_described() {
    assert_eq!(Cpu { id: 0 }.to_aml_bytes(), cpu_device("CP00", 0));
    assert_eq!(Cpu { id: 1 }.to_aml_bytes(), cpu_device("CP01", 1));
    assert_eq!(Cpu { id: 0xAB }.to_aml_bytes(), cpu_device("CPAB", 0xAB));
}

#[test]
fn processors_are_in_the_system_bus() {
    let mut cpus = CpuManager::new();
    assert_eq!(cpus.to_aml_bytes(), aml::Scope::raw("\\_SB_".into(), Vec::new()));
    cpus.set_cpu_count(2);
    let inner = [cpu_device("CP00", 0), cpu_device("CP01", 1)].concat();
    assert_eq!(cpus.to_aml_bytes(), aml::Scope::raw("\\_SB_".into(), inner));
    cpus.set_cpu_count(256);
    assert!(cpus.to_aml_bytes().len() > 0x1000);
}

#[test]
fn interrupt_controllers_are_described() {
    let mut cpus = CpuManager::new();
    cpus.set_cpu_count(2);
    let madt = cpus.create_madt(&layout());
    let mut expected = Sdt::new(*b"APIC", 44, 5, *b"CLOUDH", *b"CHMADT  ", 1);
    expected.write_u64(36, 0xfee0_0000);
    expected.write_u32(32, 0);
    expected.append_slice(&[0, 8, 0, 1, 0, 0, 0, 0]);
    expected.append_slice(&[0, 8, 1, 1, 0, 0, 0, 1]);
    expected.append_slice(&[1, 12, 0, 0, 0, 0, 0xc0, 0xfe, 0, 0, 0, 0]);
    expected.append_slice(&[2, 10, 0, 0, 2, 0, 0, 0, 0, 0]);
    assert_eq!(madt.as_slice(), expected.as_slice());
    let bytes = madt.as_slice();
    assert_eq!(bytes.len(), 66 + 16);
    assert_eq!(&bytes[4..8], &82u32.to_le_bytes());
    assert_eq!(bytes.iter().map(|b| *b as u32).sum::<u32>() % 256, 0);
}

#[test]
fn no_processors_leave_the_controllers() {
    let madt = CpuManager::new().create_madt(&layout());
    assert_eq!(madt.as_slice().len(), 66);
    assert_eq!(madt.as_slice()[44], 1);
    assert_eq!(madt.as_slice()[56], 2);
}

fn segment_device(total: u64) -> Vec<u8> {
    bytes_of(&aml::Device::new(
        "PC00".into(),
        vec![
            &aml::Name::new("_HID".into(), &aml::EISAName::new("PNP0A08")),
            &aml::Name::new("_CID".into(), &aml::EISAName::new("PNP0A03")),
            &aml::Name::new("_SEG".into(), &0u16),
            &aml::Name::new("_UID".into(), &0u16),
            &aml::Name::new("_BBN".into(), &aml::ZERO),
            &aml::Name::new(
                "_CRS".into(),
                &aml::ResourceTemplate::new(vec![
                    &aml::AddressSpace::new_bus_number(0x0u16, 0xffu16),
                    &aml::IO::new(0xcf8, 0xcf8, 1, 0x8),
                    &aml::Memory32Fixed::new(true, 0xe800_0000, 0x10_0000),
                    &aml::AddressSpace::new_memory(
                        aml::AddressSpaceCacheable::NotCacheable,
                        true,
                        0xc000_0000u64,
                        0xe7ff_ffffu64,
                        None,
                    ),
                    &aml::AddressSpace::new_memory(
                        aml::AddressSpaceCacheable::NotCacheable,
                        true,
                        total + 1,
                        0x3fff_ffff_ffffu64,
                        None,
                    ),
                ]),
            ),
        ],
    ))
}

fn serial_device() -> Vec<u8> {
    bytes_of(&aml::Device::new(
        "_SB_.COM1".into(),
        vec![
            &aml::Name::new("_HID".into(), &aml::EISAName::new("PNP0501")),
            &aml::Name::new("_UID".into(), &1u8),
            &aml::Name::new(
                "_CRS".into(),
                &aml::ResourceTemplate::new(vec![
                    &aml::Interrupt::new(true, true, false, false, 4),
                    &aml::IO::new(0x3f8, 0x3f8, 0x01, 0x8),
                ]),
            ),
        ],
    ))
}

fn virtio_device() -> Vec<u8> {
    bytes_of(&aml::Device::new(
        "_SB_.VBLK".into(),
        vec![
            &aml::Name::new("_HID".into(), &"LNRO0005"),
            &aml::Name::new("_UID".into(), &2u8),
            &aml::Name::new(
                "_CRS".into(),
                &aml::ResourceTemplate::new(vec![
                    &aml::Memory32Fixed::new(true, 0xd000_0000, 0x1000),
                    &aml::Interrupt::new(true, true, false, false, 20),
                ]),
            ),
        ],
    ))
}

#[test]
fn devices_are_described() {
    let total = 0x1_4000_0000;
    let mut devices = DeviceManager::new(GuestAddress(total), &layout());
    devices.serial_devices.push(SerialDevice { name: "COM1".to_string(), uid: 1, irq: 4, port: 0x3f8 });
    devices.register_virtio_mmio("VBLK".to_string(), 2, 0xd000_0000, 0x1000, 20);
    let sleep = bytes_of(&aml::Name::new("_S5_".into(), &aml::Package::new(vec![&5u8])));
    assert_eq!(devices.pci_segments()[0].to_aml_bytes(&layout()), segment_device(total));
    assert_eq!(devices.serial_devices[0].to_aml_bytes(), serial_device());
    assert_eq!(devices.virtio_mmio_devices[0].to_aml_bytes(), virtio_device());
    assert_eq!(
        devices.to_aml_bytes(&layout()),
        [segment_device(total), serial_device(), virtio_device(), sleep].concat()
    );
}

#[test]
fn large_numbers_are_described() {
    let d = VirtioMmioDevice {
        name: "VNET".to_string(),
        uid: 255,
        base_address: 0x1_2345_6789,
        size: 0x2_0000_0001,
        irq: 0x1_0000,
    };
    let expected = bytes_of(&aml::Device::new(
        "_SB_.VNET".into(),
        vec![
            &aml::Name::new("_HID".into(), &"LNRO0005"),
            &aml::Name::new("_UID".into(), &255u8),
            &aml::Name::new(
                "_CRS".into(),
                &aml::ResourceTemplate::new(vec![
                    &aml::Memory32Fixed::new(true, 0x2345_6789, 1),
                    &aml::Interrupt::new(true, true, false, false, 0x1_0000),
                ]),
            ),
        ],
    ));
    assert_eq!(d.to_aml_bytes(), expected);
}

#[test]
fn the_platform_has_a_timer() {
    let mut devices = DeviceManager::new(GuestAddress(0), &layout());
    assert_eq!(devices.acpi_platform_addresses().pm_timer_address, None);
    devices.init();
    assert_eq!(
        devices.acpi_platform_addresses().pm_timer_address,
        Some(GenericAddress {
            address_space_id: 1,
            register_bit_width: 32,
            register_bit_offset: 0,
            access_size: 3,
            address: 0x608,
        })
    );
    assert_eq!(devices.io_bus().find(0x60B), Some((0, 3)));
    devices.init();
    assert_eq!(devices.io_bus().ranges.len(), 1);
}

#[test]
fn segments_know_their_areas() {
    let devices = DeviceManager::new(GuestAddress(0xFFFF), &layout());
    let s = devices.pci_segments()[0];
    assert_eq!(s.get_id(), 0);
    assert_eq!(s.get_mmio_config_address(), 0xe800_0000);
    assert_eq!(s.get_start_of_mem32_area(), 0xc000_0000);
    assert_eq!(s.get_end_of_mem32_area(), 0xe7ff_ffff);
    assert_eq!(s.get_start_of_mem64_area(), 0x1_0000);
}

#[test]
fn absent_pci_devices_read_as_ones() {
    let mut data = [0u8; 4];
    PciEcamHandler.read(&mut data);
    assert_eq!(data, [0xFF; 4]);
}
