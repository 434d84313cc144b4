use whp_vmm::linux_boot::{
    get_memory_size, load_linux_kernel, setup_identity_paging, setup_linux_registers, BootError, RegisterName,
    RegisterValue,
};
use whp_vmm::memory::layout::MemoryLayout;
use whp_vmm::memory::memory::{
    GuestAddress, MemoryError, MemoryManager, MemoryPerms, MemoryRegion, MmioRegion,
};

const CMDLINE: &[u8] = b"console=hvc0 8250.nr_uarts=0 root=/dev/vda rw init=/bin/sh loglevel=1\0";

fn layout() -> MemoryLayout {
    MemoryLayout {
        boot_gdt_start: 0x500,
        boot_stack_pointer: 0x8ff0,
        zero_page_start: 0x7000,
        pml4_start: 0x9000,
        pdpte_start: 0xa000,
        cmdline_start: 0x2_0000,
        cmdline_max_size: 0x1_0000,
        high_ram_start: 0x10_0000,
        mem_32bit_reserved_start: 0xc000_0000,
        mem_32bit_reserved_size: 0x4000_0000,
        mem_32bit_devices_start: 0xc000_0000,
        mem_32bit_devices_size: 0x2800_0000,
        pci_mmconfig_start: 0xe800_0000,
        pci_mmconfig_size: 0x1000_0000,
        pci_mmio_config_size_per_segment: 0x10_0000,
        virtio_mmio_start: 0xd000_0000,
        virtio_mmio_size_per_device: 0x1000,
        ioapic_start: 0xfec0_0000,
        ioapic_size: 0x20,
        apic_start: 0xfee0_0000,
        ram_64bit_start: 0x1_0000_0000,
    }
}

fn memory(size: usize) -> MemoryManager {
    let mut mem = MemoryManager::new();
    mem.register_region(MemoryRegion::new(
        GuestAddress(0),
        size as u64,
        MemoryPerms::rwx(),
        Some(vec![0; size]),
    ));
    mem
}

fn put(file: &mut [u8], offset: usize, bytes: &[u8]) {
    file[offset..offset + bytes.len()].copy_from_slice(bytes);
}

fn read(mem: &MemoryManager, gpa: u64, n: usize) -> Vec<u8> {
    mem.read_guest_memory(GuestAddress(gpa), n).unwrap()
}

/// An ELF kernel with segments of type, virtual address, physical address,
/// bytes and memory size.
fn elf(entry: u64, segments: &[(u32, u64, u64, &[u8], u64)]) -> Vec<u8> {
    let table = 64 + 56 * segments.len();
    let mut file = vec![0u8; table];
    put(&mut file, 0, &[0x7f, b'E', b'L', b'F', 2, 1]);
    put(&mut file, 18, &62u16.to_le_bytes());
    put(&mut file, 24, &entry.to_le_bytes());
    put(&mut file, 32, &64u64.to_le_bytes());
    put(&mut file, 54, &56u16.to_le_bytes());
    put(&mut file, 56, &(segments.len() as u16).to_le_bytes());
    for (i, (kind, vaddr, paddr, data, memsz)) in segments.iter().enumerate() {
        let at = 64 + 56 * i;
        let offset = file.len() as u64;
        put(&mut file, at, &kind.to_le_bytes());
        put(&mut file, at + 8, &offset.to_le_bytes());
        put(&mut file, at + 16, &vaddr.to_le_bytes());
        put(&mut file, at + 24, &paddr.to_le_bytes());
        put(&mut file, at + 32, &(data.len() as u64).to_le_bytes());
        put(&mut file, at + 40, &memsz.to_le_bytes());
        file.extend_from_slice(data);
    }
    file
}

/// A bzImage whose kernel is `payload`.
fn bzimage(payload: &[u8]) -> Vec<u8> {
    let mut file = vec![0u8; 2 * 512];
    file[0x1f1] = 1;
    file[0x201] = 0x6a;
    put(&mut file, 0x202, b"HdrS");
    put(&mut file, 0x206, &0x020fu16.to_le_bytes());
    file[0x211] = 1;
    put(&mut file, 0x214, &0x10_0000u32.to_le_bytes());
    put(&mut file, 0x260, &0x1234u32.to_le_bytes());
    file.extend_from_slice(payload);
    file
}

#[test]
fn an_elf_kernel_is_loaded() {
    let mut mem = memory(0x40_0000);
    let file = elf(
        0x20_0000,
        &[(6, 0, 0, &[], 0), (1, 0xFFFF_0000_0020_0000, 0x20_0000, &[1, 2, 3], 0x1801)],
    );
    assert_eq!(load_linux_kernel(&mut mem, &layout(), &file), Ok(0x20_0000));
    assert_eq!(read(&mem, 0x20_0000, 4), vec![1, 2, 3, 0]);
    let page = read(&mem, 0x7000, 4096);
    assert_eq!(&page[0x202..0x206], b"HdrS");
    assert_eq!(&page[0x206..0x208], &0x020fu16.to_le_bytes());
    assert_eq!(&page[0x214..0x218], &0x20_0000u32.to_le_bytes());
    assert_eq!(&page[0x260..0x264], &0x2000u32.to_le_bytes());
}

#[test]
fn a_virtual_entry_is_moved() {
    let mut mem = memory(0x40_0000);
    let file = elf(0xFFFF_0000_0020_0010, &[(1, 0xFFFF_0000_0020_0000, 0x20_0000, &[0x90; 64], 64)]);
    assert_eq!(load_linux_kernel(&mut mem, &layout(), &file), Ok(0x20_0010));
}

#[test]
fn every_segment_is_in_memory() {
    let mut mem = memory(0x40_0000);
    let file = elf(0x20_0000, &[(1, 0, 0x20_0000, &[5; 8], 8), (1, 0, 0x30_0000, &[6; 8], 8)]);
    load_linux_kernel(&mut mem, &layout(), &file).unwrap();
    assert_eq!(read(&mem, 0x20_0000, 8), vec![5; 8]);
    assert_eq!(read(&mem, 0x30_0000, 8), vec![6; 8]);
}

#[test]
fn bad_elf_files_are_refused() {
    let good = elf(0x20_0000, &[(1, 0, 0x20_0000, &[1], 1)]);
    let load = |edit: &dyn Fn(&mut Vec<u8>)| {
        let mut file = good.clone();
        edit(&mut file);
        load_linux_kernel(&mut memory(0x40_0000), &layout(), &file).unwrap_err()
    };
    assert_eq!(load(&|f| f.truncate(3)), BootError::Read);
    assert_eq!(load(&|f| f.truncate(63)), BootError::Read);
    assert_eq!(load(&|f| f[4] = 1), BootError::NotClass64(1));
    assert_eq!(load(&|f| f[5] = 2), BootError::NotLittleEndian);
    assert_eq!(load(&|f| f[18] = 3), BootError::NotX86_64(3));
    assert_eq!(load(&|f| f[54] = 32), BootError::BadPhentsize(32));
    assert_eq!(load(&|f| f[32] = 0xff), BootError::Read);
    assert_eq!(load(&|f| f[64] = 2), BootError::NoSegments);
    assert_eq!(load(&|f| f[64 + 30] = 1), BootError::Memory(MemoryError::NotAllocated));
    assert_eq!(
        load(&|f| put(f, 64 + 40, &u64::MAX.to_le_bytes())),
        BootError::AddressOverflow
    );
}

#[test]
fn boot_errors_have_texts() {
    assert_eq!(BootError::NotElf.message(), "Not a valid ELF file");
    assert_eq!(BootError::NotClass64(1).message(), "Not a 64-bit ELF (class=1)");
    assert_eq!(BootError::NotX86_64(183).message(), "Not an x86_64 ELF (machine=183)");
    assert_eq!(BootError::BadPhentsize(32).message(), "Unexpected phentsize: 32 (expected 56)");
    assert_eq!(
        BootError::MissingMagic(0xAB).message(),
        "Invalid bzImage: missing HdrS magic (got 0xAB)"
    );
    assert_eq!(BootError::UnsupportedVersion(0x1FF).message(), "Unsupported bzImage version: 0x1FF");
    assert_eq!(BootError::NoSegments.message(), "ELF has no PT_LOAD segments");
    assert_eq!(BootError::Memory(MemoryError::ReadOnly).message(), "Memory is read-only");
}

#[test]
fn a_bzimage_is_loaded() {
    let mut mem = memory(0x40_0000);
    mem.register_mmio(MmioRegion {
        gpa: GuestAddress(0xFEC0_0000),
        size: 0x20,
        name: "IOAPIC".to_string(),
        handler: None,
    });
    let file = bzimage(&[0xAA; 16]);
    assert_eq!(load_linux_kernel(&mut mem, &layout(), &file), Ok(0x10_0200));
    assert_eq!(read(&mem, 0x10_0000, 17), [vec![0xAA; 16], vec![0]].concat());
    assert_eq!(read(&mem, 0x2_0000, CMDLINE.len()), CMDLINE.to_vec());
    let page = read(&mem, 0x7000, 4096);
    assert_eq!(page[0x1f1], 1);
    assert_eq!(page[0x210], 0xFF);
    assert_eq!(page[0x211], 0x81);
    assert_eq!(&page[0x224..0x226], &0xFE00u16.to_le_bytes());
    assert_eq!(&page[0x228..0x22C], &0x2_0000u32.to_le_bytes());
    assert_eq!(&page[0x260..0x264], &0x1234u32.to_le_bytes());
    assert_eq!(page[0x1E8], 2);
    assert_eq!(&page[0x2D0..0x2D8], &0u64.to_le_bytes());
    assert_eq!(&page[0x2D8..0x2E0], &0x40_0000u64.to_le_bytes());
    assert_eq!(&page[0x2E0..0x2E4], &1u32.to_le_bytes());
    assert_eq!(&page[0x2E4..0x2EC], &0xFEC0_0000u64.to_le_bytes());
    assert_eq!(&page[0x2EC..0x2F4], &0x20u64.to_le_bytes());
    assert_eq!(&page[0x2F4..0x2F8], &2u32.to_le_bytes());
}

#[test]
fn memory_above_the_hole_reserves_it() {
    let mut mem = memory(0x40_0000);
    mem.register_region(MemoryRegion::new(
        GuestAddress(0x1_0000_0000),
        0x1000,
        MemoryPerms::rwx(),
        None,
    ));
    assert_eq!(get_memory_size(&mem), 0x1_0000_1000);
    load_linux_kernel(&mut mem, &layout(), &bzimage(&[1])).unwrap();
    let page = read(&mem, 0x7000, 4096);
    assert_eq!(page[0x1E8], 3);
    assert_eq!(&page[0x2F8..0x300], &0xC000_0000u64.to_le_bytes());
    assert_eq!(&page[0x300..0x308], &0x4000_0000u64.to_le_bytes());
    assert_eq!(&page[0x308..0x30C], &2u32.to_le_bytes());
}

#[test]
fn bad_bzimages_are_refused() {
    let load = |edit: &dyn Fn(&mut Vec<u8>)| {
        let mut file = bzimage(&[1]);
        edit(&mut file);
        load_linux_kernel(&mut memory(0x40_0000), &layout(), &file).unwrap_err()
    };
    assert_eq!(load(&|f| f.truncate(0x26B)), BootError::Read);
    assert_eq!(load(&|f| f[0x202] = 0), BootError::MissingMagic(0x5372_6400));
    assert_eq!(load(&|f| put(f, 0x206, &0x01ffu16.to_le_bytes())), BootError::UnsupportedVersion(0x1ff));
    assert_eq!(load(&|f| f[0x211] = 0), BootError::UnsupportedVersion(0x20f));
    assert_eq!(load(&|f| f[0x1f1] = 9), BootError::AddressOverflow);
    assert_eq!(load(&|f| f[0x1f1] = 0), BootError::AddressOverflow);
    let tiny = load_linux_kernel(&mut memory(0x1_0000), &layout(), &bzimage(&[1]));
    assert_eq!(tiny, Err(BootError::Memory(MemoryError::NotAllocated)));
}

#[test]
fn page_tables_map_four_gigabytes() {
    let mut mem = memory(0x40_0000);
    assert_eq!(setup_identity_paging(&mut mem, &layout(), 0x10_0000, 0x1000), Ok(()));
    assert_eq!(read(&mem, 0x9000, 8), 0xa003u64.to_le_bytes().to_vec());
    for i in 0..4u64 {
        assert_eq!(read(&mem, 0xa000 + 8 * i, 8), (i << 30 | 0x83).to_le_bytes().to_vec());
    }
    assert_eq!(read(&mem, 0xa020, 8), vec![0; 8]);
    assert_eq!(setup_identity_paging(&mut mem, &layout(), 0xC000_0000 - 0x1000, 0x1000), Ok(()));
    assert_eq!(read(&mem, 0xa020, 8), vec![0; 8]);
    let none = setup_identity_paging(&mut memory(0x8000), &layout(), 0, 0);
    assert_eq!(none, Err(BootError::Memory(MemoryError::NotAllocated)));
}

#[test]
fn page_tables_reach_the_end_of_the_kernel() {
    let mut mem = memory(0x40_0000);
    let entry = |mem: &MemoryManager, i: u64| read(mem, 0xa000 + 8 * i, 8);
    assert_eq!(setup_identity_paging(&mut mem, &layout(), 0x1_4000_0000, 0x200_0000), Ok(()));
    for i in 0..7u64 {
        assert_eq!(entry(&mem, i), (i << 30 | 0x83).to_le_bytes().to_vec());
    }
    assert_eq!(entry(&mem, 7), vec![0; 8]);
    let far = MemoryLayout { cmdline_start: 0x2_0000_0000, ..layout() };
    assert_eq!(setup_identity_paging(&mut mem, &far, 0x10_0000, 0x1000), Ok(()));
    assert_eq!(entry(&mem, 8), (8u64 << 30 | 0x83).to_le_bytes().to_vec());
    assert_eq!(setup_identity_paging(&mut mem, &layout(), u64::MAX, u32::MAX), Ok(()));
    assert_eq!(entry(&mem, 511), (511u64 << 30 | 0x83).to_le_bytes().to_vec());
    assert_eq!(read(&mem, 0xb000, 8), vec![0; 8]);
}

#[test]
fn the_machine_enters_the_kernel_in_long_mode() {
    let mut mem = memory(0x40_0000);
    let registers = setup_linux_registers(&mut mem, &layout(), 0x10_0200).unwrap();
    let gdt = read(&mem, 0x500, 32);
    assert_eq!(&gdt[0..16], &[0; 16]);
    assert_eq!(&gdt[16..24], &0x00AF_9A00_0000_FFFFu64.to_le_bytes());
    assert_eq!(&gdt[24..32], &0x00CF_9300_0000_FFFFu64.to_le_bytes());
    assert_eq!(registers.len(), 13);
    assert_eq!(registers[0], (RegisterName::Gdtr, RegisterValue::Table { base: 0x500, size: 31 }));
    assert_eq!(registers[1], (RegisterName::Cr3, RegisterValue::Reg64(0x9000)));
    assert_eq!(
        registers[5],
        (
            RegisterName::Cs,
            RegisterValue::Segment { base: 0, limit: 0xFFFF_FFFF, selector: 0x10, attributes: 0xA09B }
        )
    );
    assert_eq!(registers[9], (RegisterName::Rip, RegisterValue::Reg64(0x10_0200)));
    assert_eq!(registers[10], (RegisterName::Rsi, RegisterValue::Reg64(0x7000)));
    assert_eq!(registers[11], (RegisterName::Rsp, RegisterValue::Reg64(0x8ff0)));
    assert_eq!(registers[12], (RegisterName::Rflags, RegisterValue::Reg64(2)));
}
