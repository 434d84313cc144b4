//! Loading a Linux kernel and preparing the machine for its 64-bit entry.

use vstd::prelude::*;

use crate::byte_order::{
    encode_le, law_le_value_of_bytes, le_bytes, le_value, lemma_le_bytes_len, lemma_pow256_values, read_le_u16, read_le_u32, read_le_u64, resized,
};
use crate::devices::virtio::mmio_adapter::zeroed;
use crate::memory::layout::MemoryLayout;
use crate::memory::memory::{
    copy_into, find, law_read_after_write, law_read_elsewhere_after_write, law_write_keeps_layout, lemma_find_from, spliced, GuestAddress, MemoryError,
    MemoryManager, MmioRegion, Ram, RegionLayout,
};
use crate::text::{dec_text, decimal, hex_min, hex_min_text};

verus! {

/// Program header type of a segment to load.
pub const PT_LOAD: u32 = 1;

/// Size of the boot parameters.
pub const ZERO_PAGE_SIZE: usize = 4096;

/// Where the boot parameters hold the memory map.
pub const E820_OFFSET: usize = 0x2D0;

/// Size of an entry of the memory map.
pub const E820_ENTRY_SIZE: usize = 20;

/// How many entries of the memory map fit into the boot parameters.
pub const E820_MAX_ENTRIES: usize = 168;

/// Why a kernel cannot be loaded.
#[derive(Clone, Copy, Debug, PartialEq, Eq, Structural)]
pub enum BootError {
    /// The file ends too early.
    Read,
    NotElf,
    NotClass64(u8),
    NotLittleEndian,
    NotX86_64(u16),
    BadPhentsize(u16),
    NoSegments,
    MissingMagic(u32),
    UnsupportedVersion(u16),
    /// The kernel does not fit into guest memory.
    Memory(MemoryError),
    /// The file names addresses beyond the end of the address space, or ends
    /// before its kernel starts.
    AddressOverflow,
}

impl BootError {
    pub open spec fn message_spec(self) -> Seq<char> {
        match self {
            BootError::Read => "failed to fill whole buffer"@,
            BootError::NotElf => "Not a valid ELF file"@,
            BootError::NotClass64(class) => "Not a 64-bit ELF (class="@ + dec_text(class as nat) + ")"@,
            BootError::NotLittleEndian => "Not a little-endian ELF"@,
            BootError::NotX86_64(machine) => "Not an x86_64 ELF (machine="@ + dec_text(machine as nat)
                + ")"@,
            BootError::BadPhentsize(size) => "Unexpected phentsize: "@ + dec_text(size as nat)
                + " (expected 56)"@,
            BootError::NoSegments => "ELF has no PT_LOAD segments"@,
            BootError::MissingMagic(magic) => "Invalid bzImage: missing HdrS magic (got 0x"@
                + hex_min_text(magic as nat) + ")"@,
            BootError::UnsupportedVersion(version) => "Unsupported bzImage version: 0x"@
                + hex_min_text(version as nat),
            BootError::Memory(e) => e.message_spec(),
            BootError::AddressOverflow => "address overflow"@,
        }
    }

    /// The text of the error.
    pub fn message(&self) -> (r: String)
        ensures
            r@ == self.message_spec(),
    {
        match self {
            BootError::Read => "failed to fill whole buffer".to_owned(),
            BootError::NotElf => "Not a valid ELF file".to_owned(),
            BootError::NotClass64(class) => "Not a 64-bit ELF (class=".to_owned().concat(
                decimal(*class as u64).as_str(),
            ).concat(")"),
            BootError::NotLittleEndian => "Not a little-endian ELF".to_owned(),
            BootError::NotX86_64(machine) => "Not an x86_64 ELF (machine=".to_owned().concat(
                decimal(*machine as u64).as_str(),
            ).concat(")"),
            BootError::BadPhentsize(size) => "Unexpected phentsize: ".to_owned().concat(
                decimal(*size as u64).as_str(),
            ).concat(" (expected 56)"),
            BootError::NoSegments => "ELF has no PT_LOAD segments".to_owned(),
            BootError::MissingMagic(magic) => "Invalid bzImage: missing HdrS magic (got 0x".to_owned().concat(
                hex_min(*magic as u64).as_str(),
            ).concat(")"),
            BootError::UnsupportedVersion(version) => "Unsupported bzImage version: 0x".to_owned().concat(
                hex_min(*version as u64).as_str(),
            ),
            BootError::Memory(e) => e.message().to_owned(),
            BootError::AddressOverflow => "address overflow".to_owned(),
        }
    }
}

/// The `n` bytes of a file from `offset` on, if it has them. Offsets that no
/// file can have are refused.
pub open spec fn read_at(file: Seq<u8>, offset: int, n: int) -> Option<Seq<u8>> {
    if offset > i64::MAX || (n > 0 && offset + n > file.len()) {
        None
    } else if n == 0 {
        Some(Seq::empty())
    } else {
        Some(file.subrange(offset, offset + n))
    }
}

pub open spec fn u16_at(s: Seq<u8>, offset: int) -> u16 {
    le_value(s.subrange(offset, offset + 2)) as u16
}

pub open spec fn u32_at(s: Seq<u8>, offset: int) -> u32 {
    le_value(s.subrange(offset, offset + 4)) as u32
}

pub open spec fn u64_at(s: Seq<u8>, offset: int) -> u64 {
    le_value(s.subrange(offset, offset + 8)) as u64
}

/// The end of every region is an address.
pub open spec fn all_ends_fit(layout: Seq<RegionLayout>) -> bool {
    forall|k: int| 0 <= k < layout.len() ==> (#[trigger] layout[k]).last() < u64::MAX
}

fn get_u16(s: &[u8], offset: usize) -> (r: u16)
    requires
        offset + 2 <= s@.len(),
    ensures
        r == u16_at(s@, offset as int),
{
    let total: usize = s.len();
    let part = &s[offset..offset + 2];
    assert(resized(part@, 2) =~= part@);
    read_le_u16(part)
}

pub(crate) fn get_u32(s: &[u8], offset: usize) -> (r: u32)
    requires
        offset + 4 <= s@.len(),
    ensures
        r == u32_at(s@, offset as int),
{
    let total: usize = s.len();
    let part = &s[offset..offset + 4];
    assert(resized(part@, 4) =~= part@);
    read_le_u32(part)
}

fn get_u64(s: &[u8], offset: usize) -> (r: u64)
    requires
        offset + 8 <= s@.len(),
    ensures
        r == u64_at(s@, offset as int),
{
    let total: usize = s.len();
    let part = &s[offset..offset + 8];
    assert(resized(part@, 8) =~= part@);
    read_le_u64(part)
}

/// The `n` bytes of a file from `offset` on, if it has them.
fn file_part(file: &[u8], offset: u64, n: u64) -> (r: Option<&[u8]>)
    ensures
        match read_at(file@, offset as int, n as int) {
            Some(part) => r matches Some(v) && v@ == part,
            None => r is None,
        },
{
    if offset > 0x7fff_ffff_ffff_ffff {
        return None;
    }
    let size: usize = file.len();
    if n == 0 {
        let empty = &file[0..0];
        assert(empty@ =~= Seq::<u8>::empty());
        return Some(empty);
    }
    match offset.checked_add(n) {
        None => None,
        Some(end) => if end > size as u64 {
            None
        } else {
            Some(&file[offset as usize..end as usize])
        },
    }
}

/// The parts of an ELF64 file header that matter here.
#[derive(Clone, Copy, Debug, PartialEq, Eq, Structural)]
pub struct Elf64Ehdr {
    pub magic: u32,
    pub class: u8,
    pub data: u8,
    pub e_machine: u16,
    pub e_entry: u64,
    pub e_phoff: u64,
    pub e_phentsize: u16,
    pub e_phnum: u16,
}

/// An ELF64 program header.
#[derive(Clone, Copy, Debug, PartialEq, Eq, Structural)]
pub struct Elf64Phdr {
    pub p_type: u32,
    pub p_flags: u32,
    pub p_offset: u64,
    pub p_vaddr: u64,
    pub p_paddr: u64,
    pub p_filesz: u64,
    pub p_memsz: u64,
    pub p_align: u64,
}

/// The file header in 64 bytes.
pub open spec fn ehdr_of(s: Seq<u8>) -> Elf64Ehdr {
    Elf64Ehdr {
        magic: u32_at(s, 0),
        class: s[4],
        data: s[5],
        e_machine: u16_at(s, 18),
        e_entry: u64_at(s, 24),
        e_phoff: u64_at(s, 32),
        e_phentsize: u16_at(s, 54),
        e_phnum: u16_at(s, 56),
    }
}

/// The program header in 56 bytes.
pub open spec fn phdr_of(s: Seq<u8>) -> Elf64Phdr {
    Elf64Phdr {
        p_type: u32_at(s, 0),
        p_flags: u32_at(s, 4),
        p_offset: u64_at(s, 8),
        p_vaddr: u64_at(s, 16),
        p_paddr: u64_at(s, 24),
        p_filesz: u64_at(s, 32),
        p_memsz: u64_at(s, 40),
        p_align: u64_at(s, 48),
    }
}

/// The program headers in a table.
pub open spec fn phdrs_of(table: Seq<u8>, count: nat) -> Seq<Elf64Phdr> {
    Seq::new(count, |i: int| phdr_of(table.subrange(56 * i, 56 * i + 56)))
}

/// What is wrong with a file header, if anything.
pub open spec fn ehdr_error(h: Elf64Ehdr) -> Option<BootError> {
    if h.magic != 0x464c_457f {
        Some(BootError::NotElf)
    } else if h.class != 2 {
        Some(BootError::NotClass64(h.class))
    } else if h.data != 1 {
        Some(BootError::NotLittleEndian)
    } else if h.e_machine != 62 {
        Some(BootError::NotX86_64(h.e_machine))
    } else if h.e_phentsize != 56 {
        Some(BootError::BadPhentsize(h.e_phentsize))
    } else {
        None
    }
}

/// The headers of an ELF kernel.
pub open spec fn elf_headers(file: Seq<u8>) -> Result<(Elf64Ehdr, Seq<Elf64Phdr>), BootError> {
    match read_at(file, 0, 64) {
        None => Err(BootError::Read),
        Some(bytes) => {
            let h = ehdr_of(bytes);
            match ehdr_error(h) {
                Some(e) => Err(e),
                None => match read_at(file, h.e_phoff as int, 56 * h.e_phnum) {
                    None => Err(BootError::Read),
                    Some(table) => Ok((h, phdrs_of(table, h.e_phnum as nat))),
                },
            }
        },
    }
}

/// The lower of two addresses.
pub open spec fn lower(a: u64, b: u64) -> u64 {
    if a <= b {
        a
    } else {
        b
    }
}

/// The higher of two addresses.
pub open spec fn higher(a: u64, b: u64) -> u64 {
    if a >= b {
        a
    } else {
        b
    }
}

/// Loading the segments from `i` on, where those before reach from `lowest`
/// to `highest`: the range of all of them, and memory. Only the bytes in the
/// file are written; the rest of a segment is left as it is.
pub open spec fn segments_loaded(
    file: Seq<u8>,
    ram: Ram,
    phdrs: Seq<Elf64Phdr>,
    i: int,
    lowest: u64,
    highest: u64,
) -> (Result<(u64, u64), BootError>, Ram)
    decreases phdrs.len() - i,
{
    if i < 0 || i >= phdrs.len() {
        (Ok((lowest, highest)), ram)
    } else {
        let p = phdrs[i];
        if p.p_type != PT_LOAD {
            segments_loaded(file, ram, phdrs, i + 1, lowest, highest)
        } else {
            match segment_written(file, ram, p) {
                Err(e) => (Err(e), ram),
                Ok(after) => if p.p_paddr + p.p_memsz > u64::MAX {
                    (Err(BootError::AddressOverflow), after)
                } else {
                    segments_loaded(
                        file,
                        after,
                        phdrs,
                        i + 1,
                        lower(lowest, p.p_paddr),
                        higher(highest, (p.p_paddr + p.p_memsz) as u64),
                    )
                },
            }
        }
    }
}

/// Memory after the bytes of a segment were copied from the file.
pub open spec fn segment_written(file: Seq<u8>, ram: Ram, p: Elf64Phdr) -> Result<Ram, BootError> {
    if p.p_filesz == 0 {
        Ok(ram)
    } else {
        match read_at(file, p.p_offset as int, p.p_filesz as int) {
            None => Err(BootError::Read),
            Some(data) => match ram.write(p.p_paddr as int, data) {
                Ok(after) => Ok(after),
                Err(e) => Err(BootError::Memory(e)),
            },
        }
    }
}

/// The first segment to load at or after `i`.
pub open spec fn first_load(phdrs: Seq<Elf64Phdr>, i: int) -> Option<Elf64Phdr>
    decreases phdrs.len() - i,
{
    if i < 0 || i >= phdrs.len() {
        None
    } else if phdrs[i].p_type == PT_LOAD {
        Some(phdrs[i])
    } else {
        first_load(phdrs, i + 1)
    }
}

/// Whether an address lies in the physical range of a segment to load.
pub open spec fn is_physical(phdrs: Seq<Elf64Phdr>, addr: u64) -> bool {
    exists|i: int|
        0 <= i < phdrs.len() && (#[trigger] phdrs[i]).p_type == PT_LOAD && phdrs[i].p_paddr <= addr
            < phdrs[i].p_paddr + phdrs[i].p_memsz
}

/// The physical entry point: the entry itself if it lies in a segment's
/// physical range, else the entry moved by the distance between the virtual
/// and the physical address of the first segment.
pub open spec fn physical_entry(entry: u64, phdrs: Seq<Elf64Phdr>) -> u64 {
    if is_physical(phdrs, entry) {
        entry
    } else {
        match first_load(phdrs, 0) {
            Some(p) => ((entry - p.p_vaddr + p.p_paddr) % 0x1_0000_0000_0000_0000) as u64,
            None => entry,
        }
    }
}

/// An entry of the memory map.
pub struct E820Entry {
    pub addr: u64,
    pub size: u64,
    /// 1 for memory, 2 for reserved.
    pub kind: u32,
}

pub open spec fn e820_bytes(e: E820Entry) -> Seq<u8> {
    le_bytes(e.addr as nat, 8) + le_bytes(e.size as nat, 8) + le_bytes(e.kind as nat, 4)
}

/// The end of the highest region, or zero.
pub open spec fn memory_end(layout: Seq<RegionLayout>) -> int
    decreases layout.len(),
{
    if layout.len() == 0 {
        0
    } else {
        let rest = memory_end(layout.drop_last());
        let end = layout.last().base + layout.last().size;
        if end >= rest {
            end
        } else {
            rest
        }
    }
}

/// The entries for the memory regions.
pub open spec fn ram_entries(layout: Seq<RegionLayout>) -> Seq<E820Entry> {
    Seq::new(
        layout.len(),
        |i: int| E820Entry { addr: layout[i].base as u64, size: layout[i].size as u64, kind: 1 },
    )
}

/// The entries for the device regions.
pub open spec fn mmio_entries(mmio: Seq<MmioRegion>) -> Seq<E820Entry> {
    Seq::new(
        mmio.len(),
        |i: int| E820Entry { addr: mmio[i].gpa.0, size: mmio[i].size, kind: 2 },
    )
}

/// The memory map: the memory regions, the hole below four gigabytes if
/// memory reaches beyond its start, and the device regions.
pub open spec fn e820_map(layout: Seq<RegionLayout>, mmio: Seq<MmioRegion>, map: MemoryLayout) -> Seq<
    E820Entry,
> {
    ram_entries(layout) + (if memory_end(layout) > map.mem_32bit_reserved_start {
        seq![
            E820Entry {
                addr: map.mem_32bit_reserved_start,
                size: map.mem_32bit_reserved_size,
                kind: 2,
            },
        ]
    } else {
        Seq::empty()
    }) + mmio_entries(mmio)
}

/// The bytes of a memory map.
pub open spec fn e820_table(entries: Seq<E820Entry>) -> Seq<u8>
    decreases entries.len(),
{
    if entries.len() == 0 {
        Seq::empty()
    } else {
        e820_table(entries.drop_last()) + e820_bytes(entries.last())
    }
}

/// The magic of the setup header.
pub open spec fn hdr_magic() -> Seq<u8> {
    seq![72u8, 100u8, 114u8, 83u8]
}

/// `n` zero bytes.
pub open spec fn zeros(n: nat) -> Seq<u8> {
    Seq::new(n, |i: int| 0u8)
}

/// The boot parameters with the fields that the loader fills in: its type,
/// the load flags, the kernel's address, the end of the heap, the command
/// line's address, the header's magic, the memory map and its length.
pub open spec fn zero_page(
    base: Seq<u8>,
    code32_start: u64,
    cmdline: u64,
    entries: Seq<E820Entry>,
) -> Seq<u8> {
    let a = spliced(base, 0x210, seq![0xFFu8]);
    let b = spliced(a, 0x211, seq![base[0x211] | 0x81u8]);
    let c = spliced(b, 0x214, le_bytes(code32_start as u32 as nat, 4));
    let d = spliced(c, 0x224, le_bytes(0xFE00, 2));
    let e = spliced(d, 0x228, le_bytes(cmdline as u32 as nat, 4));
    let f = spliced(e, 0x1E0, zeros(15));
    let g = spliced(f, 0x202, hdr_magic());
    let h = spliced(g, E820_OFFSET as int, e820_table(entries));
    spliced(h, 0x1E8, seq![entries.len() as u8])
}

/// The kernel command line.
pub open spec fn kernel_cmdline() -> Seq<char> {
    "console=hvc0 8250.nr_uarts=0 root=/dev/vda rw init=/bin/sh loglevel=1"@
}

/// The command line as the kernel reads it: with a zero at its end.
pub open spec fn cmdline_bytes() -> Seq<u8> {
    Seq::new(kernel_cmdline().len(), |i: int| kernel_cmdline()[i] as u8).push(0u8)
}

/// Filling in the boot parameters: the command line is written first, then
/// the parameters.
pub open spec fn boot_params_written(
    ram: Ram,
    mmio: Seq<MmioRegion>,
    map: MemoryLayout,
    base: Seq<u8>,
    gpa: u64,
    code32_start: u64,
) -> (Result<(), BootError>, Ram) {
    match ram.write(map.cmdline_start as int, cmdline_bytes()) {
        Err(e) => (Err(BootError::Memory(e)), ram),
        Ok(ram1) => {
            let page = zero_page(base, code32_start, map.cmdline_start, e820_map(ram.layout, mmio, map));
            match ram1.write(gpa as int, page) {
                Err(e) => (Err(BootError::Memory(e)), ram1),
                Ok(ram2) => (Ok(()), ram2),
            }
        },
    }
}

/// `v` rounded up to a page.
pub open spec fn page_up(v: int) -> int {
    (v + 0xFFF) / 0x1000 * 0x1000
}

/// The boot parameters of an ELF kernel before the common fields: the magic
/// and version of the setup header and the size that the kernel needs.
pub open spec fn elf_params(init_size: u32) -> Seq<u8> {
    let a = spliced(zeros(4096), 0x202, hdr_magic());
    let b = spliced(a, 0x206, le_bytes(0x020F, 2));
    spliced(b, 0x260, le_bytes(init_size as nat, 4))
}

/// Loading an ELF kernel: the physical entry point or an error, and memory.
pub open spec fn elf_loaded(
    file: Seq<u8>,
    ram: Ram,
    mmio: Seq<MmioRegion>,
    map: MemoryLayout,
) -> (Result<u64, BootError>, Ram) {
    match elf_headers(file) {
        Err(e) => (Err(e), ram),
        Ok((h, phdrs)) => {
            let (range, ram1) = segments_loaded(file, ram, phdrs, 0, u64::MAX, 0);
            match range {
                Err(e) => (Err(e), ram1),
                Ok((lowest, highest)) => if lowest == u64::MAX {
                    (Err(BootError::NoSegments), ram1)
                } else if highest - lowest + 0xFFF > u64::MAX {
                    (Err(BootError::AddressOverflow), ram1)
                } else {
                    let (r, ram2) = boot_params_written(
                        ram1,
                        mmio,
                        map,
                        elf_params(page_up(highest - lowest) as u32),
                        map.zero_page_start,
                        lowest,
                    );
                    match r {
                        Err(e) => (Err(e), ram2),
                        Ok(()) => (Ok(physical_entry(h.e_entry, phdrs)), ram2),
                    }
                },
            }
        },
    }
}

/// What is wrong with the setup header of a bzImage, if anything.
pub open spec fn setup_error(file: Seq<u8>) -> Option<BootError> {
    if file.len() < 0x26C {
        Some(BootError::Read)
    } else if u32_at(file, 0x202) != 0x5372_6448 {
        Some(BootError::MissingMagic(u32_at(file, 0x202)))
    } else if u16_at(file, 0x206) < 0x0200 || file[0x211] & 0x1 == 0 {
        Some(BootError::UnsupportedVersion(u16_at(file, 0x206)))
    } else {
        None
    }
}

/// Where the kernel starts in a bzImage: after the boot sector and the setup
/// sectors, of which there are four if none are given.
pub open spec fn setup_size(file: Seq<u8>) -> int {
    if file[0x1f1] == 0 {
        2560
    } else {
        (file[0x1f1] + 1) * 512
    }
}

/// How many bytes of a bzImage make up its setup header.
pub open spec fn setup_header_size(file: Seq<u8>) -> int {
    0x11 + file[0x201]
}

/// Loading a bzImage: the entry point or an error, and memory.
pub open spec fn bzimage_loaded(
    file: Seq<u8>,
    ram: Ram,
    mmio: Seq<MmioRegion>,
    map: MemoryLayout,
) -> (Result<u64, BootError>, Ram) {
    match setup_error(file) {
        Some(e) => (Err(e), ram),
        None => if setup_size(file) > file.len() {
            (Err(BootError::AddressOverflow), ram)
        } else {
            match ram.write(
                map.high_ram_start as int,
                file.subrange(setup_size(file), file.len() as int),
            ) {
                Err(e) => (Err(BootError::Memory(e)), ram),
                Ok(ram1) => match read_at(file, 0x1f1, setup_header_size(file)) {
                    None => (Err(BootError::Read), ram1),
                    Some(header) => {
                        let (r, ram2) = boot_params_written(
                            ram1,
                            mmio,
                            map,
                            spliced(zeros(4096), 0x1f1, header),
                            map.zero_page_start,
                            u32_at(file, 0x214) as u64,
                        );
                        match r {
                            Err(e) => (Err(e), ram2),
                            Ok(()) => (Ok((map.high_ram_start + 0x200) as u64), ram2),
                        }
                    },
                },
            }
        },
    }
}

/// Loading a kernel of either format; the first four bytes tell which.
pub open spec fn kernel_loaded(
    file: Seq<u8>,
    ram: Ram,
    mmio: Seq<MmioRegion>,
    map: MemoryLayout,
) -> (Result<u64, BootError>, Ram) {
    if file.len() < 4 {
        (Err(BootError::Read), ram)
    } else if u32_at(file, 0) == 0x464c_457f {
        elf_loaded(file, ram, mmio, map)
    } else {
        bzimage_loaded(file, ram, mmio, map)
    }
}

/// The end of the highest memory region.
pub fn get_memory_size(mem: &MemoryManager) -> (r: u64)
    requires
        mem.wf(),
        all_ends_fit(mem.ram().layout),
    ensures
        r == memory_end(mem.ram().layout),
{
    let ghost layout = mem.ram().layout;
    let mut end: u64 = 0;
    let mut i: usize = 0;
    while i < mem.regions.len()
        invariant
            mem.wf(),
            layout == mem.ram().layout,
            all_ends_fit(layout),
            0 <= i <= layout.len(),
            end == memory_end(layout.subrange(0, i as int)),
        decreases layout.len() - i,
    {
        proof {
            assert(layout[i as int] == mem.regions@[i as int].layout());
            assert(layout.subrange(0, i + 1).drop_last() =~= layout.subrange(0, i as int));
            assert(layout.subrange(0, i + 1).last() == layout[i as int]);
        }
        let region_end: u64 = mem.regions[i].gpa.0 + mem.regions[i].size;
        if region_end >= end {
            end = region_end;
        }
        i += 1;
    }
    assert(layout.subrange(0, layout.len() as int) =~= layout);
    end
}

pub(crate) proof fn lemma_e820_table_len(entries: Seq<E820Entry>)
    ensures
        e820_table(entries).len() == 20 * entries.len(),
    decreases entries.len(),
{
    if entries.len() > 0 {
        lemma_e820_table_len(entries.drop_last());
        lemma_le_bytes_len(entries.last().addr as nat, 8);
        lemma_le_bytes_len(entries.last().size as nat, 8);
        lemma_le_bytes_len(entries.last().kind as nat, 4);
    }
}

/// Adds an entry to a memory map.
fn write_e820(table: &mut Vec<u8>, mem_addr: u64, mem_size: u64, mem_type: u32)
    ensures
        final(table)@ == old(table)@ + e820_bytes(
            (E820Entry { addr: mem_addr, size: mem_size, kind: mem_type }),
        ),
{
    let mut a = encode_le(mem_addr, 8);
    let mut b = encode_le(mem_size, 8);
    let mut c = encode_le(mem_type as u64, 4);
    table.append(&mut a);
    table.append(&mut b);
    table.append(&mut c);
    assert(table@ =~= old(table)@ + e820_bytes(
        (E820Entry { addr: mem_addr, size: mem_size, kind: mem_type }),
    ));
}

/// The memory map of a machine, in bytes, and how many entries it has.
fn build_e820(mem: &MemoryManager, map: &MemoryLayout) -> (r: (Vec<u8>, usize))
    requires
        mem.wf(),
        all_ends_fit(mem.ram().layout),
        e820_map(mem.ram().layout, mem.mmio_regions@, *map).len() <= E820_MAX_ENTRIES,
    ensures
        r.0@ == e820_table(e820_map(mem.ram().layout, mem.mmio_regions@, *map)),
        r.1 == e820_map(mem.ram().layout, mem.mmio_regions@, *map).len(),
{
    let ghost entries = e820_map(mem.ram().layout, mem.mmio_regions@, *map);
    let mut table: Vec<u8> = Vec::new();
    let mut count: usize = 0;
    let mut i: usize = 0;
    assert(entries.subrange(0, 0) =~= Seq::<E820Entry>::empty());
    while i < mem.regions.len()
        invariant
            entries == e820_map(mem.ram().layout, mem.mmio_regions@, *map),
            entries.len() <= E820_MAX_ENTRIES,
            0 <= i <= mem.regions@.len(),
            count == i,
            table@ == e820_table(entries.subrange(0, i as int)),
        decreases mem.regions@.len() - i,
    {
        proof {
            assert(mem.ram().layout[i as int] == mem.regions@[i as int].layout());
            assert(entries.subrange(0, i + 1).drop_last() =~= entries.subrange(0, i as int));
            assert(entries.subrange(0, i + 1).last() == entries[i as int]);
        }
        write_e820(&mut table, mem.regions[i].gpa.0, mem.regions[i].size, 1);
        count += 1;
        i += 1;
    }
    if get_memory_size(mem) > map.mem_32bit_reserved_start {
        proof {
            let n = count as int;
            assert(entries.subrange(0, n + 1).drop_last() =~= entries.subrange(0, n));
            assert(entries.subrange(0, n + 1).last() == entries[n]);
        }
        write_e820(&mut table, map.mem_32bit_reserved_start, map.mem_32bit_reserved_size, 2);
        count += 1;
    }
    let ghost first = count as int;
    let mut j: usize = 0;
    while j < mem.mmio_regions.len()
        invariant
            entries == e820_map(mem.ram().layout, mem.mmio_regions@, *map),
            entries.len() <= E820_MAX_ENTRIES,
            entries.len() == first + mem.mmio_regions@.len(),
            first == mem.ram().layout.len() + (if memory_end(mem.ram().layout)
                > map.mem_32bit_reserved_start {
                1int
            } else {
                0
            }),
            0 <= j <= mem.mmio_regions@.len(),
            count == first + j,
            table@ == e820_table(entries.subrange(0, count as int)),
        decreases mem.mmio_regions@.len() - j,
    {
        proof {
            let n = count as int;
            assert(entries.subrange(0, n + 1).drop_last() =~= entries.subrange(0, n));
            assert(entries.subrange(0, n + 1).last() == entries[n]);
            assert(entries[n] == mmio_entries(mem.mmio_regions@)[j as int]);
        }
        write_e820(&mut table, mem.mmio_regions[j].gpa.0, mem.mmio_regions[j].size, 2);
        count += 1;
        j += 1;
    }
    assert(entries.subrange(0, count as int) =~= entries);
    (table, count)
}

/// A machine in which a kernel can be loaded: every region has an end, and the
/// memory map fits into the boot parameters.
pub open spec fn bootable(mem: MemoryManager, map: MemoryLayout) -> bool {
    &&& mem.wf()
    &&& all_ends_fit(mem.ram().layout)
    &&& e820_map(mem.ram().layout, mem.mmio_regions@, map).len() <= E820_MAX_ENTRIES
}

/// Writes bytes to guest memory.
fn write_code(mem: &mut MemoryManager, code: &[u8], gpa: u64) -> (r: Result<(), BootError>)
    requires
        old(mem).wf(),
    ensures
        final(mem).wf(),
        final(mem).same_but_bytes(*old(mem)),
        match old(mem).ram().write(gpa as int, code@) {
            Ok(after) => r is Ok && final(mem).ram() == after,
            Err(e) => r == Err::<(), BootError>(BootError::Memory(e)) && final(mem).ram() == old(mem).ram(),
        },
{
    proof {
        lemma_find_from(mem.ram().layout, gpa as int, 0);
    }
    match mem.write_guest_memory(code, GuestAddress(gpa)) {
        Ok(()) => Ok(()),
        Err(e) => Err(BootError::Memory(e)),
    }
}

/// Writes a number of `width` bytes into a page.
fn put(page: &mut Vec<u8>, offset: usize, value: u64, width: usize)
    requires
        offset + width <= old(page)@.len(),
    ensures
        final(page)@ == spliced(old(page)@, offset as int, le_bytes(value as nat, width as nat)),
{
    let bytes = encode_le(value, width);
    proof {
        lemma_le_bytes_len(value as nat, width as nat);
    }
    copy_into(page, offset, bytes.as_slice());
}

/// Fills in the boot parameters that both kernel formats share, and writes
/// the command line and the parameters into guest memory.
fn fill_boot_params(
    mem: &mut MemoryManager,
    map: &MemoryLayout,
    boot_params: Vec<u8>,
    gpa: u64,
    code32_start: u64,
) -> (r: Result<(), BootError>)
    requires
        bootable(*old(mem), *map),
        boot_params@.len() == ZERO_PAGE_SIZE,
    ensures
        final(mem).wf(),
        final(mem).same_but_bytes(*old(mem)),
        (r, final(mem).ram()) == boot_params_written(
            old(mem).ram(),
            old(mem).mmio_regions@,
            *map,
            boot_params@,
            gpa,
            code32_start,
        ),
{
    let mut page = boot_params;
    let ghost base = page@;
    let loadflags: u8 = page[0x211] | 0x81;
    copy_into(&mut page, 0x210, vec![0xFFu8].as_slice());
    copy_into(&mut page, 0x211, vec![loadflags].as_slice());
    put(&mut page, 0x214, code32_start as u32 as u64, 4);
    put(&mut page, 0x224, 0xFE00, 2);

    let mut cmdline: Vec<u8> = Vec::new();
    let text = "console=hvc0 8250.nr_uarts=0 root=/dev/vda rw init=/bin/sh loglevel=1";
    cmdline.extend_from_slice(text.as_bytes());
    cmdline.push(0);
    proof {
        reveal_strlit("console=hvc0 8250.nr_uarts=0 root=/dev/vda rw init=/bin/sh loglevel=1");
        assert(vstd::string::is_ascii(text));
        assert(cmdline@ =~= cmdline_bytes());
    }
    let (table, count) = build_e820(mem, map);
    let ghost entries = e820_map(mem.ram().layout, mem.mmio_regions@, *map);
    proof {
        mem.lemma_ram_wf();
        law_write_keeps_layout(mem.ram(), map.cmdline_start as int, cmdline@);
    }
    match write_code(mem, cmdline.as_slice(), map.cmdline_start) {
        Ok(()) => {},
        Err(e) => {
            return Err(e);
        },
    }
    put(&mut page, 0x228, map.cmdline_start as u32 as u64, 4);
    let blank = zeroed(15);
    copy_into(&mut page, 0x1E0, blank.as_slice());
    copy_into(&mut page, 0x202, vec![72u8, 100, 114, 83].as_slice());
    proof {
        lemma_e820_table_len(entries);
    }
    copy_into(&mut page, E820_OFFSET, table.as_slice());
    copy_into(&mut page, 0x1E8, vec![count as u8].as_slice());
    assert(page@ == zero_page(base, code32_start, map.cmdline_start, entries));
    match write_code(mem, page.as_slice(), gpa) {
        Ok(()) => Ok(()),
        Err(e) => Err(e),
    }
}

/// Sets up the boot parameters of a bzImage: its setup header is copied into
/// them. Gives the size that the kernel needs.
fn setup_bzimage_boot_params(
    mem: &mut MemoryManager,
    map: &MemoryLayout,
    gpa: u64,
    kernel: &[u8],
    code32_start: u64,
) -> (r: Result<u32, BootError>)
    requires
        bootable(*old(mem), *map),
        kernel@.len() >= 0x26C,
    ensures
        final(mem).wf(),
        final(mem).same_but_bytes(*old(mem)),
        match read_at(kernel@, 0x1f1, setup_header_size(kernel@)) {
            None => r == Err::<u32, BootError>(BootError::Read) && final(mem).ram() == old(mem).ram(),
            Some(header) => {
                let base = spliced(zeros(4096), 0x1f1, header);
                let (done, after) = boot_params_written(
                    old(mem).ram(),
                    old(mem).mmio_regions@,
                    *map,
                    base,
                    gpa,
                    code32_start,
                );
                &&& final(mem).ram() == after
                &&& match done {
                    Ok(()) => r == Ok::<u32, BootError>(u32_at(base, 0x260)),
                    Err(e) => r == Err::<u32, BootError>(e),
                }
            },
        },
{
    let mut boot_params = zeroed(ZERO_PAGE_SIZE);
    let setup_header_size: u64 = 0x11 + kernel[0x201] as u64;
    let header = match file_part(kernel, 0x1f1, setup_header_size) {
        Some(header) => header,
        None => {
            return Err(BootError::Read);
        },
    };
    copy_into(&mut boot_params, 0x1f1, header);
    let init_size: u32 = get_u32(boot_params.as_slice(), 0x260);
    match fill_boot_params(mem, map, boot_params, gpa, code32_start) {
        Ok(()) => Ok(init_size),
        Err(e) => Err(e),
    }
}

/// Rounding up to a page is masking the sum.
proof fn lemma_page_up(v: u64)
    by (bit_vector)
    ensures
        v & !0xFFFu64 == v / 0x1000 * 0x1000,
{
}

/// Sets up the boot parameters of an ELF kernel, which has no setup header.
/// Gives the size that the kernel needs.
fn setup_elf_boot_params(
    mem: &mut MemoryManager,
    map: &MemoryLayout,
    gpa: u64,
    code32_start: u64,
    kernel_size: u64,
) -> (r: Result<u32, BootError>)
    requires
        bootable(*old(mem), *map),
        kernel_size + 0xFFF <= u64::MAX,
    ensures
        final(mem).wf(),
        final(mem).same_but_bytes(*old(mem)),
        ({
            let init_size = page_up(kernel_size as int) as u32;
            let (done, after) = boot_params_written(
                old(mem).ram(),
                old(mem).mmio_regions@,
                *map,
                elf_params(init_size),
                gpa,
                code32_start,
            );
            &&& final(mem).ram() == after
            &&& match done {
                Ok(()) => r == Ok::<u32, BootError>(init_size),
                Err(e) => r == Err::<u32, BootError>(e),
            }
        }),
{
    let mut boot_params = zeroed(ZERO_PAGE_SIZE);
    copy_into(&mut boot_params, 0x202, vec![72u8, 100, 114, 83].as_slice());
    put(&mut boot_params, 0x206, 0x020F, 2);
    proof {
        lemma_page_up((kernel_size + 0xFFF) as u64);
    }
    let rounded: u64 = (kernel_size + 0xFFF) & !0xFFFu64;
    let init_size: u32 = rounded as u32;
    put(&mut boot_params, 0x260, init_size as u64, 4);
    assert(boot_params@ == elf_params(init_size));
    match fill_boot_params(mem, map, boot_params, gpa, code32_start) {
        Ok(()) => Ok(init_size),
        Err(e) => Err(e),
    }
}

/// Loads a kernel in the bzImage format. Gives its entry point.
fn load_bzimage_kernel(mem: &mut MemoryManager, map: &MemoryLayout, kernel: &[u8]) -> (r: Result<
    u64,
    BootError,
>)
    requires
        bootable(*old(mem), *map),
        map.high_ram_start + 0x200 <= u64::MAX,
    ensures
        final(mem).wf(),
        final(mem).same_but_bytes(*old(mem)),
        (r, final(mem).ram()) == bzimage_loaded(
            kernel@,
            old(mem).ram(),
            old(mem).mmio_regions@,
            *map,
        ),
{
    let total_size: usize = kernel.len();
    if total_size < 0x26C {
        return Err(BootError::Read);
    }
    let header_magic: u32 = get_u32(kernel, 0x202);
    if header_magic != 0x5372_6448 {
        return Err(BootError::MissingMagic(header_magic));
    }
    let version: u16 = get_u16(kernel, 0x206);
    if version < 0x0200 || (kernel[0x211] & 0x1) == 0 {
        return Err(BootError::UnsupportedVersion(version));
    }
    let mut setup_size: usize = kernel[0x1f1] as usize;
    if setup_size == 0 {
        setup_size = 4;
    }
    setup_size = (setup_size + 1) * 512;
    if setup_size > total_size {
        return Err(BootError::AddressOverflow);
    }
    let code32_start: u64 = get_u32(kernel, 0x214) as u64;
    let payload = &kernel[setup_size..total_size];
    proof {
        mem.lemma_ram_wf();
        law_write_keeps_layout(mem.ram(), map.high_ram_start as int, payload@);
    }
    match write_code(mem, payload, map.high_ram_start) {
        Ok(()) => {},
        Err(e) => {
            return Err(e);
        },
    }
    match setup_bzimage_boot_params(mem, map, map.zero_page_start, kernel, code32_start) {
        Ok(_) => Ok(map.high_ram_start + 0x200),
        Err(e) => Err(e),
    }
}

/// Reads the file header.
fn parse_ehdr(bytes: &[u8]) -> (r: Elf64Ehdr)
    requires
        bytes@.len() == 64,
    ensures
        r == ehdr_of(bytes@),
{
    Elf64Ehdr {
        magic: get_u32(bytes, 0),
        class: bytes[4],
        data: bytes[5],
        e_machine: get_u16(bytes, 18),
        e_entry: get_u64(bytes, 24),
        e_phoff: get_u64(bytes, 32),
        e_phentsize: get_u16(bytes, 54),
        e_phnum: get_u16(bytes, 56),
    }
}

/// Reads a program header.
fn parse_phdr(bytes: &[u8]) -> (r: Elf64Phdr)
    requires
        bytes@.len() == 56,
    ensures
        r == phdr_of(bytes@),
{
    Elf64Phdr {
        p_type: get_u32(bytes, 0),
        p_flags: get_u32(bytes, 4),
        p_offset: get_u64(bytes, 8),
        p_vaddr: get_u64(bytes, 16),
        p_paddr: get_u64(bytes, 24),
        p_filesz: get_u64(bytes, 32),
        p_memsz: get_u64(bytes, 40),
        p_align: get_u64(bytes, 48),
    }
}

/// Reads and checks the headers of an ELF kernel.
fn read_elf_headers(kernel: &[u8]) -> (r: Result<(Elf64Ehdr, Vec<Elf64Phdr>), BootError>)
    ensures
        match elf_headers(kernel@) {
            Ok((h, phdrs)) => r matches Ok(v) && v.0 == h && v.1@ == phdrs,
            Err(e) => r matches Err(f) && f == e,
        },
{
    let ehdr = match file_part(kernel, 0, 64) {
        Some(bytes) => parse_ehdr(bytes),
        None => {
            return Err(BootError::Read);
        },
    };
    if ehdr.magic != 0x464c_457f {
        return Err(BootError::NotElf);
    }
    if ehdr.class != 2 {
        return Err(BootError::NotClass64(ehdr.class));
    }
    if ehdr.data != 1 {
        return Err(BootError::NotLittleEndian);
    }
    if ehdr.e_machine != 62 {
        return Err(BootError::NotX86_64(ehdr.e_machine));
    }
    if ehdr.e_phentsize != 56 {
        return Err(BootError::BadPhentsize(ehdr.e_phentsize));
    }
    let table = match file_part(kernel, ehdr.e_phoff, 56 * (ehdr.e_phnum as u64)) {
        Some(table) => table,
        None => {
            return Err(BootError::Read);
        },
    };
    let count: usize = ehdr.e_phnum as usize;
    let mut phdrs: Vec<Elf64Phdr> = Vec::new();
    let mut i: usize = 0;
    while i < count
        invariant
            0 <= i <= count <= 0xFFFF,
            table@.len() == 56 * count,
            phdrs@ == phdrs_of(table@, i as nat),
        decreases count - i,
    {
        let bytes = &table[56 * i..56 * i + 56];
        phdrs.push(parse_phdr(bytes));
        i += 1;
        assert(phdrs@ =~= phdrs_of(table@, i as nat));
    }
    Ok((ehdr, phdrs))
}

/// Loads a kernel in the ELF64 format. Gives its physical entry point.
fn load_elf_kernel(mem: &mut MemoryManager, map: &MemoryLayout, kernel: &[u8]) -> (r: Result<
    u64,
    BootError,
>)
    requires
        bootable(*old(mem), *map),
    ensures
        final(mem).wf(),
        final(mem).same_but_bytes(*old(mem)),
        (r, final(mem).ram()) == elf_loaded(kernel@, old(mem).ram(), old(mem).mmio_regions@, *map),
{
    let (ehdr, phdrs) = match read_elf_headers(kernel) {
        Ok(headers) => headers,
        Err(e) => {
            return Err(e);
        },
    };
    let entry: u64 = ehdr.e_entry;
    let mut lowest_paddr: u64 = u64::MAX;
    let mut highest_end: u64 = 0;
    let mut first: Option<Elf64Phdr> = None;
    let mut entry_is_physical: bool = false;
    let ghost all = segments_loaded(kernel@, mem.ram(), phdrs@, 0, u64::MAX, 0);
    let ghost start = *mem;
    let mut i: usize = 0;
    while i < phdrs.len()
        invariant
            0 <= i <= phdrs@.len(),
            bootable(start, *map),
            mem.wf(),
            mem.same_but_bytes(start),
            elf_headers(kernel@) == Ok::<_, BootError>((ehdr, phdrs@)),
            all == segments_loaded(kernel@, start.ram(), phdrs@, 0, u64::MAX, 0),
            start.ram() == old(mem).ram(),
            start.mmio_regions == old(mem).mmio_regions,
            start.same_but_bytes(*old(mem)),
            all == segments_loaded(kernel@, mem.ram(), phdrs@, i as int, lowest_paddr, highest_end),
            lowest_paddr == u64::MAX || lowest_paddr <= highest_end,
            first is None ==> first_load(phdrs@, 0) == first_load(phdrs@, i as int),
            first is Some ==> first == first_load(phdrs@, 0),
            entry == ehdr.e_entry,
            entry_is_physical == is_physical(phdrs@.subrange(0, i as int), entry),
        decreases phdrs@.len() - i,
    {
        let phdr = phdrs[i];
        let ghost before = phdrs@.subrange(0, i as int);
        let ghost upto = phdrs@.subrange(0, i + 1);
        proof {
            assert(upto[i as int] == phdr);
            assert forall|k: int| 0 <= k < i implies #[trigger] upto[k] == before[k] by {}
            assert(is_physical(before, entry) ==> is_physical(upto, entry)) by {
                if is_physical(before, entry) {
                    let k = choose|k: int|
                        0 <= k < before.len() && (#[trigger] before[k]).p_type == PT_LOAD
                            && before[k].p_paddr <= entry < before[k].p_paddr + before[k].p_memsz;
                    assert(upto[k].p_type == PT_LOAD);
                }
            }
            assert(is_physical(upto, entry) && !(phdr.p_type == PT_LOAD && phdr.p_paddr <= entry
                < phdr.p_paddr + phdr.p_memsz) ==> is_physical(before, entry)) by {
                if is_physical(upto, entry) && !(phdr.p_type == PT_LOAD && phdr.p_paddr <= entry
                    < phdr.p_paddr + phdr.p_memsz) {
                    let k = choose|k: int|
                        0 <= k < upto.len() && (#[trigger] upto[k]).p_type == PT_LOAD
                            && upto[k].p_paddr <= entry < upto[k].p_paddr + upto[k].p_memsz;
                    assert(before[k].p_type == PT_LOAD);
                }
            }
        }
        if phdr.p_type == PT_LOAD {
            if first.is_none() {
                first = Some(phdr);
            }
            if phdr.p_filesz > 0 {
                let data = match file_part(kernel, phdr.p_offset, phdr.p_filesz) {
                    Some(data) => data,
                    None => {
                        return Err(BootError::Read);
                    },
                };
                proof {
                    mem.lemma_ram_wf();
                    law_write_keeps_layout(mem.ram(), phdr.p_paddr as int, data@);
                }
                match write_code(mem, data, phdr.p_paddr) {
                    Ok(()) => {},
                    Err(e) => {
                        return Err(e);
                    },
                }
            }
            let end: u64 = match phdr.p_paddr.checked_add(phdr.p_memsz) {
                Some(end) => end,
                None => {
                    return Err(BootError::AddressOverflow);
                },
            };
            if phdr.p_paddr < lowest_paddr {
                lowest_paddr = phdr.p_paddr;
            }
            if end > highest_end {
                highest_end = end;
            }
            if entry >= phdr.p_paddr && entry < end {
                entry_is_physical = true;
            }
        }
        i += 1;
    }
    assert(phdrs@.subrange(0, phdrs@.len() as int) =~= phdrs@);
    if lowest_paddr == u64::MAX {
        return Err(BootError::NoSegments);
    }
    let phys_entry: u64 = if entry_is_physical {
        entry
    } else {
        match first {
            Some(phdr) => entry.wrapping_sub(phdr.p_vaddr.wrapping_sub(phdr.p_paddr)),
            None => entry,
        }
    };
    let kernel_size: u64 = highest_end - lowest_paddr;
    if kernel_size > u64::MAX - 0xFFF {
        return Err(BootError::AddressOverflow);
    }
    match setup_elf_boot_params(mem, map, map.zero_page_start, lowest_paddr, kernel_size) {
        Ok(_) => Ok(phys_entry),
        Err(e) => Err(e),
    }
}

/// Loads a kernel and sets up its boot parameters. Gives its entry point.
pub fn load_linux_kernel(mem: &mut MemoryManager, map: &MemoryLayout, kernel: &[u8]) -> (r: Result<
    u64,
    BootError,
>)
    requires
        bootable(*old(mem), *map),
        map.high_ram_start + 0x200 <= u64::MAX,
    ensures
        final(mem).wf(),
        final(mem).same_but_bytes(*old(mem)),
        (r, final(mem).ram()) == kernel_loaded(
            kernel@,
            old(mem).ram(),
            old(mem).mmio_regions@,
            *map,
        ),
{
    if kernel.len() < 4 {
        return Err(BootError::Read);
    }
    if get_u32(kernel, 0) == 0x464c_457f {
        load_elf_kernel(mem, map, kernel)
    } else {
        load_bzimage_kernel(mem, map, kernel)
    }
}

/// How many gigabytes the page tables map: enough to reach the end of the
/// kernel and of the command line, and one more; at least four, and at most as
/// many as a table has entries.
pub open spec fn mapped_gigabytes(map: MemoryLayout, kernel_load_addr: u64, init_size: u32) -> int {
    let kernel_end = kernel_load_addr + init_size;
    let cmdline_end = map.cmdline_start + map.cmdline_max_size;
    let end = if kernel_end > cmdline_end {
        kernel_end
    } else {
        cmdline_end
    };
    let needed = (end + 0x3FFF_FFFF) / 0x4000_0000 + 1;
    if needed < 4 {
        4
    } else if needed > 512 {
        512
    } else {
        needed
    }
}

/// The page table entry for gigabyte `i`: present, writable and a large page.
pub open spec fn gigabyte_entry(i: u64) -> u64 {
    (i << 30) | 0x83
}

/// The first `n` entries of the second-level table: one gigabyte each.
pub open spec fn gigabyte_entries(n: nat) -> Seq<u8>
    decreases n,
{
    if n == 0 {
        Seq::empty()
    } else {
        gigabyte_entries((n - 1) as nat) + le_bytes(gigabyte_entry((n - 1) as u64) as nat, 8)
    }
}

/// The two page tables: the first entry of the top level points to the second
/// level, which maps `gigabytes` in pages of one gigabyte.
pub open spec fn identity_tables(map: MemoryLayout, gigabytes: int) -> Seq<u8> {
    let top = spliced(zeros(8192), 0, le_bytes((map.pdpte_start | 0x3) as nat, 8));
    spliced(top, map.pdpte_start - map.pml4_start, gigabyte_entries(gigabytes as nat))
}

/// Both page tables lie in the two pages from the top-level table on, and the
/// second has room for all its entries.
pub open spec fn tables_fit(map: MemoryLayout) -> bool {
    map.pml4_start + 8 <= map.pdpte_start <= map.pml4_start + 4096
}

proof fn lemma_gigabyte_entries_len(n: nat)
    ensures
        gigabyte_entries(n).len() == 8 * n,
    decreases n,
{
    if n > 0 {
        lemma_gigabyte_entries_len((n - 1) as nat);
        lemma_le_bytes_len(gigabyte_entry((n - 1) as u64) as nat, 8);
    }
}

/// How many gigabytes the page tables map.
fn count_gigabytes(map: &MemoryLayout, kernel_load_addr: u64, init_size: u32) -> (r: usize)
    ensures
        r == mapped_gigabytes(*map, kernel_load_addr, init_size),
{
    let kernel_end: u128 = kernel_load_addr as u128 + init_size as u128;
    let cmdline_end: u128 = map.cmdline_start as u128 + map.cmdline_max_size as u128;
    let max_addr: u128 = if kernel_end > cmdline_end {
        kernel_end
    } else {
        cmdline_end
    };
    let needed: u128 = (max_addr + 0x3FFF_FFFF) / 0x4000_0000 + 1;
    if needed < 4 {
        4
    } else if needed > 512 {
        512
    } else {
        needed as usize
    }
}

/// Writes the page tables for the 64-bit entry. They map the kernel, from where
/// it is loaded to the end of the memory it needs, the boot parameters and the
/// command line to themselves.
pub fn setup_identity_paging(
    mem: &mut MemoryManager,
    map: &MemoryLayout,
    kernel_load_addr: u64,
    init_size: u32,
) -> (r: Result<(), BootError>)
    requires
        old(mem).wf(),
        tables_fit(*map),
    ensures
        final(mem).wf(),
        final(mem).same_but_bytes(*old(mem)),
        match old(mem).ram().write(
            map.pml4_start as int,
            identity_tables(*map, mapped_gigabytes(*map, kernel_load_addr, init_size)),
        ) {
            Ok(after) => r is Ok && final(mem).ram() == after,
            Err(e) => r == Err::<(), BootError>(BootError::Memory(e)) && final(mem).ram() == old(mem).ram(),
        },
{
    let mut tables = zeroed(8192);
    put(&mut tables, 0, map.pdpte_start | 0x3, 8);
    let gigabytes: usize = count_gigabytes(map, kernel_load_addr, init_size);
    let offset: usize = (map.pdpte_start - map.pml4_start) as usize;
    let ghost top = tables@;
    assert(tables@ =~= spliced(top, offset as int, gigabyte_entries(0)));
    let mut i: usize = 0;
    while i < gigabytes
        invariant
            i <= gigabytes <= 512,
            offset <= 4096,
            top.len() == 8192,
            tables@ == spliced(top, offset as int, gigabyte_entries(i as nat)),
        decreases gigabytes - i,
    {
        proof {
            lemma_gigabyte_entries_len(i as nat);
            lemma_gigabyte_entries_len((i + 1) as nat);
        }
        put(&mut tables, offset + i * 8, ((i as u64) << 30) | 0x83, 8);
        proof {
            lemma_le_bytes_len(gigabyte_entry(i as u64) as nat, 8);
            assert(gigabyte_entries((i + 1) as nat) == gigabyte_entries(i as nat) + le_bytes(
                gigabyte_entry(i as u64) as nat,
                8,
            ));
            assert(tables@ =~= spliced(top, offset as int, gigabyte_entries((i + 1) as nat)));
        }
        i += 1;
    }
    write_code(mem, tables.as_slice(), map.pml4_start)
}

/// A register of a virtual processor.
#[derive(Clone, Copy, Debug, PartialEq, Eq, Structural)]
pub enum RegisterName {
    Gdtr,
    Cr0,
    Cr3,
    Cr4,
    Efer,
    Cs,
    Ds,
    Es,
    Ss,
    Rip,
    Rsi,
    Rsp,
    Rflags,
    Rax,
    Rbx,
    Rcx,
    Rdx,
}

/// A value of a register.
#[derive(Clone, Copy, Debug, PartialEq, Eq, Structural)]
pub enum RegisterValue {
    Reg64(u64),
    /// Where a table starts, and the offset of its last byte.
    Table { base: u64, size: u16 },
    Segment { base: u64, limit: u32, selector: u16, attributes: u16 },
}

/// The descriptor of the boot code segment: flat, executable, 64-bit.
pub const BOOT_CODE_DESCRIPTOR: u64 = 0x00AF_9A00_0000_FFFF;

/// The descriptor of the boot data segment: flat, writable.
pub const BOOT_DATA_DESCRIPTOR: u64 = 0x00CF_9300_0000_FFFF;

/// The boot descriptor table: two unused descriptors, code and data.
pub open spec fn boot_gdt() -> Seq<u8> {
    le_bytes(0, 8) + le_bytes(0, 8) + le_bytes(BOOT_CODE_DESCRIPTOR as nat, 8) + le_bytes(
        BOOT_DATA_DESCRIPTOR as nat,
        8,
    )
}

/// The boot code segment.
pub open spec fn boot_cs() -> RegisterValue {
    RegisterValue::Segment { base: 0, limit: 0xFFFF_FFFF, selector: 0x10, attributes: 0xA09B }
}

/// The boot data segment.
pub open spec fn boot_ds() -> RegisterValue {
    RegisterValue::Segment { base: 0, limit: 0xFFFF_FFFF, selector: 0x18, attributes: 0xC093 }
}

/// The registers at the 64-bit entry of the kernel, in the order in which they
/// are set.
pub open spec fn boot_registers(map: MemoryLayout, kernel_entry: u64) -> Seq<
    (RegisterName, RegisterValue),
> {
    seq![
        (RegisterName::Gdtr, RegisterValue::Table { base: map.boot_gdt_start, size: 31 }),
        (RegisterName::Cr3, RegisterValue::Reg64(map.pml4_start)),
        (RegisterName::Cr4, RegisterValue::Reg64(0x20)),
        (RegisterName::Efer, RegisterValue::Reg64(0x100)),
        (RegisterName::Cr0, RegisterValue::Reg64(0x8005_0033)),
        (RegisterName::Cs, boot_cs()),
        (RegisterName::Ds, boot_ds()),
        (RegisterName::Es, boot_ds()),
        (RegisterName::Ss, boot_ds()),
        (RegisterName::Rip, RegisterValue::Reg64(kernel_entry)),
        (RegisterName::Rsi, RegisterValue::Reg64(map.zero_page_start)),
        (RegisterName::Rsp, RegisterValue::Reg64(map.boot_stack_pointer)),
        (RegisterName::Rflags, RegisterValue::Reg64(0x2)),
    ]
}

/// Writes the boot descriptor table and gives the registers to set for the
/// 64-bit entry.
pub fn setup_linux_registers(mem: &mut MemoryManager, map: &MemoryLayout, kernel_entry: u64) -> (r:
    Result<Vec<(RegisterName, RegisterValue)>, BootError>)
    requires
        old(mem).wf(),
    ensures
        final(mem).wf(),
        final(mem).same_but_bytes(*old(mem)),
        match old(mem).ram().write(map.boot_gdt_start as int, boot_gdt()) {
            Ok(after) => (r matches Ok(v) && v@ == boot_registers(*map, kernel_entry)) && final(mem).ram() == after,
            Err(e) => (r matches Err(f) && f == BootError::Memory(e)) && final(mem).ram() == old(mem).ram(),
        },
{
    let mut gdt = encode_le(0, 8);
    let mut unused = encode_le(0, 8);
    let mut code = encode_le(BOOT_CODE_DESCRIPTOR, 8);
    let mut data = encode_le(BOOT_DATA_DESCRIPTOR, 8);
    gdt.append(&mut unused);
    gdt.append(&mut code);
    gdt.append(&mut data);
    proof {
        lemma_le_bytes_len(0, 8);
        lemma_le_bytes_len(BOOT_CODE_DESCRIPTOR as nat, 8);
        lemma_le_bytes_len(BOOT_DATA_DESCRIPTOR as nat, 8);
        assert(gdt@ =~= boot_gdt());
    }
    match write_code(mem, gdt.as_slice(), map.boot_gdt_start) {
        Ok(()) => {},
        Err(e) => {
            return Err(e);
        },
    }
    let cs = RegisterValue::Segment {
        base: 0,
        limit: 0xFFFF_FFFF,
        selector: 0x10,
        attributes: 0xA09B,
    };
    let ds = RegisterValue::Segment {
        base: 0,
        limit: 0xFFFF_FFFF,
        selector: 0x18,
        attributes: 0xC093,
    };
    let mut registers: Vec<(RegisterName, RegisterValue)> = Vec::new();
    registers.push(
        (RegisterName::Gdtr, RegisterValue::Table { base: map.boot_gdt_start, size: 31 }),
    );
    registers.push((RegisterName::Cr3, RegisterValue::Reg64(map.pml4_start)));
    registers.push((RegisterName::Cr4, RegisterValue::Reg64(0x20)));
    registers.push((RegisterName::Efer, RegisterValue::Reg64(0x100)));
    registers.push((RegisterName::Cr0, RegisterValue::Reg64(0x8005_0033)));
    registers.push((RegisterName::Cs, cs));
    registers.push((RegisterName::Ds, ds));
    registers.push((RegisterName::Es, ds));
    registers.push((RegisterName::Ss, ds));
    registers.push((RegisterName::Rip, RegisterValue::Reg64(kernel_entry)));
    registers.push((RegisterName::Rsi, RegisterValue::Reg64(map.zero_page_start)));
    registers.push((RegisterName::Rsp, RegisterValue::Reg64(map.boot_stack_pointer)));
    registers.push((RegisterName::Rflags, RegisterValue::Reg64(0x2)));
    assert(registers@ =~= boot_registers(*map, kernel_entry));
    Ok(registers)
}

/// What a number written into a page reads back as.
proof fn lemma_u64_spliced(s: Seq<u8>, offset: int, v: u64)
    requires
        0 <= offset <= s.len() - 8,
    ensures
        u64_at(spliced(s, offset, le_bytes(v as nat, 8)), offset) == v,
{
    lemma_pow256_values();
    lemma_le_bytes_len(v as nat, 8);
    law_le_value_of_bytes(v as nat, 8);
    assert(spliced(s, offset, le_bytes(v as nat, 8)).subrange(offset, offset + 8) =~= le_bytes(
        v as nat,
        8,
    ));
}

/// Bytes that a write does not meet keep their place.
proof fn lemma_spliced_elsewhere(s: Seq<u8>, offset: int, data: Seq<u8>, from: int, to: int)
    requires
        0 <= from <= to <= s.len(),
        to <= offset || offset + data.len() <= from,
    ensures
        spliced(s, offset, data).subrange(from, to) == s.subrange(from, to),
{
    assert(spliced(s, offset, data).subrange(from, to) =~= s.subrange(from, to));
}

/// The address that a processor finds for `addr` in the two page tables, and
/// may write to, where the entry of the top level points to the second and that
/// holds large pages.
pub open spec fn walk(tables: Seq<u8>, map: MemoryLayout, addr: u64) -> Option<u64> {
    let top = u64_at(tables, 8 * ((addr >> 39) & 0x1FF));
    let second = (top & 0x000F_FFFF_FFFF_F000) - map.pml4_start;
    let entry = u64_at(tables, second + 8 * ((addr >> 30) & 0x1FF));
    if top & 0x3 != 0x3 || entry & 0x83 != 0x83 {
        None
    } else {
        Some((entry & 0x000F_FFFF_C000_0000) | (addr & 0x3FFF_FFFF))
    }
}

proof fn lemma_gigabyte(addr: u64)
    by (bit_vector)
    requires
        addr < 0x80_0000_0000,
    ensures
        (addr >> 39) & 0x1FF == 0,
        (addr >> 30) & 0x1FF == addr / 0x4000_0000,
        ((((addr >> 30) & 0x1FF) << 30 | 0x83) & 0x000F_FFFF_C000_0000) | (addr & 0x3FFF_FFFF) == addr,
        (((addr >> 30) & 0x1FF) << 30 | 0x83) & 0x83 == 0x83,
{
}

proof fn lemma_table_pointer(p: u64)
    by (bit_vector)
    requires
        p % 4096 == 0,
        p < 0x10_0000_0000_0000,
    ensures
        (p | 0x3) & 0x000F_FFFF_FFFF_F000 == p,
        (p | 0x3) & 0x3 == 0x3,
{
}

/// Where the second-level table holds the entry of gigabyte `i`.
proof fn lemma_gigabyte_entry_at(n: nat, i: int)
    requires
        0 <= i < n <= 512,
    ensures
        gigabyte_entries(n).subrange(8 * i, 8 * i + 8) == le_bytes(
            gigabyte_entry(i as u64) as nat,
            8,
        ),
    decreases n,
{
    let rest = gigabyte_entries((n - 1) as nat);
    let last = le_bytes(gigabyte_entry((n - 1) as u64) as nat, 8);
    lemma_gigabyte_entries_len((n - 1) as nat);
    lemma_le_bytes_len(gigabyte_entry((n - 1) as u64) as nat, 8);
    if i == n - 1 {
        assert((rest + last).subrange(8 * i, 8 * i + 8) =~= last);
    } else {
        lemma_gigabyte_entry_at((n - 1) as nat, i);
        assert((rest + last).subrange(8 * i, 8 * i + 8) =~= rest.subrange(
            8 * i,
            8 * i + 8,
        ));
    }
}

proof fn lemma_gigabyte_mapped(map: MemoryLayout, gigabytes: int, addr: u64)
    requires
        tables_fit(map),
        map.pdpte_start % 4096 == 0,
        map.pdpte_start < 0x10_0000_0000_0000,
        gigabytes <= 512,
        addr < 0x4000_0000 * gigabytes,
    ensures
        walk(identity_tables(map, gigabytes), map, addr) == Some(addr),
{
    let offset = map.pdpte_start - map.pml4_start;
    let pointer = (map.pdpte_start | 0x3) as u64;
    let entries = gigabyte_entries(gigabytes as nat);
    let top = spliced(zeros(8192), 0, le_bytes(pointer as nat, 8));
    let tables = identity_tables(map, gigabytes);
    let i: u64 = (addr >> 30) & 0x1FF;
    lemma_gigabyte(addr);
    lemma_table_pointer(map.pdpte_start);
    lemma_u64_spliced(zeros(8192), 0, pointer);
    lemma_spliced_elsewhere(top, offset, entries, 0, 8);
    assert(u64_at(tables, 0) == pointer);
    lemma_gigabyte_entries_len(gigabytes as nat);
    lemma_gigabyte_entry_at(gigabytes as nat, i as int);
    lemma_pow256_values();
    law_le_value_of_bytes(gigabyte_entry(i) as nat, 8);
    assert(tables.subrange(offset + 8 * i, offset + 8 * i + 8) =~= entries.subrange(8 * i, 8 * i + 8));
    assert(u64_at(tables, offset + 8 * i) == gigabyte_entry(i));
}

/// The page tables map to itself every address, up to what one table can hold,
/// that lies before the end of the kernel, before the end of the command line
/// or in the first four gigabytes. Each is present and writable.
pub proof fn law_identity_paging(map: MemoryLayout, kernel_load_addr: u64, init_size: u32, addr: u64)
    requires
        tables_fit(map),
        map.pdpte_start % 4096 == 0,
        map.pdpte_start < 0x10_0000_0000_0000,
        addr < 0x80_0000_0000,
        addr < kernel_load_addr + init_size || addr < map.cmdline_start + map.cmdline_max_size || addr
            < 0x1_0000_0000,
    ensures
        walk(
            identity_tables(map, mapped_gigabytes(map, kernel_load_addr, init_size)),
            map,
            addr,
        ) == Some(addr),
{
    lemma_gigabyte_mapped(map, mapped_gigabytes(map, kernel_load_addr, init_size), addr);
}

/// What the boot protocol asks of the segments: the table that the registers
/// point to holds, at the selectors of the code and data segments, an
/// executable 64-bit and a writable descriptor; interrupts are off and the
/// boot parameters are passed on.
pub proof fn law_boot_segments(map: MemoryLayout, kernel_entry: u64)
    ensures
        boot_gdt().len() == 32,
        u64_at(boot_gdt(), 0x10) == BOOT_CODE_DESCRIPTOR,
        u64_at(boot_gdt(), 0x18) == BOOT_DATA_DESCRIPTOR,
        // Present, executable and 64-bit; present, writable and not executable.
        BOOT_CODE_DESCRIPTOR & 0x0020_8800_0000_0000 == 0x0020_8800_0000_0000u64,
        BOOT_DATA_DESCRIPTOR & 0x0000_8A00_0000_0000 == 0x0000_8200_0000_0000u64,
        boot_registers(map, kernel_entry).contains(
            (RegisterName::Gdtr, RegisterValue::Table { base: map.boot_gdt_start, size: 31 }),
        ),
        boot_registers(map, kernel_entry).contains(
            (RegisterName::Rsi, RegisterValue::Reg64(map.zero_page_start)),
        ),
        boot_registers(map, kernel_entry).contains(
            (RegisterName::Rip, RegisterValue::Reg64(kernel_entry)),
        ),
        forall|i: int|
            0 <= i < boot_registers(map, kernel_entry).len() ==> {
                let r = #[trigger] boot_registers(map, kernel_entry)[i];
                r.0 == RegisterName::Rflags ==> (r.1 matches RegisterValue::Reg64(v) && v & 0x200
                    == 0)
            },
{
    let code = le_bytes(BOOT_CODE_DESCRIPTOR as nat, 8);
    let data = le_bytes(BOOT_DATA_DESCRIPTOR as nat, 8);
    lemma_pow256_values();
    lemma_le_bytes_len(0, 8);
    lemma_le_bytes_len(BOOT_CODE_DESCRIPTOR as nat, 8);
    lemma_le_bytes_len(BOOT_DATA_DESCRIPTOR as nat, 8);
    law_le_value_of_bytes(BOOT_CODE_DESCRIPTOR as nat, 8);
    law_le_value_of_bytes(BOOT_DATA_DESCRIPTOR as nat, 8);
    assert(boot_gdt().subrange(0x10, 0x18) =~= code);
    assert(boot_gdt().subrange(0x18, 0x20) =~= data);
    assert(BOOT_CODE_DESCRIPTOR & 0x0020_8800_0000_0000 == 0x0020_8800_0000_0000u64
        && BOOT_DATA_DESCRIPTOR & 0x0000_8A00_0000_0000 == 0x0000_8200_0000_0000u64 && 0x2u64 & 0x200
        == 0) by (bit_vector);
    let registers = boot_registers(map, kernel_entry);
    assert(registers[0] == (
        RegisterName::Gdtr,
        RegisterValue::Table { base: map.boot_gdt_start, size: 31 },
    ));
    assert(registers[9] == (RegisterName::Rip, RegisterValue::Reg64(kernel_entry)));
    assert(registers[10] == (RegisterName::Rsi, RegisterValue::Reg64(map.zero_page_start)));
}

pub(crate) proof fn lemma_e820_entry(entries: Seq<E820Entry>, i: int)
    requires
        0 <= i < entries.len(),
    ensures
        e820_table(entries).subrange(20 * i, 20 * i + 20) == e820_bytes(entries[i]),
    decreases entries.len(),
{
    lemma_e820_table_len(entries);
    lemma_e820_table_len(entries.drop_last());
    let table = e820_table(entries);
    let rest = e820_table(entries.drop_last());
    let last = e820_bytes(entries.last());
    assert(table == rest + last);
    if i == entries.len() - 1 {
        assert(table.subrange(20 * i, 20 * i + 20) =~= last);
    } else {
        lemma_e820_entry(entries.drop_last(), i);
        assert(table.subrange(20 * i, 20 * i + 20) =~= rest.subrange(20 * i, 20 * i + 20));
    }
}

/// What the kernel finds in its boot parameters: the magic, the loader's type,
/// where it was loaded, where its command line is, and every entry of the
/// memory map.
pub proof fn law_zero_page(base: Seq<u8>, code32_start: u64, cmdline: u64, entries: Seq<E820Entry>, i: int)
    requires
        base.len() == ZERO_PAGE_SIZE,
        entries.len() <= E820_MAX_ENTRIES,
        0 <= i < entries.len(),
    ensures
        ({
            let page = zero_page(base, code32_start, cmdline, entries);
            let at = E820_OFFSET + E820_ENTRY_SIZE * i;
            &&& page.len() == ZERO_PAGE_SIZE
            &&& page.subrange(0x202, 0x206) == hdr_magic()
            &&& page[0x210] == 0xFF
            &&& page[0x211] == base[0x211] | 0x81
            &&& u32_at(page, 0x214) == code32_start as u32
            &&& u32_at(page, 0x228) == cmdline as u32
            &&& page[0x1E8] == entries.len()
            &&& u64_at(page, at) == entries[i].addr
            &&& u64_at(page, at + 8) == entries[i].size
            &&& u32_at(page, at + 16) == entries[i].kind
        }),
{
    let page = zero_page(base, code32_start, cmdline, entries);
    let start = le_bytes(code32_start as u32 as nat, 4);
    let pointer = le_bytes(cmdline as u32 as nat, 4);
    let at = E820_OFFSET + E820_ENTRY_SIZE * i;
    lemma_pow256_values();
    lemma_le_bytes_len(code32_start as u32 as nat, 4);
    lemma_le_bytes_len(cmdline as u32 as nat, 4);
    lemma_le_bytes_len(0xFE00, 2);
    law_le_value_of_bytes(code32_start as u32 as nat, 4);
    law_le_value_of_bytes(cmdline as u32 as nat, 4);
    lemma_e820_table_len(entries);
    lemma_e820_entry(entries, i);
    let table = e820_table(entries);
    let entry = e820_bytes(entries[i]);
    let addr = le_bytes(entries[i].addr as nat, 8);
    let size = le_bytes(entries[i].size as nat, 8);
    let kind = le_bytes(entries[i].kind as nat, 4);
    lemma_le_bytes_len(entries[i].addr as nat, 8);
    lemma_le_bytes_len(entries[i].size as nat, 8);
    lemma_le_bytes_len(entries[i].kind as nat, 4);
    law_le_value_of_bytes(entries[i].addr as nat, 8);
    law_le_value_of_bytes(entries[i].size as nat, 8);
    law_le_value_of_bytes(entries[i].kind as nat, 4);
    assert(page.subrange(0x202, 0x206) =~= hdr_magic());
    assert(page.subrange(0x214, 0x218) =~= start);
    assert(page.subrange(0x228, 0x22C) =~= pointer);
    assert(page.subrange(E820_OFFSET as int, E820_OFFSET + 20 * entries.len()) =~= table);
    assert(page.subrange(at, at + 20) =~= table.subrange(20 * i, 20 * i + 20));
    assert(page.subrange(at, at + 20) == entry);
    assert(page.subrange(at, at + 8) =~= entry.subrange(0, 8));
    assert(page.subrange(at + 8, at + 16) =~= entry.subrange(8, 16));
    assert(page.subrange(at + 16, at + 20) =~= entry.subrange(16, 20));
    assert(entry.subrange(0, 8) =~= addr);
    assert(entry.subrange(8, 16) =~= size);
    assert(entry.subrange(16, 20) =~= kind);
}

/// Once the boot parameters are set up, guest memory holds them, and the
/// command line with them where the two do not overlap.
pub proof fn law_boot_params_in_memory(
    ram: Ram,
    mmio: Seq<MmioRegion>,
    map: MemoryLayout,
    base: Seq<u8>,
    gpa: u64,
    code32_start: u64,
)
    requires
        ram.wf(),
        base.len() == ZERO_PAGE_SIZE,
        boot_params_written(ram, mmio, map, base, gpa, code32_start).0 is Ok,
        find(ram.layout, gpa as int) matches Some(k) && ram.layout[k].perms.read,
        find(ram.layout, map.cmdline_start as int) matches Some(k) && ram.layout[k].perms.read,
    ensures
        ({
            let after = boot_params_written(ram, mmio, map, base, gpa, code32_start).1;
            let page = zero_page(base, code32_start, map.cmdline_start, e820_map(ram.layout, mmio, map));
            let text = cmdline_bytes();
            &&& after.read(gpa as int, 4096) == Ok::<Seq<u8>, MemoryError>(page)
            &&& map.cmdline_start + text.len() <= gpa || gpa + 4096 <= map.cmdline_start
                ==> after.read(map.cmdline_start as int, text.len() as int) == Ok::<
                Seq<u8>,
                MemoryError,
            >(text)
        }),
{
    let page = zero_page(base, code32_start, map.cmdline_start, e820_map(ram.layout, mmio, map));
    let text = cmdline_bytes();
    law_write_keeps_layout(ram, map.cmdline_start as int, text);
    law_read_after_write(ram, map.cmdline_start as int, text);
    let ram1 = ram.write(map.cmdline_start as int, text)->Ok_0;
    assert(page.len() == 4096);
    law_read_after_write(ram1, gpa as int, page);
    if map.cmdline_start + text.len() <= gpa || gpa + 4096 <= map.cmdline_start {
        law_read_elsewhere_after_write(
            ram1,
            gpa as int,
            page,
            map.cmdline_start as int,
            text.len() as int,
        );
    }
}

/// A segment with bytes in the file.
pub open spec fn loads(p: Elf64Phdr) -> bool {
    p.p_type == PT_LOAD && p.p_filesz > 0
}

/// The bytes of a segment do not meet the `n` bytes at `addr`.
pub open spec fn apart(p: Elf64Phdr, addr: int, n: int) -> bool {
    loads(p) ==> p.p_paddr + p.p_filesz <= addr || addr + n <= p.p_paddr
}

/// Loading segments keeps the layout, and memory that none of them meets.
proof fn lemma_segments_keep(
    file: Seq<u8>,
    ram: Ram,
    phdrs: Seq<Elf64Phdr>,
    i: int,
    lowest: u64,
    highest: u64,
    addr: int,
    n: int,
)
    requires
        ram.wf(),
        0 <= i,
        n >= 0,
    ensures
        ({
            let after = segments_loaded(file, ram, phdrs, i, lowest, highest).1;
            &&& after.wf()
            &&& after.layout == ram.layout
            &&& (forall|j: int| i <= j < phdrs.len() ==> apart(#[trigger] phdrs[j], addr, n))
                ==> after.read(addr, n) == ram.read(addr, n)
        }),
    decreases phdrs.len() - i,
{
    if i < phdrs.len() {
        let p = phdrs[i];
        if p.p_type != PT_LOAD {
            lemma_segments_keep(file, ram, phdrs, i + 1, lowest, highest, addr, n);
        } else if let Ok(after) = segment_written(file, ram, p) {
            if p.p_filesz > 0 {
                let data = read_at(file, p.p_offset as int, p.p_filesz as int)->0;
                law_write_keeps_layout(ram, p.p_paddr as int, data);
                if apart(p, addr, n) {
                    law_read_elsewhere_after_write(ram, p.p_paddr as int, data, addr, n);
                }
            }
            if p.p_paddr + p.p_memsz <= u64::MAX {
                lemma_segments_keep(
                    file,
                    after,
                    phdrs,
                    i + 1,
                    lower(lowest, p.p_paddr),
                    higher(highest, (p.p_paddr + p.p_memsz) as u64),
                    addr,
                    n,
                );
            }
        }
    }
}

/// Once an ELF kernel is loaded, memory holds the bytes of each of its
/// segments, where the segments do not overlap.
pub proof fn law_segments_in_memory(
    file: Seq<u8>,
    ram: Ram,
    phdrs: Seq<Elf64Phdr>,
    i: int,
    lowest: u64,
    highest: u64,
    k: int,
)
    requires
        ram.wf(),
        0 <= i <= k < phdrs.len(),
        loads(phdrs[k]),
        segments_loaded(file, ram, phdrs, i, lowest, highest).0 is Ok,
        forall|j: int|
            0 <= j < phdrs.len() && j != k ==> apart(
                #[trigger] phdrs[j],
                phdrs[k].p_paddr as int,
                phdrs[k].p_filesz as int,
            ),
        find(ram.layout, phdrs[k].p_paddr as int) matches Some(r) && ram.layout[r].perms.read,
    ensures
        segments_loaded(file, ram, phdrs, i, lowest, highest).1.read(
            phdrs[k].p_paddr as int,
            phdrs[k].p_filesz as int,
        ) == Ok::<Seq<u8>, MemoryError>(
            file.subrange(phdrs[k].p_offset as int, phdrs[k].p_offset + phdrs[k].p_filesz),
        ),
    decreases phdrs.len() - i,
{
    let p = phdrs[i];
    if p.p_type != PT_LOAD {
        law_segments_in_memory(file, ram, phdrs, i + 1, lowest, highest, k);
    } else {
        let after = segment_written(file, ram, p)->Ok_0;
        let low = lower(lowest, p.p_paddr);
        let high = higher(highest, (p.p_paddr + p.p_memsz) as u64);
        if p.p_filesz > 0 {
            let data = read_at(file, p.p_offset as int, p.p_filesz as int)->0;
            law_write_keeps_layout(ram, p.p_paddr as int, data);
            law_read_after_write(ram, p.p_paddr as int, data);
        }
        if k == i {
            lemma_segments_keep(
                file,
                after,
                phdrs,
                i + 1,
                low,
                high,
                p.p_paddr as int,
                p.p_filesz as int,
            );
        } else {
            law_segments_in_memory(file, after, phdrs, i + 1, low, high, k);
        }
    }
}

} // verus!
