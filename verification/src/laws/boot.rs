//! What a loaded kernel finds: itself, its boot parameters, its command line,
//! the memory map and its registers.

use vstd::prelude::*;

use crate::byte_order::le_bytes;
use crate::laws::bits::lemma_bits;
use crate::laws::memory::{
    digits, holds, law_access_succeeds, law_bytes_add_up, law_numbers_are_little_endian, law_write_places_bytes,
    lemma_digits_of, lemma_holds_on,
};
use crate::linux_boot::{
    boot_params_written, cmdline_bytes, e820_bytes, e820_map, e820_table, kernel_loaded,
    lemma_e820_entry, lemma_e820_table_len, memory_end, mmio_entries, ram_entries, read_at, setup_size,
    u32_at, zero_page, zeros, BootError, E820Entry,
};
use crate::memory::layout::MemoryLayout;
use crate::memory::memory::{find, law_write_keeps_layout, spliced, MmioRegion, Ram, RegionLayout};

verus! {

/// A file that starts like an ELF file.
pub open spec fn starts_like_elf(file: Seq<u8>) -> bool {
    file[0] == 0x7F && file[1] == 0x45 && file[2] == 0x4C && file[3] == 0x46
}

/// Two ranges of addresses that do not meet.
pub open spec fn disjoint(a: int, n: int, b: int, m: int) -> bool {
    a + n <= b || b + m <= a
}

/// How many setup sectors a bzImage has.
pub open spec fn setup_sectors(file: Seq<u8>) -> int {
    if file[0x1f1] == 0 {
        4
    } else {
        file[0x1f1] as int
    }
}

proof fn lemma_cmdline_len()
    ensures
        cmdline_bytes().len() == 70,
{
    reveal_strlit("console=hvc0 8250.nr_uarts=0 root=/dev/vda rw init=/bin/sh loglevel=1");
}

pub(crate) proof fn lemma_params_keep(
    ram: Ram,
    mmio: Seq<MmioRegion>,
    map: MemoryLayout,
    base: Seq<u8>,
    gpa: u64,
    code32_start: u64,
    held: int,
    bytes: Seq<u8>,
)
    requires
        ram.wf(),
        base.len() == 4096,
        boot_params_written(ram, mmio, map, base, gpa, code32_start).0 is Ok,
        holds(ram, held, bytes),
        disjoint(held, bytes.len() as int, map.cmdline_start as int, 70),
        disjoint(held, bytes.len() as int, gpa as int, 4096),
    ensures
        holds(boot_params_written(ram, mmio, map, base, gpa, code32_start).1, held, bytes),
{
    lemma_cmdline_len();
    let page = zero_page(base, code32_start, map.cmdline_start, e820_map(ram.layout, mmio, map));
    assert(page.len() == 4096);
    let text = cmdline_bytes();
    let ram1 = ram.write(map.cmdline_start as int, text)->Ok_0;
    law_write_keeps_layout(ram, map.cmdline_start as int, text);
    lemma_holds_on(ram, ram1, map.cmdline_start as int, text, held, bytes);
    let ram2 = ram1.write(gpa as int, page)->Ok_0;
    lemma_holds_on(ram1, ram2, gpa as int, page, held, bytes);
}

/// A bzImage is a boot sector, its setup sectors of 512 bytes each, and the
/// kernel. Once it is loaded, memory holds exactly the kernel from the start of
/// high memory on, where the command line and the boot parameters lie
/// elsewhere, and the kernel is entered 512 bytes after its start.
pub proof fn law_bzimage_kernel_in_memory(file: Seq<u8>, ram: Ram, mmio: Seq<MmioRegion>, map: MemoryLayout)
    requires
        ram.wf(),
        file.len() >= 4,
        !starts_like_elf(file),
        kernel_loaded(file, ram, mmio, map).0 is Ok,
        map.high_ram_start + 512 <= u64::MAX,
    ensures
        ({
            let n = if file[0x1f1] == 0 {
                4int
            } else {
                file[0x1f1] as int
            };
            let len = file.len() - 512 * (n + 1);
            let after = kernel_loaded(file, ram, mmio, map).1;
            &&& len >= 0
            &&& kernel_loaded(file, ram, mmio, map).0 matches Ok(entry) && entry == map.high_ram_start + 512
            &&& disjoint(map.high_ram_start as int, len, map.cmdline_start as int, 70) && disjoint(
                map.high_ram_start as int,
                len,
                map.zero_page_start as int,
                4096,
            ) ==> holds(
                after,
                map.high_ram_start as int,
                Seq::new(len as nat, |i: int| file[512 * (n + 1) + i]),
            )
        }),
{
    law_numbers_are_little_endian(file, 0);
    lemma_not_elf(file);
    let n = setup_sectors(file);
    let len = file.len() - 512 * (n + 1);
    let kernel = file.subrange(setup_size(file), file.len() as int);
    assert(kernel =~= Seq::new(len as nat, |i: int| file[512 * (n + 1) + i]));
    let ram1 = ram.write(map.high_ram_start as int, kernel)->Ok_0;
    law_write_places_bytes(ram, map.high_ram_start as int, kernel);
    law_write_keeps_layout(ram, map.high_ram_start as int, kernel);
    let header = read_at(file, 0x1f1, 0x11 + file[0x201])->0;
    if disjoint(map.high_ram_start as int, len, map.cmdline_start as int, 70) && disjoint(
        map.high_ram_start as int,
        len,
        map.zero_page_start as int,
        4096,
    ) {
        lemma_params_keep(
            ram1,
            mmio,
            map,
            spliced(zeros(4096), 0x1f1, header),
            map.zero_page_start,
            u32_at(file, 0x214) as u64,
            map.high_ram_start as int,
            kernel,
        );
    }
}

/// Which bzImages are refused, and why: those that end before their setup
/// header does; those without "HdrS" in it; those of a version before 2.0 or
/// that are not loaded high; and those that end before their kernel starts.
pub proof fn law_bzimage_refused(file: Seq<u8>, ram: Ram, mmio: Seq<MmioRegion>, map: MemoryLayout)
    requires
        file.len() >= 4,
        !starts_like_elf(file),
    ensures
        ({
            let n = if file[0x1f1] == 0 {
                4int
            } else {
                file[0x1f1] as int
            };
            let hdrs = file[0x202] == 0x48 && file[0x203] == 0x64 && file[0x204] == 0x72 && file[0x205] == 0x53;
            let (r, after) = kernel_loaded(file, ram, mmio, map);
            if file.len() < 0x26C {
                r == Err::<u64, BootError>(BootError::Read) && after == ram
            } else if !hdrs {
                (r matches Err(BootError::MissingMagic(m)) && m == digits(file, 0x202, 4)) && after == ram
            } else if file[0x207] < 2 || file[0x211] % 2 == 0 {
                (r matches Err(BootError::UnsupportedVersion(v)) && v == digits(file, 0x206, 2)) && after
                    == ram
            } else if 512 * (n + 1) > file.len() {
                r == Err::<u64, BootError>(BootError::AddressOverflow) && after == ram
            } else {
                r matches Err(e) ==> e is Memory || e is Read
            }
        }),
{
    lemma_not_elf(file);
    if file.len() >= 0x26C {
        law_numbers_are_little_endian(file, 0x202);
        law_numbers_are_little_endian(file, 0x206);
        lemma_bits(file[0x211] as u64);
    }
}

/// The text that tells the kernel what to do.
pub open spec fn is_cmdline(bytes: Seq<u8>) -> bool {
    let text = "console=hvc0 8250.nr_uarts=0 root=/dev/vda rw init=/bin/sh loglevel=1"@;
    &&& bytes.len() == 70
    &&& bytes[69] == 0
    &&& forall|i: int| 0 <= i < 69 ==> #[trigger] bytes[i] == text[i] as u8
}

/// Entry `i` of the memory map in the boot parameters: an address, a size and a
/// kind, one after the other.
pub open spec fn maps(page: Seq<u8>, i: int, addr: int, size: int, kind: int) -> bool {
    &&& digits(page, 0x2D0 + 20 * i, 8) == addr
    &&& digits(page, 0x2D0 + 20 * i + 8, 8) == size
    &&& digits(page, 0x2D0 + 20 * i + 16, 4) == kind
}

/// The sizes of the regions are numbers of eight bytes.
pub open spec fn sizes_fit(layout: Seq<RegionLayout>) -> bool {
    forall|k: int| 0 <= k < layout.len() ==> (#[trigger] layout[k]).size <= u64::MAX
}

/// Whether memory reaches beyond `addr`.
pub open spec fn reaches(layout: Seq<RegionLayout>, addr: int) -> bool {
    exists|k: int| 0 <= k < layout.len() && (#[trigger] layout[k]).base + layout[k].size > addr
}

/// The memory map in the boot parameters: each memory region as usable, then
/// the hole below four gigabytes if memory reaches beyond its start, and each
/// device region as reserved; and how many there are.
pub open spec fn has_memory_map(
    page: Seq<u8>,
    layout: Seq<RegionLayout>,
    mmio: Seq<MmioRegion>,
    map: MemoryLayout,
) -> bool {
    let hole: int = if reaches(layout, map.mem_32bit_reserved_start as int) {
        1
    } else {
        0
    };
    &&& page[0x1E8] == layout.len() + hole + mmio.len()
    &&& forall|i: int|
        0 <= i < layout.len() ==> maps(page, i, (#[trigger] layout[i]).base, layout[i].size, 1)
    &&& hole == 1 ==> maps(
        page,
        layout.len() as int,
        map.mem_32bit_reserved_start as int,
        map.mem_32bit_reserved_size as int,
        2,
    )
    &&& forall|i: int|
        0 <= i < mmio.len() ==> maps(
            page,
            layout.len() + hole + i,
            (#[trigger] mmio[i]).gpa.0 as int,
            mmio[i].size as int,
            2,
        )
}

/// The fields that the loader fills in: its type; that the kernel is loaded
/// high and has a heap; where it is loaded; where its heap ends; and where its
/// command line is. The other fields up to the memory map are those of `base`,
/// but for the bytes that are cleared.
pub open spec fn has_loader_fields(page: Seq<u8>, base: Seq<u8>, code32_start: int, cmdline: int) -> bool {
    &&& page.len() == 4096
    &&& page[0x202] == 0x48 && page[0x203] == 0x64 && page[0x204] == 0x72 && page[0x205] == 0x53
    &&& page[0x210] == 0xFF
    &&& page[0x211] == base[0x211] | 0x81
    &&& digits(page, 0x214, 4) == code32_start % 0x1_0000_0000
    &&& digits(page, 0x224, 2) == 0xFE00
    &&& digits(page, 0x228, 4) == cmdline % 0x1_0000_0000
    &&& forall|j: int|
        0 <= j < 0x2D0 && !(0x1E0 <= j < 0x1EF) && !(0x202 <= j < 0x206) && !(0x210 <= j < 0x212) && !(0x214
            <= j < 0x218) && !(0x224 <= j < 0x226) && !(0x228 <= j < 0x22C) ==> #[trigger] page[j] == base[j]
}

proof fn lemma_memory_end(layout: Seq<RegionLayout>, addr: int)
    requires
        addr >= 0,
    ensures
        (memory_end(layout) > addr) == reaches(layout, addr),
    decreases layout.len(),
{
    if layout.len() > 0 {
        let rest = layout.drop_last();
        lemma_memory_end(rest, addr);
        if reaches(rest, addr) {
            let k = choose|k: int| 0 <= k < rest.len() && (#[trigger] rest[k]).base + rest[k].size > addr;
            assert(layout[k].base + layout[k].size > addr);
        }
        if reaches(layout, addr) {
            let k = choose|k: int|
                0 <= k < layout.len() && (#[trigger] layout[k]).base + layout[k].size > addr;
            if k < rest.len() {
                assert(rest[k].base + rest[k].size > addr);
            }
        }
        if layout.last().base + layout.last().size > addr {
            assert(layout[layout.len() - 1].base + layout[layout.len() - 1].size > addr);
        }
    }
}

proof fn lemma_field(page: Seq<u8>, at: int, bytes: Seq<u8>, n: nat)
    requires
        0 <= at,
        at + n <= page.len(),
        bytes.len() == n,
        forall|i: int| 0 <= i < n ==> #[trigger] page[at + i] == bytes[i],
    ensures
        digits(page, at, n) == digits(bytes, 0, n),
{
    assert forall|i: int| 0 <= i < n implies #[trigger] page[at + i] == bytes[0 + i] by {
        assert(page[at + i] == bytes[i]);
    }
    lemma_digits_of(page, bytes, at, 0, n);
}

proof fn lemma_map_entry(page: Seq<u8>, entries: Seq<E820Entry>, i: int)
    requires
        page.len() == 4096,
        entries.len() <= 168,
        0 <= i < entries.len(),
        forall|j: int|
            0 <= j < 20 * entries.len() ==> #[trigger] page[0x2D0 + j] == e820_table(entries)[j],
    ensures
        maps(page, i, entries[i].addr as int, entries[i].size as int, entries[i].kind as int),
{
    let e = entries[i];
    let table = e820_table(entries);
    lemma_e820_table_len(entries);
    lemma_e820_entry(entries, i);
    law_bytes_add_up(e.addr as nat, 8);
    law_bytes_add_up(e.size as nat, 8);
    law_bytes_add_up(e.kind as nat, 4);
    let part = table.subrange(20 * i, 20 * i + 20);
    let at = 0x2D0 + 20 * i;
    assert(part == e820_bytes(e));
    assert forall|j: int| 0 <= j < 20 implies #[trigger] page[at + j] == part[j] by {
        assert(page[0x2D0 + (20 * i + j)] == table[20 * i + j]);
    }
    assert forall|j: int| 0 <= j < 8 implies #[trigger] page[at + j] == le_bytes(e.addr as nat, 8)[j] by {
        assert(page[at + j] == part[j]);
    }
    assert forall|j: int| 0 <= j < 8 implies #[trigger] page[at + 8 + j] == le_bytes(e.size as nat, 8)[j] by {
        assert(page[at + (8 + j)] == part[8 + j]);
    }
    assert forall|j: int| 0 <= j < 4 implies #[trigger] page[at + 16 + j] == le_bytes(e.kind as nat, 4)[j] by {
        assert(page[at + (16 + j)] == part[16 + j]);
    }
    lemma_field(page, at, le_bytes(e.addr as nat, 8), 8);
    lemma_field(page, at + 8, le_bytes(e.size as nat, 8), 8);
    lemma_field(page, at + 16, le_bytes(e.kind as nat, 4), 4);
}

#[verifier::rlimit(50)]
proof fn lemma_page(
    base: Seq<u8>,
    code32_start: u64,
    layout: Seq<RegionLayout>,
    mmio: Seq<MmioRegion>,
    map: MemoryLayout,
)
    requires
        base.len() == 4096,
        e820_map(layout, mmio, map).len() <= 168,
        forall|k: int|
            0 <= k < layout.len() ==> 0 <= (#[trigger] layout[k]).base <= u64::MAX && 0 <= layout[k].size
                <= u64::MAX,
    ensures
        ({
            let page = zero_page(base, code32_start, map.cmdline_start, e820_map(layout, mmio, map));
            &&& has_loader_fields(page, base, code32_start as int, map.cmdline_start as int)
            &&& has_memory_map(page, layout, mmio, map)
        }),
{
    let entries = e820_map(layout, mmio, map);
    let page = zero_page(base, code32_start, map.cmdline_start, entries);
    let start = le_bytes(code32_start as u32 as nat, 4);
    let pointer = le_bytes(map.cmdline_start as u32 as nat, 4);
    let heap = le_bytes(0xFE00, 2);
    law_bytes_add_up(code32_start as u32 as nat, 4);
    law_bytes_add_up(map.cmdline_start as u32 as nat, 4);
    law_bytes_add_up(0xFE00, 2);
    lemma_bits(code32_start);
    lemma_bits(map.cmdline_start);
    lemma_e820_table_len(entries);
    lemma_field(page, 0x214, start, 4);
    lemma_field(page, 0x224, heap, 2);
    lemma_field(page, 0x228, pointer, 4);
    lemma_memory_end(layout, map.mem_32bit_reserved_start as int);
    assert forall|j: int| 0 <= j < 20 * entries.len() implies #[trigger] page[0x2D0 + j] == e820_table(
        entries,
    )[j] by {}
    let hole: int = if reaches(layout, map.mem_32bit_reserved_start as int) {
        1
    } else {
        0
    };
    assert(entries.len() == layout.len() + hole + mmio.len());
    assert forall|i: int| 0 <= i < layout.len() implies maps(
        page,
        i,
        (#[trigger] layout[i]).base,
        layout[i].size,
        1,
    ) by {
        assert(entries[i] == ram_entries(layout)[i]);
        lemma_map_entry(page, entries, i);
    }
    if hole == 1 {
        lemma_map_entry(page, entries, layout.len() as int);
    }
    assert forall|i: int| 0 <= i < mmio.len() implies maps(
        page,
        layout.len() + hole + i,
        (#[trigger] mmio[i]).gpa.0 as int,
        mmio[i].size as int,
        2,
    ) by {
        assert(entries[layout.len() + hole + i] == mmio_entries(mmio)[i]);
        lemma_map_entry(page, entries, layout.len() + hole + i);
    }
}

pub(crate) proof fn lemma_params_held(
    ram: Ram,
    mmio: Seq<MmioRegion>,
    map: MemoryLayout,
    base: Seq<u8>,
    gpa: u64,
    code32_start: u64,
)
    requires
        ram.wf(),
        sizes_fit(ram.layout),
        base.len() == 4096,
        boot_params_written(ram, mmio, map, base, gpa, code32_start).0 is Ok,
        e820_map(ram.layout, mmio, map).len() <= 168,
    ensures
        ({
            let after = boot_params_written(ram, mmio, map, base, gpa, code32_start).1;
            let page = zero_page(base, code32_start, map.cmdline_start, e820_map(ram.layout, mmio, map));
            &&& holds(after, gpa as int, page)
            &&& is_cmdline(cmdline_bytes())
            &&& disjoint(map.cmdline_start as int, 70, gpa as int, 4096) ==> holds(
                after,
                map.cmdline_start as int,
                cmdline_bytes(),
            )
            &&& has_loader_fields(page, base, code32_start as int, map.cmdline_start as int)
            &&& has_memory_map(page, ram.layout, mmio, map)
        }),
{
    lemma_cmdline_len();
    reveal_strlit("console=hvc0 8250.nr_uarts=0 root=/dev/vda rw init=/bin/sh loglevel=1");
    let page = zero_page(base, code32_start, map.cmdline_start, e820_map(ram.layout, mmio, map));
    let text = cmdline_bytes();
    let ram1 = ram.write(map.cmdline_start as int, text)->Ok_0;
    law_write_keeps_layout(ram, map.cmdline_start as int, text);
    law_write_places_bytes(ram, map.cmdline_start as int, text);
    law_write_places_bytes(ram1, gpa as int, page);
    if disjoint(map.cmdline_start as int, 70, gpa as int, 4096) {
        let ram2 = ram1.write(gpa as int, page)->Ok_0;
        lemma_holds_on(ram1, ram2, gpa as int, page, map.cmdline_start as int, text);
    }
    lemma_page(base, code32_start, ram.layout, mmio, map);
}

/// What a kernel from a bzImage finds: in its boot parameters its own setup
/// header, with what the loader fills in and the memory map; and the command
/// line, where that does not overlap them.
pub proof fn law_bzimage_boot_params(
    file: Seq<u8>,
    ram: Ram,
    mmio: Seq<MmioRegion>,
    map: MemoryLayout,
) -> (found: (Seq<u8>, Seq<u8>, Seq<u8>))
    requires
        ram.wf(),
        sizes_fit(ram.layout),
        file.len() >= 4,
        !starts_like_elf(file),
        e820_map(ram.layout, mmio, map).len() <= 168,
        kernel_loaded(file, ram, mmio, map).0 is Ok,
    ensures
        ({
            let after = kernel_loaded(file, ram, mmio, map).1;
            let (page, base, cmdline) = found;
            &&& holds(after, map.zero_page_start as int, page)
            &&& base.len() == 4096
            &&& forall|j: int|
                0 <= j < 4096 ==> #[trigger] base[j] == (if 0x1f1 <= j < 0x202 + file[0x201] {
                    file[j]
                } else {
                    0u8
                })
            &&& has_loader_fields(page, base, digits(file, 0x214, 4), map.cmdline_start as int)
            &&& has_memory_map(page, ram.layout, mmio, map)
            &&& is_cmdline(cmdline)
            &&& disjoint(map.cmdline_start as int, 70, map.zero_page_start as int, 4096) ==> holds(
                after,
                map.cmdline_start as int,
                cmdline,
            )
        }),
{
    lemma_not_elf(file);
    let kernel = file.subrange(setup_size(file), file.len() as int);
    let ram1 = ram.write(map.high_ram_start as int, kernel)->Ok_0;
    law_write_keeps_layout(ram, map.high_ram_start as int, kernel);
    let header = read_at(file, 0x1f1, 0x11 + file[0x201])->0;
    let base = spliced(zeros(4096), 0x1f1, header);
    law_numbers_are_little_endian(file, 0x214);
    let start = u32_at(file, 0x214) as u64;
    lemma_params_held(ram1, mmio, map, base, map.zero_page_start, start);
    let page = zero_page(base, start, map.cmdline_start, e820_map(ram1.layout, mmio, map));
    (page, base, cmdline_bytes())
}

proof fn lemma_not_elf(file: Seq<u8>)
    requires
        file.len() >= 4,
    ensures
        (u32_at(file, 0) == 0x464c_457f) == starts_like_elf(file),
{
    law_numbers_are_little_endian(file, 0);
}

/// So many bytes can be written at an address: one region holds it, has host
/// memory and may be written, and goes on behind them.
pub open spec fn takes(layout: Seq<RegionLayout>, gpa: int, n: int) -> bool {
    find(layout, gpa) matches Some(k) && layout[k].perms.write && layout[k].mapped && gpa + n < layout[k].base
        + layout[k].size
}

pub(crate) proof fn lemma_params_accepted(
    ram: Ram,
    mmio: Seq<MmioRegion>,
    map: MemoryLayout,
    base: Seq<u8>,
    gpa: u64,
    code32_start: u64,
)
    requires
        ram.wf(),
        base.len() == 4096,
    ensures
        boot_params_written(ram, mmio, map, base, gpa, code32_start).0 is Ok <==> takes(
            ram.layout,
            map.cmdline_start as int,
            70,
        ) && takes(ram.layout, gpa as int, 4096),
{
    lemma_cmdline_len();
    let cmdline = cmdline_bytes();
    let page = zero_page(base, code32_start, map.cmdline_start, e820_map(ram.layout, mmio, map));
    assert(page.len() == 4096);
    law_access_succeeds(ram, map.cmdline_start as int, cmdline, 1);
    if let Ok(ram1) = ram.write(map.cmdline_start as int, cmdline) {
        law_write_keeps_layout(ram, map.cmdline_start as int, cmdline);
        law_access_succeeds(ram1, gpa as int, page, 1);
    }
}

/// A compressed kernel with a sound setup header is loaded exactly if its header
/// lies in the file and memory takes the kernel, the command line and the boot
/// parameters.
pub proof fn law_bzimage_accepted(file: Seq<u8>, ram: Ram, mmio: Seq<MmioRegion>, map: MemoryLayout)
    requires
        ram.wf(),
        file.len() >= 0x26C,
        !starts_like_elf(file),
        file[0x202] == 0x48 && file[0x203] == 0x64 && file[0x204] == 0x72 && file[0x205] == 0x53,
        file[0x207] >= 2 && file[0x211] % 2 == 1,
        ({
            let n = if file[0x1f1] == 0 {
                4int
            } else {
                file[0x1f1] as int
            };
            512 * (n + 1) < file.len()
        }),
    ensures
        ({
            let n = if file[0x1f1] == 0 {
                4int
            } else {
                file[0x1f1] as int
            };
            kernel_loaded(file, ram, mmio, map).0 is Ok <==> {
                &&& 0x202 + file[0x201] <= file.len()
                &&& takes(ram.layout, map.high_ram_start as int, file.len() - 512 * (n + 1))
                &&& takes(ram.layout, map.cmdline_start as int, 70)
                &&& takes(ram.layout, map.zero_page_start as int, 4096)
            }
        }),
{
    law_bzimage_refused(file, ram, mmio, map);
    law_numbers_are_little_endian(file, 0);
    lemma_not_elf(file);
    let kernel = file.subrange(setup_size(file), file.len() as int);
    law_access_succeeds(ram, map.high_ram_start as int, kernel, 1);
    if let Ok(ram1) = ram.write(map.high_ram_start as int, kernel) {
        law_write_keeps_layout(ram, map.high_ram_start as int, kernel);
        if let Some(header) = read_at(file, 0x1f1, 0x11 + file[0x201]) {
            let base = spliced(zeros(4096), 0x1f1, header);
            assert(base.len() == 4096);
            lemma_params_accepted(ram1, mmio, map, base, map.zero_page_start, u32_at(file, 0x214) as u64);
        }
    }
}

} // verus!
