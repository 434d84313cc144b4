//! What an ELF kernel becomes in guest memory.

use vstd::prelude::*;

use crate::laws::bits::lemma_bits;
use crate::laws::boot::{
    disjoint, has_loader_fields, has_memory_map, is_cmdline, lemma_params_accepted, lemma_params_held,
    lemma_params_keep, sizes_fit, starts_like_elf, takes,
};
use crate::laws::memory::{
    digits, holds, law_access_succeeds, law_bytes_add_up, law_numbers_are_little_endian, law_write_places_bytes,
    lemma_digits_of, lemma_holds_on,
};
use crate::linux_boot::{
    cmdline_bytes, e820_map, elf_headers, elf_params, first_load, higher, is_physical, kernel_loaded,
    lower, page_up, read_at, segment_written, segments_loaded, zero_page, BootError, Elf64Phdr,
};
use crate::memory::layout::MemoryLayout;
use crate::memory::memory::{law_write_keeps_layout, MmioRegion, Ram, RegionLayout};

verus! {

/// A field of program header `k`: the table starts where the file header says,
/// and has 56 bytes for each.
pub open spec fn field(file: Seq<u8>, k: int, offset: int, n: nat) -> int {
    digits(file, digits(file, 32, 8) + 56 * k + offset, n)
}

/// How many program headers there are.
pub open spec fn headers(file: Seq<u8>) -> int {
    digits(file, 56, 2)
}

/// Program header `k` asks to be loaded.
pub open spec fn wanted(file: Seq<u8>, k: int) -> bool {
    0 <= k < headers(file) && field(file, k, 0, 4) == 1
}

/// Where segment `k` goes.
pub open spec fn paddr(file: Seq<u8>, k: int) -> int {
    field(file, k, 24, 8)
}

/// How many bytes of segment `k` the file has.
pub open spec fn filesz(file: Seq<u8>, k: int) -> int {
    field(file, k, 32, 8)
}

/// How many bytes segment `k` takes in memory.
pub open spec fn memsz(file: Seq<u8>, k: int) -> int {
    field(file, k, 40, 8)
}

/// The bytes of segment `k` in the file.
pub open spec fn segment(file: Seq<u8>, k: int) -> Seq<u8> {
    Seq::new(filesz(file, k) as nat, |i: int| file[field(file, k, 8, 8) + i])
}

proof fn lemma_number(s: Seq<u8>, file: Seq<u8>, from: int, offset: int, n: nat)
    requires
        0 <= from,
        0 <= offset,
        offset + n <= s.len(),
        from + s.len() <= file.len(),
        s == file.subrange(from, from + s.len()),
        n == 2 || n == 4 || n == 8,
    ensures
        digits(s, offset, n) == digits(file, from + offset, n),
        n == 2 ==> crate::linux_boot::u16_at(s, offset) == digits(file, from + offset, 2),
        n == 4 ==> crate::linux_boot::u32_at(s, offset) == digits(file, from + offset, 4),
        n == 8 ==> crate::linux_boot::u64_at(s, offset) == digits(file, from + offset, 8),
{
    lemma_digits_of(s, file, offset, from + offset, n);
    law_numbers_are_little_endian(s, offset);
}

/// Which files have the headers of an ELF kernel, and what they say: the first
/// bytes are the magic; the kernel is for 64 bits, with the lowest byte first,
/// and for the right machine; program headers are of the right size, and lie in
/// the file.
pub proof fn law_elf_headers(file: Seq<u8>)
    ensures
        elf_headers(file) is Ok <==> {
            &&& file.len() >= 64
            &&& file[0] == 0x7f && file[1] == 0x45 && file[2] == 0x4c && file[3] == 0x46
            &&& file[4] == 2
            &&& file[5] == 1
            &&& digits(file, 18, 2) == 62
            &&& digits(file, 54, 2) == 56
            &&& digits(file, 32, 8) <= i64::MAX
            &&& headers(file) == 0 || digits(file, 32, 8) + 56 * headers(file) <= file.len()
        },
        elf_headers(file) matches Ok((h, phdrs)) ==> {
            &&& h.e_entry == digits(file, 24, 8)
            &&& phdrs.len() == headers(file)
            &&& forall|k: int|
                0 <= k < headers(file) ==> {
                    let p = #[trigger] phdrs[k];
                    &&& p.p_type == field(file, k, 0, 4)
                    &&& p.p_offset == field(file, k, 8, 8)
                    &&& p.p_vaddr == field(file, k, 16, 8)
                    &&& p.p_paddr == field(file, k, 24, 8)
                    &&& p.p_filesz == field(file, k, 32, 8)
                    &&& p.p_memsz == field(file, k, 40, 8)
                }
        },
        elf_headers(file) matches Err(e) ==> e == (if file.len() < 64 {
            BootError::Read
        } else if !(file[0] == 0x7f && file[1] == 0x45 && file[2] == 0x4c && file[3] == 0x46) {
            BootError::NotElf
        } else if file[4] != 2 {
            BootError::NotClass64(file[4])
        } else if file[5] != 1 {
            BootError::NotLittleEndian
        } else if digits(file, 18, 2) != 62 {
            BootError::NotX86_64(digits(file, 18, 2) as u16)
        } else if digits(file, 54, 2) != 56 {
            BootError::BadPhentsize(digits(file, 54, 2) as u16)
        } else {
            BootError::Read
        }),
{
    if file.len() >= 64 {
        let s = file.subrange(0, 64);
        lemma_number(s, file, 0, 0, 4);
        lemma_number(s, file, 0, 18, 2);
        lemma_number(s, file, 0, 24, 8);
        lemma_number(s, file, 0, 32, 8);
        lemma_number(s, file, 0, 54, 2);
        lemma_number(s, file, 0, 56, 2);
        law_numbers_are_little_endian(s, 0);
        if let Ok((h, phdrs)) = elf_headers(file) {
            let at = h.e_phoff as int;
            assert forall|k: int| 0 <= k < headers(file) implies {
                let p = #[trigger] phdrs[k];
                &&& p.p_type == field(file, k, 0, 4)
                &&& p.p_offset == field(file, k, 8, 8)
                &&& p.p_vaddr == field(file, k, 16, 8)
                &&& p.p_paddr == field(file, k, 24, 8)
                &&& p.p_filesz == field(file, k, 32, 8)
                &&& p.p_memsz == field(file, k, 40, 8)
            } by {
                let table = file.subrange(at, at + 56 * h.e_phnum);
                let t = table.subrange(56 * k, 56 * k + 56);
                assert(t =~= file.subrange(at + 56 * k, at + 56 * k + 56));
                lemma_number(t, file, at + 56 * k, 0, 4);
                lemma_number(t, file, at + 56 * k, 8, 8);
                lemma_number(t, file, at + 56 * k, 16, 8);
                lemma_number(t, file, at + 56 * k, 24, 8);
                lemma_number(t, file, at + 56 * k, 32, 8);
                lemma_number(t, file, at + 56 * k, 40, 8);
            }
        }
    }
}

/// The lowest and the highest address that the segments from `i` on take,
/// besides those of earlier ones.
proof fn lemma_segments_range(
    file: Seq<u8>,
    ram: Ram,
    phdrs: Seq<Elf64Phdr>,
    i: int,
    lowest: u64,
    highest: u64,
)
    requires
        0 <= i,
    ensures
        segments_loaded(file, ram, phdrs, i, lowest, highest).0 matches Ok((l, h)) ==> {
            &&& l <= lowest
            &&& h >= highest
            &&& forall|j: int|
                i <= j < phdrs.len() && (#[trigger] phdrs[j]).p_type == 1 ==> l <= phdrs[j].p_paddr
                    && phdrs[j].p_paddr + phdrs[j].p_memsz <= h
            &&& l == lowest || exists|j: int|
                i <= j < phdrs.len() && (#[trigger] phdrs[j]).p_type == 1 && phdrs[j].p_paddr == l
            &&& h == highest || exists|j: int|
                i <= j < phdrs.len() && (#[trigger] phdrs[j]).p_type == 1 && phdrs[j].p_paddr
                    + phdrs[j].p_memsz == h
        },
    decreases phdrs.len() - i,
{
    if i < phdrs.len() {
        let p = phdrs[i];
        if p.p_type != 1 {
            lemma_segments_range(file, ram, phdrs, i + 1, lowest, highest);
        } else if let Ok(after) = segment_written(file, ram, p) {
            if p.p_paddr + p.p_memsz <= u64::MAX {
                lemma_segments_range(
                    file,
                    after,
                    phdrs,
                    i + 1,
                    lower(lowest, p.p_paddr),
                    higher(highest, (p.p_paddr + p.p_memsz) as u64),
                );
                assert(phdrs[i] == p);
            }
        }
    }
}

proof fn lemma_segments_keep(
    file: Seq<u8>,
    ram: Ram,
    phdrs: Seq<Elf64Phdr>,
    i: int,
    lowest: u64,
    highest: u64,
    held: int,
    bytes: Seq<u8>,
)
    requires
        ram.wf(),
        0 <= i,
        segments_loaded(file, ram, phdrs, i, lowest, highest).0 is Ok,
    ensures
        ({
            let after = segments_loaded(file, ram, phdrs, i, lowest, highest).1;
            &&& after.wf()
            &&& after.layout == ram.layout
            &&& holds(ram, held, bytes) && (forall|j: int|
                i <= j < phdrs.len() && (#[trigger] phdrs[j]).p_type == 1 ==> disjoint(
                    held,
                    bytes.len() as int,
                    phdrs[j].p_paddr as int,
                    phdrs[j].p_filesz as int,
                )) ==> holds(after, held, bytes)
        }),
    decreases phdrs.len() - i,
{
    if i < phdrs.len() {
        let p = phdrs[i];
        if p.p_type != 1 {
            lemma_segments_keep(file, ram, phdrs, i + 1, lowest, highest, held, bytes);
        } else {
            let after = segment_written(file, ram, p)->Ok_0;
            if p.p_filesz > 0 {
                let data = read_at(file, p.p_offset as int, p.p_filesz as int)->0;
                law_write_keeps_layout(ram, p.p_paddr as int, data);
                if holds(ram, held, bytes) && disjoint(
                    held,
                    bytes.len() as int,
                    p.p_paddr as int,
                    p.p_filesz as int,
                ) {
                    lemma_holds_on(ram, after, p.p_paddr as int, data, held, bytes);
                }
            }
            lemma_segments_keep(
                file,
                after,
                phdrs,
                i + 1,
                lower(lowest, p.p_paddr),
                higher(highest, (p.p_paddr + p.p_memsz) as u64),
                held,
                bytes,
            );
        }
    }
}

proof fn lemma_segment_held(
    file: Seq<u8>,
    ram: Ram,
    phdrs: Seq<Elf64Phdr>,
    i: int,
    lowest: u64,
    highest: u64,
    k: int,
)
    requires
        ram.wf(),
        0 <= i <= k < phdrs.len(),
        phdrs[k].p_type == 1,
        phdrs[k].p_filesz > 0,
        segments_loaded(file, ram, phdrs, i, lowest, highest).0 is Ok,
        forall|j: int|
            k < j < phdrs.len() && (#[trigger] phdrs[j]).p_type == 1 ==> disjoint(
                phdrs[k].p_paddr as int,
                phdrs[k].p_filesz as int,
                phdrs[j].p_paddr as int,
                phdrs[j].p_filesz as int,
            ),
    ensures
        phdrs[k].p_offset + phdrs[k].p_filesz <= file.len(),
        holds(
            segments_loaded(file, ram, phdrs, i, lowest, highest).1,
            phdrs[k].p_paddr as int,
            file.subrange(phdrs[k].p_offset as int, phdrs[k].p_offset + phdrs[k].p_filesz),
        ),
    decreases phdrs.len() - i,
{
    let p = phdrs[i];
    if p.p_type != 1 {
        lemma_segment_held(file, ram, phdrs, i + 1, lowest, highest, k);
    } else {
        let after = segment_written(file, ram, p)->Ok_0;
        let low = lower(lowest, p.p_paddr);
        let high = higher(highest, (p.p_paddr + p.p_memsz) as u64);
        if p.p_filesz > 0 {
            let data = read_at(file, p.p_offset as int, p.p_filesz as int)->0;
            law_write_keeps_layout(ram, p.p_paddr as int, data);
            law_write_places_bytes(ram, p.p_paddr as int, data);
            if k == i {
                lemma_segments_keep(file, after, phdrs, i + 1, low, high, p.p_paddr as int, data);
            }
        }
        if k > i {
            lemma_segment_held(file, after, phdrs, i + 1, low, high, k);
        }
    }
}

/// A loaded ELF kernel lies in memory: the bytes of each segment that is to be
/// loaded are at its physical address, where no later segment, the command line
/// or the boot parameters overlap it.
pub proof fn law_elf_segment_in_memory(
    file: Seq<u8>,
    ram: Ram,
    mmio: Seq<MmioRegion>,
    map: MemoryLayout,
    k: int,
)
    requires
        ram.wf(),
        file.len() >= 4,
        starts_like_elf(file),
        kernel_loaded(file, ram, mmio, map).0 is Ok,
        wanted(file, k),
        filesz(file, k) > 0,
        forall|j: int|
            k < j && #[trigger] wanted(file, j) ==> disjoint(
                paddr(file, k),
                filesz(file, k),
                paddr(file, j),
                filesz(file, j),
            ),
        disjoint(paddr(file, k), filesz(file, k), map.cmdline_start as int, 70),
        disjoint(paddr(file, k), filesz(file, k), map.zero_page_start as int, 4096),
    ensures
        holds(kernel_loaded(file, ram, mmio, map).1, paddr(file, k), segment(file, k)),
{
    law_numbers_are_little_endian(file, 0);
    law_elf_headers(file);
    let (h, phdrs) = elf_headers(file)->Ok_0;
    let (range, ram1) = segments_loaded(file, ram, phdrs, 0, u64::MAX, 0);
    let p = phdrs[k];
    let data = file.subrange(p.p_offset as int, p.p_offset + p.p_filesz);
    assert forall|j: int| k < j < phdrs.len() && (#[trigger] phdrs[j]).p_type == 1 implies disjoint(
        p.p_paddr as int,
        p.p_filesz as int,
        phdrs[j].p_paddr as int,
        phdrs[j].p_filesz as int,
    ) by {
        assert(wanted(file, j));
    }
    lemma_segment_held(file, ram, phdrs, 0, u64::MAX, 0, k);
    lemma_segments_keep(file, ram, phdrs, 0, u64::MAX, 0, 0, Seq::empty());
    assert(data =~= segment(file, k));
    let (lowest, highest) = range->Ok_0;
    lemma_params_keep(
        ram1,
        mmio,
        map,
        elf_params(page_up(highest - lowest) as u32),
        map.zero_page_start,
        lowest,
        p.p_paddr as int,
        data,
    );
}

proof fn lemma_first_load(phdrs: Seq<Elf64Phdr>, i: int, k: int)
    requires
        0 <= i <= k < phdrs.len(),
        phdrs[k].p_type == 1,
        forall|j: int| i <= j < k ==> (#[trigger] phdrs[j]).p_type != 1,
    ensures
        first_load(phdrs, i) == Some(phdrs[k]),
    decreases k - i,
{
    if i < k {
        assert(phdrs[i].p_type != 1);
        lemma_first_load(phdrs, i + 1, k);
    }
}

/// Where an ELF kernel is entered: at the entry of its header, if that lies in
/// the physical range of some segment to be loaded; otherwise as far behind the
/// first such segment's physical address as the entry is behind its virtual
/// one.
pub proof fn law_elf_entry(file: Seq<u8>, ram: Ram, mmio: Seq<MmioRegion>, map: MemoryLayout, k: int)
    requires
        file.len() >= 4,
        starts_like_elf(file),
        kernel_loaded(file, ram, mmio, map).0 is Ok,
        wanted(file, k),
    ensures
        ({
            let e = digits(file, 24, 8);
            let r = kernel_loaded(file, ram, mmio, map).0->Ok_0;
            &&& paddr(file, k) <= e < paddr(file, k) + memsz(file, k) ==> r == e
            &&& (forall|j: int|
                #[trigger] wanted(file, j) ==> !(paddr(file, j) <= e < paddr(file, j) + memsz(file, j))) && (
            forall|j: int| 0 <= j < k ==> !#[trigger] wanted(file, j)) ==> r == (e - field(file, k, 16, 8)
                + paddr(file, k)) % 0x1_0000_0000_0000_0000
        }),
{
    law_numbers_are_little_endian(file, 0);
    law_elf_headers(file);
    let (h, phdrs) = elf_headers(file)->Ok_0;
    let e = digits(file, 24, 8);
    assert(phdrs[k].p_type == 1);
    if forall|j: int|
        #[trigger] wanted(file, j) ==> !(paddr(file, j) <= e < paddr(file, j) + memsz(file, j)) {
        if is_physical(phdrs, h.e_entry) {
            let j = choose|j: int|
                0 <= j < phdrs.len() && (#[trigger] phdrs[j]).p_type == 1 && phdrs[j].p_paddr <= h.e_entry
                    < phdrs[j].p_paddr + phdrs[j].p_memsz;
            assert(wanted(file, j));
        }
        if forall|j: int| 0 <= j < k ==> !#[trigger] wanted(file, j) {
            assert forall|j: int| 0 <= j < k implies (#[trigger] phdrs[j]).p_type != 1 by {
                assert(!wanted(file, j));
            }
            lemma_first_load(phdrs, 0, k);
        }
    }
}

/// What an ELF kernel finds: boot parameters with the magic and the version of
/// a setup header, the size that it takes in whole pages, and what the loader
/// fills in, its lowest address being where it is loaded; the memory map; and
/// the command line, where that does not overlap them.
pub proof fn law_elf_boot_params(
    file: Seq<u8>,
    ram: Ram,
    mmio: Seq<MmioRegion>,
    map: MemoryLayout,
) -> (found: (Seq<u8>, Seq<u8>, Seq<u8>, int, int))
    requires
        ram.wf(),
        sizes_fit(ram.layout),
        file.len() >= 4,
        starts_like_elf(file),
        e820_map(ram.layout, mmio, map).len() <= 168,
        kernel_loaded(file, ram, mmio, map).0 is Ok,
    ensures
        ({
            let after = kernel_loaded(file, ram, mmio, map).1;
            let (page, base, cmdline, lowest, highest) = found;
            &&& holds(after, map.zero_page_start as int, page)
            &&& exists|k: int| #[trigger] wanted(file, k) && paddr(file, k) == lowest
            &&& highest == 0 || exists|k: int|
                #[trigger] wanted(file, k) && paddr(file, k) + memsz(file, k) == highest
            &&& forall|k: int|
                #[trigger] wanted(file, k) ==> lowest <= paddr(file, k) && paddr(file, k) + memsz(file, k)
                    <= highest
            &&& base.len() == 4096
            &&& digits(base, 0x206, 2) == 0x020F
            &&& digits(base, 0x260, 4) == ((highest - lowest + 0xFFF) / 0x1000 * 0x1000) % 0x1_0000_0000
            &&& forall|j: int|
                0 <= j < 4096 && !(0x202 <= j < 0x208) && !(0x260 <= j < 0x264) ==> #[trigger] base[j] == 0
            &&& has_loader_fields(page, base, lowest, map.cmdline_start as int)
            &&& has_memory_map(page, ram.layout, mmio, map)
            &&& is_cmdline(cmdline)
            &&& disjoint(map.cmdline_start as int, 70, map.zero_page_start as int, 4096) ==> holds(
                after,
                map.cmdline_start as int,
                cmdline,
            )
        }),
{
    law_numbers_are_little_endian(file, 0);
    law_elf_headers(file);
    let (h, phdrs) = elf_headers(file)->Ok_0;
    let (range, ram1) = segments_loaded(file, ram, phdrs, 0, u64::MAX, 0);
    let (lowest, highest) = range->Ok_0;
    lemma_segments_range(file, ram, phdrs, 0, u64::MAX, 0);
    lemma_segments_keep(file, ram, phdrs, 0, u64::MAX, 0, 0, Seq::empty());
    let size = page_up(highest - lowest) as u32;
    let base = elf_params(size);
    lemma_elf_params(size);
    lemma_rounded(highest - lowest);
    lemma_params_held(ram1, mmio, map, base, map.zero_page_start, lowest);
    let low = choose|j: int|
        0 <= j < phdrs.len() && (#[trigger] phdrs[j]).p_type == 1 && phdrs[j].p_paddr == lowest;
    assert(wanted(file, low));
    if highest != 0 {
        let high = choose|j: int|
            0 <= j < phdrs.len() && (#[trigger] phdrs[j]).p_type == 1 && phdrs[j].p_paddr + phdrs[j].p_memsz
                == highest;
        assert(wanted(file, high));
    }
    assert forall|k: int| #[trigger] wanted(file, k) implies lowest <= paddr(file, k) && paddr(file, k)
        + memsz(file, k) <= highest by {
        assert(phdrs[k].p_type == 1);
    }
    let page = zero_page(base, lowest, map.cmdline_start, e820_map(ram1.layout, mmio, map));
    (page, base, cmdline_bytes(), lowest as int, highest as int)
}

proof fn lemma_rounded(v: int)
    requires
        0 <= v,
        v + 0xFFF <= u64::MAX,
    ensures
        (page_up(v) as u32) == ((v + 0xFFF) / 0x1000 * 0x1000) % 0x1_0000_0000,
{
    lemma_bits(page_up(v) as u64);
}

proof fn lemma_elf_params(size: u32)
    ensures
        ({
            let base = elf_params(size);
            &&& base.len() == 4096
            &&& digits(base, 0x206, 2) == 0x020F
            &&& digits(base, 0x260, 4) == size
            &&& forall|j: int|
                0 <= j < 4096 && !(0x202 <= j < 0x208) && !(0x260 <= j < 0x264) ==> #[trigger] base[j] == 0
        }),
{
    let base = elf_params(size);
    let version = crate::byte_order::le_bytes(0x020F, 2);
    let bytes = crate::byte_order::le_bytes(size as nat, 4);
    law_bytes_add_up(0x020F, 2);
    law_bytes_add_up(size as nat, 4);
    lemma_digits_of(base, version, 0x206, 0, 2);
    lemma_digits_of(base, bytes, 0x260, 0, 4);
}

/// A segment can be loaded: its bytes lie in the file and memory takes them, and
/// it ends within the address space.
pub open spec fn loadable(file: Seq<u8>, layout: Seq<RegionLayout>, k: int) -> bool {
    &&& filesz(file, k) > 0 ==> field(file, k, 8, 8) <= i64::MAX && field(file, k, 8, 8) + filesz(file, k)
        <= file.len() && takes(layout, paddr(file, k), filesz(file, k))
    &&& paddr(file, k) + memsz(file, k) <= u64::MAX
}

#[verifier::rlimit(50)]
proof fn lemma_segments_accepted(
    file: Seq<u8>,
    ram: Ram,
    phdrs: Seq<Elf64Phdr>,
    i: int,
    lowest: u64,
    highest: u64,
)
    requires
        ram.wf(),
        0 <= i,
        phdrs.len() == headers(file),
        forall|k: int|
            0 <= k < headers(file) ==> {
                let p = #[trigger] phdrs[k];
                &&& p.p_type == field(file, k, 0, 4)
                &&& p.p_offset == field(file, k, 8, 8)
                &&& p.p_paddr == field(file, k, 24, 8)
                &&& p.p_filesz == field(file, k, 32, 8)
                &&& p.p_memsz == field(file, k, 40, 8)
            },
    ensures
        segments_loaded(file, ram, phdrs, i, lowest, highest).0 is Ok <==> forall|k: int|
            i <= k && #[trigger] wanted(file, k) ==> loadable(file, ram.layout, k),
        segments_loaded(file, ram, phdrs, i, lowest, highest).1.layout == ram.layout,
        segments_loaded(file, ram, phdrs, i, lowest, highest).1.wf(),
    decreases phdrs.len() - i,
{
    if i < phdrs.len() {
        let p = phdrs[i];
        if p.p_type != 1 {
            lemma_segments_accepted(file, ram, phdrs, i + 1, lowest, highest);
            assert(!wanted(file, i));
            assert forall|k: int| i <= k && #[trigger] wanted(file, k) implies i + 1 <= k by {}
        } else {
            assert(wanted(file, i));
            if let Some(data) = read_at(file, p.p_offset as int, p.p_filesz as int) {
                if p.p_filesz > 0 {
                    law_access_succeeds(ram, p.p_paddr as int, data, 1);
                    law_write_keeps_layout(ram, p.p_paddr as int, data);
                }
            }
            if let Ok(after) = segment_written(file, ram, p) {
                if p.p_paddr + p.p_memsz <= u64::MAX {
                    lemma_segments_accepted(
                        file,
                        after,
                        phdrs,
                        i + 1,
                        lower(lowest, p.p_paddr),
                        higher(highest, (p.p_paddr + p.p_memsz) as u64),
                    );
                    assert(after.layout == ram.layout);
                    if forall|k: int| i + 1 <= k && #[trigger] wanted(file, k) ==> loadable(file, ram.layout, k) {
                        assert forall|k: int| i <= k && #[trigger] wanted(file, k) implies loadable(
                            file,
                            ram.layout,
                            k,
                        ) by {
                            if k == i {
                                assert(loadable(file, ram.layout, i));
                            }
                        }
                    }
                }
            }
        }
    }
}

/// An ELF kernel with sound headers and a segment below the highest address is
/// loaded exactly if each of its segments can be, and memory takes the command
/// line and the boot parameters; all segments together must not need the whole
/// address space.
pub proof fn law_elf_accepted(file: Seq<u8>, ram: Ram, mmio: Seq<MmioRegion>, map: MemoryLayout, j: int)
    requires
        ram.wf(),
        file.len() >= 4,
        starts_like_elf(file),
        elf_headers(file) is Ok,
        wanted(file, j),
        paddr(file, j) < u64::MAX,
        forall|k: int| #[trigger] wanted(file, k) ==> paddr(file, k) + memsz(file, k) <= u64::MAX - 0xFFF,
    ensures
        kernel_loaded(file, ram, mmio, map).0 is Ok <==> {
            &&& forall|k: int| #[trigger] wanted(file, k) ==> loadable(file, ram.layout, k)
            &&& takes(ram.layout, map.cmdline_start as int, 70)
            &&& takes(ram.layout, map.zero_page_start as int, 4096)
        },
{
    law_numbers_are_little_endian(file, 0);
    law_elf_headers(file);
    let (h, phdrs) = elf_headers(file)->Ok_0;
    lemma_segments_accepted(file, ram, phdrs, 0, u64::MAX, 0);
    assert(phdrs[j].p_type == 1);
    let (range, ram1) = segments_loaded(file, ram, phdrs, 0, u64::MAX, 0);
    if let Ok((lowest, highest)) = range {
        lemma_segments_range(file, ram, phdrs, 0, u64::MAX, 0);
        if highest != 0 {
            let t = choose|t: int|
                0 <= t < phdrs.len() && (#[trigger] phdrs[t]).p_type == 1 && phdrs[t].p_paddr + phdrs[t].p_memsz
                    == highest;
            assert(wanted(file, t));
        }
        let base = elf_params(page_up(highest - lowest) as u32);
        assert(base.len() == 4096);
        lemma_params_accepted(ram1, mmio, map, base, map.zero_page_start, lowest);
    }
    assert((forall|k: int| 0 <= k && #[trigger] wanted(file, k) ==> loadable(file, ram.layout, k)) <==> (forall|k: int|
        #[trigger] wanted(file, k) ==> loadable(file, ram.layout, k)));
}

} // verus!
