//! What is done to the guest's memory, and how its processor runs.

use acpi_tables::sdt::Sdt;
use vstd::prelude::*;

use crate::cpu::{sdt_bytes, CpuManager};
use crate::device_manager::register_devices;
use crate::devices::bus::{Bus, BusError, BusRange};
use crate::devices::virtio::net::worker::{
    default_rx_header, rx_reader_step, ReaderAction, ReaderEvent, ReaderState,
};
use crate::laws::boot::{disjoint, law_bzimage_kernel_in_memory, starts_like_elf, takes};
use crate::laws::elf::{filesz, law_elf_segment_in_memory, paddr, segment, wanted};
use crate::laws::entry::{law_boot_descriptors, law_entry_registers, law_page_tables, set_to};
use crate::laws::exits::{law_exits, law_msr_answered, law_timer_interrupt};
use crate::laws::machine::{law_minimal_params, placed_at};
use crate::laws::memory::{
    digits, holds, law_access_succeeds, law_addresses_are_found, law_device_addresses_are_found,
    law_read_gives_bytes, law_write_places_bytes, placed,
};
use crate::laws::small_disk::gives;
use crate::linux_boot::{
    get_memory_size, identity_tables, load_linux_kernel, memory_end, mapped_gigabytes, setup_identity_paging,
    setup_linux_registers, tables_fit, BootError, RegisterName, RegisterValue,
};
use crate::memory::debugger::MemoryProtection;
use crate::memory::layout::MemoryLayout;
use crate::memory::memory::{
    find, GuestAddress, GuestMemoryError, MemoryError, MemoryManager, MemoryRegion, MmioRegion, RegionLayout,
    RegionSlice,
};
use crate::partition::{placeable, MapRange, Partition, PartitionError};
use crate::vm::{
    get_tsc_frequency_hz, run, Clock, ExitAction, ExitContext, RunAction, RunEvent, RunNote, RunState,
    StopReason,
};
use crate::vm_memory::mmap::{GuestMemoryMmap, GuestRegionCollectionError, GuestRegionMmap, MmapRegion};

verus! {

/// What is written to guest memory lies there afterwards, and nothing else has
/// changed; what cannot be written changes nothing.
pub proof fn law_memory_written(mem: &mut MemoryManager, code: &[u8], gpa: GuestAddress, r: Result<(), MemoryError>)
    requires
        old(mem).wf(),
        call_ensures(MemoryManager::write_guest_memory, (mem, code, gpa), r),
    ensures
        r is Ok && code@.len() > 0 ==> placed(old(mem).ram(), final(mem).ram(), gpa.0 as int, code@),
        r is Err ==> final(mem).ram() == old(mem).ram(),
{
    old(mem).lemma_ram_wf();
    if code@.len() > 0 {
        law_write_places_bytes(old(mem).ram(), gpa.0 as int, code@);
    }
}

/// What is read from guest memory lies there.
pub proof fn law_memory_read(mem: &MemoryManager, gpa: GuestAddress, size: usize, r: Result<Vec<u8>, MemoryError>)
    requires
        mem.wf(),
        call_ensures(MemoryManager::read_guest_memory, (mem, gpa, size), r),
    ensures
        r matches Ok(v) ==> v@.len() == size && holds(mem.ram(), gpa.0 as int, v@),
{
    mem.lemma_ram_wf();
    law_read_gives_bytes(mem.ram(), gpa.0 as int, size as int);
}

/// Which region holds an address: the first that begins at it or before it and
/// ends after it.
pub proof fn law_region_found(mem: &MemoryManager, gpa: GuestAddress, r: Option<&MemoryRegion>, b: bool)
    requires
        mem.wf(),
        call_ensures(MemoryManager::find_region, (mem, gpa), r),
        call_ensures(MemoryManager::address_in_range, (mem, gpa), b),
    ensures
        b == (r is Some),
        r matches Some(region) ==> region.gpa.0 <= gpa.0 < region.gpa.0 + region.size,
{
    mem.lemma_ram_wf();
    law_addresses_are_found(mem.ram().layout, gpa.0 as int);
    if let Some(k) = find(mem.ram().layout, gpa.0 as int) {
        assert(mem.ram().layout[k] == mem.regions@[k].layout());
    }
}

/// Which device region holds an address.
pub proof fn law_device_region_found(mem: &MemoryManager, gpa: u64, r: Option<&MmioRegion>, k: int)
    requires
        mem.wf(),
        call_ensures(MemoryManager::find_mmio, (mem, gpa), r),
        0 <= k < mem.mmio_regions@.len(),
    ensures
        r matches Some(region) ==> region.gpa.0 <= gpa < region.gpa.0 + region.size,
        r is None ==> !(mem.mmio_regions@[k].gpa.0 <= gpa < mem.mmio_regions@[k].gpa.0 + mem.mmio_regions@[k].size),
{
    law_device_addresses_are_found(mem.mmio_regions@, gpa as int);
}

/// A part of a region's memory: it must lie inside, and the region must have
/// memory of the host.
pub proof fn law_part_of_a_region(
    region: &MemoryRegion,
    offset: GuestAddress,
    count: usize,
    r: Result<RegionSlice, GuestMemoryError>,
)
    requires
        call_ensures(MemoryRegion::get_slice, (region, offset, count), r),
    ensures
        r is Ok <==> offset.0 + count <= region.size && region.hpa is Some,
        r matches Ok(s) ==> s.offset == offset.0 && s.len == count,
{
}

/// A compressed kernel that was loaded lies in memory from the place for kernels
/// on, without the boot sector and the setup sectors before it, and is entered
/// 512 bytes in.
pub proof fn law_compressed_kernel_loaded(
    mem: &mut MemoryManager,
    map: &MemoryLayout,
    file: &[u8],
    r: Result<u64, BootError>,
)
    requires
        old(mem).wf(),
        call_ensures(load_linux_kernel, (mem, map, file), r),
        r is Ok,
        file@.len() >= 4,
        !starts_like_elf(file@),
        map.high_ram_start + 512 <= u64::MAX,
    ensures
        ({
            let n = if file@[0x1f1] == 0 {
                4int
            } else {
                file@[0x1f1] as int
            };
            let len = file@.len() - 512 * (n + 1);
            &&& len >= 0
            &&& r == Ok::<u64, BootError>((map.high_ram_start + 512) as u64)
            &&& disjoint(map.high_ram_start as int, len, map.cmdline_start as int, 70) && disjoint(
                map.high_ram_start as int,
                len,
                map.zero_page_start as int,
                4096,
            ) ==> holds(
                final(mem).ram(),
                map.high_ram_start as int,
                Seq::new(len as nat, |i: int| file@[512 * (n + 1) + i]),
            )
        }),
{
    old(mem).lemma_ram_wf();
    law_bzimage_kernel_in_memory(file@, old(mem).ram(), old(mem).mmio_regions@, *map);
}

/// Each segment of an ELF kernel that was loaded lies in memory at its physical
/// address.
pub proof fn law_elf_kernel_loaded(
    mem: &mut MemoryManager,
    map: &MemoryLayout,
    file: &[u8],
    r: Result<u64, BootError>,
    k: int,
)
    requires
        old(mem).wf(),
        call_ensures(load_linux_kernel, (mem, map, file), r),
        r is Ok,
        file@.len() >= 4,
        starts_like_elf(file@),
        wanted(file@, k),
        filesz(file@, k) > 0,
        forall|j: int|
            k < j && #[trigger] wanted(file@, j) ==> disjoint(
                paddr(file@, k),
                filesz(file@, k),
                paddr(file@, j),
                filesz(file@, j),
            ),
        disjoint(paddr(file@, k), filesz(file@, k), map.cmdline_start as int, 70),
        disjoint(paddr(file@, k), filesz(file@, k), map.zero_page_start as int, 4096),
    ensures
        holds(final(mem).ram(), paddr(file@, k), segment(file@, k)),
{
    old(mem).lemma_ram_wf();
    law_elf_segment_in_memory(file@, old(mem).ram(), old(mem).mmio_regions@, *map, k);
}

/// The page tables that were set up: the first table's first entry leads to the
/// second table, and each gigabyte's entry of that maps it to itself.
pub proof fn law_paging_set_up(
    mem: &mut MemoryManager,
    map: &MemoryLayout,
    kernel: u64,
    size: u32,
    r: Result<(), BootError>,
    i: int,
) -> (t: Seq<u8>)
    requires
        old(mem).wf(),
        tables_fit(*map),
        map.pdpte_start % 4096 == 0,
        call_ensures(setup_identity_paging, (mem, map, kernel, size), r),
        r is Ok,
        0 <= i < 4,
    ensures
        t.len() == 8192,
        placed(old(mem).ram(), final(mem).ram(), map.pml4_start as int, t),
        digits(t, 0, 8) == map.pdpte_start + 3,
        digits(t, map.pdpte_start - map.pml4_start + 8 * i, 8) == i * 0x4000_0000 + 0x83,
{
    old(mem).lemma_ram_wf();
    let t = identity_tables(*map, mapped_gigabytes(*map, kernel, size));
    law_page_tables(*map, kernel, size, i);
    crate::laws::entry::law_mapped_gigabytes(*map, kernel, size);
    law_write_places_bytes(old(mem).ram(), map.pml4_start as int, t);
    t
}

/// The registers that the processor starts with.
pub proof fn law_processor_set_up(
    mem: &mut MemoryManager,
    map: &MemoryLayout,
    entry: u64,
    r: Result<Vec<(RegisterName, RegisterValue)>, BootError>,
)
    requires
        old(mem).wf(),
        call_ensures(setup_linux_registers, (mem, map, entry), r),
    ensures
        r matches Ok(v) ==> {
            &&& set_to(v@, 1, RegisterName::Cr3, RegisterValue::Reg64(map.pml4_start))
            &&& set_to(v@, 2, RegisterName::Cr4, RegisterValue::Reg64(32))
            &&& set_to(v@, 3, RegisterName::Efer, RegisterValue::Reg64(256))
            &&& set_to(v@, 4, RegisterName::Cr0, RegisterValue::Reg64(0x8005_0033))
            &&& set_to(v@, 9, RegisterName::Rip, RegisterValue::Reg64(entry))
            &&& set_to(v@, 10, RegisterName::Rsi, RegisterValue::Reg64(map.zero_page_start))
            &&& set_to(v@, 11, RegisterName::Rsp, RegisterValue::Reg64(map.boot_stack_pointer))
            &&& set_to(v@, 12, RegisterName::Rflags, RegisterValue::Reg64(2))
        },
        r is Ok ==> exists|t: Seq<u8>|
            t.len() == 32 && t[21] == 0x9A && t[22] == 0xAF && t[29] == 0x93 && t[30] == 0xCF
                && #[trigger] holds(final(mem).ram(), map.boot_gdt_start as int, t),
{
    old(mem).lemma_ram_wf();
    law_entry_registers(*map, entry);
    law_boot_descriptors();
    let t = crate::linux_boot::boot_gdt();
    law_write_places_bytes(old(mem).ram(), map.boot_gdt_start as int, t);
}

/// The machine is given memory: each byte of the host's lies where the layout
/// says, and one range is mapped, or two where it goes beyond the hole.
pub proof fn law_machine_memory(
    p: &mut Partition,
    total: u64,
    flags: crate::memory::memory::MemoryPerms,
    source: Option<Vec<u8>>,
    r: Result<Vec<MapRange>, PartitionError>,
    i: int,
)
    requires
        old(p).memory.regions@.len() == 0,
        source matches Some(v) && v@.len() == total,
        placeable(total, old(p).layout),
        total > old(p).layout.mem_32bit_reserved_start ==> old(p).layout.mem_32bit_devices_start <= old(
            p,
        ).layout.ram_64bit_start,
        call_ensures(Partition::allocate_memory_with_size, (p, total, flags, source), r),
        0 <= i < total,
    ensures
        r matches Ok(plan) && plan@.len() == (if total <= old(p).layout.mem_32bit_reserved_start {
            1int
        } else {
            2
        }),
        holds(final(p).memory.ram(), placed_at(total, old(p).layout, i), seq![source->0@[i]]),
{
    crate::laws::machine::law_memory_given(*old(p), *final(p), total, flags, source, r, i);
    crate::laws::machine::law_ranges_mapped(total, flags, old(p).layout);
}

/// The minimal boot parameters lie where they were asked for.
pub proof fn law_minimal_params_placed(p: &mut Partition, gpa: GuestAddress, r: Result<(), PartitionError>) -> (page: Seq<
    u8,
>)
    requires
        old(p).memory.wf(),
        call_ensures(Partition::setup_linux_boot_params, (p, gpa), r),
        r is Ok,
    ensures
        placed(old(p).memory.ram(), final(p).memory.ram(), gpa.0 as int, page),
        page.len() == 4096,
        page[0x1f1] == 0x48 && page[0x1f2] == 0x64 && page[0x1f3] == 0x72 && page[0x1f4] == 0x53,
        page[0x210] == 1,
{
    let page = crate::partition::minimal_params();
    old(p).memory.lemma_ram_wf();
    law_minimal_params();
    law_write_places_bytes(old(p).memory.ram(), gpa.0 as int, page);
    page
}

/// What is done when the processor stops for the machine's sake.
pub proof fn law_processor_exits(
    p: &mut Partition,
    c: &ExitContext,
    clock: &Clock,
    r: Result<ExitAction, PartitionError>,
)
    requires
        call_ensures(Partition::handle_exit, (p, c, clock), r),
    ensures
        c.reason == 2 ==> (r matches Ok(ExitAction::EmulatePort)) && *final(p) == *old(p),
        c.reason == 8 ==> (r matches Ok(ExitAction::Continue)) && *final(p) == *old(p),
        c.reason == 7 && (clock.now > old(p).last_interrupt_time || old(p).last_interrupt_time == 0) ==> (
        r matches Ok(ExitAction::Inject(i)) && i.vector == 32) && final(p).last_interrupt_time == clock.now,
        c.reason == 1 && (forall|k: int|
            0 <= k < old(p).memory.mmio_regions@.len() ==> !((#[trigger] old(p).memory.mmio_regions@[k]).gpa.0
                <= c.memory_gpa < old(p).memory.mmio_regions@[k].gpa.0 + old(p).memory.mmio_regions@[k].size))
            ==> (r matches Ok(ExitAction::Stop)),
        c.reason == 4 || c.reason == 5 ==> (r matches Ok(ExitAction::Stop)) && *final(p) == *old(p),
{
    law_exits(*old(p), *final(p), *c, *clock, r);
    if c.reason == 7 {
        law_timer_interrupt(*old(p), *final(p), *c, *clock, r);
    }
}

/// A model-specific register that was read or written: the processor goes on
/// behind the instruction.
pub proof fn law_register_instruction(
    p: &mut Partition,
    c: &ExitContext,
    elapsed: u128,
    r: Result<ExitAction, PartitionError>,
)
    requires
        call_ensures(Partition::handle_msr_access, (p, c, elapsed), r),
        r is Ok,
    ensures
        c.rip + c.bitfield % 16 <= u64::MAX,
        c.msr.access_info % 2 == 1 ==> (r matches Ok(ExitAction::SetRegisters(v)) && v@ == seq![
            (RegisterName::Rip, RegisterValue::Reg64((c.rip + c.bitfield % 16) as u64)),
        ]),
        c.msr.access_info % 2 == 0 ==> (r matches Ok(ExitAction::SetRegisters(v)) && v@.len() == 3 && v@[2] == (
            RegisterName::Rip,
            RegisterValue::Reg64((c.rip + c.bitfield % 16) as u64),
        ) && v@[0].0 == RegisterName::Rax && v@[1].0 == RegisterName::Rdx),
{
    law_msr_answered(*old(p), *final(p), *c, elapsed, r);
}

/// How the processor is run: it runs while the machine is to run, each time is
/// counted, its exits are handled, and the loop ends when the machine is
/// interrupted, the processor cannot run, or an exit stops it or cannot be
/// handled.
pub proof fn law_processor_runs(s: &mut RunState, event: RunEvent, r: RunAction)
    requires
        old(s).iteration < u64::MAX,
        old(s).rip_repeat_count < u64::MAX,
        call_ensures(run, (s, event), r),
    ensures
        event == RunEvent::Running(true) ==> r == RunAction::RunVp && *final(s) == (RunState {
            iteration: (old(s).iteration + 1) as u64,
            ..*old(s)
        }),
        event == RunEvent::Running(false) ==> r == (RunAction::Stop {
            reason: StopReason::Interrupted,
            iteration: old(s).iteration,
        }),
        event == (RunEvent::Exited { rip: None }) ==> r == (RunAction::Stop {
            reason: StopReason::RunFailed,
            iteration: old(s).iteration,
        }),
        event == (RunEvent::Handled { run_on: Some(false) }) ==> r == (RunAction::Stop {
            reason: StopReason::Stopped,
            iteration: old(s).iteration,
        }),
        event == (RunEvent::Handled { run_on: None }) ==> r == (RunAction::Stop {
            reason: StopReason::ExitFailed,
            iteration: old(s).iteration,
        }),
        event == (RunEvent::Handled { run_on: Some(true) }) ==> *final(s) == *old(s) && r == RunAction::Check(
            if old(s).iteration % 100_000 == 0 {
                RunNote::Heartbeat { iteration: old(s).iteration, rip: old(s).last_rip }
            } else {
                RunNote::Nothing
            },
        ),
        event matches RunEvent::Exited { rip: Some(rip) } ==> final(s).last_rip == rip && final(s).iteration == old(
            s,
        ).iteration && {
            let count = old(s).rip_repeat_count;
            if rip == old(s).last_rip {
                &&& final(s).rip_repeat_count == count + 1
                &&& r == RunAction::HandleExit(
                    if (count + 1) % 1000 == 0 && count + 1 >= 2000 {
                        RunNote::Stuck { rip, count: (count + 1) as u64, iteration: old(s).iteration }
                    } else {
                        RunNote::Nothing
                    },
                )
            } else {
                &&& final(s).rip_repeat_count == 0
                &&& r == RunAction::HandleExit(
                    if count > 100 {
                        RunNote::Resumed { from: old(s).last_rip, to: rip, after: count }
                    } else {
                        RunNote::Nothing
                    },
                )
            }
        },
        event matches RunEvent::Start { rip, kernel_entry } ==> final(s).iteration == 0 && final(s).last_rip == 0
            && final(s).rip_repeat_count == 0 && (r == RunAction::Check(RunNote::Nothing) <==> rip == Some(
            kernel_entry,
        )),
{
}

/// The counter's frequency: the crystal's times the ratio that the processor
/// names, else its base frequency, else 2712 megahertz.
pub proof fn law_counter_frequency(eax: u32, ebx: u32, ecx: u32, mhz: u32, r: u64)
    requires
        call_ensures(get_tsc_frequency_hz, (eax, ebx, ecx, mhz), r),
    ensures
        eax != 0 && ebx != 0 && ecx != 0 ==> r * eax <= ecx * ebx < (r + 1) * eax,
        (eax == 0 || ebx == 0 || ecx == 0) && mhz != 0 ==> r == mhz * 1_000_000,
        (eax == 0 || ebx == 0 || ecx == 0) && mhz == 0 ==> r == 2_712_000_000u64,
{
    if eax != 0 && ebx != 0 && ecx != 0 {
        let n = ecx * ebx;
        let d = eax as int;
        assert(n / d * d <= n < (n / d + 1) * d) by (nonlinear_arith)
            requires
                d > 0,
        ;
    }
}

/// How the reader of frames goes on: it asks for more after each frame, up to
/// thirty-two in a batch, and announces a batch when nothing more is there.
pub proof fn law_frames_read(state: ReaderState, event: ReaderEvent, r: (ReaderState, ReaderAction))
    requires
        call_ensures(rx_reader_step, (state, event), r),
    ensures
        state is First && event is Frame ==> r == (ReaderState::Asking(1), ReaderAction::Ask),
        state is First && event is EndOfStream ==> r == (ReaderState::Ended, ReaderAction::Stop),
        state is First && !(event is Frame) && !(event is EndOfStream) ==> r == (
            ReaderState::First,
            ReaderAction::Read,
        ),
        state matches ReaderState::Asking(n) ==> (event matches ReaderEvent::Available(bytes) ==> r == (if bytes
            == 0 || n >= 32 {
            (ReaderState::First, ReaderAction::AnnounceAndRead)
        } else {
            (ReaderState::Reading(n), ReaderAction::Read)
        })),
        state matches ReaderState::Reading(n) ==> n < usize::MAX ==> {
            &&& event is Frame ==> r == (ReaderState::Asking((n + 1) as usize), ReaderAction::Ask)
            &&& event is EndOfStream ==> r == (ReaderState::First, ReaderAction::AnnounceAndRead)
            &&& event is BadFrame ==> r == (ReaderState::Asking(n), ReaderAction::Ask)
        },
        state is Ended ==> r == (ReaderState::Ended, ReaderAction::Stop),
{
}

/// The machine's devices, once registered: the interrupt controller, the PCI
/// configuration space, and the disk, the source of entropy and the console in
/// windows one after the other; each with the name of who serves it.
pub proof fn law_devices_registered(p: &mut Partition, r: Result<(), PartitionError>)
    requires
        call_ensures(register_devices, (p,), r),
        r is Ok,
    ensures
        ({
            let map = old(p).layout;
            let n = old(p).memory.mmio_regions@.len() as int;
            let regions = final(p).memory.mmio_regions@;
            let size = map.virtio_mmio_size_per_device;
            &&& regions.len() == n + 5
            &&& regions.subrange(0, n) == old(p).memory.mmio_regions@
            &&& lies(regions[n], map.ioapic_start as int, map.ioapic_size, "ioapic"@)
            &&& lies(regions[n + 1], map.pci_mmconfig_start as int, map.pci_mmconfig_size, "pci_ecam"@)
            &&& lies(regions[n + 2], map.virtio_mmio_start as int, size, "virtio_block"@)
            &&& lies(regions[n + 3], map.virtio_mmio_start + size, size, "virtio_rng"@)
            &&& lies(regions[n + 4], map.virtio_mmio_start + 2 * size, size, "virtio_console"@)
        }),
{
    let all = crate::device_manager::all_entries(old(p).layout);
    crate::device_manager::law_devices_are_there(*old(p), *final(p), all, r);
    let n = old(p).memory.mmio_regions@.len() as int;
    let regions = final(p).memory.mmio_regions@;
    assert(crate::device_manager::region_of(regions[n + 0], all[0]));
    assert(crate::device_manager::region_of(regions[n + 1], all[1]));
    assert(crate::device_manager::region_of(regions[n + 2], all[2]));
    assert(crate::device_manager::region_of(regions[n + 3], all[3]));
    assert(crate::device_manager::region_of(regions[n + 4], all[4]));
}

/// A device region lies at an address, with a size and the name of its handler.
pub open spec fn lies(region: MmioRegion, base: int, size: u64, handler: Seq<char>) -> bool {
    region.gpa.0 == base && region.size == size && (region.handler matches Some(h) && h@ == handler)
}

/// A device region is registered exactly if it ends within the address space and
/// runs into neither memory nor another one; it is then the last.
pub proof fn law_region_registered(
    p: &mut Partition,
    gpa: u64,
    size: u64,
    name: String,
    handler: Option<String>,
    r: Result<(), PartitionError>,
)
    requires
        call_ensures(Partition::register_mmio_region, (p, gpa, size, name, handler), r),
    ensures
        ({
            let layout = old(p).memory.ram().layout;
            let regions = old(p).memory.mmio_regions@;
            &&& r is Ok <==> {
                &&& gpa + size <= u64::MAX
                &&& forall|k: int|
                    0 <= k < layout.len() ==> gpa >= (#[trigger] layout[k]).base + layout[k].size || gpa + size
                        <= layout[k].base
                &&& forall|k: int|
                    0 <= k < regions.len() ==> gpa >= (#[trigger] regions[k]).gpa.0 + regions[k].size || gpa
                        + size <= regions[k].gpa.0
            }
            &&& r is Err ==> final(p).memory == old(p).memory
            &&& r is Ok ==> {
                let after = final(p).memory.mmio_regions@;
                &&& after.len() == regions.len() + 1
                &&& after.last().gpa.0 == gpa && after.last().size == size && after.last().name == name
                    && after.last().handler == handler
                &&& after.drop_last() == regions
            }
        }),
{
    let layout = old(p).memory.ram().layout;
    let regions = old(p).memory.mmio_regions@;
    crate::laws::machine::law_device_region_accepted(layout, regions, gpa, size, name@, r);
    if r is Ok {
        assert(final(p).memory.mmio_regions@.drop_last() =~= regions);
    }
}

/// A handler's number is its place among the names: the first of that name, or a
/// new last one.
pub proof fn law_handler_registered(p: &mut Partition, name: String, r: usize)
    requires
        call_ensures(Partition::register_mmio_handler, (p, name), r),
    ensures
        ({
            let before = old(p).mmio_handlers@;
            let after = final(p).mmio_handlers@;
            &&& r < after.len() && after[r as int]@ == name@
            &&& forall|k: int| 0 <= k < r ==> (#[trigger] after[k])@ != name@
            &&& forall|k: int| 0 <= k < before.len() ==> #[trigger] after[k] == before[k]
            &&& after.len() == before.len() || after.len() == before.len() + 1 && r == before.len()
        }),
{
    crate::laws::ports::law_first_handler(old(p).mmio_handlers@, name@);
}

/// The log of accesses keeps the last thousand, in order; each has the length
/// that the log had.
pub proof fn law_accesses_logged(mem: &mut MemoryManager, gpa: u64, write: bool, i: int)
    requires
        call_ensures(MemoryManager::log_access, (mem, gpa, write), ()),
    ensures
        ({
            let before = old(mem).log();
            let after = final(mem).log();
            &&& before.len() < 1000 ==> after.len() == before.len() + 1 && (0 <= i < before.len() ==> after[i]
                == before[i])
            &&& before.len() == 1000 ==> after.len() == 1000 && (0 <= i < 999 ==> after[i] == before[i + 1])
            &&& before.len() <= 1000 ==> after.last() == (gpa, write, before.len() as u64)
        }),
{
}

/// A file lies in guest memory where it was loaded, and its length is given.
pub proof fn law_file_loaded(p: &mut Partition, data: &[u8], gpa: GuestAddress, r: Result<usize, PartitionError>)
    requires
        old(p).memory.wf(),
        data@.len() > 0,
        call_ensures(Partition::load_file, (p, data, gpa), r),
    ensures
        r matches Ok(n) ==> n == data@.len() && placed(
            old(p).memory.ram(),
            final(p).memory.ram(),
            gpa.0 as int,
            data@,
        ),
        r is Err ==> final(p).memory.ram() == old(p).memory.ram(),
{
    old(p).memory.lemma_ram_wf();
    law_write_places_bytes(old(p).memory.ram(), gpa.0 as int, data@);
}

/// The machine loads a compressed kernel as the loader does.
pub proof fn law_machine_kernel_loaded(p: &mut Partition, file: &[u8], r: Result<u64, PartitionError>)
    requires
        old(p).memory.wf(),
        call_ensures(Partition::load_linux_kernel, (p, file), r),
        r is Ok,
        file@.len() >= 4,
        !starts_like_elf(file@),
        old(p).layout.high_ram_start + 512 <= u64::MAX,
    ensures
        ({
            let map = old(p).layout;
            let n = if file@[0x1f1] == 0 {
                4int
            } else {
                file@[0x1f1] as int
            };
            let len = file@.len() - 512 * (n + 1);
            &&& r matches Ok(entry) && entry == map.high_ram_start + 512
            &&& disjoint(map.high_ram_start as int, len, map.cmdline_start as int, 70) && disjoint(
                map.high_ram_start as int,
                len,
                map.zero_page_start as int,
                4096,
            ) ==> holds(
                final(p).memory.ram(),
                map.high_ram_start as int,
                Seq::new(len as nat, |i: int| file@[512 * (n + 1) + i]),
            )
        }),
{
    let mem = old(p).memory;
    mem.lemma_ram_wf();
    law_bzimage_kernel_in_memory(file@, mem.ram(), mem.mmio_regions@, old(p).layout);
}

/// Where a device sits on the bus: a range that is free is taken, and one that
/// is not is refused.
pub proof fn law_bus_range_taken(bus: &mut Bus, device: u32, base: u64, len: u64, r: Result<(), BusError>)
    requires
        call_ensures(Bus::insert, (bus, device, base, len), r),
    ensures
        r is Ok <==> len > 0 && base + len <= u64::MAX && forall|i: int|
            0 <= i < old(bus).ranges@.len() ==> base + len <= (#[trigger] old(bus).ranges@[i]).base || old(
                bus,
            ).ranges@[i].base + old(bus).ranges@[i].len <= base,
        r is Err ==> final(bus).ranges@ == old(bus).ranges@,
        r is Ok ==> final(bus).ranges@.len() == old(bus).ranges@.len() + 1 && final(bus).ranges@.last() == (BusRange {
            base,
            len,
            device,
        }),
{
    let range = BusRange { base, len, device };
    if forall|i: int| 0 <= i < old(bus).ranges@.len() ==> range.apart(#[trigger] old(bus).ranges@[i]) {
        assert forall|i: int| 0 <= i < old(bus).ranges@.len() implies base + len <= (#[trigger] old(bus).ranges@[i]).base
            || old(bus).ranges@[i].base + old(bus).ranges@[i].len <= base by {
            assert(range.apart(old(bus).ranges@[i]));
        }
    }
    if forall|i: int|
        0 <= i < old(bus).ranges@.len() ==> base + len <= (#[trigger] old(bus).ranges@[i]).base || old(
            bus,
        ).ranges@[i].base + old(bus).ranges@[i].len <= base {
        assert forall|i: int| 0 <= i < old(bus).ranges@.len() implies range.apart(#[trigger] old(bus).ranges@[i]) by {}
    }
}

proof fn lemma_end(layout: Seq<RegionLayout>)
    ensures
        forall|k: int| 0 <= k < layout.len() ==> (#[trigger] layout[k]).base + layout[k].size <= memory_end(layout),
        memory_end(layout) == 0 || exists|k: int|
            0 <= k < layout.len() && (#[trigger] layout[k]).base + layout[k].size == memory_end(layout),
    decreases layout.len(),
{
    if layout.len() > 0 {
        let rest = layout.drop_last();
        lemma_end(rest);
        let last = layout.len() - 1;
        assert(layout[last] == layout.last());
        assert forall|k: int| 0 <= k < layout.len() implies (#[trigger] layout[k]).base + layout[k].size
            <= memory_end(layout) by {
            if k < last {
                assert(rest[k] == layout[k]);
            }
        }
        if memory_end(layout) == memory_end(rest) && memory_end(rest) != 0 {
            let k = choose|k: int| 0 <= k < rest.len() && (#[trigger] rest[k]).base + rest[k].size == memory_end(rest);
            assert(layout[k] == rest[k]);
        }
    }
}

/// How far memory goes: to the end of the region that ends last.
pub proof fn law_memory_ends(mem: &MemoryManager, r: u64, i: int)
    requires
        call_ensures(get_memory_size, (mem,), r),
    ensures
        0 <= i < mem.regions@.len() ==> mem.regions@[i].gpa.0 + mem.regions@[i].size <= r,
        r == 0 || exists|k: int|
            0 <= k < mem.regions@.len() && (#[trigger] mem.regions@[k]).gpa.0 + mem.regions@[k].size == r,
{
    let layout = mem.ram().layout;
    lemma_end(layout);
    if 0 <= i < mem.regions@.len() {
        assert(layout[i] == mem.regions@[i].layout());
    }
    if r != 0 {
        let k = choose|k: int| 0 <= k < layout.len() && (#[trigger] layout[k]).base + layout[k].size == memory_end(layout);
        assert(layout[k] == mem.regions@[k].layout());
        assert(mem.regions@[k].gpa.0 + mem.regions@[k].size == r);
    }
}

/// A write to a model-specific register is kept: the guest's identity and the
/// control of the invariant counter are the two halves that it wrote, and a
/// reference page is set up where it asked for it.
pub proof fn law_register_kept(
    p: &mut Partition,
    c: &ExitContext,
    elapsed: u128,
    r: Result<ExitAction, PartitionError>,
)
    requires
        old(p).memory.wf(),
        call_ensures(Partition::handle_msr_access, (p, c, elapsed), r),
        r is Ok,
        c.msr.access_info % 2 == 1,
    ensures
        ({
            let v = (c.msr.rdx % 0x1_0000_0000) * 0x1_0000_0000 + c.msr.rax % 0x1_0000_0000;
            &&& c.msr.number == 0x4000_0000 ==> final(p).guest_os_id == v && final(p).memory == old(p).memory
            &&& c.msr.number == 0x4000_0118 ==> final(p).tsc_invariant_control == v && final(p).memory == old(p).memory
            &&& c.msr.number == 0x4000_0021 && v % 2 == 0 ==> final(p).tsc_reference_gpa is None
            &&& c.msr.number == 0x4000_0021 && v % 2 == 1 ==> final(p).tsc_reference_gpa == Some(
                (v - v % 0x1000) as u64,
            ) && old(p).tsc_frequency != 0 && exists|page: Seq<u8>|
                page.len() == 4096 && digits(page, 0, 4) == 1 && digits(page, 8, 8) == (10_000_000
                    * 0x1_0000_0000_0000_0000int / old(p).tsc_frequency as int) % 0x1_0000_0000_0000_0000int
                    && #[trigger] placed(old(p).memory.ram(), final(p).memory.ram(), v - v % 0x1000, page)
        }),
{
    crate::laws::exits::law_msr_writes(*old(p), c.msr);
    let v = (c.msr.rdx % 0x1_0000_0000) * 0x1_0000_0000 + c.msr.rax % 0x1_0000_0000;
    crate::laws::exits::lemma_even_high(c.msr.rdx, c.msr.rax);
    if c.msr.number == 0x4000_0021 && v % 2 == 1 {
        old(p).memory.lemma_ram_wf();
        let page = crate::vm::tsc_page(old(p).vm_start_tsc, old(p).tsc_frequency);
        let gpa = crate::vm::tsc_page_gpa(c.msr);
        if old(p).tsc_frequency != 0 {
            crate::laws::exits::law_reference_page(old(p).vm_start_tsc, old(p).tsc_frequency);
            law_write_places_bytes(old(p).memory.ram(), gpa as int, page);
            assert(placed(old(p).memory.ram(), final(p).memory.ram(), gpa as int, page));
        }
    }
}

/// An access outside memory is logged.
pub proof fn law_exit_logged(
    p: &mut Partition,
    c: &ExitContext,
    clock: &Clock,
    r: Result<ExitAction, PartitionError>,
)
    requires
        c.reason == 1,
        old(p).memory.log().len() <= 1000,
        call_ensures(Partition::handle_exit, (p, c, clock), r),
    ensures
        ({
            let log = final(p).memory.log();
            &&& log.len() > 0
            &&& log.last().0 == c.memory_gpa
            &&& log.last().1 == (c.memory_access_info % 2 == 1)
            &&& final(p).memory.ram() == old(p).memory.ram()
        }),
{
    crate::laws::exits::law_access_told(*c);
    let entry = (c.memory_gpa, crate::vm::accessed(*c).action.write, old(p).memory.log().len() as u64);
    assert(old(p).memory.log().push(entry).last() == entry);
}

/// Mapped regions: one must end within the address space, and several must
/// follow each other without an overlap.
pub proof fn law_mapping_placed(
    mapping: MmapRegion,
    base: GuestAddress,
    r: Option<GuestRegionMmap>,
    regions: Vec<GuestRegionMmap>,
    m: Result<GuestMemoryMmap, GuestRegionCollectionError>,
)
    requires
        call_ensures(GuestRegionMmap::new, (mapping, base), r),
        call_ensures(GuestMemoryMmap::from_regions, (regions,), m),
    ensures
        r is Some <==> base.0 + mapping.bytes@.len() <= u64::MAX,
        r matches Some(x) ==> x.guest_base == base && x.mapping.bytes@ == mapping.bytes@,
        m is Ok <==> regions@.len() > 0 && forall|k: int|
            1 <= k < regions@.len() ==> (#[trigger] regions@[k]).guest_base.0 >= regions@[k - 1].guest_base.0
                + regions@[k - 1].mapping.bytes@.len(),
        m matches Ok(x) ==> x.regions == regions,
{
    let s = crate::vm_memory::mmap::spans(regions@);
    crate::laws::machine::law_regions_accepted(s);
    assert forall|k: int| 0 <= k < regions@.len() implies #[trigger] s[k] == (
        regions@[k].guest_base.0 as int,
        regions@[k].guest_base.0 + regions@[k].mapping.bytes@.len(),
    ) by {}
    if m is Ok {
        assert forall|k: int| 1 <= k < regions@.len() implies (#[trigger] regions@[k]).guest_base.0
            >= regions@[k - 1].guest_base.0 + regions@[k - 1].mapping.bytes@.len() by {
            assert(s[k].0 >= s[k - 1].1);
        }
    }
    if regions@.len() > 0 && forall|k: int|
        1 <= k < regions@.len() ==> (#[trigger] regions@[k]).guest_base.0 >= regions@[k - 1].guest_base.0
            + regions@[k - 1].mapping.bytes@.len() {
        assert forall|k: int| 1 <= k < s.len() implies (#[trigger] s[k]).0 >= s[k - 1].0 && s[k].0 >= s[k - 1].1 by {
            assert(regions@[k].guest_base.0 >= regions@[k - 1].guest_base.0 + regions@[k - 1].mapping.bytes@.len());
        }
    }
}

/// Addresses of a region: those from its start to before its end.
pub proof fn law_region_addresses(
    region: &MemoryRegion,
    a: GuestAddress,
    offset: usize,
    c: Option<GuestAddress>,
    d: Option<GuestAddress>,
    last: GuestAddress,
)
    requires
        call_ensures(MemoryRegion::check_address, (region, a), c),
        call_ensures(MemoryRegion::checked_offset, (region, a, offset), d),
        call_ensures(MemoryRegion::last_addr, (region,), last),
    ensures
        c == (if region.gpa.0 <= a.0 < region.gpa.0 + region.size {
            Some(a)
        } else {
            None
        }),
        d is Some <==> region.gpa.0 <= a.0 + offset < region.gpa.0 + region.size,
        region.gpa.0 + region.size <= u64::MAX ==> (d matches Some(x) ==> x.0 == a.0 + offset),
        last.0 + 1 == region.gpa.0 + region.size,
{
}

/// The machine's start: memory of four megabytes, the leaves that the hypervisor
/// answers, and registers that enter at an address.
pub proof fn law_machine_started(
    p: &mut Partition,
    source: Option<Vec<u8>>,
    r: Result<Vec<MapRange>, PartitionError>,
    leaves: Vec<u32>,
    q: &Partition,
    rip: u64,
    registers: Vec<(RegisterName, RegisterValue)>,
    i: int,
)
    requires
        old(p).memory.regions@.len() == 0,
        source matches Some(v) && v@.len() == 0x40_0000,
        placeable(0x40_0000, old(p).layout),
        0x40_0000 <= old(p).layout.mem_32bit_reserved_start,
        call_ensures(Partition::allocate_memory, (p, source), r),
        0 <= i < 0x40_0000,
        call_ensures(Partition::setup, (q,), leaves),
        call_ensures(Partition::setup_registers, (q, rip), registers),
    ensures
        holds(final(p).memory.ram(), i, seq![source->0@[i]]),
        r matches Ok(plan) && plan@.len() == 1 && plan@[0].gpa == 0 && plan@[0].size == 0x40_0000 && plan@[0].flags == 7,
        leaves@.len() == 6,
        0 <= i < 6 ==> leaves@[i] == 0x4000_0000 + i,
        registers@.len() == 2,
        set_to(registers@, 0, RegisterName::Rflags, RegisterValue::Reg64(2)),
        set_to(registers@, 1, RegisterName::Rip, RegisterValue::Reg64(rip)),
{
    let all = crate::partition::all_perms();
    crate::laws::machine::law_memory_given(*old(p), *final(p), 0x40_0000, all, source, r, i);
    crate::laws::machine::law_ranges_mapped(0x40_0000, all, old(p).layout);
}

/// The machine's processor is set up with the kernel's entry: its page tables and
/// descriptors lie in memory, and its registers lead to them.
pub proof fn law_machine_processor_set_up(
    p: &mut Partition,
    entry: u64,
    r: Result<Vec<(RegisterName, RegisterValue)>, PartitionError>,
)
    requires
        call_ensures(Partition::setup_linux_registers, (p, entry), r),
    ensures
        r matches Ok(v) ==> {
            let map = old(p).layout;
            &&& set_to(v@, 1, RegisterName::Cr3, RegisterValue::Reg64(map.pml4_start))
            &&& set_to(v@, 9, RegisterName::Rip, RegisterValue::Reg64(entry))
            &&& set_to(v@, 10, RegisterName::Rsi, RegisterValue::Reg64(map.zero_page_start))
        },
{
    law_entry_registers(old(p).layout, entry);
}

/// What the machine reads from its memory lies there, and what it writes too.
pub proof fn law_machine_memory_accessed(
    p: &Partition,
    gpa: GuestAddress,
    size: usize,
    r: Result<Vec<u8>, PartitionError>,
    q: &mut Partition,
    code: &[u8],
    s: Result<(), PartitionError>,
)
    requires
        p.memory.wf(),
        old(q).memory.wf(),
        code@.len() > 0,
        call_ensures(Partition::read_memory, (p, gpa, size), r),
        call_ensures(Partition::write_code, (q, code, gpa), s),
    ensures
        r matches Ok(v) ==> v@.len() == size && holds(p.memory.ram(), gpa.0 as int, v@),
        s is Ok ==> placed(old(q).memory.ram(), final(q).memory.ram(), gpa.0 as int, code@),
        s is Err ==> final(q).memory.ram() == old(q).memory.ram(),
{
    p.memory.lemma_ram_wf();
    old(q).memory.lemma_ram_wf();
    law_read_gives_bytes(p.memory.ram(), gpa.0 as int, size as int);
    law_write_places_bytes(old(q).memory.ram(), gpa.0 as int, code@);
}

/// The protection levels as mapping flags.
pub proof fn law_protection_flags(p: &MemoryProtection, r: u32)
    requires
        call_ensures(MemoryProtection::to_flags, (p,), r),
    ensures
        r == (match *p {
            MemoryProtection::ReadWriteExecute => 7u32,
            MemoryProtection::ReadWrite => 3,
            MemoryProtection::ReadExecute => 5,
            MemoryProtection::ReadOnly => 1,
            MemoryProtection::ExecuteOnly => 4,
        }),
{
}

/// The header of a received frame: twelve bytes, all zero but for the number of
/// buffers, which is one.
pub proof fn law_received_header(r: Vec<u8>)
    requires
        call_ensures(default_rx_header, (), r),
    ensures
        r@.len() == 12,
        digits(r@, 10, 2) == 1,
        forall|i: int| 0 <= i < 10 ==> #[trigger] r@[i] == 0,
{
    reveal_with_fuel(digits, 3);
}

/// The table of interrupt controllers that the machine builds has an entry for
/// each processor.
#[verifier::spinoff_prover]
#[verifier::rlimit(60)]
pub proof fn law_controllers_listed(c: &CpuManager, map: &MemoryLayout, r: Sdt, i: u32)
    requires
        66 + 8 * c.cpus <= u32::MAX,
        i < c.cpus,
        call_ensures(CpuManager::create_madt, (c, map), r),
    ensures
        ({
            let t = sdt_bytes(r);
            let at = 44 + 8 * i;
            &&& t.len() == 66 + 8 * c.cpus
            &&& digits(t, 4, 4) == t.len()
            &&& digits(t, 36, 8) == map.apic_start
            &&& t[at] == 0 && t[at + 1] == 8 && t[at + 2] == i % 0x100 && t[at + 3] == 1
            &&& digits(t, 48 + 8 * c.cpus, 4) == map.ioapic_start % 0x1_0000_0000
        }),
{
    crate::laws::platform::law_interrupt_controllers_told(*map, c.cpus, i);
    reveal_with_fuel(digits, 5);
}

/// When memory can be written and read, and when the processor can be set up:
/// exactly where a region holds all that is asked for and allows it.
pub proof fn law_memory_accepts(
    mem: &mut MemoryManager,
    code: &[u8],
    gpa: GuestAddress,
    r: Result<(), MemoryError>,
    other: &MemoryManager,
    size: usize,
    s: Result<Vec<u8>, MemoryError>,
)
    requires
        code@.len() > 0,
        size > 0,
        call_ensures(MemoryManager::write_guest_memory, (mem, code, gpa), r),
        call_ensures(MemoryManager::read_guest_memory, (other, gpa, size), s),
    ensures
        r is Ok <==> takes(old(mem).ram().layout, gpa.0 as int, code@.len() as int),
        s is Ok <==> gives(other.ram().layout, gpa.0 as int, size as int),
{
    law_access_succeeds(old(mem).ram(), gpa.0 as int, code@, 1);
    law_access_succeeds(other.ram(), gpa.0 as int, seq![0u8], size as int);
}

/// Paging and the processor's registers can be set up exactly if memory takes the
/// tables and the descriptors.
pub proof fn law_set_up_accepted(
    mem: &mut MemoryManager,
    map: &MemoryLayout,
    kernel: u64,
    size: u32,
    r: Result<(), BootError>,
    other: &mut MemoryManager,
    s: Result<Vec<(RegisterName, RegisterValue)>, BootError>,
)
    requires
        tables_fit(*map),
        map.pdpte_start % 4096 == 0,
        call_ensures(setup_identity_paging, (mem, map, kernel, size), r),
        call_ensures(setup_linux_registers, (other, map, kernel), s),
    ensures
        r is Ok <==> takes(old(mem).ram().layout, map.pml4_start as int, 8192),
        s is Ok <==> takes(old(other).ram().layout, map.boot_gdt_start as int, 32),
{
    let t = identity_tables(*map, mapped_gigabytes(*map, kernel, size));
    law_page_tables(*map, kernel, size, 0);
    law_boot_descriptors();
    law_access_succeeds(old(mem).ram(), map.pml4_start as int, t, 1);
    law_access_succeeds(old(other).ram(), map.boot_gdt_start as int, crate::linux_boot::boot_gdt(), 1);
}

/// The processor goes on after an access to a model-specific register, unless the
/// instruction ends beyond the address space or a reference page was asked for
/// that cannot be set up.
pub proof fn law_register_accepted(
    p: &mut Partition,
    c: &ExitContext,
    elapsed: u128,
    r: Result<ExitAction, PartitionError>,
)
    requires
        call_ensures(Partition::handle_msr_access, (p, c, elapsed), r),
        c.rip + c.bitfield % 16 <= u64::MAX,
        ({
            let v = (c.msr.rdx % 0x1_0000_0000) * 0x1_0000_0000 + c.msr.rax % 0x1_0000_0000;
            c.msr.access_info % 2 == 0 || c.msr.number != 0x4000_0021 || v % 2 == 0 || old(p).tsc_frequency != 0
                && takes(old(p).memory.ram().layout, v - v % 0x1000, 4096)
        }),
    ensures
        r is Ok,
{
    crate::laws::exits::law_msr_writes(*old(p), c.msr);
    let v = (c.msr.rdx % 0x1_0000_0000) * 0x1_0000_0000 + c.msr.rax % 0x1_0000_0000;
    crate::laws::exits::lemma_even_high(c.msr.rdx, c.msr.rax);
    crate::laws::exits::lemma_nibble(c.bitfield);
    if old(p).tsc_frequency != 0 {
        let page = crate::vm::tsc_page(old(p).vm_start_tsc, old(p).tsc_frequency);
        crate::laws::exits::law_reference_page(old(p).vm_start_tsc, old(p).tsc_frequency);
        law_access_succeeds(old(p).memory.ram(), v - v % 0x1000, page, 1);
    }
}

} // verus!
