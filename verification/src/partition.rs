//! The virtual machine: its memory, its devices and its processor.

use vstd::prelude::*;

use crate::byte_order::{encode_le, le_bytes, lemma_le_bytes_len};
use crate::cpu::CpuManager;
use crate::device_manager::{first_segment, pm_timer_address, pm_timer_range, DeviceManager};
use crate::devices::virtio::mmio_adapter::zeroed;
use crate::emulator::{find_handler, handler_from, Emulator};
use crate::linux_boot::{
    all_ends_fit, boot_gdt, boot_registers, bootable, get_memory_size, get_u32, identity_tables, kernel_loaded, load_linux_kernel,
    mapped_gigabytes, memory_end, setup_identity_paging, setup_linux_registers, tables_fit, u32_at, zeros, BootError,
    RegisterName, RegisterValue,
};
use crate::memory::layout::MemoryLayout;
use crate::memory::memory::{
    copy_into, end_fits, find, law_write_keeps_layout, lemma_find_from, spliced, violation_text, GuestAddress,
    MemoryAccessViolation, MemoryError, MemoryManager, MemoryPerms, MemoryRegion, MmioRegion,
    RegionLayout,
};
use crate::text::{hex_min, hex_min_text};

verus! {

/// The memory of a machine that is not told otherwise.
pub const DEFAULT_VM_MEMORY_SIZE: u64 = 0x8000_0000;

/// Why an operation on the machine failed.
#[derive(Debug)]
pub enum PartitionError {
    AllocationFailed,
    Memory(MemoryError),
    /// Memory cannot be read; the text explains which.
    Violation(String),
    Boot(BootError),
    MmioOverflow,
    /// The text names the two regions.
    Overlap(String),
    /// The frequency of the time stamp counter is zero.
    NoTscFrequency,
    /// The next instruction lies beyond the end of the address space.
    RipOverflow,
}

impl PartitionError {
    pub open spec fn message_spec(self) -> Seq<char> {
        match self {
            PartitionError::AllocationFailed => "Failed to allocate memory"@,
            PartitionError::Memory(e) => e.message_spec(),
            PartitionError::Violation(text) => "Memory access violation: "@ + text@,
            PartitionError::Boot(e) => e.message_spec(),
            PartitionError::MmioOverflow => "MMIO region size overflow"@,
            PartitionError::Overlap(text) => text@,
            PartitionError::NoTscFrequency => "attempt to divide by zero"@,
            PartitionError::RipOverflow => "attempt to add with overflow"@,
        }
    }

    /// The text of the error.
    pub fn message(&self) -> (r: String)
        ensures
            r@ == self.message_spec(),
    {
        match self {
            PartitionError::AllocationFailed => "Failed to allocate memory".to_owned(),
            PartitionError::Memory(e) => e.message().to_owned(),
            PartitionError::Violation(text) => "Memory access violation: ".to_owned().concat(
                text.as_str(),
            ),
            PartitionError::Boot(e) => e.message(),
            PartitionError::MmioOverflow => "MMIO region size overflow".to_owned(),
            PartitionError::Overlap(text) => text.as_str().to_owned(),
            PartitionError::NoTscFrequency => "attempt to divide by zero".to_owned(),
            PartitionError::RipOverflow => "attempt to add with overflow".to_owned(),
        }
    }
}

/// A range of guest addresses to map to host memory.
#[derive(Clone, Copy, Debug, PartialEq, Eq, Structural)]
pub struct MapRange {
    pub gpa: u64,
    pub size: u64,
    /// What the guest may do, as hypervisor mapping flags.
    pub flags: u32,
}

/// Where `total` bytes of memory lie: in one piece if they end before the
/// hole below four gigabytes, else below the device memory and above the hole.
pub open spec fn memory_plan(total: u64, flags: u32, map: MemoryLayout) -> Seq<MapRange> {
    if total <= map.mem_32bit_reserved_start {
        seq![MapRange { gpa: 0, size: total, flags }]
    } else {
        seq![
            MapRange { gpa: 0, size: map.mem_32bit_devices_start, flags },
            MapRange {
                gpa: map.ram_64bit_start,
                size: (total - map.mem_32bit_devices_start) as u64,
                flags,
            },
        ]
    }
}

/// Memory of this size can be placed around the hole.
pub open spec fn placeable(total: u64, map: MemoryLayout) -> bool {
    &&& 0 < total
    &&& total > map.mem_32bit_reserved_start ==> 0 < map.mem_32bit_devices_start < total
        && map.ram_64bit_start + (total - map.mem_32bit_devices_start) <= u64::MAX
}

/// What the guest may do with its memory.
pub open spec fn all_perms() -> MemoryPerms {
    MemoryPerms { read: true, write: true, execute: true }
}

/// A region that holds `bytes`.
pub open spec fn ram_region(region: MemoryRegion, gpa: u64, bytes: Seq<u8>) -> bool {
    &&& region.gpa.0 == gpa
    &&& region.size == bytes.len()
    &&& region.perms == all_perms()
    &&& region.hpa matches Some(v) && v@ == bytes
}

/// Whether a device region from `gpa` to `end` runs into a memory region.
pub open spec fn meets_ram(region: RegionLayout, gpa: u64, end: u64) -> bool {
    gpa <= region.last() && end > region.base
}

/// The first memory region at or after `i` that a device region from `gpa` to
/// `end` runs into.
pub open spec fn ram_overlap(layout: Seq<RegionLayout>, gpa: u64, end: u64, i: int) -> Option<int>
    decreases layout.len() - i,
{
    if i < 0 || i >= layout.len() {
        None
    } else if meets_ram(layout[i], gpa, end) {
        Some(i)
    } else {
        ram_overlap(layout, gpa, end, i + 1)
    }
}

/// Whether a device region from `gpa` to `end` runs into another one.
pub open spec fn meets(region: MmioRegion, gpa: u64, end: u64) -> bool {
    gpa < region.gpa.0 + region.size && end > region.gpa.0
}

/// The first device region at or after `i` that one from `gpa` to `end` runs
/// into.
pub open spec fn mmio_overlap(regions: Seq<MmioRegion>, gpa: u64, end: u64, i: int) -> Option<int>
    decreases regions.len() - i,
{
    if i < 0 || i >= regions.len() {
        None
    } else if meets(regions[i], gpa, end) {
        Some(i)
    } else {
        mmio_overlap(regions, gpa, end, i + 1)
    }
}

/// The start of the text on an overlap.
pub open spec fn overlap_head(gpa: u64, end: u64, name: Seq<char>) -> Seq<char> {
    "MMIO region 0x"@ + hex_min_text(gpa as nat) + "-0x"@ + hex_min_text(end as nat) + " ("@ + name
}

/// The text on an overlap with memory.
pub open spec fn ram_overlap_text(gpa: u64, end: u64, name: Seq<char>, region: RegionLayout) -> Seq<char> {
    overlap_head(gpa, end, name) + ") overlaps with memory region 0x"@ + hex_min_text(region.base as nat)
        + "-0x"@ + hex_min_text(region.last() as nat)
}

/// The text on an overlap with another device region.
pub open spec fn mmio_overlap_text(gpa: u64, end: u64, name: Seq<char>, region: MmioRegion) -> Seq<char> {
    overlap_head(gpa, end, name) + ") overlaps with existing MMIO region 0x"@ + hex_min_text(
        region.gpa.0 as nat,
    ) + "-0x"@ + hex_min_text((region.gpa.0 + region.size) as nat) + " ("@ + region.name@ + ")"@
}

/// The outcome of adding a device region.
pub open spec fn mmio_registered(
    layout: Seq<RegionLayout>,
    regions: Seq<MmioRegion>,
    gpa: u64,
    size: u64,
    name: Seq<char>,
    r: Result<(), PartitionError>,
) -> bool {
    if gpa + size > u64::MAX {
        r matches Err(PartitionError::MmioOverflow)
    } else {
        let end = (gpa + size) as u64;
        match ram_overlap(layout, gpa, end, 0) {
            Some(k) => r matches Err(PartitionError::Overlap(text)) && text@ == ram_overlap_text(
                gpa,
                end,
                name,
                layout[k],
            ),
            None => match mmio_overlap(regions, gpa, end, 0) {
                Some(k) => r matches Err(PartitionError::Overlap(text)) && text@
                    == mmio_overlap_text(gpa, end, name, regions[k]),
                None => r is Ok,
            },
        }
    }
}

/// The virtual machine.
#[derive(Debug)]
pub struct Partition {
    pub layout: MemoryLayout,
    pub emulator: Emulator,
    pub memory: MemoryManager,
    pub device_manager: DeviceManager,
    pub cpu_manager: CpuManager,
    /// The names of the devices that serve device regions, no name twice.
    pub mmio_handlers: Vec<String>,
    /// The host's time stamp counter when the machine was created.
    pub vm_start_tsc: u64,
    /// The frequency of the host's time stamp counter, in hertz.
    pub tsc_frequency: u64,
    /// Where the guest asked for the reference time page.
    pub tsc_reference_gpa: Option<u64>,
    /// What the guest says it is.
    pub guest_os_id: u64,
    /// What the guest last wrote to the register that exposes the invariant
    /// time stamp counter.
    pub tsc_invariant_control: u64,
    /// When the timer interrupt was last requested, in milliseconds.
    pub last_interrupt_time: u64,
}

impl Partition {
    pub open spec fn wf(self) -> bool {
        &&& self.memory.wf()
        &&& forall|i: int, j: int|
            0 <= i < j < self.mmio_handlers@.len() ==> (#[trigger] self.mmio_handlers@[i])@ != (
            #[trigger] self.mmio_handlers@[j])@
    }

    /// Everything but memory is the same.
    pub open spec fn same_but_memory(self, other: Self) -> bool {
        self == (Partition { memory: self.memory, ..other })
    }

    /// A machine without memory and without device regions.
    pub fn new(memory_size: u64, layout: MemoryLayout, vm_start_tsc: u64, tsc_frequency: u64) -> (r:
        Self)
        requires
            memory_size < u64::MAX,
            0 < layout.mem_32bit_devices_start + layout.mem_32bit_devices_size <= u64::MAX,
        ensures
            r.wf(),
            r.layout == layout,
            r.memory.regions@.len() == 0,
            r.memory.mmio_regions@.len() == 0,
            r.memory.log().len() == 0,
            r.memory.acpi_address is None,
            r.emulator == (Emulator {
                rtc_time: 0,
                rtc_counter: 0,
                serial_ier: 0,
                refresh_counter: 0,
                pci_address_config: 0,
            }),
            r.device_manager.pci_segments@ == seq![first_segment(memory_size, layout)],
            r.device_manager.virtio_mmio_devices@.len() == 0,
            r.device_manager.serial_devices@.len() == 0,
            r.device_manager.io_bus.wf(),
            r.device_manager.io_bus.ranges@ == seq![pm_timer_range()],
            r.device_manager.acpi_platform_addresses.pm_timer_address == Some(pm_timer_address()),
            r.cpu_manager == (CpuManager { cpus: 0, acpi_address: None }),
            r.mmio_handlers@.len() == 0,
            r.vm_start_tsc == vm_start_tsc,
            r.tsc_frequency == tsc_frequency,
            r.tsc_reference_gpa is None,
            r.guest_os_id == 0,
            r.tsc_invariant_control == 0,
            r.last_interrupt_time == 0,
    {
        let mut device_manager = DeviceManager::new(GuestAddress(memory_size), &layout);
        device_manager.init();
        assert(device_manager.io_bus.ranges@ =~= seq![pm_timer_range()]);
        Partition {
            layout,
            emulator: Emulator::new(),
            memory: MemoryManager::new(),
            device_manager,
            cpu_manager: CpuManager::new(),
            mmio_handlers: Vec::new(),
            vm_start_tsc,
            tsc_frequency,
            tsc_reference_gpa: None,
            guest_os_id: 0,
            tsc_invariant_control: 0,
            last_interrupt_time: 0,
        }
    }

    /// Sets the number of processors.
    pub fn configure(&mut self, processor_count: u32)
        ensures
            *final(self) == (Partition {
                cpu_manager: CpuManager { cpus: processor_count, ..old(self).cpu_manager },
                ..*old(self)
            }),
    {
        self.cpu_manager.set_cpu_count(processor_count);
    }

    pub fn device_manager(&self) -> (r: &DeviceManager)
        ensures
            *r == self.device_manager,
    {
        &self.device_manager
    }

    pub fn device_manager_mut(&mut self) -> (r: &mut DeviceManager)
        ensures
            *r == old(self).device_manager,
            *final(self) == (Partition { device_manager: *final(r), ..*old(self) }),
    {
        &mut self.device_manager
    }

    pub fn cpu_manager(&self) -> (r: &CpuManager)
        ensures
            *r == self.cpu_manager,
    {
        &self.cpu_manager
    }

    pub fn cpu_manager_mut(&mut self) -> (r: &mut CpuManager)
        ensures
            *r == old(self).cpu_manager,
            *final(self) == (Partition { cpu_manager: *final(r), ..*old(self) }),
    {
        &mut self.cpu_manager
    }

    pub fn memory_manager(&self) -> (r: &MemoryManager)
        ensures
            *r == self.memory,
    {
        &self.memory
    }

    pub fn memory_manager_mut(&mut self) -> (r: &mut MemoryManager)
        ensures
            *r == old(self).memory,
            *final(self) == (Partition { memory: *final(r), ..*old(self) }),
    {
        &mut self.memory
    }

    /// The processor identification leaves that the machine answers itself.
    pub fn setup(&self) -> (r: Vec<u32>)
        ensures
            r@ == seq![
                0x4000_0000u32,
                0x4000_0001,
                0x4000_0002,
                0x4000_0003,
                0x4000_0004,
                0x4000_0005,
            ],
    {
        vec![0x4000_0000u32, 0x4000_0001, 0x4000_0002, 0x4000_0003, 0x4000_0004, 0x4000_0005]
    }

    /// Gives the machine four megabytes of memory.
    pub fn allocate_memory(&mut self, source: Option<Vec<u8>>) -> (r: Result<
        Vec<MapRange>,
        PartitionError,
    >)
        requires
            old(self).wf(),
            source matches Some(v) ==> v@.len() == 0x40_0000 && placeable(
                0x40_0000,
                old(self).layout,
            ),
        ensures
            final(self).allocated(*old(self), 0x40_0000, all_perms(), source, r),
    {
        self.allocate_memory_with_size(0x40_0000, MemoryPerms::rwx(), source)
    }

    /// What giving the machine memory comes to: without host memory it fails;
    /// else the host memory is cut into the planned pieces and each becomes a
    /// region, and the ranges to map are returned.
    pub open spec fn allocated(
        self,
        before: Self,
        total: u64,
        flags: MemoryPerms,
        source: Option<Vec<u8>>,
        r: Result<Vec<MapRange>, PartitionError>,
    ) -> bool {
        match source {
            None => r matches Err(PartitionError::AllocationFailed) && self == before,
            Some(bytes) => {
                let plan = memory_plan(total, flags.bits_spec(), before.layout);
                let old_regions = before.memory.regions@;
                let regions = self.memory.regions@;
                let cut = plan[0].size as int;
                &&& r matches Ok(v) && v@ == plan
                &&& self.wf()
                &&& self.same_but_memory(before)
                &&& self.memory.mmio_regions == before.memory.mmio_regions
                &&& self.memory.log() == before.memory.log()
                &&& self.memory.acpi_address == before.memory.acpi_address
                &&& regions.len() == old_regions.len() + plan.len()
                &&& regions.subrange(0, old_regions.len() as int) == old_regions
                &&& ram_region(regions[old_regions.len() as int], plan[0].gpa, bytes@.subrange(0, cut))
                &&& plan.len() == 2 ==> ram_region(
                    regions[old_regions.len() as int + 1],
                    plan[1].gpa,
                    bytes@.subrange(cut, bytes@.len() as int),
                )
            },
        }
    }

    /// Gives the machine memory, for which the host has set `source` aside if
    /// it could.
    pub fn allocate_memory_with_size(
        &mut self,
        total_memory: u64,
        flags: MemoryPerms,
        source: Option<Vec<u8>>,
    ) -> (r: Result<Vec<MapRange>, PartitionError>)
        requires
            old(self).wf(),
            source matches Some(v) ==> v@.len() == total_memory && placeable(
                total_memory,
                old(self).layout,
            ),
        ensures
            final(self).allocated(*old(self), total_memory, flags, source, r),
    {
        let mut low = match source {
            Some(bytes) => bytes,
            None => {
                return Err(PartitionError::AllocationFailed);
            },
        };
        let ghost bytes = low@;
        let mapping: u32 = flags.to_flags();
        let mut ranges: Vec<MapRange> = Vec::new();
        if total_memory <= self.layout.mem_32bit_reserved_start {
            ranges.push(MapRange { gpa: 0, size: total_memory, flags: mapping });
            assert(bytes.subrange(0, bytes.len() as int) =~= bytes);
            self.memory.register_region(
                MemoryRegion::new(GuestAddress(0), total_memory, MemoryPerms::rwx(), Some(low)),
            );
        } else {
            let low_size: u64 = self.layout.mem_32bit_devices_start;
            let size: u64 = total_memory - low_size;
            let gpa: u64 = self.layout.ram_64bit_start;
            let total: usize = low.len();
            let high = low.split_off(low_size as usize);
            ranges.push(MapRange { gpa: 0, size: low_size, flags: mapping });
            self.memory.register_region(
                MemoryRegion::new(GuestAddress(0), low_size, MemoryPerms::rwx(), Some(low)),
            );
            ranges.push(MapRange { gpa, size, flags: mapping });
            self.memory.register_region(
                MemoryRegion::new(GuestAddress(gpa), size, MemoryPerms::rwx(), Some(high)),
            );
        }
        proof {
            let n = old(self).memory.regions@.len() as int;
            assert(self.memory.regions@.subrange(0, n) =~= old(self).memory.regions@);
            assert(ranges@ =~= memory_plan(total_memory, mapping, old(self).layout));
        }
        Ok(ranges)
    }

    /// Writes bytes to guest memory.
    pub fn write_code(&mut self, code: &[u8], gpa: GuestAddress) -> (r: Result<(), PartitionError>)
        requires
            old(self).wf(),
        ensures
            final(self).wf(),
            final(self).same_but_memory(*old(self)),
            final(self).memory.same_but_bytes(old(self).memory),
            match old(self).memory.ram().write(gpa.0 as int, code@) {
                Ok(after) => r is Ok && final(self).memory.ram() == after,
                Err(e) => (r matches Err(PartitionError::Memory(f)) && f == e) && final(self).memory.ram() == old(self).memory.ram(),
            },
    {
        proof {
            lemma_find_from(self.memory.ram().layout, gpa.0 as int, 0);
        }
        match self.memory.write_guest_memory(code, gpa) {
            Ok(()) => Ok(()),
            Err(e) => Err(PartitionError::Memory(e)),
        }
    }

    /// Writes the contents of a file to guest memory. Gives how many bytes it
    /// has.
    pub fn load_file(&mut self, data: &[u8], gpa: GuestAddress) -> (r: Result<usize, PartitionError>)
        requires
            old(self).wf(),
        ensures
            final(self).wf(),
            final(self).same_but_memory(*old(self)),
            final(self).memory.same_but_bytes(old(self).memory),
            match old(self).memory.ram().write(gpa.0 as int, data@) {
                Ok(after) => (r matches Ok(n) && n == data@.len()) && final(self).memory.ram() == after,
                Err(e) => (r matches Err(PartitionError::Memory(f)) && f == e) && final(self).memory.ram() == old(self).memory.ram(),
            },
    {
        match self.write_code(data, gpa) {
            Ok(()) => Ok(data.len()),
            Err(e) => Err(e),
        }
    }

    /// Loads a kernel and sets up its boot parameters. Gives its entry point.
    pub fn load_linux_kernel(&mut self, kernel: &[u8]) -> (r: Result<u64, PartitionError>)
        requires
            old(self).wf(),
            bootable(old(self).memory, old(self).layout),
            old(self).layout.high_ram_start + 0x200 <= u64::MAX,
        ensures
            final(self).wf(),
            final(self).same_but_memory(*old(self)),
            final(self).memory.same_but_bytes(old(self).memory),
            ({
                let (done, after) = kernel_loaded(
                    kernel@,
                    old(self).memory.ram(),
                    old(self).memory.mmio_regions@,
                    old(self).layout,
                );
                &&& final(self).memory.ram() == after
                &&& match done {
                    Ok(entry) => r matches Ok(v) && v == entry,
                    Err(e) => r matches Err(PartitionError::Boot(f)) && f == e,
                }
            }),
    {
        match load_linux_kernel(&mut self.memory, &self.layout, kernel) {
            Ok(entry) => Ok(entry),
            Err(e) => Err(PartitionError::Boot(e)),
        }
    }

    /// Writes minimal boot parameters to guest memory.
    pub fn setup_linux_boot_params(&mut self, gpa: GuestAddress) -> (r: Result<(), PartitionError>)
        requires
            old(self).wf(),
        ensures
            final(self).wf(),
            final(self).same_but_memory(*old(self)),
            final(self).memory.same_but_bytes(old(self).memory),
            match old(self).memory.ram().write(gpa.0 as int, minimal_params()) {
                Ok(after) => r is Ok && final(self).memory.ram() == after,
                Err(e) => (r matches Err(PartitionError::Memory(f)) && f == e) && final(self).memory.ram()
                    == old(self).memory.ram(),
            },
    {
        let mut boot_params = zeroed(4096);
        let signature = encode_le(0x5372_6448, 4);
        let version = encode_le(0x0208, 2);
        let alignment = encode_le(0x20_0000, 4);
        proof {
            lemma_le_bytes_len(0x5372_6448, 4);
            lemma_le_bytes_len(0x0208, 2);
            lemma_le_bytes_len(0x20_0000, 4);
        }
        copy_into(&mut boot_params, 0x1f1, signature.as_slice());
        copy_into(&mut boot_params, 0x1f6, version.as_slice());
        copy_into(&mut boot_params, 0x1f7, alignment.as_slice());
        copy_into(&mut boot_params, 0x210, vec![1u8].as_slice());
        assert(boot_params@ == minimal_params());
        self.write_code(boot_params.as_slice(), gpa)
    }

    /// Reads guest memory. Where memory cannot be read, the error explains it.
    pub fn read_memory(&self, gpa: GuestAddress, size: usize) -> (r: Result<Vec<u8>, PartitionError>)
        requires
            self.wf(),
            end_fits(self.memory.ram().layout, gpa.0 as int),
        ensures
            match self.memory.ram().read(gpa.0 as int, size as int) {
                Ok(bytes) => r matches Ok(v) && v@ == bytes,
                Err(e) => read_refused(self.memory, gpa, size, e, r),
            },
    {
        proof {
            lemma_find_from(self.memory.ram().layout, gpa.0 as int, 0);
        }
        match self.memory.read_guest_memory(gpa, size) {
            Ok(data) => Ok(data),
            Err(MemoryError::NotReadable) => {
                let violation = MemoryAccessViolation {
                    gpa,
                    action: MemoryPerms::new(true, false, false),
                    access_size: size as u32,
                    instruction_rip: 0,
                };
                Err(PartitionError::Violation(self.memory.analyze_violation(&violation)))
            },
            Err(e) => Err(PartitionError::Memory(e)),
        }
    }

    /// Reads guest memory and drops it: tells whether it can be read.
    pub fn dump_memory(&self, gpa: GuestAddress, size: usize) -> (r: Result<(), PartitionError>)
        requires
            self.wf(),
            end_fits(self.memory.ram().layout, gpa.0 as int),
        ensures
            match self.memory.ram().read(gpa.0 as int, size as int) {
                Ok(bytes) => r is Ok,
                Err(e) => read_refused(self.memory, gpa, size, e, r),
            },
    {
        match self.read_memory(gpa, size) {
            Ok(_) => Ok(()),
            Err(e) => Err(e),
        }
    }

    /// Prepares the machine for the 64-bit entry of a loaded kernel: writes the
    /// page tables and the boot descriptor table. Gives the registers to set.
    /// The boot parameters must be readable.
    pub fn setup_linux_registers(&mut self, kernel_entry: u64) -> (r: Result<
        Vec<(RegisterName, RegisterValue)>,
        PartitionError,
    >)
        requires
            old(self).wf(),
            end_fits(old(self).memory.ram().layout, old(self).layout.zero_page_start as int),
            tables_fit(old(self).layout),
        ensures
            final(self).wf(),
            final(self).same_but_memory(*old(self)),
            final(self).memory.same_but_bytes(old(self).memory),
            ({
                let map = old(self).layout;
                let ram = old(self).memory.ram();
                let after = final(self).memory.ram();
                match ram.read(map.zero_page_start as int, 4096) {
                    Err(e) => read_refused(
                        old(self).memory,
                        GuestAddress(map.zero_page_start),
                        4096,
                        e,
                        r,
                    ) && after == ram,
                    Ok(params) => match ram.write(
                        map.pml4_start as int,
                        identity_tables(
                            map,
                            mapped_gigabytes(map, kernel_entry, u32_at(params, 0x260)),
                        ),
                    ) {
                        Err(e) => refused(BootError::Memory(e), r) && after == ram,
                        Ok(ram1) => match ram1.write(map.boot_gdt_start as int, boot_gdt()) {
                            Err(e) => refused(BootError::Memory(e), r) && after == ram1,
                            Ok(ram2) => (r matches Ok(v) && v@ == boot_registers(map, kernel_entry))
                                && after == ram2,
                        },
                    },
                }
            }),
    {
        let zero_page = GuestAddress(self.layout.zero_page_start);
        let boot_params = match self.read_memory(zero_page, 4096) {
            Ok(bytes) => bytes,
            Err(e) => {
                return Err(e);
            },
        };
        let init_size: u32 = if boot_params.len() > 0x264 {
            get_u32(boot_params.as_slice(), 0x260)
        } else {
            self.layout.high_ram_start as u32
        };
        proof {
            self.memory.lemma_ram_wf();
            lemma_find_from(self.memory.ram().layout, zero_page.0 as int, 0);
            assert(boot_params@.len() == 4096);
            law_write_keeps_layout(
                self.memory.ram(),
                self.layout.pml4_start as int,
                identity_tables(
                    self.layout,
                    mapped_gigabytes(self.layout, kernel_entry, init_size),
                ),
            );
        }
        match setup_identity_paging(&mut self.memory, &self.layout, kernel_entry, init_size) {
            Ok(()) => {},
            Err(e) => {
                return Err(PartitionError::Boot(e));
            },
        }
        match setup_linux_registers(&mut self.memory, &self.layout, kernel_entry) {
            Ok(registers) => Ok(registers),
            Err(e) => Err(PartitionError::Boot(e)),
        }
    }

    /// Adds a device region, which must not run into memory or into another
    /// device region.
    pub fn register_mmio_region(
        &mut self,
        gpa: u64,
        size: u64,
        name: String,
        handler_name: Option<String>,
    ) -> (r: Result<(), PartitionError>)
        requires
            old(self).wf(),
        ensures
            final(self).wf(),
            final(self).same_but_memory(*old(self)),
            mmio_registered(
                old(self).memory.ram().layout,
                old(self).memory.mmio_regions@,
                gpa,
                size,
                name@,
                r,
            ),
            r is Err ==> final(self).memory == old(self).memory,
            r is Ok ==> {
                let before = old(self).memory;
                let after = final(self).memory;
                &&& after.regions == before.regions
                &&& after.log() == before.log()
                &&& after.acpi_address == before.acpi_address
                &&& after.mmio_regions@ == before.mmio_regions@.push(
                    (MmioRegion { gpa: GuestAddress(gpa), size, name, handler: handler_name }),
                )
            },
    {
        let mmio_end: u64 = match gpa.checked_add(size) {
            Some(end) => end,
            None => {
                return Err(PartitionError::MmioOverflow);
            },
        };
        let ghost layout = self.memory.ram().layout;
        let ghost before = *self;
        let mut i: usize = 0;
        while i < self.memory.regions.len()
            invariant
                *self == before,
                before == *old(self),
                before.wf(),
                gpa + size <= u64::MAX,
                mmio_end == gpa + size,
                layout == before.memory.ram().layout,
                i <= layout.len(),
                ram_overlap(layout, gpa, mmio_end, 0) == ram_overlap(layout, gpa, mmio_end, i as int),
            decreases layout.len() - i,
        {
            let region = &self.memory.regions[i];
            assert(self.memory.regions@[i as int].wf());
            assert(layout[i as int] == region.layout());
            let start: u64 = region.gpa.0;
            let last: u64 = region.last_addr().0;
            if gpa <= last && mmio_end > start {
                let mut text = overlap_start(gpa, mmio_end, name.as_str());
                text.append(") overlaps with memory region 0x");
                text.append(hex_min(start).as_str());
                text.append("-0x");
                text.append(hex_min(last).as_str());
                assert(text@ =~= ram_overlap_text(gpa, mmio_end, name@, layout[i as int]));
                return Err(PartitionError::Overlap(text));
            }
            i += 1;
        }
        let ghost regions = self.memory.mmio_regions@;
        i = 0;
        while i < self.memory.mmio_regions.len()
            invariant
                *self == before,
                before == *old(self),
                before.wf(),
                gpa + size <= u64::MAX,
                mmio_end == gpa + size,
                layout == before.memory.ram().layout,
                ram_overlap(layout, gpa, mmio_end, 0) is None,
                regions == before.memory.mmio_regions@,
                i <= regions.len(),
                mmio_overlap(regions, gpa, mmio_end, 0) == mmio_overlap(regions, gpa, mmio_end, i as int),
            decreases regions.len() - i,
        {
            let existing = &self.memory.mmio_regions[i];
            assert(self.memory.mmio_regions@[i as int].wf());
            let existing_end: u64 = existing.gpa.0 + existing.size;
            if gpa < existing_end && mmio_end > existing.gpa.0 {
                let mut text = overlap_start(gpa, mmio_end, name.as_str());
                text.append(") overlaps with existing MMIO region 0x");
                text.append(hex_min(existing.gpa.0).as_str());
                text.append("-0x");
                text.append(hex_min(existing_end).as_str());
                text.append(" (");
                text.append(existing.name.as_str());
                text.append(")");
                assert(text@ =~= mmio_overlap_text(gpa, mmio_end, name@, regions[i as int]));
                return Err(PartitionError::Overlap(text));
            }
            i += 1;
        }
        let region = MmioRegion { gpa: GuestAddress(gpa), size, name, handler: handler_name };
        self.memory.register_mmio(region);
        Ok(())
    }

    /// Adds the name of a device that serves device regions. Gives its number:
    /// that of the same name, if it is there already, else the next one.
    pub fn register_mmio_handler(&mut self, name: String) -> (r: usize)
        requires
            old(self).wf(),
        ensures
            final(self).wf(),
            match handler_from(old(self).mmio_handlers@, name@, 0) {
                Some(k) => r == k && *final(self) == *old(self),
                None => r == old(self).mmio_handlers@.len() && final(self).mmio_handlers@ == old(
                    self).mmio_handlers@.push(name) && *final(self) == (Partition {
                    mmio_handlers: final(self).mmio_handlers,
                    ..*old(self)
                }),
            },
    {
        match find_handler(&self.mmio_handlers, &name) {
            Some(k) => k,
            None => {
                let k: usize = self.mmio_handlers.len();
                proof {
                    lemma_handler_absent(self.mmio_handlers@, name@, 0);
                }
                self.mmio_handlers.push(name);
                k
            },
        }
    }

    /// The registers for an entry point in plain mode.
    pub fn setup_registers(&self, rip: u64) -> (r: Vec<(RegisterName, RegisterValue)>)
        ensures
            r@ == seq![
                (RegisterName::Rflags, RegisterValue::Reg64(0x2)),
                (RegisterName::Rip, RegisterValue::Reg64(rip)),
            ],
    {
        let mut registers: Vec<(RegisterName, RegisterValue)> = Vec::new();
        registers.push((RegisterName::Rflags, RegisterValue::Reg64(0x2)));
        registers.push((RegisterName::Rip, RegisterValue::Reg64(rip)));
        registers
    }

    /// The end of the highest memory region.
    pub fn get_memory_size(&self) -> (r: u64)
        requires
            self.wf(),
            all_ends_fit(self.memory.ram().layout),
        ensures
            r == memory_end(self.memory.ram().layout),
    {
        get_memory_size(&self.memory)
    }
}

/// Boot parameters with a signature, a version, an alignment and a loader.
pub open spec fn minimal_params() -> Seq<u8> {
    let a = spliced(zeros(4096), 0x1f1, le_bytes(0x5372_6448, 4));
    let b = spliced(a, 0x1f6, le_bytes(0x0208, 2));
    let c = spliced(b, 0x1f7, le_bytes(0x20_0000, 4));
    spliced(c, 0x210, seq![1u8])
}

/// The error of a read that is refused: an explanation where memory cannot be
/// read, else the error itself.
pub open spec fn read_refused<T>(
    mem: MemoryManager,
    gpa: GuestAddress,
    size: usize,
    e: MemoryError,
    r: Result<T, PartitionError>,
) -> bool {
    if e == MemoryError::NotReadable {
        r matches Err(PartitionError::Violation(text)) && text@ == violation_text(
            mem.regions@,
            mem.mmio_regions@,
            MemoryAccessViolation {
                gpa,
                action: MemoryPerms { read: true, write: false, execute: false },
                access_size: size as u32,
                instruction_rip: 0,
            },
        )
    } else {
        r matches Err(PartitionError::Memory(f)) && f == e
    }
}

/// The error of a step of booting.
pub open spec fn refused<T>(e: BootError, r: Result<T, PartitionError>) -> bool {
    r matches Err(PartitionError::Boot(f)) && f == e
}

/// The start of the text on an overlap.
fn overlap_start(gpa: u64, end: u64, name: &str) -> (r: String)
    ensures
        r@ == overlap_head(gpa, end, name@),
{
    let mut text = "MMIO region 0x".to_owned();
    text.append(hex_min(gpa).as_str());
    text.append("-0x");
    text.append(hex_min(end).as_str());
    text.append(" (");
    text.append(name);
    text
}

/// A name that is not found is not there.
proof fn lemma_handler_absent(handlers: Seq<String>, name: Seq<char>, i: int)
    requires
        0 <= i,
        handler_from(handlers, name, i) is None,
    ensures
        forall|k: int| i <= k < handlers.len() ==> (#[trigger] handlers[k])@ != name,
    decreases handlers.len() - i,
{
    if i < handlers.len() {
        lemma_handler_absent(handlers, name, i + 1);
    }
}

/// Two device regions that share no address.
pub open spec fn regions_apart(a: MmioRegion, b: MmioRegion) -> bool {
    a.gpa.0 + a.size <= b.gpa.0 || b.gpa.0 + b.size <= a.gpa.0
}

/// No two device regions share an address.
pub open spec fn all_apart(regions: Seq<MmioRegion>) -> bool {
    forall|i: int, j: int|
        0 <= i < j < regions.len() ==> regions_apart(#[trigger] regions[i], #[trigger] regions[j])
}

proof fn lemma_mmio_overlap(regions: Seq<MmioRegion>, gpa: u64, end: u64, i: int)
    requires
        0 <= i,
    ensures
        match mmio_overlap(regions, gpa, end, i) {
            Some(k) => i <= k < regions.len() && meets(regions[k], gpa, end),
            None => forall|k: int|
                i <= k < regions.len() ==> !meets(#[trigger] regions[k], gpa, end),
        },
    decreases regions.len() - i,
{
    if i < regions.len() {
        lemma_mmio_overlap(regions, gpa, end, i + 1);
    }
}

proof fn lemma_ram_overlap(layout: Seq<RegionLayout>, gpa: u64, end: u64, i: int)
    requires
        0 <= i,
    ensures
        match ram_overlap(layout, gpa, end, i) {
            Some(k) => i <= k < layout.len() && meets_ram(layout[k], gpa, end),
            None => forall|k: int|
                i <= k < layout.len() ==> !meets_ram(#[trigger] layout[k], gpa, end),
        },
    decreases layout.len() - i,
{
    if i < layout.len() {
        lemma_ram_overlap(layout, gpa, end, i + 1);
    }
}

/// A device region that shares no byte with memory.
pub open spec fn apart_from_ram(layout: Seq<RegionLayout>, region: MmioRegion) -> bool {
    forall|k: int, gpa: int|
        0 <= k < layout.len() && region.has(gpa) ==> !(#[trigger] layout[k].has(gpa))
}

/// A device region that shares no byte with any of these.
pub open spec fn apart_from_devices(regions: Seq<MmioRegion>, region: MmioRegion) -> bool {
    forall|k: int, gpa: int|
        0 <= k < regions.len() && region.has(gpa) ==> !(#[trigger] regions[k].has(gpa))
}

/// A device region that is accepted shares no byte with memory.
pub proof fn law_mmio_regions_stay_off_memory(
    layout: Seq<RegionLayout>,
    regions: Seq<MmioRegion>,
    region: MmioRegion,
    r: Result<(), PartitionError>,
)
    requires
        mmio_registered(layout, regions, region.gpa.0, region.size, region.name@, r),
        r is Ok,
    ensures
        apart_from_ram(layout, region),
{
    let end = (region.gpa.0 + region.size) as u64;
    lemma_ram_overlap(layout, region.gpa.0, end, 0);
    assert forall|k: int, gpa: int| 0 <= k < layout.len() && region.has(gpa) implies !(
    #[trigger] layout[k].has(gpa)) by {
        assert(!meets_ram(layout[k], region.gpa.0, end));
    }
}

/// A device region with bytes in it is accepted exactly if it ends within the
/// address space and shares no byte with memory or with another device region.
pub proof fn law_mmio_region_accepted(
    layout: Seq<RegionLayout>,
    regions: Seq<MmioRegion>,
    region: MmioRegion,
    r: Result<(), PartitionError>,
)
    requires
        region.size > 0,
        forall|k: int| 0 <= k < layout.len() ==> (#[trigger] layout[k]).size > 0,
        forall|k: int| 0 <= k < regions.len() ==> (#[trigger] regions[k]).size > 0,
        mmio_registered(layout, regions, region.gpa.0, region.size, region.name@, r),
    ensures
        r is Ok <==> {
            &&& region.gpa.0 + region.size <= u64::MAX
            &&& apart_from_ram(layout, region)
            &&& apart_from_devices(regions, region)
        },
{
    let start = region.gpa.0 as int;
    if start + region.size <= u64::MAX {
        let end = (start + region.size) as u64;
        lemma_ram_overlap(layout, region.gpa.0, end, 0);
        lemma_mmio_overlap(regions, region.gpa.0, end, 0);
        if let Some(k) = ram_overlap(layout, region.gpa.0, end, 0) {
            let shared = if layout[k].base > start {
                layout[k].base
            } else {
                start
            };
            assert(region.has(shared) && layout[k].has(shared));
        } else if let Some(k) = mmio_overlap(regions, region.gpa.0, end, 0) {
            let shared = if regions[k].gpa.0 > start {
                regions[k].gpa.0 as int
            } else {
                start
            };
            assert(region.has(shared) && regions[k].has(shared));
        } else {
            law_mmio_regions_stay_off_memory(layout, regions, region, r);
            assert forall|k: int, gpa: int| 0 <= k < regions.len() && region.has(gpa) implies !(
            #[trigger] regions[k].has(gpa)) by {
                assert(!meets(regions[k], region.gpa.0, end));
            }
        }
    }
}

/// Adding device regions keeps them apart: if no two share an address, a
/// region that is accepted shares none with any of them.
pub proof fn law_mmio_regions_stay_apart(
    layout: Seq<RegionLayout>,
    regions: Seq<MmioRegion>,
    region: MmioRegion,
    r: Result<(), PartitionError>,
)
    requires
        all_apart(regions),
        mmio_registered(layout, regions, region.gpa.0, region.size, region.name@, r),
        r is Ok,
    ensures
        all_apart(regions.push(region)),
{
    let end = (region.gpa.0 + region.size) as u64;
    lemma_mmio_overlap(regions, region.gpa.0, end, 0);
    let after = regions.push(region);
    assert forall|i: int, j: int| 0 <= i < j < after.len() implies regions_apart(
        #[trigger] after[i],
        #[trigger] after[j],
    ) by {
        if j == regions.len() {
            assert(!meets(regions[i], region.gpa.0, end));
        }
    }
}

/// At most one device region holds an address.
pub proof fn law_one_region_per_address(regions: Seq<MmioRegion>, i: int, j: int, gpa: int)
    requires
        all_apart(regions),
        0 <= i < regions.len(),
        0 <= j < regions.len(),
        regions[i].has(gpa),
        regions[j].has(gpa),
    ensures
        i == j,
{
    if i < j {
        assert(regions_apart(regions[i], regions[j]));
    } else if j < i {
        assert(regions_apart(regions[j], regions[i]));
    }
}

/// An address lies in a planned range.
pub open spec fn planned(plan: Seq<MapRange>, gpa: int) -> bool {
    exists|i: int| 0 <= i < plan.len() && (#[trigger] plan[i]).gpa <= gpa < plan[i].gpa + plan[i].size
}

/// Memory leaves the hole below four gigabytes free, its pieces do not overlap,
/// and together they have as many bytes as were asked for.
pub proof fn law_memory_plan(total: u64, flags: u32, map: MemoryLayout, gpa: int)
    requires
        placeable(total, map),
        map.mem_32bit_devices_start <= map.mem_32bit_reserved_start <= map.ram_64bit_start,
    ensures
        ({
            let plan = memory_plan(total, flags, map);
            &&& map.mem_32bit_reserved_start <= gpa < map.ram_64bit_start ==> !planned(plan, gpa)
            &&& plan.len() == 1 ==> plan[0].size == total
            &&& plan.len() == 2 ==> plan[0].size + plan[1].size == total && plan[0].gpa
                + plan[0].size <= plan[1].gpa
            &&& plan.len() == 1 || plan.len() == 2
        }),
{
}

/// Once a machine was given memory, a read of a byte of its first region gives
/// the byte of the host memory. The last byte of a region cannot be read.
pub proof fn law_low_memory_is_readable(
    before: Partition,
    after: Partition,
    total: u64,
    flags: MemoryPerms,
    source: Option<Vec<u8>>,
    r: Result<Vec<MapRange>, PartitionError>,
    gpa: int,
)
    requires
        before.memory.regions@.len() == 0,
        after.allocated(before, total, flags, source, r),
        source is Some,
        placeable(total, before.layout),
        0 <= gpa < memory_plan(total, flags.bits_spec(), before.layout)[0].size - 1,
        source->0@.len() == total,
    ensures
        after.memory.ram().read(gpa, 1) == Ok::<Seq<u8>, MemoryError>(
            source->0@.subrange(gpa, gpa + 1),
        ),
{
    let ram = after.memory.ram();
    let region = after.memory.regions@[0];
    assert(region.layout() == ram.layout[0]);
    assert(ram.layout[0].has(gpa));
    lemma_find_from(ram.layout, gpa, 0);
    let k = find(ram.layout, gpa);
    assert(k == Some(0int));
    let cut = memory_plan(total, flags.bits_spec(), before.layout)[0].size as int;
    assert(ram.bytes[0] == source->0@.subrange(0, cut));
    assert(ram.bytes[0].subrange(gpa, gpa + 1) =~= source->0@.subrange(gpa, gpa + 1));
}

} // verus!
