//! Where things lie in guest physical memory.

use vstd::prelude::*;

verus! {

/// The guest's address map.
#[derive(Clone, Copy, Debug, PartialEq, Eq, Structural)]
pub struct MemoryLayout {
    /// The boot descriptor table.
    pub boot_gdt_start: u64,
    /// The first stack pointer.
    pub boot_stack_pointer: u64,
    /// The page of boot parameters.
    pub zero_page_start: u64,
    /// The top-level page table.
    pub pml4_start: u64,
    /// The second-level page table.
    pub pdpte_start: u64,
    /// The kernel command line.
    pub cmdline_start: u64,
    pub cmdline_max_size: u64,
    /// Where memory above the low megabyte starts.
    pub high_ram_start: u64,
    /// The hole below four gigabytes that devices use.
    pub mem_32bit_reserved_start: u64,
    pub mem_32bit_reserved_size: u64,
    /// The part of the hole for 32-bit devices.
    pub mem_32bit_devices_start: u64,
    pub mem_32bit_devices_size: u64,
    /// The memory-mapped PCI configuration space.
    pub pci_mmconfig_start: u64,
    pub pci_mmconfig_size: u64,
    pub pci_mmio_config_size_per_segment: u64,
    /// The virtio devices' registers, one window per device.
    pub virtio_mmio_start: u64,
    pub virtio_mmio_size_per_device: u64,
    pub ioapic_start: u64,
    pub ioapic_size: u64,
    pub apic_start: u64,
    /// Where memory above the hole starts.
    pub ram_64bit_start: u64,
}

} // verus!
