//! What the guest is told of the machine: its processors, interrupt
//! controllers, timer and devices.

use vstd::prelude::*;

use crate::aml::{package_length, template_bytes};
use crate::byte_order::le_bytes;
use crate::cpu::{
    cpu_bytes, ioapic_record, law_madt, local_apics, madt, madt_body, timer_override, with_checksum, Cpu,
};
use crate::device_manager::{
    block_entry, console_entry, ecam_entry, first_segment, ioapic_entry, pm_timer_address, pm_timer_range,
    pm_timer_bytes, pm_timer_read, rng_entry, segment_bytes, serial_bytes, virtio_bytes, PciSegment,
    SerialDevice, VirtioMmioDevice,
};
use crate::laws::bits::lemma_bits;
use crate::laws::memory::{digits, law_bytes_add_up, lemma_digits_of};
use crate::laws::text::digit_of;
use crate::memory::layout::MemoryLayout;

verus! {

/// The table of interrupt controllers: its signature, its own length, revision
/// five, and bytes that add up to zero; the address of the local controllers;
/// eight bytes for each processor, with its number and enabled; then the
/// interrupt controller with its address and its first line, zero; and the
/// timer's line, zero on the bus, as line two.
#[verifier::spinoff_prover]
#[verifier::rlimit(60)]
pub proof fn law_interrupt_controllers_told(map: MemoryLayout, cpus: u32, i: u32)
    requires
        66 + 8 * cpus <= u32::MAX,
        i < cpus,
    ensures
        ({
            let t = madt(map, cpus);
            let at = 44 + 8 * i;
            let io = 44 + 8 * cpus;
            let isa = io + 12;
            &&& t.len() == 66 + 8 * cpus
            &&& t[0] == 65 && t[1] == 80 && t[2] == 73 && t[3] == 67
            &&& digits(t, 4, 4) == 66 + 8 * cpus
            &&& t[8] == 5
            &&& digits(t, 24, 4) == 1
            &&& digits(t, 32, 4) == 0
            &&& digits(t, 36, 8) == map.apic_start
            &&& t[at] == 0 && t[at + 1] == 8 && t[at + 2] == i % 0x100 && digits(t, at + 3, 4) == 1 && t[at + 7]
                == i % 0x100
            &&& t[io] == 1 && t[io + 1] == 12 && t[io + 2] == 0 && t[io + 3] == 0
            &&& digits(t, io + 4, 4) == map.ioapic_start % 0x1_0000_0000
            &&& digits(t, io + 8, 4) == 0
            &&& t[isa] == 2 && t[isa + 1] == 10 && t[isa + 2] == 0 && t[isa + 3] == 0
            &&& digits(t, isa + 4, 4) == 2
            &&& digits(t, isa + 8, 2) == 0
        }),
{
    let t = madt(map, cpus);
    let apics = local_apics(cpus as nat);
    let records = apics + ioapic_record(map.ioapic_start) + timer_override();
    let length = (44 + records.len()) as u32;
    law_bytes_add_up(0, 4);
    law_bytes_add_up(0, 2);
    law_bytes_add_up(1, 4);
    law_bytes_add_up(2, 4);
    law_bytes_add_up(map.apic_start as nat, 8);
    law_bytes_add_up(map.ioapic_start as u32 as nat, 4);
    law_bytes_add_up(length as nat, 4);
    lemma_bits(map.ioapic_start);
    lemma_bits(i as u64);
    law_madt(map, cpus, i);
    lemma_apics_len(cpus as nat);
    let body = madt_body(le_bytes(length as nat, 4), map.apic_start, records);
    assert(t == with_checksum(body));
    let at = 44 + 8 * i;
    let io = 44 + 8 * cpus;
    let isa = io + 12;
    let mine = t.subrange(at, at + 8);
    assert(mine[0] == t[at] && mine[1] == t[at + 1] && mine[2] == t[at + 2] && mine[7] == t[at + 7]);
    lemma_digits_of(t, le_bytes(length as nat, 4), 4, 0, 4);
    lemma_digits_of(t, le_bytes(1, 4), 24, 0, 4);
    lemma_digits_of(t, le_bytes(0, 4), 32, 0, 4);
    lemma_digits_of(t, le_bytes(map.apic_start as nat, 8), 36, 0, 8);
    assert forall|k: int| 0 <= k < 4 implies #[trigger] t[at + 3 + k] == le_bytes(1, 4)[0 + k] by {
        assert(mine[3 + k] == t[at + (3 + k)]);
    }
    lemma_digits_of(t, le_bytes(1, 4), at + 3, 0, 4);
    lemma_digits_of(t, le_bytes(map.ioapic_start as u32 as nat, 4), io + 4, 0, 4);
    lemma_digits_of(t, le_bytes(0, 4), io + 8, 0, 4);
    lemma_digits_of(t, le_bytes(2, 4), isa + 4, 0, 4);
    lemma_digits_of(t, le_bytes(0, 2), isa + 8, 0, 2);
}

proof fn lemma_apics_len(n: nat)
    ensures
        local_apics(n).len() == 8 * n,
    decreases n,
{
    if n > 0 {
        lemma_apics_len((n - 1) as nat);
        law_bytes_add_up(1, 4);
    }
}

/// The description of a virtio device ends with where its registers are, how
/// many bytes they take, and its interrupt, which is consumed, edge-triggered,
/// active high and not shared.
#[verifier::spinoff_prover]
#[verifier::rlimit(60)]
pub proof fn law_virtio_told(name: Seq<char>, uid: u8, base: u64, size: u64, irq: u32)
    ensures
        ({
            let b = virtio_bytes(name, uid, base, size, irq);
            let n = b.len() as int;
            &&& n >= 25
            &&& b[0] == 0x5b && b[1] == 0x82
            &&& digits(b, n - 19, 4) == base % 0x1_0000_0000
            &&& digits(b, n - 15, 4) == size % 0x1_0000_0000
            &&& b[n - 8] == 3
            &&& b[n - 7] == 1
            &&& digits(b, n - 6, 4) == irq
            &&& b[n - 2] == 0x79 && b[n - 1] == 0
        }),
{
    let b = virtio_bytes(name, uid, base, size, irq);
    let n = b.len() as int;
    lemma_bits(base);
    lemma_bits(size);
    law_bytes_add_up(base as u32 as nat, 4);
    law_bytes_add_up(size as u32 as nat, 4);
    law_bytes_add_up(irq as nat, 4);
    let resources = crate::aml::fixed_memory(base as u32, size as u32) + crate::aml::interrupt(irq);
    assert(resources.len() == 21);
    lemma_template_end(resources);
    assert forall|i: int| 0 <= i < 21 implies #[trigger] b[n - 23 + i] == resources[i] by {}
    lemma_tail(b, resources, n - 23, 4, le_bytes(base as u32 as nat, 4), 4);
    lemma_tail(b, resources, n - 23, 8, le_bytes(size as u32 as nat, 4), 4);
    lemma_tail(b, resources, n - 23, 17, le_bytes(irq as nat, 4), 4);
    assert(b[n - 23 + 15] == resources[15] && b[n - 23 + 16] == resources[16]);
}

/// A list of resources ends with them and an end tag.
proof fn lemma_template_end(resources: Seq<u8>)
    ensures
        ({
            let t = template_bytes(resources);
            let n = t.len() as int;
            let m = resources.len() as int;
            &&& n >= m + 2
            &&& t[n - 2] == 0x79 && t[n - 1] == 0
            &&& forall|i: int| 0 <= i < m ==> #[trigger] t[n - 2 - m + i] == resources[i]
        }),
{
}

/// The description of a serial port ends with its interrupt and its eight
/// ports.
#[verifier::spinoff_prover]
#[verifier::rlimit(60)]
pub proof fn law_serial_told(name: Seq<char>, uid: u8, irq: u32, port: u16)
    ensures
        ({
            let b = serial_bytes(name, uid, irq, port);
            let n = b.len() as int;
            &&& n >= 21
            &&& b[0] == 0x5b && b[1] == 0x82
            &&& digits(b, n - 14, 4) == irq
            &&& digits(b, n - 8, 2) == port
            &&& digits(b, n - 6, 2) == port
            &&& b[n - 4] == 1 && b[n - 3] == 8
            &&& b[n - 2] == 0x79 && b[n - 1] == 0
        }),
{
    let b = serial_bytes(name, uid, irq, port);
    let n = b.len() as int;
    law_bytes_add_up(irq as nat, 4);
    law_bytes_add_up(port as nat, 2);
    let resources = crate::aml::interrupt(irq) + crate::aml::port_range(port, port, 1, 8);
    assert(resources.len() == 17);
    lemma_template_end(resources);
    assert forall|i: int| 0 <= i < 17 implies #[trigger] b[n - 19 + i] == resources[i] by {}
    lemma_tail(b, resources, n - 19, 5, le_bytes(irq as nat, 4), 4);
    lemma_tail(b, resources, n - 19, 11, le_bytes(port as nat, 2), 2);
    lemma_tail(b, resources, n - 19, 13, le_bytes(port as nat, 2), 2);
    assert(b[n - 19 + 15] == resources[15] && b[n - 19 + 16] == resources[16]);
}

/// The description of a PCI segment ends with its resources: all bus numbers,
/// the ports of the configuration address, the configuration space, and the
/// memory for 32-bit and for 64-bit devices, each by its first and last
/// address.
#[verifier::spinoff_prover]
#[verifier::rlimit(60)]
pub proof fn law_segment_told(s: PciSegment, map: MemoryLayout)
    ensures
        ({
            let b = segment_bytes(s, map);
            let n = b.len() as int;
            &&& n >= 132
            &&& b[0] == 0x5b && b[1] == 0x82
            &&& digits(b, n - 34, 8) == s.start_of_mem64_area
            &&& digits(b, n - 26, 8) == s.end_of_mem64_area
            &&& digits(b, n - 80, 8) == s.start_of_mem32_area
            &&& digits(b, n - 72, 8) == s.end_of_mem32_area
            &&& digits(b, n - 102, 4) == s.mmio_config_address % 0x1_0000_0000
            &&& digits(b, n - 98, 4) == map.pci_mmio_config_size_per_segment % 0x1_0000_0000
            &&& digits(b, n - 112, 2) == 0xcf8
            &&& digits(b, n - 110, 2) == 0xcf8
            &&& b[n - 108] == 1 && b[n - 107] == 8
            &&& digits(b, n - 122, 2) == 0
            &&& digits(b, n - 120, 2) == 0xff
        }),
{
    let b = segment_bytes(s, map);
    let n = b.len() as int;
    lemma_bits(s.mmio_config_address);
    lemma_bits(map.pci_mmio_config_size_per_segment);
    law_bytes_add_up(0, 2);
    law_bytes_add_up(0, 8);
    law_bytes_add_up(0xff, 2);
    law_bytes_add_up(0x100, 2);
    law_bytes_add_up(0xcf8, 2);
    law_bytes_add_up(s.mmio_config_address as u32 as nat, 4);
    law_bytes_add_up(map.pci_mmio_config_size_per_segment as u32 as nat, 4);
    law_bytes_add_up(s.start_of_mem32_area as nat, 8);
    law_bytes_add_up(s.end_of_mem32_area as nat, 8);
    law_bytes_add_up(s.start_of_mem64_area as nat, 8);
    law_bytes_add_up(s.end_of_mem64_area as nat, 8);
    crate::byte_order::lemma_le_bytes_len((s.end_of_mem32_area - s.start_of_mem32_area + 1) as nat, 8);
    crate::byte_order::lemma_le_bytes_len((s.end_of_mem64_area - s.start_of_mem64_area + 1) as nat, 8);
    let low = crate::aml::memory_range(s.start_of_mem32_area, s.end_of_mem32_area);
    let high = crate::aml::memory_range(s.start_of_mem64_area, s.end_of_mem64_area);
    let resources = crate::aml::bus_range(0, 0xff) + crate::aml::port_range(0xcf8, 0xcf8, 1, 8)
        + crate::aml::fixed_memory(
        s.mmio_config_address as u32,
        map.pci_mmio_config_size_per_segment as u32,
    ) + low + high;
    assert(low.len() == 46 && high.len() == 46);
    assert(resources.len() == 128);
    lemma_template_end(resources);
    assert forall|i: int| 0 <= i < 128 implies #[trigger] b[n - 130 + i] == resources[i] by {}
    lemma_tail(b, resources, n - 130, 96, le_bytes(s.start_of_mem64_area as nat, 8), 8);
    lemma_tail(b, resources, n - 130, 104, le_bytes(s.end_of_mem64_area as nat, 8), 8);
    lemma_tail(b, resources, n - 130, 50, le_bytes(s.start_of_mem32_area as nat, 8), 8);
    lemma_tail(b, resources, n - 130, 58, le_bytes(s.end_of_mem32_area as nat, 8), 8);
    lemma_tail(b, resources, n - 130, 28, le_bytes(s.mmio_config_address as u32 as nat, 4), 4);
    lemma_tail(b, resources, n - 130, 32, le_bytes(map.pci_mmio_config_size_per_segment as u32 as nat, 4), 4);
    lemma_tail(b, resources, n - 130, 18, le_bytes(0xcf8, 2), 2);
    lemma_tail(b, resources, n - 130, 20, le_bytes(0xcf8, 2), 2);
    lemma_tail(b, resources, n - 130, 8, le_bytes(0, 2), 2);
    lemma_tail(b, resources, n - 130, 10, le_bytes(0xff, 2), 2);
    assert(b[n - 130 + 22] == resources[22] && b[n - 130 + 23] == resources[23]);
}

proof fn lemma_tail(b: Seq<u8>, resources: Seq<u8>, from: int, at: int, bytes: Seq<u8>, n: nat)
    requires
        0 <= from,
        0 <= at,
        bytes.len() == n,
        at + n <= resources.len(),
        forall|i: int| 0 <= i < resources.len() ==> #[trigger] b[from + i] == resources[i],
        forall|i: int| 0 <= i < n ==> resources[at + i] == #[trigger] bytes[i],
    ensures
        digits(b, from + at, n) == digits(bytes, 0, n),
{
    assert forall|i: int| 0 <= i < n implies #[trigger] b[from + at + i] == bytes[0 + i] by {
        assert(b[from + (at + i)] == resources[at + i]);
        assert(resources[at + i] == bytes[i]);
    }
    lemma_digits_of(b, bytes, from + at, 0, n);
}

/// The description of a processor ends with a method that says that it is
/// there and works.
#[verifier::spinoff_prover]
#[verifier::rlimit(60)]
pub proof fn law_processor_told(id: u32)
    ensures
        ({
            let b = cpu_bytes(id);
            let n = b.len() as int;
            &&& n >= 5
            &&& b[0] == 0x5b && b[1] == 0x82
            &&& b[n - 3] == 0xa4 && b[n - 2] == 0x0a && b[n - 1] == 0x0f
        }),
{
}

/// The length of a package counts itself: it is what its bytes say, four bits
/// in the first and eight in each other, or six in a single one, and as many
/// bytes follow the first as its two highest bits say.
#[verifier::spinoff_prover]
#[verifier::rlimit(60)]
pub proof fn law_package_length(n: nat)
    requires
        n < 0xfff_fffc,
    ensures
        ({
            let p = package_length(n);
            &&& p.len() == 1 + p[0] / 64
            &&& p.len() == 1 ==> p[0] == n + 1
            &&& p.len() > 1 ==> p[0] % 16 + 16 * digits(p, 1, (p.len() - 1) as nat) == n + p.len()
        }),
{
    reveal_with_fuel(digits, 4);
}

/// The power management timer: 3579545 ticks a second, in four bytes.
pub proof fn law_timer_count(elapsed: int, offset: int, size: nat, i: int)
    requires
        elapsed >= 0,
        0 <= offset,
        0 <= i < size,
    ensures
        digits(pm_timer_read(elapsed, 0, 4), 0, 4) == (elapsed * 3_579_545 / 1_000_000_000) % 0x1_0000_0000,
        pm_timer_read(elapsed, offset, size).len() == size,
        pm_timer_read(elapsed, offset, size)[i] == (if offset + i < 4 {
            pm_timer_read(elapsed, 0, 4)[offset + i]
        } else {
            0
        }),
{
    let count = crate::device_manager::pm_timer_count(elapsed);
    law_bytes_add_up(count as nat, 4);
    lemma_digits_of(pm_timer_read(elapsed, 0, 4), le_bytes(count as nat, 4), 0, 0, 4);
}

/// Where the power management timer is: four ports from 0x608 on, read as 32
/// bits.
pub proof fn law_timer_place()
    ensures
        pm_timer_range().base == 0x608,
        pm_timer_range().len == 4,
        pm_timer_range().device == 0,
        pm_timer_address().address_space_id == 1,
        pm_timer_address().register_bit_width == 32,
        pm_timer_address().register_bit_offset == 0,
        pm_timer_address().access_size == 3,
        pm_timer_address().address == 0x608,
{
}

/// The devices and their lines: the interrupt controller and the configuration
/// space where the layout says; the block device, the entropy source and the
/// console one window after the other, with lines 20, 21 and 22.
pub proof fn law_devices_placed(map: MemoryLayout)
    ensures
        ioapic_entry(map).base == map.ioapic_start && ioapic_entry(map).size == map.ioapic_size,
        ioapic_entry(map).acpi is None,
        ecam_entry(map).base == map.pci_mmconfig_start && ecam_entry(map).size == map.pci_mmconfig_size,
        ecam_entry(map).acpi is None,
        ({
            let block = block_entry(map);
            let rng = rng_entry(map);
            let console = console_entry(map);
            let size = map.virtio_mmio_size_per_device;
            &&& block.base == map.virtio_mmio_start
            &&& rng.base == block.base + size
            &&& console.base == rng.base + size
            &&& block.size == size && rng.size == size && console.size == size
            &&& block.acpi matches Some(a) && a.irq == 20 && a.uid == 1 && a.name == "VBLK"@
            &&& rng.acpi matches Some(a) && a.irq == 21 && a.uid == 2 && a.name == "VRNG"@
            &&& console.acpi matches Some(a) && a.irq == 22 && a.uid == 3 && a.name == "VCON"@
            &&& block.handler == "virtio_block"@ && rng.handler == "virtio_rng"@ && console.handler
                == "virtio_console"@
        }),
{
}

/// The memory for devices: below four gigabytes what the layout sets aside, to
/// its last byte; above, from behind memory to the end of 46 bits.
pub proof fn law_segment_placed(total: u64, map: MemoryLayout)
    requires
        total < u64::MAX,
        0 < map.mem_32bit_devices_start + map.mem_32bit_devices_size <= u64::MAX,
    ensures
        ({
            let s = first_segment(total, map);
            &&& s.id == 0
            &&& s.mmio_config_address == map.pci_mmconfig_start
            &&& s.start_of_mem32_area == map.mem_32bit_devices_start
            &&& s.end_of_mem32_area + 1 == map.mem_32bit_devices_start + map.mem_32bit_devices_size
            &&& s.start_of_mem64_area == total + 1
            &&& s.end_of_mem64_area + 1 == 0x4000_0000_0000
        }),
{
}

/// A named value begins at `at`: a tag and four characters.
pub open spec fn names(b: Seq<u8>, at: int, c: u8, d: u8, e: u8) -> bool {
    b[at] == 8 && b[at + 1] == 0x5f && b[at + 2] == c && b[at + 3] == d && b[at + 4] == e
}

/// How many bytes a number below 256 takes.
pub open spec fn width(v: int) -> int {
    if v < 2 {
        1
    } else {
        2
    }
}

/// The description of a virtio device tells before its resources who it is: its
/// name, the text `LNRO0005`, and its number.
#[verifier::spinoff_prover]
#[verifier::rlimit(40)]
pub proof fn law_virtio_identified(name: Seq<char>, uid: u8, base: u64, size: u64, irq: u32, i: int)
    requires
        name.len() == 4,
        0 <= i < 4,
    ensures
        ({
            let b = virtio_bytes(name, uid, base, size, irq);
            let n = b.len() as int;
            let w = width(uid as int);
            &&& names(b, n - 32, 0x43, 0x52, 0x53)
            &&& b[n - 33] == uid
            &&& w == 2 ==> b[n - 34] == 0x0a
            &&& names(b, n - 37 - w, 0x55, 0x49, 0x44)
            &&& names(b, n - 52 - w, 0x48, 0x49, 0x44)
            &&& b[n - 47 - w] == 0x0d
            &&& b[n - 46 - w] == 0x4c && b[n - 45 - w] == 0x4e && b[n - 44 - w] == 0x52 && b[n - 43 - w] == 0x4f
            &&& b[n - 42 - w] == 0x30 && b[n - 41 - w] == 0x30 && b[n - 40 - w] == 0x30 && b[n - 39 - w] == 0x35
            &&& b[n - 38 - w] == 0
            &&& b[n - 56 - w + i] == name[i] as u8
            &&& b[n - 61 - w] == 0x2e && b[n - 60 - w] == 0x5f && b[n - 59 - w] == 0x53 && b[n - 58 - w] == 0x42
                && b[n - 57 - w] == 0x5f
        }),
{
    reveal_strlit("_SB_.");
    reveal_strlit("_HID");
    reveal_strlit("_UID");
    reveal_strlit("_CRS");
    reveal_strlit("LNRO0005");
    let w = width(uid as int);
    let path = "_SB_."@ + name;
    let resources = crate::aml::fixed_memory(base as u32, size as u32) + crate::aml::interrupt(irq);
    crate::byte_order::lemma_le_bytes_len(base as u32 as nat, 4);
    crate::byte_order::lemma_le_bytes_len(size as u32 as nat, 4);
    crate::byte_order::lemma_le_bytes_len(irq as nat, 4);
    assert(resources.len() == 21);
    let crs = crate::aml::named("_CRS"@, crate::aml::template_bytes(resources));
    let uid_part = crate::aml::named("_UID"@, crate::aml::integer_bytes(uid as u32));
    let hid = crate::aml::named(
        "_HID"@,
        seq![0x0du8] + crate::aml::ascii_bytes("LNRO0005"@) + seq![0u8],
    );
    assert(crs.len() == 32);
    assert(uid_part.len() == 5 + w);
    assert(hid.len() == 15);
    let p = crate::aml::path_bytes(path);
    assert(p.len() == 9);
    assert(p[5 + i] == name[i] as u8);
    let b = virtio_bytes(name, uid, base, size, irq);
    let n = b.len() as int;
    assert forall|j: int| 0 <= j < 32 implies #[trigger] b[n - 32 + j] == crs[j] by {}
    assert forall|j: int| 0 <= j < 5 + w implies #[trigger] b[n - 37 - w + j] == uid_part[j] by {}
    assert forall|j: int| 0 <= j < 15 implies #[trigger] b[n - 52 - w + j] == hid[j] by {}
    assert forall|j: int| 0 <= j < 9 implies #[trigger] b[n - 61 - w + j] == p[j] by {}
    assert(crs[0] == 8 && crs[1] == 0x5f && crs[2] == 0x43 && crs[3] == 0x52 && crs[4] == 0x53);
    assert(b[n - 32 + 0] == 8 && b[n - 32 + 1] == 0x5f && b[n - 32 + 2] == 0x43 && b[n - 32 + 3] == 0x52 && b[n
        - 32 + 4] == 0x53);
    assert(uid_part[4 + w] == uid);
    assert(b[n - 37 - w + (4 + w)] == uid);
    assert(w == 2 ==> uid_part[5] == 0x0a && b[n - 37 - w + 5] == 0x0a);
    assert(b[n - 37 - w + 0] == 8 && b[n - 37 - w + 1] == 0x5f && b[n - 37 - w + 2] == 0x55 && b[n - 37 - w + 3]
        == 0x49 && b[n - 37 - w + 4] == 0x44);
    assert(b[n - 52 - w + 0] == 8 && b[n - 52 - w + 1] == 0x5f && b[n - 52 - w + 2] == 0x48 && b[n - 52 - w + 3]
        == 0x49 && b[n - 52 - w + 4] == 0x44);
    assert(b[n - 52 - w + 5] == 0x0d && b[n - 52 - w + 14] == 0);
    assert(b[n - 52 - w + 6] == 0x4c && b[n - 52 - w + 7] == 0x4e && b[n - 52 - w + 8] == 0x52 && b[n - 52 - w
        + 9] == 0x4f);
    assert(b[n - 52 - w + 10] == 0x30 && b[n - 52 - w + 11] == 0x30 && b[n - 52 - w + 12] == 0x30 && b[n - 52
        - w + 13] == 0x35);
    assert(b[n - 61 - w + (5 + i)] == name[i] as u8);
    assert(b[n - 61 - w + 0] == 0x2e && b[n - 61 - w + 1] == 0x5f && b[n - 61 - w + 2] == 0x53 && b[n - 61 - w
        + 3] == 0x42 && b[n - 61 - w + 4] == 0x5f);
}

/// The description of a processor: its name with its number in two hexadecimal
/// digits, the text `ACPI0007`, and its number.
#[verifier::spinoff_prover]
#[verifier::rlimit(40)]
pub proof fn law_processor_identified(id: u32)
    requires
        id < 0x100,
    ensures
        ({
            let b = cpu_bytes(id);
            let w = width(id as int);
            &&& b[2] == 34 + w + 1
            &&& b[3] == 0x43 && b[4] == 0x50
            &&& 16 * digit_of(b[5] as char) + digit_of(b[6] as char) == id
            &&& 0 <= digit_of(b[6] as char) < 16
            &&& names(b, 7, 0x48, 0x49, 0x44)
            &&& b[12] == 0x0d
            &&& b[13] == 0x41 && b[14] == 0x43 && b[15] == 0x50 && b[16] == 0x49
            &&& b[17] == 0x30 && b[18] == 0x30 && b[19] == 0x30 && b[20] == 0x37
            &&& b[21] == 0
            &&& names(b, 22, 0x55, 0x49, 0x44)
            &&& w == 2 ==> b[27] == 0x0a
            &&& b[26 + w] == id
            &&& b[27 + w] == 0x14
            &&& b[29 + w] == 0x5f && b[30 + w] == 0x53 && b[31 + w] == 0x54 && b[32 + w] == 0x41
        }),
{
    reveal_strlit("CP");
    reveal_strlit("_HID");
    reveal_strlit("_UID");
    reveal_strlit("_STA");
    reveal_strlit("ACPI0007");
    let w = width(id as int);
    crate::cpu::lemma_hex_text(id as nat, 2);
    crate::laws::text::law_hexadecimal_digits(id as nat, 2);
    reveal_with_fuel(crate::laws::text::number, 3);
    reveal_with_fuel(crate::laws::text::pow16, 3);
    let h = crate::text::hex_text(id as nat, 2);
    assert(crate::laws::text::pow16(2) == 256);
    assert(id as int % 256 == id);
    assert(crate::laws::text::number(h, 16) == id);
    assert(h.drop_last().drop_last().len() == 0);
    assert(16 * digit_of(h[0]) + digit_of(h[1]) == id);
    assert(0 <= digit_of(h[0]) < 16 && 0 <= digit_of(h[1]) < 16);
    let path = crate::cpu::cpu_path(id);
    let p = crate::aml::path_bytes(path);
    assert(path.len() == 4);
    assert(p.len() == 4 && p[0] == 0x43 && p[1] == 0x50 && p[2] == h[0] as u8 && p[3] == h[1] as u8);
    let hid = crate::aml::named(
        "_HID"@,
        seq![0x0du8] + crate::aml::ascii_bytes("ACPI0007"@) + seq![0u8],
    );
    let uid_part = crate::aml::named("_UID"@, crate::aml::integer_bytes(id));
    let sta = crate::aml::constant_method("_STA"@, 0xf);
    assert(hid.len() == 15 && uid_part.len() == 5 + w && sta.len() == 10);
    let b = cpu_bytes(id);
    assert(b.len() == 37 + w);
    assert forall|j: int| 0 <= j < 4 implies #[trigger] b[3 + j] == p[j] by {}
    assert forall|j: int| 0 <= j < 15 implies #[trigger] b[7 + j] == hid[j] by {}
    assert forall|j: int| 0 <= j < 5 + w implies #[trigger] b[22 + j] == uid_part[j] by {}
    assert forall|j: int| 0 <= j < 10 implies #[trigger] b[27 + w + j] == sta[j] by {}
    assert(b[3int + 0] == 0x43 && b[3int + 1] == 0x50 && b[3int + 2] == h[0] as u8 && b[3int + 3] == h[1] as u8);
    assert(b[7int + 0] == 8 && b[7int + 1] == 0x5f && b[7int + 2] == 0x48 && b[7int + 3] == 0x49 && b[7int + 4] == 0x44);
    assert(b[7int + 5] == 0x0d && b[7int + 6] == 0x41 && b[7int + 7] == 0x43 && b[7int + 8] == 0x50 && b[7int + 9] == 0x49);
    assert(b[7int + 10] == 0x30 && b[7int + 11] == 0x30 && b[7int + 12] == 0x30 && b[7int + 13] == 0x37 && b[7int + 14] == 0);
    assert(b[22int + 0] == 8 && b[22int + 1] == 0x5f && b[22int + 2] == 0x55 && b[22int + 3] == 0x49 && b[22int + 4] == 0x44);
    assert(w == 2 ==> uid_part[5] == 0x0a && b[22int + 5] == 0x0a);
    assert(uid_part[4 + w] == id && b[22 + (4 + w)] == id);
    assert(b[27 + w + 0] == 0x14 && b[27 + w + 2] == 0x5f && b[27 + w + 3] == 0x53 && b[27 + w + 4] == 0x54 && b[27
        + w + 5] == 0x41);
}

/// The description of a serial port tells before its resources who it is: its
/// name, the identifier `PNP0501`, and its number.
#[verifier::spinoff_prover]
#[verifier::rlimit(40)]
pub proof fn law_serial_identified(name: Seq<char>, uid: u8, irq: u32, port: u16, i: int)
    requires
        name.len() == 4,
        0 <= i < 4,
    ensures
        ({
            let b = serial_bytes(name, uid, irq, port);
            let n = b.len() as int;
            let w = width(uid as int);
            &&& names(b, n - 28, 0x43, 0x52, 0x53)
            &&& b[n - 29] == uid
            &&& w == 2 ==> b[n - 30] == 0x0a
            &&& names(b, n - 33 - w, 0x55, 0x49, 0x44)
            &&& names(b, n - 43 - w, 0x48, 0x49, 0x44)
            &&& b[n - 38 - w] == 0x0c
            &&& b[n - 37 - w] == 0x41 && b[n - 36 - w] == 0xd0 && b[n - 35 - w] == 0x05 && b[n - 34 - w] == 0x01
            &&& b[n - 47 - w + i] == name[i] as u8
            &&& b[n - 52 - w] == 0x2e && b[n - 51 - w] == 0x5f && b[n - 50 - w] == 0x53 && b[n - 49 - w] == 0x42
                && b[n - 48 - w] == 0x5f
        }),
{
    reveal_strlit("_SB_.");
    reveal_strlit("_HID");
    reveal_strlit("_UID");
    reveal_strlit("_CRS");
    reveal_strlit("PNP0501");
    let w = width(uid as int);
    let path = "_SB_."@ + name;
    let resources = crate::aml::interrupt(irq) + crate::aml::port_range(port, port, 1, 8);
    crate::byte_order::lemma_le_bytes_len(port as nat, 2);
    crate::byte_order::lemma_le_bytes_len(irq as nat, 4);
    assert(resources.len() == 17);
    let crs = crate::aml::named("_CRS"@, crate::aml::template_bytes(resources));
    let uid_part = crate::aml::named("_UID"@, crate::aml::integer_bytes(uid as u32));
    lemma_serial_identifier();
    let hid = crate::aml::named("_HID"@, crate::aml::integer_bytes(crate::aml::eisa_id("PNP0501"@)));
    assert(crs.len() == 28);
    assert(uid_part.len() == 5 + w);
    assert(hid.len() == 10);
    let p = crate::aml::path_bytes(path);
    assert(p.len() == 9);
    assert(p[5 + i] == name[i] as u8);
    let b = serial_bytes(name, uid, irq, port);
    let n = b.len() as int;
    assert forall|j: int| 0 <= j < 28 implies #[trigger] b[n - 28 + j] == crs[j] by {}
    assert forall|j: int| 0 <= j < 5 + w implies #[trigger] b[n - 33 - w + j] == uid_part[j] by {}
    assert forall|j: int| 0 <= j < 10 implies #[trigger] b[n - 43 - w + j] == hid[j] by {}
    assert forall|j: int| 0 <= j < 9 implies #[trigger] b[n - 52 - w + j] == p[j] by {}
    assert(b[n - 28 + 0] == 8 && b[n - 28 + 1] == 0x5f && b[n - 28 + 2] == 0x43 && b[n - 28 + 3] == 0x52 && b[n
        - 28 + 4] == 0x53);
    assert(uid_part[4 + w] == uid && b[n - 33 - w + (4 + w)] == uid);
    assert(w == 2 ==> uid_part[5] == 0x0a && b[n - 33 - w + 5] == 0x0a);
    assert(b[n - 33 - w + 0] == 8 && b[n - 33 - w + 1] == 0x5f && b[n - 33 - w + 2] == 0x55 && b[n - 33 - w + 3]
        == 0x49 && b[n - 33 - w + 4] == 0x44);
    assert(b[n - 43 - w + 0] == 8 && b[n - 43 - w + 1] == 0x5f && b[n - 43 - w + 2] == 0x48 && b[n - 43 - w + 3]
        == 0x49 && b[n - 43 - w + 4] == 0x44);
    assert(b[n - 43 - w + 5] == 0x0c && b[n - 43 - w + 6] == 0x41 && b[n - 43 - w + 7] == 0xd0 && b[n - 43 - w
        + 8] == 0x05 && b[n - 43 - w + 9] == 0x01);
    assert(b[n - 52 - w + (5 + i)] == name[i] as u8);
    assert(b[n - 52 - w + 0] == 0x2e && b[n - 52 - w + 1] == 0x5f && b[n - 52 - w + 2] == 0x53 && b[n - 52 - w
        + 3] == 0x42 && b[n - 52 - w + 4] == 0x5f);
}

proof fn lemma_serial_identifier()
    ensures
        crate::aml::integer_bytes(crate::aml::eisa_id("PNP0501"@)) == seq![0x0cu8, 0x41u8, 0xd0u8, 0x05u8, 0x01u8],
{
    reveal_strlit("PNP0501");
    let id = "PNP0501"@;
    let v: nat = 0x41d0_0501;
    reveal_with_fuel(le_bytes, 5);
    assert(le_bytes(v, 4) =~= seq![0x01u8, 0x05u8, 0xd0u8, 0x41u8]);
    assert(le_bytes(v, 4).reverse() =~= seq![0x41u8, 0xd0u8, 0x05u8, 0x01u8]);
    let s = seq![0x41u8, 0xd0u8, 0x05u8, 0x01u8];
    crate::laws::memory::lemma_digits(s, 0, 4);
    assert(s.subrange(0, 4) =~= s);
    reveal_with_fuel(digits, 5);
    assert(digits(s, 0, 4) == 0x0105_d041);
    assert(crate::aml::eisa_id(id) == 0x0105_d041);
    assert(le_bytes(0x0105_d041, 4) =~= s);
}

/// What the operations that describe the machine give.
pub proof fn law_descriptions(
    cpu: &Cpu,
    c: Vec<u8>,
    virtio: &VirtioMmioDevice,
    v: Vec<u8>,
    serial: &SerialDevice,
    s: Vec<u8>,
    elapsed: u128,
    t: Vec<u8>,
)
    requires
        cpu.id < 0x100,
        virtio.name@.len() == 4,
        serial.name@.len() == 4,
        call_ensures(Cpu::to_aml_bytes, (cpu,), c),
        call_ensures(VirtioMmioDevice::to_aml_bytes, (virtio,), v),
        call_ensures(SerialDevice::to_aml_bytes, (serial,), s),
        call_ensures(pm_timer_bytes, (elapsed, 0u64, 4usize), t),
    ensures
        c@[26 + width(cpu.id as int)] == cpu.id,
        v@[v@.len() - 33] == virtio.uid,
        digits(v@, v@.len() - 19, 4) == virtio.base_address % 0x1_0000_0000,
        digits(v@, v@.len() - 15, 4) == virtio.size % 0x1_0000_0000,
        digits(v@, v@.len() - 6, 4) == virtio.irq,
        s@[s@.len() - 29] == serial.uid,
        digits(s@, s@.len() - 14, 4) == serial.irq,
        digits(s@, s@.len() - 8, 2) == serial.port,
        digits(s@, s@.len() - 6, 2) == serial.port,
        digits(t@, 0, 4) == (elapsed as int * 3_579_545 / 1_000_000_000) % 0x1_0000_0000,
{
    law_processor_identified(cpu.id);
    law_virtio_identified(virtio.name@, virtio.uid, virtio.base_address, virtio.size, virtio.irq, 0);
    law_virtio_told(virtio.name@, virtio.uid, virtio.base_address, virtio.size, virtio.irq);
    law_serial_identified(serial.name@, serial.uid, serial.irq, serial.port, 0);
    law_serial_told(serial.name@, serial.uid, serial.irq, serial.port);
    law_timer_count(elapsed as int, 0, 4, 0);
}

} // verus!
