//! The devices of the machine, and how the guest learns of them.

use vstd::prelude::*;

use crate::aml::{
    ascii_bytes, bus_range, device_bytes, device_to_aml_bytes, eisa_id, fixed_memory, integer_bytes, interrupt,
    io_port_address, is_ascii, memory_range, name_bytes, name_eisa_id, name_integer, name_memory_resources,
    name_package, name_port_resources, name_root_resources, name_text, name_to_aml_bytes, named, names_bytes,
    package_bytes, port_range, template_bytes, valid_eisa_id, valid_path, GenericAddress,
};
use crate::byte_order::{
    encode_le, law_le_value_of_bytes, le_bytes, le_value, lemma_le_bytes_len, lemma_pow256_values,
};
use crate::cpu::lemma_hex_text;
use crate::devices::bus::{Bus, BusRange};
use crate::emulator::handler_from;
use crate::memory::layout::MemoryLayout;
use crate::memory::memory::{GuestAddress, MmioRegion};
use crate::partition::{mmio_registered, Partition, PartitionError};
use crate::text::{hex, hex_text};

verus! {

/// The interrupt line of the block device.
pub const VIRTIO_BLOCK_IRQ: u32 = 20;

/// The interrupt line of the entropy device.
pub const VIRTIO_RNG_IRQ: u32 = 21;

/// The interrupt line of the console.
pub const VIRTIO_CONSOLE_IRQ: u32 = 22;

/// The port of the power management timer.
pub const PM_TIMER_PORT: u16 = 0x608;

/// The number of the power management timer on the port bus.
pub const PM_TIMER_DEVICE: u32 = 0;

/// How often the power management timer ticks in a second.
pub const PM_TIMER_FREQUENCY_HZ: u128 = 3_579_545;

/// The last address of memory for 64-bit devices.
pub const END_OF_MEM64_AREA: u64 = 0x3fff_ffff_ffff;

/// Answers reads of the PCI configuration space where no device is present.
#[derive(Clone, Copy, Debug, PartialEq, Eq, Structural)]
pub struct PciEcamHandler;

impl PciEcamHandler {
    /// Every byte reads as ones.
    pub fn read(&self, data: &mut [u8])
        ensures
            final(data)@ == Seq::new(old(data)@.len(), |i: int| 0xFFu8),
    {
        let mut i: usize = 0;
        while i < data.len()
            invariant
                i <= data@.len(),
                data@.len() == old(data)@.len(),
                forall|j: int| 0 <= j < i ==> data@[j] == 0xFF,
            decreases data@.len() - i,
        {
            data[i] = 0xFF;
            i += 1;
        }
        assert(data@ =~= Seq::new(old(data)@.len(), |i: int| 0xFFu8));
    }
}

/// A PCI segment and the memory set aside for its devices.
#[derive(Clone, Copy, Debug, PartialEq, Eq, Structural)]
pub struct PciSegment {
    pub id: u16,
    pub mmio_config_address: u64,
    pub start_of_mem32_area: u64,
    pub end_of_mem32_area: u64,
    pub start_of_mem64_area: u64,
    pub end_of_mem64_area: u64,
}

/// The description of a PCI segment.
pub open spec fn segment_bytes(s: PciSegment, map: MemoryLayout) -> Seq<u8> {
    let resources = bus_range(0, 0xff) + port_range(0xcf8, 0xcf8, 1, 8) + fixed_memory(
        s.mmio_config_address as u32,
        map.pci_mmio_config_size_per_segment as u32,
    ) + memory_range(s.start_of_mem32_area, s.end_of_mem32_area) + memory_range(
        s.start_of_mem64_area,
        s.end_of_mem64_area,
    );
    device_bytes(
        "PC"@ + hex_text(s.id as nat, 2),
        named("_HID"@, integer_bytes(eisa_id("PNP0A08"@))) + named(
            "_CID"@,
            integer_bytes(eisa_id("PNP0A03"@)),
        ) + named("_SEG"@, integer_bytes(s.id as u32)) + named("_UID"@, integer_bytes(s.id as u32))
            + named("_BBN"@, integer_bytes(0)) + named("_CRS"@, template_bytes(resources)),
    )
}

impl PciSegment {
    pub fn get_id(&self) -> (r: u16)
        ensures
            r == self.id,
    {
        self.id
    }

    pub fn get_mmio_config_address(&self) -> (r: u64)
        ensures
            r == self.mmio_config_address,
    {
        self.mmio_config_address
    }

    pub fn get_start_of_mem32_area(&self) -> (r: u64)
        ensures
            r == self.start_of_mem32_area,
    {
        self.start_of_mem32_area
    }

    pub fn get_end_of_mem32_area(&self) -> (r: u64)
        ensures
            r == self.end_of_mem32_area,
    {
        self.end_of_mem32_area
    }

    pub fn get_start_of_mem64_area(&self) -> (r: u64)
        ensures
            r == self.start_of_mem64_area,
    {
        self.start_of_mem64_area
    }

    /// A segment that can be described: its number has two digits, and its
    /// memory ranges are not empty and do not span everything.
    pub open spec fn describable(self) -> bool {
        &&& self.id < 0x100
        &&& self.start_of_mem32_area <= self.end_of_mem32_area
        &&& self.end_of_mem32_area - self.start_of_mem32_area < u64::MAX
        &&& self.start_of_mem64_area <= self.end_of_mem64_area
        &&& self.end_of_mem64_area - self.start_of_mem64_area < u64::MAX
    }

    /// The description of the segment.
    pub fn to_aml_bytes(&self, map: &MemoryLayout) -> (r: Vec<u8>)
        requires
            self.describable(),
        ensures
            r@ == segment_bytes(*self, *map),
    {
        proof {
            reveal_strlit("PC");
            reveal_strlit("_HID");
            reveal_strlit("_CID");
            reveal_strlit("_SEG");
            reveal_strlit("_UID");
            reveal_strlit("_BBN");
            reveal_strlit("_CRS");
            reveal_strlit("PNP0A08");
            reveal_strlit("PNP0A03");
            lemma_hex_text(self.id as nat, 2);
            assert(valid_path("PC"@ + hex_text(self.id as nat, 2)));
            assert(valid_path("_HID"@) && valid_path("_CID"@) && valid_path("_SEG"@));
            assert(valid_path("_UID"@) && valid_path("_BBN"@) && valid_path("_CRS"@));
            assert(valid_eisa_id("PNP0A08"@) && valid_eisa_id("PNP0A03"@));
        }
        let mut names = Vec::new();
        names.push(name_eisa_id("_HID", "PNP0A08"));
        names.push(name_eisa_id("_CID", "PNP0A03"));
        names.push(name_integer("_SEG", self.id as u32));
        names.push(name_integer("_UID", self.id as u32));
        names.push(name_integer("_BBN", 0));
        names.push(
            name_root_resources(
                "_CRS",
                (0, 0xff),
                (0xcf8, 0xcf8, 1, 8),
                (self.mmio_config_address as u32, map.pci_mmio_config_size_per_segment as u32),
                (self.start_of_mem32_area, self.end_of_mem32_area),
                (self.start_of_mem64_area, self.end_of_mem64_area),
            ),
        );
        proof {
            lemma_six_names(names@);
        }
        let path = "PC".to_owned().concat(hex(self.id as u64, 2).as_str());
        device_to_aml_bytes(path.as_str(), &names)
    }
}

proof fn lemma_six_names(names: Seq<acpi_tables::aml::Name>)
    requires
        names.len() == 6,
    ensures
        names_bytes(names) == name_bytes(names[0]) + name_bytes(names[1]) + name_bytes(names[2])
            + name_bytes(names[3]) + name_bytes(names[4]) + name_bytes(names[5]),
{
    let five = names.drop_last();
    let four = five.drop_last();
    lemma_three_names(four.drop_last());
    assert(names_bytes(four) == names_bytes(four.drop_last()) + name_bytes(names[3]));
    assert(names_bytes(five) == names_bytes(four) + name_bytes(names[4]));
    assert(names_bytes(names) == names_bytes(five) + name_bytes(names[5]));
}

proof fn lemma_three_names(names: Seq<acpi_tables::aml::Name>)
    requires
        names.len() == 3,
    ensures
        names_bytes(names) == name_bytes(names[0]) + name_bytes(names[1]) + name_bytes(names[2]),
{
    let two = names.drop_last();
    let one = two.drop_last();
    let none = one.drop_last();
    assert(names_bytes(none) == Seq::<u8>::empty());
    assert(names_bytes(one) == names_bytes(none) + name_bytes(names[0]));
    assert(names_bytes(one) =~= name_bytes(names[0]));
    assert(names_bytes(two) == names_bytes(one) + name_bytes(names[1]));
    assert(names_bytes(names) == names_bytes(two) + name_bytes(names[2]));
}

/// A serial port.
#[derive(Debug)]
pub struct SerialDevice {
    pub name: String,
    pub uid: u8,
    pub irq: u32,
    pub port: u16,
}

/// The description of a serial port.
pub open spec fn serial_bytes(name: Seq<char>, uid: u8, irq: u32, port: u16) -> Seq<u8> {
    device_bytes(
        "_SB_."@ + name,
        named("_HID"@, integer_bytes(eisa_id("PNP0501"@))) + named("_UID"@, integer_bytes(uid as u32))
            + named("_CRS"@, template_bytes(interrupt(irq) + port_range(port, port, 1, 8))),
    )
}

impl SerialDevice {
    /// The description of the port.
    pub fn to_aml_bytes(&self) -> (r: Vec<u8>)
        requires
            valid_path("_SB_."@ + self.name@),
        ensures
            r@ == serial_bytes(self.name@, self.uid, self.irq, self.port),
    {
        proof {
            reveal_strlit("_HID");
            reveal_strlit("_UID");
            reveal_strlit("_CRS");
            reveal_strlit("PNP0501");
            assert(valid_path("_HID"@) && valid_path("_UID"@) && valid_path("_CRS"@));
            assert(valid_eisa_id("PNP0501"@));
        }
        let mut names = Vec::new();
        names.push(name_eisa_id("_HID", "PNP0501"));
        names.push(name_integer("_UID", self.uid as u32));
        names.push(name_port_resources("_CRS", self.irq, (self.port, self.port, 1, 8)));
        proof {
            lemma_three_names(names@);
        }
        let path = "_SB_.".to_owned().concat(self.name.as_str());
        device_to_aml_bytes(path.as_str(), &names)
    }
}

/// A virtio device with memory-mapped registers.
#[derive(Debug)]
pub struct VirtioMmioDevice {
    pub name: String,
    pub uid: u8,
    pub base_address: u64,
    pub size: u64,
    pub irq: u32,
}

/// The description of a virtio device.
pub open spec fn virtio_bytes(name: Seq<char>, uid: u8, base: u64, size: u64, irq: u32) -> Seq<u8> {
    device_bytes(
        "_SB_."@ + name,
        named("_HID"@, seq![0x0du8] + ascii_bytes("LNRO0005"@) + seq![0u8]) + named(
            "_UID"@,
            integer_bytes(uid as u32),
        ) + named(
            "_CRS"@,
            template_bytes(fixed_memory(base as u32, size as u32) + interrupt(irq)),
        ),
    )
}

impl VirtioMmioDevice {
    /// The description of the device.
    pub fn to_aml_bytes(&self) -> (r: Vec<u8>)
        requires
            valid_path("_SB_."@ + self.name@),
        ensures
            r@ == virtio_bytes(self.name@, self.uid, self.base_address, self.size, self.irq),
    {
        proof {
            reveal_strlit("_HID");
            reveal_strlit("_UID");
            reveal_strlit("_CRS");
            reveal_strlit("LNRO0005");
            assert(valid_path("_HID"@) && valid_path("_UID"@) && valid_path("_CRS"@));
            assert(is_ascii("LNRO0005"@));
        }
        let mut names = Vec::new();
        names.push(name_text("_HID", "LNRO0005".to_owned()));
        names.push(name_integer("_UID", self.uid as u32));
        names.push(
            name_memory_resources("_CRS", (self.base_address as u32, self.size as u32), self.irq),
        );
        proof {
            lemma_three_names(names@);
        }
        let path = "_SB_.".to_owned().concat(self.name.as_str());
        device_to_aml_bytes(path.as_str(), &names)
    }
}

/// Where the registers of the platform are.
#[derive(Clone, Copy, Debug, PartialEq, Eq, Structural)]
pub struct AcpiPlatformAddresses {
    pub pm_timer_address: Option<GenericAddress>,
}

/// The devices of the machine.
#[derive(Debug)]
pub struct DeviceManager {
    pub io_bus: Bus,
    pub pci_segments: Vec<PciSegment>,
    pub serial_devices: Vec<SerialDevice>,
    pub virtio_mmio_devices: Vec<VirtioMmioDevice>,
    pub acpi_platform_addresses: AcpiPlatformAddresses,
}

/// The descriptions of several segments.
pub open spec fn segments_bytes(segments: Seq<PciSegment>, map: MemoryLayout) -> Seq<u8>
    decreases segments.len(),
{
    if segments.len() == 0 {
        Seq::empty()
    } else {
        segments_bytes(segments.drop_last(), map) + segment_bytes(segments.last(), map)
    }
}

/// The descriptions of several serial ports.
pub open spec fn serials_bytes(devices: Seq<SerialDevice>) -> Seq<u8>
    decreases devices.len(),
{
    if devices.len() == 0 {
        Seq::empty()
    } else {
        let d = devices.last();
        serials_bytes(devices.drop_last()) + serial_bytes(d.name@, d.uid, d.irq, d.port)
    }
}

/// The descriptions of several virtio devices.
pub open spec fn virtios_bytes(devices: Seq<VirtioMmioDevice>) -> Seq<u8>
    decreases devices.len(),
{
    if devices.len() == 0 {
        Seq::empty()
    } else {
        let d = devices.last();
        virtios_bytes(devices.drop_last()) + virtio_bytes(d.name@, d.uid, d.base_address, d.size, d.irq)
    }
}

/// The segment of a machine whose memory ends at `total`.
pub open spec fn first_segment(total: u64, map: MemoryLayout) -> PciSegment {
    PciSegment {
        id: 0,
        mmio_config_address: map.pci_mmconfig_start,
        start_of_mem32_area: map.mem_32bit_devices_start,
        end_of_mem32_area: (map.mem_32bit_devices_start + map.mem_32bit_devices_size - 1) as u64,
        start_of_mem64_area: (total + 1) as u64,
        end_of_mem64_area: END_OF_MEM64_AREA,
    }
}

/// The range of the power management timer on the port bus.
pub open spec fn pm_timer_range() -> BusRange {
    BusRange { base: PM_TIMER_PORT as u64, len: 4, device: PM_TIMER_DEVICE }
}

/// Where the power management timer is read: a 32-bit port.
pub open spec fn pm_timer_address() -> GenericAddress {
    GenericAddress {
        address_space_id: 1,
        register_bit_width: 32,
        register_bit_offset: 0,
        access_size: 3,
        address: PM_TIMER_PORT as u64,
    }
}

/// The count of the power management timer after so many nanoseconds: whole
/// ticks, modulo 2^32.
pub open spec fn pm_timer_count(elapsed_nanos: int) -> int {
    elapsed_nanos * PM_TIMER_FREQUENCY_HZ / 1_000_000_000 % 0x1_0000_0000
}

/// What a read of `size` bytes, `offset` bytes into the power management timer,
/// gives: the bytes of its count, the lowest first, and zeros after them.
pub open spec fn pm_timer_read(elapsed_nanos: int, offset: int, size: nat) -> Seq<u8> {
    Seq::new(
        size,
        |i: int|
            if offset + i < 4 {
                le_bytes(pm_timer_count(elapsed_nanos) as nat, 4)[offset + i]
            } else {
                0u8
            },
    )
}

/// Reads the power management timer of a machine that has been running for so
/// many nanoseconds.
pub fn pm_timer_bytes(elapsed_nanos: u128, offset: u64, size: usize) -> (r: Vec<u8>)
    ensures
        r@ == pm_timer_read(elapsed_nanos as int, offset as int, size as nat),
{
    let seconds: u128 = elapsed_nanos / 1_000_000_000;
    let rest: u128 = elapsed_nanos % 1_000_000_000;
    let ticks: u128 = seconds * PM_TIMER_FREQUENCY_HZ + rest * PM_TIMER_FREQUENCY_HZ / 1_000_000_000;
    assert(ticks == elapsed_nanos * PM_TIMER_FREQUENCY_HZ / 1_000_000_000);
    let count: u64 = (ticks % 0x1_0000_0000) as u64;
    let value = encode_le(count, 4);
    proof {
        lemma_le_bytes_len(count as nat, 4);
    }
    let mut data: Vec<u8> = Vec::new();
    let mut i: usize = 0;
    while i < size
        invariant
            i <= size,
            value@ == le_bytes(pm_timer_count(elapsed_nanos as int) as nat, 4),
            value@.len() == 4,
            data@ == pm_timer_read(elapsed_nanos as int, offset as int, i as nat),
        decreases size - i,
    {
        if offset < 4 && i < 4 - offset as usize {
            data.push(value[offset as usize + i]);
        } else {
            data.push(0);
        }
        i += 1;
        assert(data@ =~= pm_timer_read(elapsed_nanos as int, offset as int, i as nat));
    }
    data
}

proof fn lemma_pm_timer_bytes(elapsed_nanos: int)
    requires
        elapsed_nanos >= 0,
    ensures
        le_value(pm_timer_read(elapsed_nanos, 0, 4)) == pm_timer_count(elapsed_nanos),
{
    let bytes = le_bytes(pm_timer_count(elapsed_nanos) as nat, 4);
    lemma_pow256_values();
    lemma_le_bytes_len(pm_timer_count(elapsed_nanos) as nat, 4);
    law_le_value_of_bytes(pm_timer_count(elapsed_nanos) as nat, 4);
    assert(pm_timer_read(elapsed_nanos, 0, 4) =~= bytes);
}

/// The power management timer counts up: until it wraps, a later read of all
/// four bytes gives no smaller number, and after one second it is larger by the
/// frequency.
pub proof fn law_pm_timer_counts_up(earlier: int, later: int)
    requires
        0 <= earlier <= later,
        later * PM_TIMER_FREQUENCY_HZ / 1_000_000_000 < 0x1_0000_0000,
    ensures
        le_value(pm_timer_read(earlier, 0, 4)) <= le_value(pm_timer_read(later, 0, 4)),
        later == earlier + 1_000_000_000 ==> le_value(pm_timer_read(later, 0, 4)) == le_value(
            pm_timer_read(earlier, 0, 4),
        ) + PM_TIMER_FREQUENCY_HZ,
{
    lemma_pm_timer_bytes(earlier);
    lemma_pm_timer_bytes(later);
}

impl DeviceManager {
    /// The range of the power management timer is free.
    pub open spec fn pm_timer_free(self) -> bool {
        forall|i: int|
            0 <= i < self.io_bus.ranges@.len() ==> pm_timer_range().apart(
                #[trigger] self.io_bus.ranges@[i],
            )
    }

    /// The devices of a machine whose memory ends at `total_memory_gpa`.
    pub fn new(total_memory_gpa: GuestAddress, map: &MemoryLayout) -> (r: Self)
        requires
            total_memory_gpa.0 < u64::MAX,
            0 < map.mem_32bit_devices_start + map.mem_32bit_devices_size <= u64::MAX,
        ensures
            r.io_bus.wf(),
            r.io_bus.ranges@.len() == 0,
            r.pci_segments@ == seq![first_segment(total_memory_gpa.0, *map)],
            r.serial_devices@.len() == 0,
            r.virtio_mmio_devices@.len() == 0,
            r.acpi_platform_addresses.pm_timer_address is None,
    {
        let segment = PciSegment {
            id: 0,
            mmio_config_address: map.pci_mmconfig_start,
            start_of_mem32_area: map.mem_32bit_devices_start,
            end_of_mem32_area: map.mem_32bit_devices_start + map.mem_32bit_devices_size - 1,
            start_of_mem64_area: total_memory_gpa.0 + 1,
            end_of_mem64_area: END_OF_MEM64_AREA,
        };
        DeviceManager {
            io_bus: Bus::new(),
            pci_segments: vec![segment],
            serial_devices: Vec::new(),
            virtio_mmio_devices: Vec::new(),
            acpi_platform_addresses: AcpiPlatformAddresses { pm_timer_address: None },
        }
    }

    /// Adds the devices of the platform.
    pub fn init(&mut self)
        requires
            old(self).io_bus.wf(),
        ensures
            final(self).with_pm_timer(*old(self)),
    {
        self.add_acpi_platform_device();
    }

    /// The manager `before` with the power management timer added: the timer is
    /// on the port bus if its range was free, and its address is known.
    pub open spec fn with_pm_timer(self, before: Self) -> bool {
        &&& self.io_bus.wf()
        &&& self.io_bus.ranges@ == (if before.pm_timer_free() {
            before.io_bus.ranges@.push(pm_timer_range())
        } else {
            before.io_bus.ranges@
        })
        &&& self.pci_segments == before.pci_segments
        &&& self.serial_devices == before.serial_devices
        &&& self.virtio_mmio_devices == before.virtio_mmio_devices
        &&& self.acpi_platform_addresses.pm_timer_address == Some(pm_timer_address())
    }

    pub fn acpi_platform_addresses(&self) -> (r: &AcpiPlatformAddresses)
        ensures
            *r == self.acpi_platform_addresses,
    {
        &self.acpi_platform_addresses
    }

    /// The bus that port accesses are sent to.
    pub fn io_bus(&self) -> (r: &Bus)
        ensures
            *r == self.io_bus,
    {
        &self.io_bus
    }

    pub fn pci_segments(&self) -> (r: &[PciSegment])
        ensures
            r@ == self.pci_segments@,
    {
        self.pci_segments.as_slice()
    }

    /// Records a virtio device, so that the guest is told of it.
    pub fn register_virtio_mmio(
        &mut self,
        name: String,
        uid: u8,
        base_address: u64,
        size: u64,
        irq: u32,
    )
        ensures
            final(self).io_bus == old(self).io_bus,
            final(self).pci_segments == old(self).pci_segments,
            final(self).serial_devices == old(self).serial_devices,
            final(self).acpi_platform_addresses == old(self).acpi_platform_addresses,
            final(self).virtio_mmio_devices@ == old(self).virtio_mmio_devices@.push(
                (VirtioMmioDevice { name, uid, base_address, size, irq }),
            ),
    {
        self.virtio_mmio_devices.push(VirtioMmioDevice { name, uid, base_address, size, irq });
    }

    fn add_acpi_platform_device(&mut self)
        requires
            old(self).io_bus.wf(),
        ensures
            final(self).with_pm_timer(*old(self)),
    {
        let _ = self.io_bus.insert(PM_TIMER_DEVICE, PM_TIMER_PORT as u64, 4);
        self.acpi_platform_addresses.pm_timer_address = Some(io_port_address(PM_TIMER_PORT));
    }

    /// Every device can be described.
    pub open spec fn describable(self) -> bool {
        &&& forall|i: int|
            0 <= i < self.pci_segments@.len() ==> (#[trigger] self.pci_segments@[i]).describable()
        &&& forall|i: int|
            0 <= i < self.serial_devices@.len() ==> valid_path(
                "_SB_."@ + (#[trigger] self.serial_devices@[i]).name@,
            )
        &&& forall|i: int|
            0 <= i < self.virtio_mmio_devices@.len() ==> valid_path(
                "_SB_."@ + (#[trigger] self.virtio_mmio_devices@[i]).name@,
            )
    }

    /// The descriptions of all devices, and of how the machine is switched off.
    pub fn to_aml_bytes(&self, map: &MemoryLayout) -> (r: Vec<u8>)
        requires
            self.describable(),
        ensures
            r@ == segments_bytes(self.pci_segments@, *map) + serials_bytes(self.serial_devices@)
                + virtios_bytes(self.virtio_mmio_devices@) + named("_S5_"@, package_bytes(5)),
    {
        let mut r: Vec<u8> = Vec::new();
        let mut i: usize = 0;
        assert(self.pci_segments@.subrange(0, 0) =~= Seq::<PciSegment>::empty());
        while i < self.pci_segments.len()
            invariant
                self.describable(),
                i <= self.pci_segments@.len(),
                r@ == segments_bytes(self.pci_segments@.subrange(0, i as int), *map),
            decreases self.pci_segments@.len() - i,
        {
            let mut bytes = self.pci_segments[i].to_aml_bytes(map);
            r.append(&mut bytes);
            proof {
                let s = self.pci_segments@.subrange(0, i + 1);
                assert(s.drop_last() =~= self.pci_segments@.subrange(0, i as int));
                assert(s.last() == self.pci_segments@[i as int]);
            }
            i += 1;
        }
        assert(self.pci_segments@.subrange(0, i as int) =~= self.pci_segments@);
        let ghost segments = r@;
        i = 0;
        assert(self.serial_devices@.subrange(0, 0) =~= Seq::<SerialDevice>::empty());
        while i < self.serial_devices.len()
            invariant
                self.describable(),
                i <= self.serial_devices@.len(),
                r@ == segments + serials_bytes(self.serial_devices@.subrange(0, i as int)),
            decreases self.serial_devices@.len() - i,
        {
            let mut bytes = self.serial_devices[i].to_aml_bytes();
            r.append(&mut bytes);
            proof {
                let s = self.serial_devices@.subrange(0, i + 1);
                assert(s.drop_last() =~= self.serial_devices@.subrange(0, i as int));
                assert(s.last() == self.serial_devices@[i as int]);
                assert(r@ =~= segments + serials_bytes(s));
            }
            i += 1;
        }
        assert(self.serial_devices@.subrange(0, i as int) =~= self.serial_devices@);
        let ghost serials = r@;
        i = 0;
        assert(self.virtio_mmio_devices@.subrange(0, 0) =~= Seq::<VirtioMmioDevice>::empty());
        while i < self.virtio_mmio_devices.len()
            invariant
                self.describable(),
                i <= self.virtio_mmio_devices@.len(),
                r@ == serials + virtios_bytes(self.virtio_mmio_devices@.subrange(0, i as int)),
            decreases self.virtio_mmio_devices@.len() - i,
        {
            let mut bytes = self.virtio_mmio_devices[i].to_aml_bytes();
            r.append(&mut bytes);
            proof {
                let s = self.virtio_mmio_devices@.subrange(0, i + 1);
                assert(s.drop_last() =~= self.virtio_mmio_devices@.subrange(0, i as int));
                assert(s.last() == self.virtio_mmio_devices@[i as int]);
                assert(r@ =~= serials + virtios_bytes(s));
            }
            i += 1;
        }
        assert(self.virtio_mmio_devices@.subrange(0, i as int) =~= self.virtio_mmio_devices@);
        proof {
            reveal_strlit("_S5_");
            assert(valid_path("_S5_"@));
        }
        let sleep = name_package("_S5_", 5);
        let mut bytes = name_to_aml_bytes(&sleep);
        r.append(&mut bytes);
        r
    }
}

/// How the guest is told of a virtio device.
pub struct AcpiEntry {
    pub name: Seq<char>,
    pub uid: u8,
    pub irq: u32,
}

/// A device of the machine: its registers, who serves them, and how the guest
/// is told of it.
pub struct DeviceEntry {
    pub base: int,
    pub size: u64,
    pub name: Seq<char>,
    pub handler: Seq<char>,
    pub acpi: Option<AcpiEntry>,
}

/// The interrupt controller.
pub open spec fn ioapic_entry(map: MemoryLayout) -> DeviceEntry {
    DeviceEntry {
        base: map.ioapic_start as int,
        size: map.ioapic_size,
        name: "IOAPIC"@,
        handler: "ioapic"@,
        acpi: None,
    }
}

/// The PCI configuration space.
pub open spec fn ecam_entry(map: MemoryLayout) -> DeviceEntry {
    DeviceEntry {
        base: map.pci_mmconfig_start as int,
        size: map.pci_mmconfig_size,
        name: "PCI ECAM"@,
        handler: "pci_ecam"@,
        acpi: None,
    }
}

/// A virtio device in window `slot`.
pub open spec fn virtio_entry(map: MemoryLayout, slot: int, name: Seq<char>, handler: Seq<char>, acpi: AcpiEntry) -> DeviceEntry {
    DeviceEntry {
        base: map.virtio_mmio_start + slot * map.virtio_mmio_size_per_device,
        size: map.virtio_mmio_size_per_device,
        name,
        handler,
        acpi: Some(acpi),
    }
}

pub open spec fn block_entry(map: MemoryLayout) -> DeviceEntry {
    virtio_entry(
        map,
        0,
        "Virtio Block Device"@,
        "virtio_block"@,
        AcpiEntry { name: "VBLK"@, uid: 1, irq: VIRTIO_BLOCK_IRQ },
    )
}

pub open spec fn rng_entry(map: MemoryLayout) -> DeviceEntry {
    virtio_entry(
        map,
        1,
        "Virtio RNG Device"@,
        "virtio_rng"@,
        AcpiEntry { name: "VRNG"@, uid: 2, irq: VIRTIO_RNG_IRQ },
    )
}

pub open spec fn console_entry(map: MemoryLayout) -> DeviceEntry {
    virtio_entry(
        map,
        2,
        "Virtio Console Device"@,
        "virtio_console"@,
        AcpiEntry { name: "VCON"@, uid: 3, irq: VIRTIO_CONSOLE_IRQ },
    )
}

/// The devices of the machine, in the order in which they are added.
pub open spec fn all_entries(map: MemoryLayout) -> Seq<DeviceEntry> {
    seq![ioapic_entry(map), ecam_entry(map), block_entry(map), rng_entry(map), console_entry(map)]
}

/// The last device region is that of `d`.
pub open spec fn region_of(region: MmioRegion, d: DeviceEntry) -> bool {
    &&& region.gpa.0 == d.base
    &&& region.size == d.size
    &&& region.name@ == d.name
    &&& region.handler matches Some(h) && h@ == d.handler
}

/// The devices that the guest is told of, with that of `d` if it has one.
pub open spec fn told(before: Seq<VirtioMmioDevice>, after: Seq<VirtioMmioDevice>, d: DeviceEntry) -> bool {
    match d.acpi {
        None => after == before,
        Some(a) => {
            &&& after.len() == before.len() + 1
            &&& after.drop_last() == before
            &&& after.last().name@ == a.name
            &&& after.last().uid == a.uid
            &&& after.last().irq == a.irq
            &&& after.last().base_address == d.base
            &&& after.last().size == d.size
        },
    }
}

/// Adding a device to the machine: a region that runs into another is refused
/// and nothing changes; else the region, the name of who serves it and what the
/// guest is told are there.
pub open spec fn device_added(
    before: Partition,
    after: Partition,
    d: DeviceEntry,
    r: Result<(), PartitionError>,
) -> bool {
    &&& after.wf()
    &&& mmio_registered(
        before.memory.ram().layout,
        before.memory.mmio_regions@,
        d.base as u64,
        d.size,
        d.name,
        r,
    )
    &&& r is Err ==> after == before
    &&& r is Ok ==> {
        let regions = after.memory.mmio_regions@;
        let names = after.mmio_handlers@;
        &&& regions.len() == before.memory.mmio_regions@.len() + 1
        &&& regions.drop_last() == before.memory.mmio_regions@
        &&& region_of(regions.last(), d)
        &&& after.memory.regions == before.memory.regions
        &&& after.memory.log() == before.memory.log()
        &&& after.memory.acpi_address == before.memory.acpi_address
        &&& match handler_from(before.mmio_handlers@, d.handler, 0) {
            Some(_) => names == before.mmio_handlers@,
            None => names.len() == before.mmio_handlers@.len() + 1 && names.drop_last()
                == before.mmio_handlers@ && names.last()@ == d.handler,
        }
        &&& told(
            before.device_manager.virtio_mmio_devices@,
            after.device_manager.virtio_mmio_devices@,
            d,
        )
        &&& after.device_manager == (DeviceManager {
            virtio_mmio_devices: after.device_manager.virtio_mmio_devices,
            ..before.device_manager
        })
        &&& after == (Partition {
            memory: after.memory,
            mmio_handlers: after.mmio_handlers,
            device_manager: after.device_manager,
            ..before
        })
    }
}

/// Adding devices one after the other, until one is refused.
pub open spec fn devices_added(
    before: Partition,
    after: Partition,
    devices: Seq<DeviceEntry>,
    r: Result<(), PartitionError>,
) -> bool
    decreases devices.len(),
{
    if devices.len() == 0 {
        after == before && r is Ok
    } else {
        ||| device_added(before, after, devices[0], r) && r is Err
        ||| exists|next: Partition|
            #[trigger] device_added(before, next, devices[0], Ok(())) && devices_added(
                next,
                after,
                devices.subrange(1, devices.len() as int),
                r,
            )
    }
}

/// The windows of the virtio devices have addresses.
pub open spec fn windows_fit(map: MemoryLayout) -> bool {
    map.virtio_mmio_start + 2 * map.virtio_mmio_size_per_device <= u64::MAX
}

/// Adds a device region and the name of the device that serves it.
fn add_device(partition: &mut Partition, base: u64, size: u64, name: &str, handler: &str, Ghost(d): Ghost<DeviceEntry>) -> (r:
    Result<(), PartitionError>)
    requires
        old(partition).wf(),
        d == (DeviceEntry { base: base as int, size, name: name@, handler: handler@, acpi: None }),
    ensures
        device_added(*old(partition), *final(partition), d, r),
{
    match partition.register_mmio_region(base, size, name.to_owned(), Some(handler.to_owned())) {
        Ok(()) => {},
        Err(e) => {
            return Err(e);
        },
    }
    let ghost middle = *partition;
    let _ = partition.register_mmio_handler(handler.to_owned());
    proof {
        let before = old(partition).memory.mmio_regions@;
        assert(partition.memory.mmio_regions@.drop_last() =~= before);
        assert(handler_from(middle.mmio_handlers@, handler@, 0) is None
            ==> partition.mmio_handlers@.drop_last() =~= middle.mmio_handlers@);
    }
    Ok(())
}

/// Adds the interrupt controller.
pub fn setup_ioapic(partition: &mut Partition) -> (r: Result<(), PartitionError>)
    requires
        old(partition).wf(),
    ensures
        device_added(*old(partition), *final(partition), ioapic_entry(old(partition).layout), r),
{
    let ghost d = ioapic_entry(partition.layout);
    let base: u64 = partition.layout.ioapic_start;
    let size: u64 = partition.layout.ioapic_size;
    add_device(partition, base, size, "IOAPIC", "ioapic", Ghost(d))
}

/// Adds the PCI configuration space.
pub fn setup_pci_ecam(partition: &mut Partition) -> (r: Result<(), PartitionError>)
    requires
        old(partition).wf(),
    ensures
        device_added(*old(partition), *final(partition), ecam_entry(old(partition).layout), r),
{
    let ghost d = ecam_entry(partition.layout);
    let base: u64 = partition.layout.pci_mmconfig_start;
    let size: u64 = partition.layout.pci_mmconfig_size;
    add_device(partition, base, size, "PCI ECAM", "pci_ecam", Ghost(d))
}

/// Adds a virtio device and tells the guest of it.
fn add_virtio_device(
    partition: &mut Partition,
    base: u64,
    name: &str,
    handler: &str,
    acpi_name: &str,
    uid: u8,
    irq: u32,
) -> (r: Result<(), PartitionError>)
    requires
        old(partition).wf(),
    ensures
        device_added(
            *old(partition),
            *final(partition),
            (DeviceEntry {
                base: base as int,
                size: old(partition).layout.virtio_mmio_size_per_device,
                name: name@,
                handler: handler@,
                acpi: Some(AcpiEntry { name: acpi_name@, uid, irq }),
            }),
            r,
        ),
{
    let size: u64 = partition.layout.virtio_mmio_size_per_device;
    let ghost d = DeviceEntry {
        base: base as int,
        size,
        name: name@,
        handler: handler@,
        acpi: None,
    };
    match add_device(partition, base, size, name, handler, Ghost(d)) {
        Ok(()) => {},
        Err(e) => {
            return Err(e);
        },
    }
    let ghost middle = *partition;
    partition.device_manager.register_virtio_mmio(acpi_name.to_owned(), uid, base, size, irq);
    proof {
        let before = middle.device_manager.virtio_mmio_devices@;
        assert(partition.device_manager.virtio_mmio_devices@.drop_last() =~= before);
    }
    Ok(())
}

/// Adds the block device.
pub fn setup_virtio_block(partition: &mut Partition) -> (r: Result<(), PartitionError>)
    requires
        old(partition).wf(),
    ensures
        device_added(*old(partition), *final(partition), block_entry(old(partition).layout), r),
{
    let base: u64 = partition.layout.virtio_mmio_start;
    add_virtio_device(
        partition,
        base,
        "Virtio Block Device",
        "virtio_block",
        "VBLK",
        1,
        VIRTIO_BLOCK_IRQ,
    )
}

/// Adds the entropy device.
pub fn setup_virtio_rng(partition: &mut Partition) -> (r: Result<(), PartitionError>)
    requires
        old(partition).wf(),
        windows_fit(old(partition).layout),
    ensures
        device_added(*old(partition), *final(partition), rng_entry(old(partition).layout), r),
{
    let base: u64 = partition.layout.virtio_mmio_start + partition.layout.virtio_mmio_size_per_device;
    add_virtio_device(
        partition,
        base,
        "Virtio RNG Device",
        "virtio_rng",
        "VRNG",
        2,
        VIRTIO_RNG_IRQ,
    )
}

/// Adds the console.
pub fn setup_virtio_console(partition: &mut Partition) -> (r: Result<(), PartitionError>)
    requires
        old(partition).wf(),
        windows_fit(old(partition).layout),
    ensures
        device_added(*old(partition), *final(partition), console_entry(old(partition).layout), r),
{
    let base: u64 = partition.layout.virtio_mmio_start + 2
        * partition.layout.virtio_mmio_size_per_device;
    add_virtio_device(
        partition,
        base,
        "Virtio Console Device",
        "virtio_console",
        "VCON",
        3,
        VIRTIO_CONSOLE_IRQ,
    )
}

/// A device that is added and the rest after it.
proof fn lemma_device_then_rest(
    before: Partition,
    next: Partition,
    after: Partition,
    devices: Seq<DeviceEntry>,
    r: Result<(), PartitionError>,
)
    requires
        devices.len() > 0,
        device_added(before, next, devices[0], Ok(())),
        devices_added(next, after, devices.subrange(1, devices.len() as int), r),
    ensures
        devices_added(before, after, devices, r),
{
}

/// Adds all devices: the interrupt controller, the PCI configuration space, the
/// block device, the entropy device and the console.
pub fn register_devices(partition: &mut Partition) -> (r: Result<(), PartitionError>)
    requires
        old(partition).wf(),
        windows_fit(old(partition).layout),
    ensures
        final(partition).wf(),
        devices_added(*old(partition), *final(partition), all_entries(old(partition).layout), r),
{
    let ghost all = all_entries(partition.layout);
    let ghost p0 = *partition;
    match setup_ioapic(partition) {
        Ok(()) => {},
        Err(e) => {
            return Err(e);
        },
    }
    let ghost p1 = *partition;
    let r = register_bus_devices(partition);
    proof {
        assert(all.subrange(1, 5) =~= bus_entries(p1.layout));
        assert(device_added(p0, p1, all[0], Ok(())));
        lemma_device_then_rest(p0, p1, *partition, all, r);
    }
    r
}

/// All devices but the interrupt controller.
pub open spec fn bus_entries(map: MemoryLayout) -> Seq<DeviceEntry> {
    seq![ecam_entry(map), block_entry(map), rng_entry(map), console_entry(map)]
}

/// The virtio devices.
pub open spec fn virtio_entries(map: MemoryLayout) -> Seq<DeviceEntry> {
    seq![block_entry(map), rng_entry(map), console_entry(map)]
}

/// Adds all devices but the interrupt controller.
fn register_bus_devices(partition: &mut Partition) -> (r: Result<(), PartitionError>)
    requires
        old(partition).wf(),
        windows_fit(old(partition).layout),
    ensures
        final(partition).wf(),
        devices_added(*old(partition), *final(partition), bus_entries(old(partition).layout), r),
{
    let ghost all = bus_entries(partition.layout);
    let ghost p0 = *partition;
    match setup_pci_ecam(partition) {
        Ok(()) => {},
        Err(e) => {
            return Err(e);
        },
    }
    let ghost p1 = *partition;
    let r = register_virtio_devices(partition);
    proof {
        assert(all.subrange(1, 4) =~= virtio_entries(p1.layout));
        assert(device_added(p0, p1, all[0], Ok(())));
        lemma_device_then_rest(p0, p1, *partition, all, r);
    }
    r
}

/// Adds the virtio devices.
fn register_virtio_devices(partition: &mut Partition) -> (r: Result<(), PartitionError>)
    requires
        old(partition).wf(),
        windows_fit(old(partition).layout),
    ensures
        final(partition).wf(),
        devices_added(*old(partition), *final(partition), virtio_entries(old(partition).layout), r),
{
    let ghost all = virtio_entries(partition.layout);
    let ghost rest = seq![rng_entry(partition.layout), console_entry(partition.layout)];
    let ghost last = seq![console_entry(partition.layout)];
    let ghost p0 = *partition;
    assert(all.subrange(1, 3) =~= rest);
    assert(rest.subrange(1, 2) =~= last);
    match setup_virtio_block(partition) {
        Ok(()) => {},
        Err(e) => {
            return Err(e);
        },
    }
    let ghost p1 = *partition;
    assert(device_added(p0, p1, all[0], Ok(())));
    match setup_virtio_rng(partition) {
        Ok(()) => {},
        Err(e) => {
            let r = Err(e);
            proof {
                assert(devices_added(p1, *partition, rest, r));
                lemma_device_then_rest(p0, p1, *partition, all, r);
            }
            return r;
        },
    }
    let ghost p2 = *partition;
    assert(device_added(p1, p2, rest[0], Ok(())));
    let r = match setup_virtio_console(partition) {
        Ok(()) => Ok(()),
        Err(e) => Err(e),
    };
    proof {
        if r is Ok {
            assert(devices_added(*partition, *partition, last.subrange(1, 1), r));
            lemma_device_then_rest(p2, *partition, *partition, last, r);
        } else {
            assert(devices_added(p2, *partition, last, r));
        }
        lemma_device_then_rest(p1, p2, *partition, rest, r);
        lemma_device_then_rest(p0, p1, *partition, all, r);
    }
    r
}

/// The registers of the virtio devices do not share an address, nor do their
/// interrupt lines.
pub proof fn law_virtio_devices_are_apart(map: MemoryLayout, i: int, j: int)
    requires
        0 <= i < j < 3,
    ensures
        ({
            let a = virtio_entries(map)[i];
            let b = virtio_entries(map)[j];
            &&& a.base + a.size <= b.base
            &&& a.acpi matches Some(x) && b.acpi matches Some(y) && x.irq != y.irq && x.uid != y.uid
        }),
{
}

/// Once all devices were added, each of them has its region, after those that
/// were there before.
pub proof fn law_devices_are_there(
    before: Partition,
    after: Partition,
    devices: Seq<DeviceEntry>,
    r: Result<(), PartitionError>,
)
    requires
        devices_added(before, after, devices, r),
        r is Ok,
    ensures
        ({
            let n = before.memory.mmio_regions@.len() as int;
            let regions = after.memory.mmio_regions@;
            &&& regions.len() == n + devices.len()
            &&& regions.subrange(0, n) == before.memory.mmio_regions@
            &&& forall|i: int|
                0 <= i < devices.len() ==> region_of(regions[n + i], #[trigger] devices[i])
            &&& after.memory.regions == before.memory.regions
        }),
    decreases devices.len(),
{
    let n = before.memory.mmio_regions@.len() as int;
    let regions = after.memory.mmio_regions@;
    if devices.len() == 0 {
        assert(regions.subrange(0, n) =~= before.memory.mmio_regions@);
    } else {
        let rest = devices.subrange(1, devices.len() as int);
        let next = choose|next: Partition|
            #[trigger] device_added(before, next, devices[0], Ok(())) && devices_added(
                next,
                after,
                rest,
                r,
            );
        law_devices_are_there(next, after, rest, r);
        let middle = next.memory.mmio_regions@;
        assert(regions.subrange(0, n) =~= middle.drop_last());
        assert(regions[n] == regions.subrange(0, n + 1)[n]);
        assert forall|i: int| 0 <= i < devices.len() implies region_of(
            regions[n + i],
            #[trigger] devices[i],
        ) by {
            if i > 0 {
                assert(rest[i - 1] == devices[i]);
                assert(regions[n + 1 + (i - 1)] == regions[n + i]);
            }
        }
    }
}

} // verus!
