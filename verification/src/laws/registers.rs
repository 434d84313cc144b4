//! What the guest sees when it reads and writes the registers and ports of the
//! machine.

use vstd::prelude::*;

use crate::byte_order::{le_bytes, lemma_le_bytes_len, lemma_pow256_values, pow256};
use crate::devices::legacy::ioapic::{pending, InterruptRequest, IoApic, IoApicEntryInfo};
use crate::devices::legacy::irqchip::{IrqChip, IrqEffect};
use crate::device_manager::{DeviceManager, PciEcamHandler};
use crate::devices::virtio::device::{
    ack_features_by_page, avail_features_by_page, copy_config, DeviceModel, VirtioDevice,
};
use crate::devices::virtio::mmio::{InterruptTransport, MmioTransport, TransportEvent, TransportModel};
use crate::devices::virtio::mmio_adapter::{AccessError, MmioTransportAdapter};
use crate::devices::virtio::wake::{duplex_step, queue_step, DuplexStep, QueueStep};
use crate::emulator::{Emulator, EmulatorError, MmioRoute, PortAction};
use crate::laws::bits::lemma_bits;
use crate::laws::ioapic::{
    asked_for, lemma_window, law_line_lowered, law_registers_read, law_request_carries_the_entry,
    law_written_entry_is_delivered,
};
use crate::laws::memory::{digits, holds, law_bytes_add_up, lemma_digits, lemma_digits_of};
use crate::laws::ports::{law_port_reads, law_port_writes, law_register_access, pow};
use crate::laws::small_disk::{law_register_reads, law_register_writes, law_request_in_memory, law_served_read};
use crate::laws::transport::{
    empty_queues, law_configuration_shown, law_interrupts_acknowledged, law_registers_shown, law_status_written,
};
use crate::memory::memory::{find_mmio_from, MemoryManager};
use crate::virtio::{BlockRequest, VirtQueue, VirtioBlockDevice};

verus! {

pub(crate) proof fn lemma_lowest_bytes(v: nat)
    requires
        v < 0x1_0000_0000_0000_0000,
    ensures
        digits(le_bytes(v, 8), 0, 8) == v,
        digits(le_bytes(v, 4), 0, 4) == v % 0x1_0000_0000,
        digits(le_bytes(v, 2), 0, 2) == v % 0x1_0000,
        digits(le_bytes(v, 1), 0, 1) == v % 0x100,
{
    law_bytes_add_up(v, 8);
    lemma_truncated(v, 4);
    lemma_truncated(v, 2);
    lemma_truncated(v, 1);
    lemma_pow256_values();
}

proof fn lemma_truncated(v: nat, n: nat)
    ensures
        digits(le_bytes(v, n), 0, n) == v % pow256(n),
        pow256(n) > 0,
    decreases n,
{
    if n > 0 {
        let m = (n - 1) as nat;
        let s = le_bytes(v, n);
        lemma_truncated(v / 256, m);
        lemma_le_bytes_len(v / 256, m);
        lemma_le_bytes_len(v, n);
        assert forall|i: int| 0 <= i < m implies #[trigger] s[1 + i] == le_bytes(v / 256, m)[0 + i] by {}
        lemma_digits_of(s, le_bytes(v / 256, m), 1, 0, m);
        vstd::arithmetic::div_mod::lemma_mod_breakdown(v as int, 256, pow256(m) as int);
    }
}

/// The fields of a redirection entry.
pub proof fn law_entry_parsed(entry: u64, r: IoApicEntryInfo, q: InterruptRequest)
    requires
        call_ensures(IoApic::parse_entry, (entry,), r),
        call_ensures(IoApic::inject_interrupt, (&r,), q),
    ensures
        r.vector == entry % 0x100,
        r.delivery_mode == (entry / 0x100) % 8,
        r.dest_mode == (entry / 0x800) % 2,
        r.trig_mode == (entry / 0x8000) % 2,
        r.masked == ((entry / 0x1_0000) % 2 == 1),
        r.dest_idx == entry / 0x100_0000_0000_0000,
        asked_for(q, (entry % 0x1_0000_0000) as int, (entry / 0x1_0000_0000) as int),
{
    law_request_carries_the_entry(entry);
}

/// A new I/O APIC has all its pins masked and nothing pending, so that no line
/// requests an interrupt.
pub proof fn law_masked_at_first(addr: u64, size: u64, r: IoApic, i: int)
    requires
        call_ensures(IoApic::new, (addr, size), r),
        0 <= i < 24,
    ensures
        r.ioredtbl@.len() == 24,
        (r.ioredtbl@[i] / 0x1_0000) % 2 == 1,
        r.ioredtbl@[i] % 0x1_0000 == 0,
        r.irr == 0,
        r.id == 0,
        r.version == 32,
        r.mmio_addr == addr,
        r.mmio_size == size,
{
    assert(r@.table[i] == 0x1_0000);
}

/// A write to the I/O APIC is one to its registers, and raising or lowering a
/// line is one of its pins; the interrupts that come of it are handed on in
/// order.
pub proof fn law_interrupt_line(chip: &mut IrqChip, line: Option<u32>, has_event: bool, r: IrqEffect, apic: IoApic)
    requires
        *old(chip) == IrqChip::IoApic(apic),
        call_ensures(IrqChip::set_irq, (chip, line, has_event), r),
    ensures
        !r.signal_event,
        r.injected@ == apic@.raised(line).1,
        *final(chip) matches IrqChip::IoApic(after) && after@ == apic@.raised(line).0,
{
}

/// A line of the simple controller is kept, and the event is signalled where
/// there is one.
pub proof fn law_simple_line(chip: &mut IrqChip, line: Option<u32>, has_event: bool, r: IrqEffect)
    requires
        *old(chip) is Simple,
        call_ensures(IrqChip::set_irq, (chip, line, has_event), r),
    ensures
        r.signal_event == has_event,
        r.injected@.len() == 0,
        *final(chip) matches IrqChip::Simple(after) && after.irq_line == line && after.mmio_addr == (*old(
            chip,
        ))->Simple_0.mmio_addr,
{
}

/// A device that has used a buffer sets the lowest bit of its interrupt status,
/// one whose configuration has changed the next; the other bits stay, and its
/// line is raised.
pub proof fn law_device_signals(
    used: &mut InterruptTransport,
    changed: &mut InterruptTransport,
    a: &mut IrqChip,
    b: &mut IrqChip,
    r: IrqEffect,
    s: IrqEffect,
)
    requires
        call_ensures(InterruptTransport::signal_used_queue, (used, a), r),
        call_ensures(InterruptTransport::signal_config_change, (changed, b), s),
    ensures
        *final(used) == (InterruptTransport { status: final(used).status, ..*old(used) }),
        final(used).status == old(used).status | 1,
        old(a).raised(old(used).irq_line, true, *final(a), r),
        *final(changed) == (InterruptTransport { status: final(changed).status, ..*old(changed) }),
        final(changed).status == old(changed).status | 2,
        old(b).raised(old(changed).irq_line, true, *final(b), s),
{
}

/// The guest reads a register of a virtio device as a number of four bytes.
pub proof fn law_device_register_read<D: VirtioDevice>(
    t: &MmioTransportAdapter<D>,
    offset: u64,
    size: u32,
    r: Result<u64, AccessError>,
)
    requires
        call_ensures(MmioTransportAdapter::<D>::handle_read, (t, offset, size), r),
    ensures
        size != 1 && size != 2 && size != 4 && size != 8 ==> r is Err,
        size == 4 && offset == 0 ==> r == Ok::<u64, AccessError>(0x7472_6976),
        size == 4 && offset == 4 ==> r == Ok::<u64, AccessError>(2),
        size == 4 && offset == 8 ==> r == Ok::<u64, AccessError>(t.transport@.device.device_type as u64),
        size == 4 && offset == 0x60 ==> r == Ok::<u64, AccessError>(t.transport@.interrupt_status as u64),
        size == 4 && offset == 0x70 ==> r == Ok::<u64, AccessError>(t.transport@.device_status as u64),
        size == 1 && 0x100 <= offset <= 0xfff && offset - 0x100 < t.transport@.device.config.len() ==> r == Ok::<
            u64,
            AccessError,
        >(t.transport@.device.config[offset - 0x100] as u64),
{
    let m = t.transport@;
    let zero = Seq::new(size as nat, |i: int| 0u8);
    if size == 4 {
        law_registers_shown(m, zero);
        let out = m.read_into(offset, zero);
        if offset == 0 || offset == 4 || offset == 8 || offset == 0x60 || offset == 0x70 {
            lemma_digits(out, 0, 4);
            assert(out.subrange(0, 4) =~= out);
        }
    }
    if size == 1 {
        law_configuration_shown(m, offset, zero, 0);
        let out = m.read_into(offset, zero);
        lemma_digits(out, 0, 1);
        assert(out.subrange(0, 1) =~= out);
        reveal_with_fuel(digits, 2);
    }
}

/// The guest writes a number of so many bytes to a register of a virtio device,
/// lowest byte first.
pub proof fn law_device_register_written<D: VirtioDevice>(
    t: &mut MmioTransportAdapter<D>,
    intc: &mut IrqChip,
    offset: u64,
    size: u32,
    value: u64,
    r: Result<TransportEvent, AccessError>,
) -> (data: Seq<u8>)
    requires
        call_ensures(MmioTransportAdapter::<D>::handle_write, (t, intc, offset, size, value), r),
    ensures
        size != 1 && size != 2 && size != 4 && size != 8 ==> r is Err && *final(t) == *old(t),
        size == 4 ==> {
            &&& data.len() == 4
            &&& digits(data, 0, 4) == value % 0x1_0000_0000
            &&& r == Ok::<TransportEvent, AccessError>(old(t).transport@.written(offset, data).1)
            &&& final(t).transport@ == old(t).transport@.written(offset, data).0
        },
{
    let data = le_bytes(value as nat, 4);
    if size == 4 {
        lemma_lowest_bytes(value as nat);
        lemma_le_bytes_len(value as nat, 4);
    }
    data
}

/// What the guest reads from the small disk's registers.
pub proof fn law_disk_register_read(d: &VirtioBlockDevice, offset: u64, r: u32)
    requires
        call_ensures(VirtioBlockDevice::handle_mmio_read, (d, offset), r),
    ensures
        offset == 0 ==> r == 0x7472_6976,
        offset == 4 || offset == 8 ==> r == 2,
        offset == 0x34 ==> r == 256,
        offset == 0x70 ==> r == d.status,
        offset == 0x100 ==> r == (d.disk_size / 512) % 0x1_0000_0000,
        offset == 0x104 ==> r == (d.disk_size / 512) / 0x1_0000_0000,
{
    law_register_reads(*d, offset);
}

/// What the guest writes to the small disk's registers.
pub proof fn law_disk_register_written(
    d: &mut VirtioBlockDevice,
    mem: &mut MemoryManager,
    offset: u64,
    value: u32,
    r: Result<(), crate::virtio::RequestError>,
)
    requires
        call_ensures(VirtioBlockDevice::handle_mmio_write, (d, offset, value, mem), r),
    ensures
        offset == 0x38 ==> final(d).queue.size == value % 0x1_0000,
        offset == 0x44 ==> final(d).queue.ready == (value != 0),
        offset == 0x70 ==> final(d).status == value % 0x100,
        offset == 0x80 ==> final(d).queue.desc_addr == old(d).queue.desc_addr / 0x1_0000_0000 * 0x1_0000_0000
            + value,
        offset == 0x94 ==> final(d).queue.avail_addr == old(d).queue.avail_addr % 0x1_0000_0000 + value
            * 0x1_0000_0000,
        offset == 0xa0 ==> final(d).queue.used_addr == old(d).queue.used_addr / 0x1_0000_0000 * 0x1_0000_0000
            + value,
        offset % 0x1000 != 0x50 ==> r is Ok && final(mem).ram() == old(mem).ram(),
{
    law_register_writes(*old(d), offset, value);
}

/// What comes of a guest's access to a port.
pub proof fn law_port_accessed(e: &mut Emulator, port: u16, direction: u8, size: u16, data: u32, r: PortAction)
    requires
        call_ensures(Emulator::io_port_callback, (e, port, direction, size, data), r),
        size == 1 || size == 2 || size == 4,
    ensures
        direction == 1 && (port == 0x3F8 || port == 0x2F8 || port == 0x3E8 || port == 0x2E8) ==> (r matches PortAction::Print(
            b,
        ) && b@.len() == size && digits(b@, 0, size as nat) == data as int % pow(size)),
        direction == 1 && port == 0xCF8 ==> r is Done && final(e).pci_address_config == data,
        direction == 1 && port == 0x3F9 ==> r is Done && final(e).serial_ier == data % 0x100,
        direction == 1 && 0x600 <= port <= 0x610 ==> *final(e) == *old(e) && (r matches PortAction::BusWrite(b)
            && b@.len() == size && digits(b@, 0, size as nat) == data as int % pow(size)),
        direction == 0 && port == 0xCF8 ==> r == PortAction::Value(old(e).pci_address_config),
        direction == 0 && port == 0xCFC ==> r == PortAction::Value(0xFFFF_FFFF),
        direction == 0 && port == 0x3FD ==> r == PortAction::Value(0x60),
        direction == 0 && port == 0x3F9 ==> r == PortAction::Value(old(e).serial_ier as u32),
        direction == 0 && 0x600 <= port <= 0x610 ==> r == PortAction::BusRead(size as usize),
{
    law_port_writes(*old(e), port, size, data);
    law_port_reads(*old(e), port, size);
}

/// The answer of the bus, lowest byte first; nothing there reads as zero.
pub proof fn law_bus_answer(bytes: &Option<Vec<u8>>, r: u32)
    requires
        call_ensures(Emulator::bus_value, (bytes,), r),
        bytes matches Some(b) ==> b@.len() <= 4,
    ensures
        match *bytes {
            Some(b) => r == digits(b@, 0, b@.len()),
            None => r == 0,
        },
{
    if let Some(b) = *bytes {
        lemma_digits(b@, 0, b@.len());
        assert(b@.subrange(0, b@.len() as int) =~= b@);
        crate::byte_order::lemma_le_value_bound(b@);
        crate::byte_order::lemma_pow256_values();
        crate::byte_order::lemma_pow256_monotonic(b@.len(), 4);
    }
}

/// The guest's access to device memory goes to the handler of the region that
/// holds the address, with the distance from the region's start.
pub proof fn law_device_memory_accessed(
    mem: &MemoryManager,
    handlers: &Vec<String>,
    gpa: u64,
    direction: u8,
    size: u32,
    data: &[u8; 8],
    r: MmioRoute,
)
    requires
        call_ensures(Emulator::memory_callback, (mem, handlers, gpa, direction, size, data), r),
        size == 1 || size == 2 || size == 4 || size == 8,
    ensures
        ({
            let regions = mem.mmio_regions@;
            &&& find_mmio_from(regions, gpa as int, 0) is None ==> r == MmioRoute::Fail(EmulatorError::NotFound)
            &&& find_mmio_from(regions, gpa as int, 0) matches Some(k) ==> {
                &&& r matches MmioRoute::Read { offset, size: n, .. } ==> direction == 0 && offset == gpa
                    - regions[k].gpa.0 && n == size
                &&& r matches MmioRoute::Write { offset, size: n, value, .. } ==> direction == 1 && offset == gpa
                    - regions[k].gpa.0 && n == size && value == digits(data@, 0, size as nat)
            }
        }),
{
    assert(handlers.len() == handlers@.len());
    law_register_access(mem.mmio_regions@, handlers@, gpa, direction, size, data@);
}

/// The answer to a read of device memory is placed in the guest's data, lowest
/// byte first.
pub proof fn law_read_answer(answer: Option<u64>, size: u32, data: &mut Vec<u8>, r: Option<EmulatorError>)
    requires
        old(data)@.len() == 8,
        call_ensures(Emulator::read_answered, (answer, size, data), r),
    ensures
        r is None <==> answer is Some && (size == 1 || size == 2 || size == 4 || size == 8),
        r is Some ==> final(data)@ == old(data)@,
        r is None ==> final(data)@.len() == 8 && (forall|i: int|
            size <= i < 8 ==> #[trigger] final(data)@[i] == old(data)@[i]),
        r is None && size == 8 ==> digits(final(data)@, 0, 8) == answer->0,
        r is None && size == 4 ==> digits(final(data)@, 0, 4) == answer->0 % 0x1_0000_0000,
        r is None && size == 2 ==> digits(final(data)@, 0, 2) == answer->0 % 0x1_0000,
        r is None && size == 1 ==> digits(final(data)@, 0, 1) == answer->0 % 0x100,
{
    if r is None {
        let v = answer->0 as nat;
        let n = size as nat;
        lemma_le_bytes_len(v, n);
        lemma_lowest_bytes(v);
        lemma_digits_of(final(data)@, le_bytes(v, n), 0, 0, n);
    }
}

/// What a worker does when one of its events has come.
pub proof fn law_worker_wakes(result: u32, d: DuplexStep, q: QueueStep)
    requires
        call_ensures(duplex_step, (result,), d),
        call_ensures(queue_step, (result,), q),
    ensures
        d is Transmit <==> result == 0,
        d is Receive <==> result == 1,
        d is Stop <==> result == 2,
        d is Failed <==> result == 0xFFFF_FFFF,
        q is Serve <==> result == 0,
        q is Stop <==> result == 1,
        q is Failed <==> result == 0xFFFF_FFFF,
{
}

/// Writing the low half of a pin's entry and raising the pin's line requests
/// the interrupt that was written.
pub proof fn law_line_after_entry(
    a: &mut IoApic,
    data: &[u8],
    w: Vec<InterruptRequest>,
    b: &mut IoApic,
    pin: u32,
    r: Vec<InterruptRequest>,
) -> (k: int)
    requires
        old(a)@.wf(),
        pin < 24,
        old(a).ioregsel == 0x10 + 2 * pin,
        data@.len() == 4,
        (digits(data@, 0, 4) / 0x1_0000) % 2 == 0,
        call_ensures(IoApic::write, (a, 0x10u64, data), w),
        final(a).ioredtbl@[pin as int] / 0x4000 % 2 == 0,
        *old(b) == *final(a),
        call_ensures(IoApic::set_irq, (b, Some(pin)), r),
    ensures
        0 <= k < r@.len(),
        asked_for(r@[k], digits(data@, 0, 4), (old(a).ioredtbl@[pin as int] / 0x1_0000_0000) as int),
        final(a).irr == 0 ==> r@.len() == 1,
{
    law_written_entry_is_delivered(old(a)@, pin, data@)
}

/// A line that is lowered is no longer pending, and others are as they were.
pub proof fn law_line_let_go(a: &mut IoApic, pin: u32, other: u32)
    requires
        pin < 24,
        other < 24,
        other != pin,
        call_ensures(IoApic::clear_irq, (a, Some(pin)), ()),
    ensures
        !pending(final(a).irr, pin as int),
        pending(final(a).irr, other as int) == pending(old(a).irr, other as int),
        final(a).ioredtbl@ == old(a).ioredtbl@,
{
    law_line_lowered(old(a)@, pin, other);
}

/// What the guest reads from the I/O APIC as four bytes.
pub proof fn law_controller_read(a: &IoApic, offset: u64, data: &mut [u8], pin: int)
    requires
        a@.wf(),
        0 <= pin < 24,
        old(data)@.len() == 4,
        call_ensures(IoApic::read, (a, offset, data), ()),
    ensures
        final(data)@.len() == 4,
        offset == 0 ==> digits(final(data)@, 0, 4) == a.ioregsel,
        offset == 0x10 && (a.ioregsel == 0 || a.ioregsel == 2) ==> digits(final(data)@, 0, 4) == a.id
            * 0x100_0000,
        offset == 0x10 && a.ioregsel == 1 ==> digits(final(data)@, 0, 4) == a.version + 0x17_0000,
        offset == 0x10 && a.ioregsel == 0x10 + 2 * pin ==> digits(final(data)@, 0, 4) == a.ioredtbl@[pin]
            % 0x1_0000_0000,
        offset == 0x10 && a.ioregsel == 0x11 + 2 * pin ==> digits(final(data)@, 0, 4) == a.ioredtbl@[pin]
            / 0x1_0000_0000,
{
    law_registers_read(a@, offset, 4, pin);
    if let Some(v) = a@.read_value(offset, 4) {
        law_bytes_add_up(v as nat, 4);
        lemma_digits_of(final(data)@, le_bytes(v as nat, 4), 0, 0, 4);
    }
}

/// The small disk serves a read: the sectors lie in the guest's memory, and the
/// status is zero.
pub proof fn law_small_disk_served(
    mem: &mut MemoryManager,
    q: &VirtQueue,
    disk: &Vec<u8>,
    req: &BlockRequest,
    r: Result<(), crate::virtio::RequestError>,
)
    requires
        old(mem).wf(),
        q.size > 0,
        call_ensures(VirtioBlockDevice::serve_request, (mem, q, disk, req), r),
        r is Ok,
        req.req_type == 0,
        512 * req.sector + req.data_len <= disk@.len(),
        req.data_addr + req.data_len <= req.status_addr || req.status_addr < req.data_addr,
        req.data_addr + req.data_len <= q.used_addr + 2 || q.used_addr + 4 + 8 * q.size <= req.data_addr,
        req.status_addr + 1 <= q.used_addr + 2 || q.used_addr + 4 + 8 * q.size <= req.status_addr,
    ensures
        holds(
            final(mem).ram(),
            req.data_addr as int,
            Seq::new(req.data_len as nat, |k: int| disk@[512 * req.sector + k]),
        ),
        holds(final(mem).ram(), req.status_addr as int, seq![0u8]),
{
    old(mem).lemma_ram_wf();
    assert(disk.len() == disk@.len());
    law_served_read(old(mem).ram(), *q, disk@, *req);
}

/// The request that a chain of the small disk's queue names.
pub proof fn law_small_disk_request(
    mem: &MemoryManager,
    q: &VirtQueue,
    i: u16,
    r: Result<BlockRequest, crate::virtio::RequestError>,
)
    requires
        mem.wf(),
        call_ensures(VirtioBlockDevice::read_request, (mem, q, i), r),
    ensures
        r matches Ok(req) ==> {
            let ram = mem.ram();
            let first = ram.read(q.desc_addr + 16 * i, 16)->Ok_0;
            let header = ram.read(digits(first, 0, 8), 16)->Ok_0;
            let second = ram.read(q.desc_addr + 16 * digits(first, 14, 2), 16)->Ok_0;
            let third = ram.read(q.desc_addr + 16 * digits(second, 14, 2), 16)->Ok_0;
            &&& req.desc_idx == i
            &&& req.req_type == digits(header, 0, 4)
            &&& req.sector == digits(header, 8, 8)
            &&& req.data_addr == digits(second, 0, 8)
            &&& req.data_len == digits(second, 8, 4)
            &&& req.status_addr == digits(third, 0, 8)
        },
{
    mem.lemma_ram_wf();
    law_request_in_memory(mem.ram(), *q, i);
}

/// The status of a virtio device goes through its steps one by one, and what
/// skips one changes nothing.
pub proof fn law_device_steps<D: VirtioDevice>(
    t: &mut MmioTransport<D>,
    intc: &mut IrqChip,
    data: &[u8],
    r: TransportEvent,
)
    requires
        data@.len() == 4,
        call_ensures(MmioTransport::<D>::write, (t, intc, 0x70u64, data), r),
    ensures
        ({
            let v = digits(data@, 0, 4);
            let s = old(t)@.device_status;
            let after = final(t)@.device_status;
            &&& s == 0 && v == 1 ==> after == 1
            &&& s == 1 && v == 3 ==> after == 3
            &&& s == 3 && v == 11 ==> after == 11
            &&& s == 11 && v == 15 ==> after == 15
            &&& s == 11 && v == 15 && old(t)@.device.queues is None && old(t)@.queues is Some ==> r
                == TransportEvent::Activated
            &&& s == 0 && 1 < v < 128 ==> after == 0 && r == TransportEvent::Nothing
            &&& s == 1 && 3 < v < 128 ==> after == 1 && r == TransportEvent::Nothing
            &&& s == 3 && 11 < v < 128 ==> after == 3 && r == TransportEvent::Nothing
        }),
{
    law_status_written(old(t)@, data@);
}

/// The features that a device offers are told 32 at a time, and those that the
/// driver accepts are kept if they were offered.
pub proof fn law_features_told<D: VirtioDevice>(d: &D, page: u32, r: u32)
    requires
        call_ensures(avail_features_by_page::<D>, (d, page), r),
    ensures
        page == 0 ==> r == d.model().avail_features % 0x1_0000_0000,
        page == 1 ==> r == d.model().avail_features / 0x1_0000_0000,
        page > 1 ==> r == 0,
{
    let f = d.model().avail_features;
    lemma_bits(f);
    lemma_low_half(f);
}

proof fn lemma_low_half(f: u64)
    ensures
        (f & 0xffff_ffff) as u32 == f % 0x1_0000_0000,
{
    lemma_window(0, 0, f, 0);
}

/// A device's line can be chosen until the device works.
pub proof fn law_line_chosen(t: &mut InterruptTransport, line: u32)
    requires
        call_ensures(InterruptTransport::set_irq_line, (t, line), ()),
    ensures
        !old(t).shared ==> final(t).irq_line == Some(line),
        old(t).shared ==> *final(t) == *old(t),
        final(t).status == old(t).status,
{
}

/// Accesses to the interrupt controller's registers are the I/O APIC's; the
/// simple controller has none.
pub proof fn law_controller_accessed(
    chip: &mut IrqChip,
    offset: u64,
    data: &[u8],
    r: Vec<InterruptRequest>,
    low: &mut IrqChip,
    line: Option<u32>,
)
    requires
        call_ensures(IrqChip::write, (chip, offset, data), r),
        call_ensures(IrqChip::clear_irq, (low, line), ()),
    ensures
        *old(chip) matches IrqChip::IoApic(a) ==> (*final(chip) matches IrqChip::IoApic(b) && (b@, r@) == a@.written(
            offset,
            data@,
        )),
        *old(chip) is Simple ==> *final(chip) == *old(chip) && r@.len() == 0,
        *old(low) matches IrqChip::IoApic(a) ==> (*final(low) matches IrqChip::IoApic(b) && b@ == a@.lowered(line)),
        *old(low) is Simple ==> *final(low) == *old(low),
{
}

/// A new transport: the driver starts from status zero with empty queues, as
/// many and as large as the device says.
pub proof fn law_new_transport<D: VirtioDevice>(device: D, target: String, t: MmioTransport<D>)
    requires
        call_ensures(MmioTransport::<D>::new, (device, target), t),
    ensures
        t@.device == device.model(),
        t@.device_status == 0 && t@.interrupt_status == 0 && t@.config_generation == 0,
        t@.features_select == 0 && t@.acked_features_select == 0 && t@.queue_select == 0,
        t@.irq_line is None && !t@.shared,
        t@.queues matches Some(queues) && empty_queues(queues, device.model().queue_config),
{
}

/// A device raises bits of its interrupt status, and the others stay.
pub proof fn law_device_interrupts<D: VirtioDevice>(t: &mut MmioTransport<D>, mask: u32)
    requires
        call_ensures(MmioTransport::<D>::interrupt, (t, mask), ()),
    ensures
        final(t)@.interrupt_status == old(t)@.interrupt_status | mask,
        final(t)@ == (TransportModel { interrupt_status: final(t)@.interrupt_status, ..old(t)@ }),
{
}

/// The guest reads the registers of a virtio device as four bytes.
pub proof fn law_transport_read<D: VirtioDevice>(t: &MmioTransport<D>, offset: u64, data: &mut [u8])
    requires
        old(data)@.len() == 4,
        call_ensures(MmioTransport::<D>::read, (t, offset, data), ()),
    ensures
        offset == 0 ==> digits(final(data)@, 0, 4) == 0x7472_6976,
        offset == 4 ==> digits(final(data)@, 0, 4) == 2,
        offset == 8 ==> digits(final(data)@, 0, 4) == t@.device.device_type,
        offset == 0x60 ==> digits(final(data)@, 0, 4) == t@.interrupt_status,
        offset == 0x70 ==> digits(final(data)@, 0, 4) == t@.device_status,
        offset == 0xfc ==> digits(final(data)@, 0, 4) == t@.config_generation,
{
    law_registers_shown(t@, old(data)@);
}

/// The configuration of a device is read byte by byte from the offset on; what
/// lies behind it is left as it was.
pub proof fn law_configuration_copied(config: &Vec<u8>, offset: u64, data: &mut [u8], i: int)
    requires
        old(data)@.len() <= 0xffff,
        offset <= 0xffff,
        call_ensures(copy_config, (config, offset, data), ()),
        0 <= i < old(data)@.len(),
    ensures
        final(data)@.len() == old(data)@.len(),
        final(data)@[i] == (if offset + i < config@.len() {
            config@[offset + i]
        } else {
            old(data)@[i]
        }),
{
}

/// The features that the driver accepts: those of the page that it writes, and
/// of these the ones that the device offers.
pub proof fn law_features_kept<D: VirtioDevice>(d: &mut D, page: u32, value: u32)
    requires
        call_ensures(ack_features_by_page::<D>, (d, page, value), ()),
    ensures
        final(d).model() == (DeviceModel {
            acked_features: final(d).model().acked_features,
            ..old(d).model()
        }),
        page == 0 ==> final(d).model().acked_features == old(d).model().acked_features | (value as u64 & old(
            d,
        ).model().avail_features),
        page == 1 ==> final(d).model().acked_features == old(d).model().acked_features | (((value as u64) << 32) & old(
            d,
        ).model().avail_features),
        page > 1 ==> final(d).model().acked_features == old(d).model().acked_features | (0u64 & old(
            d,
        ).model().avail_features),
{
}

/// A new small disk offers its features and has nothing set up; its image gives
/// it its size.
pub proof fn law_small_disk_made(size: u64, d: VirtioBlockDevice, e: &mut VirtioBlockDevice, image: Vec<u8>)
    requires
        call_ensures(VirtioBlockDevice::new, (size,), d),
        call_ensures(VirtioBlockDevice::set_disk_image, (e, image), ()),
    ensures
        d.device_features == 0x240,
        d.disk_size == size && d.disk_image is None,
        d.status == 0 && !d.queue.ready && d.queue.size == 0,
        final(e).disk_image == Some(image),
        image@.len() <= u64::MAX ==> final(e).disk_size == image@.len(),
        final(e).queue == old(e).queue && final(e).status == old(e).status,
{
}

/// The PCI configuration space reads as all ones: no device is there.
pub proof fn law_no_pci_device(h: &PciEcamHandler, data: &mut [u8], i: int)
    requires
        call_ensures(PciEcamHandler::read, (h, data), ()),
        0 <= i < old(data)@.len(),
    ensures
        final(data)@.len() == old(data)@.len(),
        final(data)@[i] == 255,
{
}

/// The device manager of a new machine, and its power management timer.
pub proof fn law_timer_registered(d: &mut DeviceManager)
    requires
        call_ensures(DeviceManager::init, (d,), ()),
    ensures
        final(d).acpi_platform_addresses.pm_timer_address matches Some(a) && a.address == 0x608,
        old(d).io_bus.ranges@.len() == 0 ==> final(d).io_bus.ranges@.len() == 1 && final(d).io_bus.ranges@[0].base
            == 0x608 && final(d).io_bus.ranges@[0].len == 4,
        final(d).virtio_mmio_devices == old(d).virtio_mmio_devices,
        final(d).serial_devices == old(d).serial_devices,
{
}

/// A device's line is lowered when the driver has acknowledged the last of its
/// interrupts, and by nothing else that it writes there.
pub proof fn law_line_released<D: VirtioDevice>(
    t: &mut MmioTransport<D>,
    intc: &mut IrqChip,
    data: &[u8],
    r: TransportEvent,
)
    requires
        data@.len() == 4,
        call_ensures(MmioTransport::<D>::write, (t, intc, 0x64u64, data), r),
    ensures
        ({
            let v = digits(data@, 0, 4) as u32;
            let working = (old(t)@.device_status / 4) % 2 == 1;
            &&& working ==> final(t)@.interrupt_status == old(t)@.interrupt_status & !v
            &&& !working ==> final(t)@.interrupt_status == old(t)@.interrupt_status
            &&& working && final(t)@.interrupt_status == 0 ==> old(intc).lowered(old(t)@.irq_line, *final(intc))
            &&& !working || final(t)@.interrupt_status != 0 ==> *final(intc) == *old(intc)
        }),
{
    law_interrupts_acknowledged(old(t)@, data@);
}

/// The numbers of the emulator's errors.
pub proof fn law_emulator_errors(e: &EmulatorError, r: u32)
    requires
        call_ensures(EmulatorError::code, (e,), r),
    ensures
        r == 87 <==> *e == EmulatorError::InvalidParameter,
        r == 1359 <==> *e == EmulatorError::InternalError,
        r == 1168 <==> *e == EmulatorError::NotFound,
{
}

} // verus!
