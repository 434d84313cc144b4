//! What the small block device reads from and leaves in guest memory.

use vstd::prelude::*;

use crate::byte_order::le_bytes;
use crate::laws::bits::{lemma_bits, lemma_replaced};
use crate::laws::boot::takes;
use crate::laws::memory::{
    digits, holds, law_access_succeeds, law_bytes_add_up, law_numbers_are_little_endian, law_read_gives_bytes,
    law_write_places_bytes, lemma_digits_of, lemma_holds_on, placed,
};
use crate::memory::memory::{find, law_write_keeps_layout, Ram, RegionLayout};
use crate::virtio::{
    handed_back, next_descriptor, notifies, queue_processed, register_read, register_written, request_at, served,
    transferred, with_high, with_low, BlockRequest, RequestError, VirtQueue, VirtioBlockDevice,
};

verus! {

/// The request that is next: the entry of the available ring at the ring's own
/// index, which stands behind the flags; the entries follow it.
pub proof fn law_next_request(ram: Ram, q: VirtQueue)
    requires
        ram.wf(),
        q.size > 0,
    ensures
        next_descriptor(ram, q) matches Ok(i) ==> {
            &&& ram.read(q.avail_addr + 2, 2) matches Ok(idx) && {
                &&& ram.read(q.avail_addr + 4 + 2 * (digits(idx, 0, 2) % q.size as int), 2) matches Ok(entry) && i
                    == digits(entry, 0, 2)
            }
        },
{
    if let Ok(idx) = ram.read(q.avail_addr + 2, 2) {
        law_read_gives_bytes(ram, q.avail_addr + 2, 2);
        law_numbers_are_little_endian(idx, 0);
        let slot = q.avail_addr + 4 + 2 * (digits(idx, 0, 2) % q.size as int);
        if let Ok(entry) = ram.read(slot, 2) {
            law_read_gives_bytes(ram, slot, 2);
            law_numbers_are_little_endian(entry, 0);
        }
    }
}

/// What a request is made of: the first descriptor of its chain names the
/// header, with the type in its first four bytes and the sector in its last
/// eight; the second one names the data; the third one the status. Each
/// descriptor has sixteen bytes: an address, a length, flags and the next one.
pub proof fn law_request_in_memory(ram: Ram, q: VirtQueue, i: u16)
    requires
        ram.wf(),
    ensures
        request_at(ram, q, i) matches Ok(req) ==> {
            let first = ram.read(q.desc_addr + 16 * i, 16)->Ok_0;
            let header = ram.read(digits(first, 0, 8), 16)->Ok_0;
            let second = ram.read(q.desc_addr + 16 * digits(first, 14, 2), 16)->Ok_0;
            let third = ram.read(q.desc_addr + 16 * digits(second, 14, 2), 16)->Ok_0;
            &&& ram.read(q.desc_addr + 16 * i, 16) is Ok
            &&& ram.read(digits(first, 0, 8), 16) is Ok
            &&& ram.read(q.desc_addr + 16 * digits(first, 14, 2), 16) is Ok
            &&& ram.read(q.desc_addr + 16 * digits(second, 14, 2), 16) is Ok
            &&& req.desc_idx == i
            &&& req.req_type == digits(header, 0, 4)
            &&& req.sector == digits(header, 8, 8)
            &&& req.data_addr == digits(second, 0, 8)
            &&& req.data_len == digits(second, 8, 4)
            &&& req.status_addr == digits(third, 0, 8)
        },
{
    if let Ok(req) = request_at(ram, q, i) {
        let first = ram.read(q.desc_addr + 16 * i, 16)->Ok_0;
        law_read_gives_bytes(ram, q.desc_addr + 16 * i, 16);
        law_numbers_are_little_endian(first, 0);
        law_numbers_are_little_endian(first, 14);
        let header = ram.read(digits(first, 0, 8), 16)->Ok_0;
        law_read_gives_bytes(ram, digits(first, 0, 8), 16);
        law_numbers_are_little_endian(header, 0);
        law_numbers_are_little_endian(header, 8);
        let second = ram.read(q.desc_addr + 16 * digits(first, 14, 2), 16)->Ok_0;
        law_read_gives_bytes(ram, q.desc_addr + 16 * digits(first, 14, 2), 16);
        law_numbers_are_little_endian(second, 0);
        law_numbers_are_little_endian(second, 8);
        law_numbers_are_little_endian(second, 14);
        let third = ram.read(q.desc_addr + 16 * digits(second, 14, 2), 16)->Ok_0;
        law_read_gives_bytes(ram, q.desc_addr + 16 * digits(second, 14, 2), 16);
        law_numbers_are_little_endian(third, 0);
    }
}

/// Moving the data of a request. One that lies on the disk succeeds: a read
/// puts the disk's bytes from byte 512 times the sector on where the guest
/// asked for them, and a write changes nothing. One that goes beyond the disk
/// fails. A flush succeeds, and what is none of these is not supported.
pub proof fn law_transfer(ram: Ram, disk: Seq<u8>, req: BlockRequest)
    requires
        ram.wf(),
        disk.len() <= usize::MAX,
    ensures
        ({
            let (status, after) = transferred(ram, disk, req);
            let from = 512 * req.sector;
            let end = from + req.data_len;
            &&& req.req_type == 0 && end <= disk.len() ==> {
                ||| status == Ok::<u8, RequestError>(0) && placed(
                    ram,
                    after,
                    req.data_addr as int,
                    Seq::new(req.data_len as nat, |k: int| disk[from + k]),
                )
                ||| status is Err && after == ram && ram.write(
                    req.data_addr as int,
                    Seq::new(req.data_len as nat, |k: int| disk[from + k]),
                ) is Err
            }
            &&& req.req_type == 1 && end <= disk.len() ==> {
                &&& after == ram
                &&& status == Ok::<u8, RequestError>(0) <==> ram.read(req.data_addr as int, req.data_len as int) is Ok
                &&& status is Ok ==> status == Ok::<u8, RequestError>(0)
            }
            &&& (req.req_type == 0 || req.req_type == 1) && end > disk.len() ==> after == ram && status
                != Ok::<u8, RequestError>(0) && (end <= usize::MAX && end <= u64::MAX ==> status == Ok::<
                u8,
                RequestError,
            >(1))
            &&& req.req_type == 4 ==> status == Ok::<u8, RequestError>(0) && after == ram
            &&& req.req_type != 0 && req.req_type != 1 && req.req_type != 4 ==> status == Ok::<
                u8,
                RequestError,
            >(2) && after == ram
        }),
{
    let from = 512 * req.sector;
    let end = from + req.data_len;
    if req.req_type == 0 && end <= disk.len() {
        let data = disk.subrange(from, end);
        assert(data =~= Seq::new(req.data_len as nat, |k: int| disk[from + k]));
        law_write_places_bytes(ram, req.data_addr as int, data);
    }
}

/// A request that was handed back is found in the used ring: its first
/// descriptor and a length of one, at the place that the ring's index names;
/// and the index, behind the flags, has gone on by one, counting to twice the
/// size of the queue.
pub proof fn law_handed_back_in_memory(ram: Ram, q: VirtQueue, i: u16) -> (found: (Seq<u8>, Seq<u8>))
    requires
        ram.wf(),
        q.size > 0,
        handed_back(ram, q, i).0 is Ok,
    ensures
        ({
            let after = handed_back(ram, q, i).1;
            let before = digits(ram.read(q.used_addr + 2, 2)->Ok_0, 0, 2);
            let (elem, idx) = found;
            &&& ram.read(q.used_addr + 2, 2) is Ok
            &&& elem.len() == 8
            &&& holds(after, q.used_addr + 4 + 8 * (before % q.size as int), elem)
            &&& digits(elem, 0, 4) == i
            &&& digits(elem, 4, 4) == 1
            &&& idx.len() == 2
            &&& holds(after, q.used_addr + 2, idx)
            &&& digits(idx, 0, 2) == (before + 1) % (2 * q.size)
        }),
{
    let bytes = ram.read(q.used_addr + 2, 2)->Ok_0;
    law_read_gives_bytes(ram, q.used_addr + 2, 2);
    law_numbers_are_little_endian(bytes, 0);
    let before = digits(bytes, 0, 2);
    let head = le_bytes(i as nat, 4);
    let one = le_bytes(1, 4);
    let elem = head + one;
    law_bytes_add_up(i as nat, 4);
    law_bytes_add_up(1, 4);
    lemma_digits_of(elem, head, 0, 0, 4);
    lemma_digits_of(elem, one, 4, 0, 4);
    let place = q.used_addr + 4 + 8 * (before % q.size as int);
    let ram1 = ram.write(place, elem)->Ok_0;
    law_write_places_bytes(ram, place, elem);
    law_write_keeps_layout(ram, place, elem);
    let next = (before + 1) % (2 * q.size);
    let idx = le_bytes(next as nat, 2);
    law_bytes_add_up(next as nat, 2);
    law_write_places_bytes(ram1, q.used_addr + 2, idx);
    let after = ram1.write(q.used_addr + 2, idx)->Ok_0;
    lemma_holds_on(ram1, after, q.used_addr + 2, idx, place, elem);
    (elem, idx)
}

proof fn lemma_handed_back_keeps(ram: Ram, q: VirtQueue, i: u16, held: int, bytes: Seq<u8>)
    requires
        ram.wf(),
        q.size > 0,
        handed_back(ram, q, i).0 is Ok,
        holds(ram, held, bytes),
        held + bytes.len() <= q.used_addr + 2 || q.used_addr + 4 + 8 * q.size <= held,
    ensures
        holds(handed_back(ram, q, i).1, held, bytes),
{
    let seen = ram.read(q.used_addr + 2, 2)->Ok_0;
    law_read_gives_bytes(ram, q.used_addr + 2, 2);
    law_numbers_are_little_endian(seen, 0);
    let before = digits(seen, 0, 2);
    let elem = le_bytes(i as nat, 4) + le_bytes(1, 4);
    law_bytes_add_up(i as nat, 4);
    law_bytes_add_up(1, 4);
    let place = q.used_addr + 4 + 8 * (before % q.size as int);
    let ram1 = ram.write(place, elem)->Ok_0;
    law_write_keeps_layout(ram, place, elem);
    lemma_holds_on(ram, ram1, place, elem, held, bytes);
    let idx = le_bytes(((before + 1) % (q.size * 2)) as nat, 2);
    law_bytes_add_up(((before + 1) % (q.size * 2)) as nat, 2);
    let after = ram1.write(q.used_addr + 2, idx)->Ok_0;
    lemma_holds_on(ram1, after, q.used_addr + 2, idx, held, bytes);
}

/// A read that was served: the disk's bytes are where the guest asked for them,
/// and the status says success, where the data, the status and the used ring do
/// not overlap.
pub proof fn law_served_read(ram: Ram, q: VirtQueue, disk: Seq<u8>, req: BlockRequest)
    requires
        ram.wf(),
        q.size > 0,
        disk.len() <= usize::MAX,
        served(ram, q, disk, req).0 is Ok,
        req.req_type == 0,
        512 * req.sector + req.data_len <= disk.len(),
        req.data_addr + req.data_len <= req.status_addr || req.status_addr < req.data_addr,
        req.data_addr + req.data_len <= q.used_addr + 2 || q.used_addr + 4 + 8 * q.size <= req.data_addr,
        req.status_addr + 1 <= q.used_addr + 2 || q.used_addr + 4 + 8 * q.size <= req.status_addr,
    ensures
        holds(
            served(ram, q, disk, req).1,
            req.data_addr as int,
            Seq::new(req.data_len as nat, |k: int| disk[512 * req.sector + k]),
        ),
        holds(served(ram, q, disk, req).1, req.status_addr as int, seq![0u8]),
{
    let data = Seq::new(req.data_len as nat, |k: int| disk[512 * req.sector + k]);
    law_transfer(ram, disk, req);
    let (status, ram1) = transferred(ram, disk, req);
    assert(disk.subrange(req.sector * 512, req.sector * 512 + req.data_len) =~= data);
    law_write_keeps_layout(ram, req.data_addr as int, data);
    let byte = seq![0u8];
    let ram2 = ram1.write(req.status_addr as int, byte)->Ok_0;
    law_write_keeps_layout(ram1, req.status_addr as int, byte);
    law_write_places_bytes(ram1, req.status_addr as int, byte);
    lemma_holds_on(ram1, ram2, req.status_addr as int, byte, req.data_addr as int, data);
    lemma_handed_back_keeps(ram2, q, req.desc_idx, req.data_addr as int, data);
    lemma_handed_back_keeps(ram2, q, req.desc_idx, req.status_addr as int, byte);
}

/// The status of any request that was served lies at its status address, where
/// the used ring does not overlap it.
pub proof fn law_served_status(ram: Ram, q: VirtQueue, disk: Seq<u8>, req: BlockRequest)
    requires
        ram.wf(),
        q.size > 0,
        disk.len() <= usize::MAX,
        served(ram, q, disk, req).0 is Ok,
        req.status_addr + 1 <= q.used_addr + 2 || q.used_addr + 4 + 8 * q.size <= req.status_addr,
    ensures
        ({
            let status: u8 = if req.req_type == 0 || req.req_type == 1 {
                if 512 * req.sector + req.data_len <= disk.len() {
                    0
                } else {
                    1
                }
            } else if req.req_type == 4 {
                0
            } else {
                2
            };
            holds(served(ram, q, disk, req).1, req.status_addr as int, seq![status])
        }),
{
    law_transfer(ram, disk, req);
    let (status, ram1) = transferred(ram, disk, req);
    let data = disk.subrange(req.sector * 512, req.sector * 512 + req.data_len);
    law_write_keeps_layout(ram, req.data_addr as int, data);
    let byte = seq![status->Ok_0];
    let ram2 = ram1.write(req.status_addr as int, byte)->Ok_0;
    law_write_keeps_layout(ram1, req.status_addr as int, byte);
    law_write_places_bytes(ram1, req.status_addr as int, byte);
    lemma_handed_back_keeps(ram2, q, req.desc_idx, req.status_addr as int, byte);
}

/// When the queue is looked at: it must be ready and have its three parts, and
/// there must be a disk; then the next request is served.
pub proof fn law_queue_looked_at(ram: Ram, q: VirtQueue, disk: Option<Seq<u8>>)
    ensures
        ({
            let set_up = q.ready && q.desc_addr != 0 && q.avail_addr != 0 && q.used_addr != 0;
            let (r, after) = queue_processed(ram, q, disk);
            &&& !set_up ==> r is Ok && after == ram
            &&& set_up && disk is None ==> r == Err::<(), RequestError>(RequestError::NoDiskImage) && after
                == ram
            &&& set_up && disk is Some && r is Ok ==> {
                &&& next_descriptor(ram, q) matches Ok(i) && (request_at(ram, q, i) matches Ok(req) && (
                r,
                after,
            ) == served(ram, q, disk->0, req))
            }
        }),
{
}

proof fn lemma_register(offset: u64, v: u64, low: u32)
    ensures
        offset & 0xFFF == offset % 0x1000,
        v as u32 == v % 0x1_0000_0000,
        (v >> 32) as u32 == v / 0x1_0000_0000,
        with_low(v, low) == v / 0x1_0000_0000 * 0x1_0000_0000 + low,
        with_high(v, low) == v % 0x1_0000_0000 + low * 0x1_0000_0000,
        low as u16 == low % 0x1_0000,
        low as u8 == low % 0x100,
{
    lemma_bits(offset);
    lemma_bits(v);
    lemma_bits(low as u64);
    lemma_replaced(v, low);
}

/// What the registers read as: at each offset within a page the device's
/// identity, the half of its features that was selected, the largest queue,
/// whether the queue is ready, and the status; the number of whole sectors in
/// two halves; and zero elsewhere.
pub proof fn law_register_reads(d: VirtioBlockDevice, offset: u64)
    ensures
        ({
            let reg = offset % 0x1000;
            let r = register_read(d, offset);
            let sectors = d.disk_size / 512;
            &&& reg == 0 ==> r == 0x7472_6976
            &&& reg == 4 ==> r == 2
            &&& reg == 8 ==> r == 2
            &&& reg == 12 ==> r == 0x554D_4551
            &&& reg == 0x10 && d.device_features_sel == 0 ==> r == d.device_features % 0x1_0000_0000
            &&& reg == 0x10 && d.device_features_sel != 0 ==> r == d.device_features / 0x1_0000_0000
            &&& reg == 0x34 ==> r == 256
            &&& reg == 0x44 ==> r == (if d.queue.ready {
                1u32
            } else {
                0
            })
            &&& reg == 0x70 ==> r == d.status
            &&& offset == 0x100 ==> r == sectors % 0x1_0000_0000
            &&& offset == 0x104 ==> r == sectors / 0x1_0000_0000
            &&& reg != 0 && reg != 4 && reg != 8 && reg != 12 && reg != 0x10 && reg != 0x34 && reg != 0x44
                && reg != 0x70 && offset != 0x100 && offset != 0x104 ==> r == 0
        }),
{
    lemma_register(offset, d.device_features, 0);
    lemma_register(offset, (d.disk_size / 512) as u64, 0);
}

/// What writing a register changes: the half of an address or of the features
/// that the register is for, or the number that it holds; and nothing else.
pub proof fn law_register_writes(d: VirtioBlockDevice, offset: u64, value: u32)
    ensures
        ({
            let reg = offset % 0x1000;
            let w = register_written(d, offset, value);
            let q = d.queue;
            let high = value * 0x1_0000_0000;
            &&& w == (VirtioBlockDevice {
                device_features_sel: w.device_features_sel,
                driver_features: w.driver_features,
                driver_features_sel: w.driver_features_sel,
                queue_sel: w.queue_sel,
                queue: w.queue,
                status: w.status,
                ..d
            })
            &&& w.device_features_sel == (if reg == 0x14 {
                value
            } else {
                d.device_features_sel
            })
            &&& w.driver_features == (if reg == 0x20 && d.driver_features_sel == 0 {
                d.driver_features / 0x1_0000_0000 * 0x1_0000_0000 + value
            } else if reg == 0x20 {
                d.driver_features % 0x1_0000_0000 + high
            } else {
                d.driver_features as int
            })
            &&& w.driver_features_sel == (if reg == 0x24 {
                value
            } else {
                d.driver_features_sel
            })
            &&& w.queue_sel == (if reg == 0x30 {
                value as int % 0x1_0000
            } else {
                d.queue_sel as int
            })
            &&& w.queue.size == (if reg == 0x38 {
                value as int % 0x1_0000
            } else {
                q.size as int
            })
            &&& w.queue.ready == (if reg == 0x44 {
                value != 0
            } else {
                q.ready
            })
            &&& w.queue.desc_addr == (if reg == 0x80 {
                q.desc_addr / 0x1_0000_0000 * 0x1_0000_0000 + value
            } else if reg == 0x84 {
                q.desc_addr % 0x1_0000_0000 + high
            } else {
                q.desc_addr as int
            })
            &&& w.queue.avail_addr == (if reg == 0x90 {
                q.avail_addr / 0x1_0000_0000 * 0x1_0000_0000 + value
            } else if reg == 0x94 {
                q.avail_addr % 0x1_0000_0000 + high
            } else {
                q.avail_addr as int
            })
            &&& w.queue.used_addr == (if reg == 0xA0 {
                q.used_addr / 0x1_0000_0000 * 0x1_0000_0000 + value
            } else if reg == 0xA4 {
                q.used_addr % 0x1_0000_0000 + high
            } else {
                q.used_addr as int
            })
            &&& w.status == (if reg == 0x70 {
                value as int % 0x100
            } else {
                d.status as int
            })
            &&& notifies(d, offset, value) <==> reg == 0x50 && value as int % 0x1_0000 < q.size && q.ready
        }),
{
    lemma_register(offset, d.driver_features, value);
    lemma_register(offset, d.queue.desc_addr, value);
    lemma_register(offset, d.queue.avail_addr, value);
    lemma_register(offset, d.queue.used_addr, value);
}

/// So many bytes can be read at an address.
pub open spec fn gives(layout: Seq<RegionLayout>, gpa: int, n: int) -> bool {
    gpa <= u64::MAX && (find(layout, gpa) matches Some(k) && layout[k].perms.read && layout[k].mapped && gpa + n
        < layout[k].base + layout[k].size)
}

/// The next request is found exactly if the ring's index and the entry that it
/// names can be read.
pub proof fn law_next_request_found(ram: Ram, q: VirtQueue)
    requires
        ram.wf(),
        q.size > 0,
    ensures
        next_descriptor(ram, q) is Ok <==> gives(ram.layout, q.avail_addr + 2, 2) && gives(
            ram.layout,
            q.avail_addr + 4 + 2 * (digits(ram.read(q.avail_addr + 2, 2)->Ok_0, 0, 2) % q.size as int),
            2,
        ),
{
    law_access_succeeds(ram, q.avail_addr + 2, seq![0u8], 2);
    if ram.read(q.avail_addr + 2, 2) is Ok {
        let idx = ram.read(q.avail_addr + 2, 2)->Ok_0;
        law_read_gives_bytes(ram, q.avail_addr + 2, 2);
        law_numbers_are_little_endian(idx, 0);
        let at = q.avail_addr + 4 + 2 * (digits(idx, 0, 2) % q.size as int);
        law_access_succeeds(ram, at, seq![0u8], 2);
    }
}

/// A request is handed back exactly if the used ring's index can be read, the
/// element and the index can be written, and neither the index nor twice the
/// size goes beyond sixteen bits.
pub proof fn law_handed_back_accepted(ram: Ram, q: VirtQueue, i: u16)
    requires
        ram.wf(),
        q.size > 0,
    ensures
        ({
            let before = digits(ram.read(q.used_addr + 2, 2)->Ok_0, 0, 2);
            let at = q.used_addr + 4 + 8 * (before % q.size as int);
            handed_back(ram, q, i).0 is Ok <==> {
                &&& gives(ram.layout, q.used_addr + 2, 2)
                &&& at <= u64::MAX && takes(ram.layout, at, 8)
                &&& before + 1 <= 0xffff && 2 * q.size <= 0xffff
                &&& takes(ram.layout, q.used_addr + 2, 2)
            }
        }),
{
    law_access_succeeds(ram, q.used_addr + 2, seq![0u8], 2);
    if ram.read(q.used_addr + 2, 2) is Ok {
        let idx = ram.read(q.used_addr + 2, 2)->Ok_0;
        law_read_gives_bytes(ram, q.used_addr + 2, 2);
        law_numbers_are_little_endian(idx, 0);
        let before = digits(idx, 0, 2);
        let at = q.used_addr + 4 + 8 * (before % q.size as int);
        let elem = le_bytes(i as nat, 4) + le_bytes(1, 4);
        law_bytes_add_up(i as nat, 4);
        law_bytes_add_up(1, 4);
        assert(elem.len() == 8);
        law_access_succeeds(ram, at, elem, 1);
        if let Ok(ram1) = ram.write(at, elem) {
            law_write_keeps_layout(ram, at, elem);
            let v = ((before + 1) % (q.size * 2)) as nat;
            crate::byte_order::lemma_le_bytes_len(v, 2);
            law_access_succeeds(ram1, q.used_addr + 2, le_bytes(v, 2), 1);
        }
    }
}

/// A read of sectors that the disk has is served exactly if memory takes the data
/// and the status and the request can be handed back.
pub proof fn law_served_accepted(ram: Ram, q: VirtQueue, disk: Seq<u8>, req: BlockRequest)
    requires
        ram.wf(),
        q.size > 0,
        disk.len() <= usize::MAX,
        req.req_type == 0,
        req.data_len > 0,
        512 * req.sector + req.data_len <= disk.len(),
        takes(ram.layout, req.data_addr as int, req.data_len as int),
        takes(ram.layout, req.status_addr as int, 1),
    ensures
        ({
            let data = Seq::new(req.data_len as nat, |k: int| disk[512 * req.sector + k]);
            let ram1 = ram.write(req.data_addr as int, data)->Ok_0;
            let ram2 = ram1.write(req.status_addr as int, seq![0u8])->Ok_0;
            served(ram, q, disk, req) == handed_back(ram2, q, req.desc_idx)
        }),
{
    let data = Seq::new(req.data_len as nat, |k: int| disk[512 * req.sector + k]);
    let from = req.sector * 512;
    assert(disk.subrange(from, from + req.data_len) =~= data);
    law_access_succeeds(ram, req.data_addr as int, data, 1);
    let ram1 = ram.write(req.data_addr as int, data)->Ok_0;
    law_write_keeps_layout(ram, req.data_addr as int, data);
    law_access_succeeds(ram1, req.status_addr as int, seq![0u8], 1);
}

/// A request is made out exactly if its header and the three descriptors of its
/// chain can be read.
pub proof fn law_request_found(ram: Ram, q: VirtQueue, i: u16)
    requires
        ram.wf(),
    ensures
        ({
            let first = ram.read(q.desc_addr + 16 * i, 16)->Ok_0;
            let second = ram.read(q.desc_addr + 16 * digits(first, 14, 2), 16)->Ok_0;
            request_at(ram, q, i) is Ok <==> {
                &&& gives(ram.layout, q.desc_addr + 16 * i, 16)
                &&& gives(ram.layout, digits(first, 0, 8), 16)
                &&& gives(ram.layout, q.desc_addr + 16 * digits(first, 14, 2), 16)
                &&& gives(ram.layout, q.desc_addr + 16 * digits(second, 14, 2), 16)
            }
        }),
{
    let at = q.desc_addr + 16 * i;
    law_access_succeeds(ram, at, seq![0u8], 16);
    if ram.read(at, 16) is Ok {
        let first = ram.read(at, 16)->Ok_0;
        law_read_gives_bytes(ram, at, 16);
        law_numbers_are_little_endian(first, 0);
        law_numbers_are_little_endian(first, 14);
        law_access_succeeds(ram, digits(first, 0, 8), seq![0u8], 16);
        let next = q.desc_addr + 16 * digits(first, 14, 2);
        law_access_succeeds(ram, next, seq![0u8], 16);
        if ram.read(next, 16) is Ok {
            let second = ram.read(next, 16)->Ok_0;
            law_read_gives_bytes(ram, next, 16);
            law_numbers_are_little_endian(second, 14);
            law_access_succeeds(ram, q.desc_addr + 16 * digits(second, 14, 2), seq![0u8], 16);
        }
    }
}

/// A queue that is set up is served: the request that is next and can be made out
/// is the one that is served.
pub proof fn law_queue_served(ram: Ram, q: VirtQueue, disk: Seq<u8>, i: u16, req: BlockRequest)
    requires
        q.ready && q.desc_addr != 0 && q.avail_addr != 0 && q.used_addr != 0,
        next_descriptor(ram, q) == Ok::<u16, RequestError>(i),
        request_at(ram, q, i) == Ok::<BlockRequest, RequestError>(req),
    ensures
        queue_processed(ram, q, Some(disk)) == served(ram, q, disk, req),
{
}

} // verus!
