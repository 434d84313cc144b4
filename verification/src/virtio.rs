//! A small virtio block device that serves a disk image from memory.

use vstd::prelude::*;

use crate::byte_order::{encode_le, le_bytes, lemma_le_bytes_len, read_le_u16, read_le_u32, read_le_u64, resized};
use crate::linux_boot::{u16_at, u32_at, u64_at};
use crate::memory::memory::{
    find, law_read_after_write, lemma_find_from, GuestAddress, MemoryError, MemoryManager, Ram,
};

verus! {

/// Where the registers of the device are.
pub const VIRTIO_MMIO_BASE: u64 = 0x0A00_0000;

pub const VIRTIO_MMIO_SIZE: u64 = 0x200;

pub const VIRTIO_MAGIC: u32 = 0x7472_6976;

pub const VIRTIO_VERSION: u32 = 0x2;

pub const VIRTIO_DEVICE_ID_BLOCK: u32 = 0x2;

pub const VIRTIO_VENDOR_ID: u32 = 0x554D_4551;

pub const VIRTIO_MMIO_MAGIC_VALUE: u64 = 0x000;

pub const VIRTIO_MMIO_VERSION: u64 = 0x004;

pub const VIRTIO_MMIO_DEVICE_ID: u64 = 0x008;

pub const VIRTIO_MMIO_VENDOR_ID: u64 = 0x00C;

pub const VIRTIO_MMIO_DEVICE_FEATURES: u64 = 0x010;

pub const VIRTIO_MMIO_DEVICE_FEATURES_SEL: u64 = 0x014;

pub const VIRTIO_MMIO_DRIVER_FEATURES: u64 = 0x020;

pub const VIRTIO_MMIO_DRIVER_FEATURES_SEL: u64 = 0x024;

pub const VIRTIO_MMIO_QUEUE_SEL: u64 = 0x030;

pub const VIRTIO_MMIO_QUEUE_NUM_MAX: u64 = 0x034;

pub const VIRTIO_MMIO_QUEUE_NUM: u64 = 0x038;

pub const VIRTIO_MMIO_QUEUE_READY: u64 = 0x044;

pub const VIRTIO_MMIO_QUEUE_NOTIFY: u64 = 0x050;

pub const VIRTIO_MMIO_STATUS: u64 = 0x070;

pub const VIRTIO_MMIO_QUEUE_DESC_LOW: u64 = 0x080;

pub const VIRTIO_MMIO_QUEUE_DESC_HIGH: u64 = 0x084;

pub const VIRTIO_MMIO_QUEUE_AVAIL_LOW: u64 = 0x090;

pub const VIRTIO_MMIO_QUEUE_AVAIL_HIGH: u64 = 0x094;

pub const VIRTIO_MMIO_QUEUE_USED_LOW: u64 = 0x0A0;

pub const VIRTIO_MMIO_QUEUE_USED_HIGH: u64 = 0x0A4;

pub const VIRTIO_MMIO_CONFIG: u64 = 0x100;

/// The high half of the capacity, in the configuration.
pub const VIRTIO_MMIO_CONFIG_HIGH: u64 = 0x104;

/// Flushing, and a block size.
pub const DEVICE_FEATURES: u64 = 0x240;

pub const VIRTIO_BLK_T_IN: u32 = 0;

pub const VIRTIO_BLK_T_OUT: u32 = 1;

pub const VIRTIO_BLK_T_FLUSH: u32 = 4;

pub const VIRTIO_BLK_S_OK: u8 = 0;

pub const VIRTIO_BLK_S_IOERR: u8 = 1;

pub const VIRTIO_BLK_S_UNSUPP: u8 = 2;

/// The size of a request's header: its type, four unused bytes and its sector.
pub const REQUEST_HEADER_SIZE: usize = 16;

/// Why a request could not be served.
#[derive(Clone, Copy, Debug, PartialEq, Eq, Structural)]
pub enum RequestError {
    NoDiskImage,
    Memory(MemoryError),
    /// A number that the guest gave is too large to count with.
    Overflow,
}

/// Where a queue lies.
#[derive(Clone, Copy, Debug, PartialEq, Eq, Structural)]
pub struct VirtQueue {
    pub desc_addr: u64,
    pub avail_addr: u64,
    pub used_addr: u64,
    pub size: u16,
    pub ready: bool,
}

/// A request of the guest.
#[derive(Clone, Copy, Debug, PartialEq, Eq, Structural)]
pub struct BlockRequest {
    /// The descriptor that it starts at.
    pub desc_idx: u16,
    pub req_type: u32,
    pub sector: u64,
    pub data_addr: u64,
    pub data_len: u32,
    pub status_addr: u64,
}

/// The type and the sector that the header of a request holds.
pub open spec fn header_fields(header: Seq<u8>) -> (u32, u64) {
    (u32_at(header, 0), u64_at(header, 8))
}

/// The sum of two addresses, if it is one.
pub open spec fn sum(a: int, b: int) -> Result<u64, RequestError> {
    if a + b > u64::MAX {
        Err(RequestError::Overflow)
    } else {
        Ok((a + b) as u64)
    }
}

/// The `n` bytes at the sum of two addresses.
pub open spec fn fetch(ram: Ram, base: int, offset: int, n: int) -> Result<Seq<u8>, RequestError> {
    match sum(base, offset) {
        Err(e) => Err(e),
        Ok(addr) => match ram.read(addr as int, n) {
            Ok(bytes) => Ok(bytes),
            Err(e) => Err(RequestError::Memory(e)),
        },
    }
}

/// The descriptor that the available ring points to: the entry at the ring's
/// own index.
pub open spec fn next_descriptor(ram: Ram, q: VirtQueue) -> Result<u16, RequestError> {
    match fetch(ram, q.avail_addr as int, 2, 2) {
        Err(e) => Err(e),
        Ok(idx) => match fetch(
            ram,
            q.avail_addr + 2,
            2 + u16_at(idx, 0) as int % q.size as int * 2,
            2,
        ) {
            Err(e) => Err(e),
            Ok(entry) => Ok(u16_at(entry, 0)),
        },
    }
}

/// A descriptor of the table.
pub open spec fn descriptor(ram: Ram, q: VirtQueue, i: u16) -> Result<Seq<u8>, RequestError> {
    fetch(ram, q.desc_addr as int, i * 16, 16)
}

/// The request that a chain of three descriptors makes up: its header, its data
/// and its status.
pub open spec fn request_at(ram: Ram, q: VirtQueue, desc_idx: u16) -> Result<BlockRequest, RequestError> {
    match descriptor(ram, q, desc_idx) {
        Err(e) => Err(e),
        Ok(desc) => match fetch(ram, u64_at(desc, 0) as int, 0, REQUEST_HEADER_SIZE as int) {
            Err(e) => Err(e),
            Ok(header) => match descriptor(ram, q, u16_at(desc, 14)) {
                Err(e) => Err(e),
                Ok(data_desc) => match descriptor(ram, q, u16_at(data_desc, 14)) {
                    Err(e) => Err(e),
                    Ok(status_desc) => Ok(
                        BlockRequest {
                            desc_idx,
                            req_type: header_fields(header).0,
                            sector: header_fields(header).1,
                            data_addr: u64_at(data_desc, 0),
                            data_len: u32_at(data_desc, 8),
                            status_addr: u64_at(status_desc, 0),
                        },
                    ),
                },
            },
        },
    }
}

/// Serving a request from a disk image: the status, or an error, and memory
/// with the data of a read in it. The data of a write is read and dropped.
pub open spec fn transferred(ram: Ram, disk: Seq<u8>, req: BlockRequest) -> (Result<u8, RequestError>, Ram) {
    let offset = req.sector * 512;
    if req.req_type == VIRTIO_BLK_T_IN || req.req_type == VIRTIO_BLK_T_OUT {
        if offset + req.data_len > usize::MAX || offset > u64::MAX {
            (Err(RequestError::Overflow), ram)
        } else if offset + req.data_len > disk.len() {
            (Ok(VIRTIO_BLK_S_IOERR), ram)
        } else if req.req_type == VIRTIO_BLK_T_IN {
            match ram.write(req.data_addr as int, disk.subrange(offset, offset + req.data_len)) {
                Ok(after) => (Ok(VIRTIO_BLK_S_OK), after),
                Err(e) => (Err(RequestError::Memory(e)), ram),
            }
        } else {
            match ram.read(req.data_addr as int, req.data_len as int) {
                Ok(_) => (Ok(VIRTIO_BLK_S_OK), ram),
                Err(e) => (Err(RequestError::Memory(e)), ram),
            }
        }
    } else if req.req_type == VIRTIO_BLK_T_FLUSH {
        (Ok(VIRTIO_BLK_S_OK), ram)
    } else {
        (Ok(VIRTIO_BLK_S_UNSUPP), ram)
    }
}

/// Writing to memory.
pub open spec fn stored(ram: Ram, addr: int, data: Seq<u8>) -> (Result<(), RequestError>, Ram) {
    match ram.write(addr, data) {
        Ok(after) => (Ok(()), after),
        Err(e) => (Err(RequestError::Memory(e)), ram),
    }
}

/// Handing a request back: an element with its first descriptor in the used
/// ring, and the ring's index moved on. The index counts to twice the size of
/// the queue.
pub open spec fn handed_back(ram: Ram, q: VirtQueue, desc_idx: u16) -> (Result<(), RequestError>, Ram) {
    match fetch(ram, q.used_addr as int, 2, 2) {
        Err(e) => (Err(e), ram),
        Ok(bytes) => {
            let used_idx = u16_at(bytes, 0);
            match sum(q.used_addr + 2, 2 + used_idx as int % q.size as int * 8) {
                Err(e) => (Err(e), ram),
                Ok(elem_addr) => {
                    let (r, ram1) = stored(
                        ram,
                        elem_addr as int,
                        le_bytes(desc_idx as nat, 4) + le_bytes(1, 4),
                    );
                    if r is Err {
                        (r, ram1)
                    } else if used_idx + 1 > u16::MAX || q.size * 2 > u16::MAX {
                        (Err(RequestError::Overflow), ram1)
                    } else {
                        stored(
                            ram1,
                            q.used_addr + 2,
                            le_bytes(((used_idx + 1) % (q.size * 2)) as nat, 2),
                        )
                    }
                },
            }
        },
    }
}

/// Serving a request: the data is moved, the status written and the request
/// handed back.
pub open spec fn served(ram: Ram, q: VirtQueue, disk: Seq<u8>, req: BlockRequest) -> (
    Result<(), RequestError>,
    Ram,
) {
    let (status, ram1) = transferred(ram, disk, req);
    match status {
        Err(e) => (Err(e), ram1),
        Ok(s) => {
            let (r, ram2) = stored(ram1, req.status_addr as int, seq![s]);
            match r {
                Err(e) => (Err(e), ram2),
                Ok(()) => handed_back(ram2, q, req.desc_idx),
            }
        },
    }
}

/// Serving the next request of the queue, if the queue is set up.
pub open spec fn queue_processed(ram: Ram, q: VirtQueue, disk: Option<Seq<u8>>) -> (
    Result<(), RequestError>,
    Ram,
) {
    if !q.ready || q.desc_addr == 0 || q.avail_addr == 0 || q.used_addr == 0 {
        (Ok(()), ram)
    } else {
        match disk {
            None => (Err(RequestError::NoDiskImage), ram),
            Some(disk) => match next_descriptor(ram, q) {
                Err(e) => (Err(e), ram),
                Ok(desc_idx) => match request_at(ram, q, desc_idx) {
                    Err(e) => (Err(e), ram),
                    Ok(req) => served(ram, q, disk, req),
                },
            },
        }
    }
}

/// Reads guest memory at the sum of two addresses.
fn read_memory_gpa(mem: &MemoryManager, base: u64, offset: u64, size: usize) -> (r: Result<
    Vec<u8>,
    RequestError,
>)
    requires
        mem.wf(),
    ensures
        match fetch(mem.ram(), base as int, offset as int, size as int) {
            Ok(bytes) => r matches Ok(v) && v@ == bytes && bytes.len() == size,
            Err(e) => r matches Err(f) && f == e,
        },
{
    let addr: u64 = match base.checked_add(offset) {
        Some(addr) => addr,
        None => {
            return Err(RequestError::Overflow);
        },
    };
    proof {
        mem.lemma_ram_wf();
        lemma_find_from(mem.ram().layout, addr as int, 0);
    }
    match mem.read_guest_memory(GuestAddress(addr), size) {
        Ok(bytes) => Ok(bytes),
        Err(e) => Err(RequestError::Memory(e)),
    }
}

/// Reads a 16-bit number at the sum of two addresses.
fn read_memory_u16_gpa(mem: &MemoryManager, base: u64, offset: u64) -> (r: Result<u16, RequestError>)
    requires
        mem.wf(),
    ensures
        match fetch(mem.ram(), base as int, offset as int, 2) {
            Ok(bytes) => r matches Ok(v) && v == u16_at(bytes, 0),
            Err(e) => r matches Err(f) && f == e,
        },
{
    match read_memory_gpa(mem, base, offset, 2) {
        Ok(bytes) => {
            assert(bytes@.subrange(0, 2) =~= bytes@);
            assert(resized(bytes@, 2) =~= bytes@);
            Ok(read_le_u16(bytes.as_slice()))
        },
        Err(e) => Err(e),
    }
}

/// Writes to guest memory.
fn write_memory_gpa(mem: &mut MemoryManager, addr: u64, data: &[u8]) -> (r: Result<(), RequestError>)
    requires
        old(mem).wf(),
    ensures
        final(mem).wf(),
        final(mem).same_but_bytes(*old(mem)),
        (r, final(mem).ram()) == stored(old(mem).ram(), addr as int, data@),
{
    proof {
        lemma_find_from(mem.ram().layout, addr as int, 0);
    }
    match mem.write_guest_memory(data, GuestAddress(addr)) {
        Ok(()) => Ok(()),
        Err(e) => Err(RequestError::Memory(e)),
    }
}

/// Reads the type and the sector of a request.
fn parse_header(header: &[u8]) -> (r: (u32, u64))
    requires
        header@.len() == REQUEST_HEADER_SIZE,
    ensures
        r == header_fields(header@),
{
    let type_bytes = &header[0..4];
    assert(resized(type_bytes@, 4) =~= type_bytes@);
    let sector_bytes = &header[8..16];
    assert(resized(sector_bytes@, 8) =~= sector_bytes@);
    (read_le_u32(type_bytes), read_le_u64(sector_bytes))
}

/// The address in a descriptor.
fn descriptor_addr(desc: &Vec<u8>) -> (r: u64)
    requires
        desc@.len() == 16,
    ensures
        r == u64_at(desc@, 0),
{
    let part = &desc.as_slice()[0..8];
    assert(resized(part@, 8) =~= part@);
    read_le_u64(part)
}

/// The length in a descriptor.
fn descriptor_len(desc: &Vec<u8>) -> (r: u32)
    requires
        desc@.len() == 16,
    ensures
        r == u32_at(desc@, 8),
{
    let part = &desc.as_slice()[8..12];
    assert(resized(part@, 4) =~= part@);
    read_le_u32(part)
}

/// The next descriptor after one.
fn descriptor_next(desc: &Vec<u8>) -> (r: u16)
    requires
        desc@.len() == 16,
    ensures
        r == u16_at(desc@, 14),
{
    let part = &desc.as_slice()[14..16];
    assert(resized(part@, 2) =~= part@);
    read_le_u16(part)
}

/// The device.
#[derive(Debug)]
pub struct VirtioBlockDevice {
    pub device_features: u64,
    pub driver_features: u64,
    pub device_features_sel: u32,
    pub driver_features_sel: u32,
    pub status: u8,
    pub queue_sel: u16,
    pub queue: VirtQueue,
    pub disk_image: Option<Vec<u8>>,
    pub disk_size: u64,
}

/// `v` with its low half replaced.
pub open spec fn with_low(v: u64, low: u32) -> u64 {
    (v & 0xFFFF_FFFF_0000_0000) | (low as u64)
}

/// `v` with its high half replaced.
pub open spec fn with_high(v: u64, high: u32) -> u64 {
    (v & 0xFFFF_FFFF) | ((high as u64) << 32)
}

/// What a register reads as. The configuration holds the capacity in sectors,
/// in two halves.
pub open spec fn register_read(d: VirtioBlockDevice, offset: u64) -> u32 {
    let reg = offset & 0xFFF;
    if reg == VIRTIO_MMIO_MAGIC_VALUE {
        VIRTIO_MAGIC
    } else if reg == VIRTIO_MMIO_VERSION {
        VIRTIO_VERSION
    } else if reg == VIRTIO_MMIO_DEVICE_ID {
        VIRTIO_DEVICE_ID_BLOCK
    } else if reg == VIRTIO_MMIO_VENDOR_ID {
        VIRTIO_VENDOR_ID
    } else if reg == VIRTIO_MMIO_DEVICE_FEATURES {
        if d.device_features_sel == 0 {
            d.device_features as u32
        } else {
            (d.device_features >> 32) as u32
        }
    } else if reg == VIRTIO_MMIO_QUEUE_NUM_MAX {
        256
    } else if reg == VIRTIO_MMIO_QUEUE_READY {
        if d.queue.ready {
            1
        } else {
            0
        }
    } else if reg == VIRTIO_MMIO_STATUS {
        d.status as u32
    } else if offset == VIRTIO_MMIO_CONFIG {
        (d.disk_size / 512) as u32
    } else if offset == VIRTIO_MMIO_CONFIG_HIGH {
        ((d.disk_size / 512) >> 32) as u32
    } else {
        0
    }
}

/// The device after a write to a register, but for a notification.
pub open spec fn register_written(d: VirtioBlockDevice, offset: u64, value: u32) -> VirtioBlockDevice {
    let reg = offset & 0xFFF;
    let q = d.queue;
    if reg == VIRTIO_MMIO_DEVICE_FEATURES_SEL {
        VirtioBlockDevice { device_features_sel: value, ..d }
    } else if reg == VIRTIO_MMIO_DRIVER_FEATURES {
        VirtioBlockDevice {
            driver_features: if d.driver_features_sel == 0 {
                with_low(d.driver_features, value)
            } else {
                with_high(d.driver_features, value)
            },
            ..d
        }
    } else if reg == VIRTIO_MMIO_DRIVER_FEATURES_SEL {
        VirtioBlockDevice { driver_features_sel: value, ..d }
    } else if reg == VIRTIO_MMIO_QUEUE_SEL {
        VirtioBlockDevice { queue_sel: value as u16, ..d }
    } else if reg == VIRTIO_MMIO_QUEUE_NUM {
        VirtioBlockDevice { queue: VirtQueue { size: value as u16, ..q }, ..d }
    } else if reg == VIRTIO_MMIO_QUEUE_READY {
        VirtioBlockDevice { queue: VirtQueue { ready: value != 0, ..q }, ..d }
    } else if reg == VIRTIO_MMIO_QUEUE_DESC_LOW {
        VirtioBlockDevice { queue: VirtQueue { desc_addr: with_low(q.desc_addr, value), ..q }, ..d }
    } else if reg == VIRTIO_MMIO_QUEUE_DESC_HIGH {
        VirtioBlockDevice { queue: VirtQueue { desc_addr: with_high(q.desc_addr, value), ..q }, ..d }
    } else if reg == VIRTIO_MMIO_QUEUE_AVAIL_LOW {
        VirtioBlockDevice { queue: VirtQueue { avail_addr: with_low(q.avail_addr, value), ..q }, ..d }
    } else if reg == VIRTIO_MMIO_QUEUE_AVAIL_HIGH {
        VirtioBlockDevice { queue: VirtQueue { avail_addr: with_high(q.avail_addr, value), ..q }, ..d }
    } else if reg == VIRTIO_MMIO_QUEUE_USED_LOW {
        VirtioBlockDevice { queue: VirtQueue { used_addr: with_low(q.used_addr, value), ..q }, ..d }
    } else if reg == VIRTIO_MMIO_QUEUE_USED_HIGH {
        VirtioBlockDevice { queue: VirtQueue { used_addr: with_high(q.used_addr, value), ..q }, ..d }
    } else if reg == VIRTIO_MMIO_STATUS {
        VirtioBlockDevice { status: value as u8, ..d }
    } else {
        d
    }
}

/// A write that makes the device look at its queue.
pub open spec fn notifies(d: VirtioBlockDevice, offset: u64, value: u32) -> bool {
    offset & 0xFFF == VIRTIO_MMIO_QUEUE_NOTIFY && (value as u16) < d.queue.size && d.queue.ready
}

impl VirtioBlockDevice {
    /// The contents of the disk.
    pub open spec fn disk(self) -> Option<Seq<u8>> {
        match self.disk_image {
            Some(image) => Some(image@),
            None => None,
        }
    }

    pub fn new(disk_size: u64) -> (r: Self)
        ensures
            r == (VirtioBlockDevice {
                device_features: DEVICE_FEATURES,
                driver_features: 0,
                device_features_sel: 0,
                driver_features_sel: 0,
                status: 0,
                queue_sel: 0,
                queue: VirtQueue { desc_addr: 0, avail_addr: 0, used_addr: 0, size: 0, ready: false },
                disk_image: None,
                disk_size,
            }),
    {
        VirtioBlockDevice {
            device_features: DEVICE_FEATURES,
            driver_features: 0,
            device_features_sel: 0,
            driver_features_sel: 0,
            status: 0,
            queue_sel: 0,
            queue: VirtQueue { desc_addr: 0, avail_addr: 0, used_addr: 0, size: 0, ready: false },
            disk_image: None,
            disk_size,
        }
    }

    /// Puts a disk image into the device. The disk is as large as the image.
    pub fn set_disk_image(&mut self, image: Vec<u8>)
        ensures
            *final(self) == (VirtioBlockDevice {
                disk_image: Some(image),
                disk_size: image@.len() as u64,
                ..*old(self)
            }),
    {
        self.disk_size = image.len() as u64;
        self.disk_image = Some(image);
    }

    /// Reads a register.
    pub fn handle_mmio_read(&self, offset: u64) -> (r: u32)
        ensures
            r == register_read(*self, offset),
    {
        assert(0x100u64 & 0xFFF == 0x100 && 0x104u64 & 0xFFF == 0x104) by (bit_vector);
        match offset & 0xFFF {
            VIRTIO_MMIO_MAGIC_VALUE => VIRTIO_MAGIC,
            VIRTIO_MMIO_VERSION => VIRTIO_VERSION,
            VIRTIO_MMIO_DEVICE_ID => VIRTIO_DEVICE_ID_BLOCK,
            VIRTIO_MMIO_VENDOR_ID => VIRTIO_VENDOR_ID,
            VIRTIO_MMIO_DEVICE_FEATURES => {
                if self.device_features_sel == 0 {
                    self.device_features as u32
                } else {
                    (self.device_features >> 32) as u32
                }
            },
            VIRTIO_MMIO_QUEUE_NUM_MAX => 256,
            VIRTIO_MMIO_QUEUE_READY => {
                if self.queue.ready {
                    1
                } else {
                    0
                }
            },
            VIRTIO_MMIO_STATUS => self.status as u32,
            VIRTIO_MMIO_CONFIG if offset == VIRTIO_MMIO_CONFIG => (self.disk_size / 512) as u32,
            VIRTIO_MMIO_CONFIG_HIGH if offset == VIRTIO_MMIO_CONFIG_HIGH => ((self.disk_size / 512)
                >> 32) as u32,
            _ => 0,
        }
    }

    /// Writes a register. A notification makes the device serve a request.
    pub fn handle_mmio_write(&mut self, offset: u64, value: u32, mem: &mut MemoryManager) -> (r: Result<
        (),
        RequestError,
    >)
        requires
            old(mem).wf(),
        ensures
            final(mem).wf(),
            final(mem).same_but_bytes(*old(mem)),
            *final(self) == register_written(*old(self), offset, value),
            if notifies(*old(self), offset, value) {
                (r, final(mem).ram()) == queue_processed(
                    old(mem).ram(),
                    old(self).queue,
                    old(self).disk(),
                )
            } else {
                r is Ok && final(mem).ram() == old(mem).ram()
            },
    {
        let wide: u64 = value as u64;
        match offset & 0xFFF {
            VIRTIO_MMIO_DEVICE_FEATURES_SEL => {
                self.device_features_sel = value;
            },
            VIRTIO_MMIO_DRIVER_FEATURES => {
                if self.driver_features_sel == 0 {
                    self.driver_features = (self.driver_features & 0xFFFF_FFFF_0000_0000) | wide;
                } else {
                    self.driver_features = (self.driver_features & 0xFFFF_FFFF) | (wide << 32);
                }
            },
            VIRTIO_MMIO_DRIVER_FEATURES_SEL => {
                self.driver_features_sel = value;
            },
            VIRTIO_MMIO_QUEUE_SEL => {
                self.queue_sel = value as u16;
            },
            VIRTIO_MMIO_QUEUE_NUM => {
                self.queue.size = value as u16;
            },
            VIRTIO_MMIO_QUEUE_READY => {
                self.queue.ready = value != 0;
            },
            VIRTIO_MMIO_QUEUE_DESC_LOW => {
                self.queue.desc_addr = (self.queue.desc_addr & 0xFFFF_FFFF_0000_0000) | wide;
            },
            VIRTIO_MMIO_QUEUE_DESC_HIGH => {
                self.queue.desc_addr = (self.queue.desc_addr & 0xFFFF_FFFF) | (wide << 32);
            },
            VIRTIO_MMIO_QUEUE_AVAIL_LOW => {
                self.queue.avail_addr = (self.queue.avail_addr & 0xFFFF_FFFF_0000_0000) | wide;
            },
            VIRTIO_MMIO_QUEUE_AVAIL_HIGH => {
                self.queue.avail_addr = (self.queue.avail_addr & 0xFFFF_FFFF) | (wide << 32);
            },
            VIRTIO_MMIO_QUEUE_USED_LOW => {
                self.queue.used_addr = (self.queue.used_addr & 0xFFFF_FFFF_0000_0000) | wide;
            },
            VIRTIO_MMIO_QUEUE_USED_HIGH => {
                self.queue.used_addr = (self.queue.used_addr & 0xFFFF_FFFF) | (wide << 32);
            },
            VIRTIO_MMIO_QUEUE_NOTIFY => {
                if (value as u16) < self.queue.size && self.queue.ready {
                    return self.process_queue(mem);
                }
            },
            VIRTIO_MMIO_STATUS => {
                self.status = value as u8;
            },
            _ => {},
        }
        Ok(())
    }

    /// Serves the next request of the queue, if the queue is set up.
    fn process_queue(&self, mem: &mut MemoryManager) -> (r: Result<(), RequestError>)
        requires
            old(mem).wf(),
            self.queue.size > 0,
        ensures
            final(mem).wf(),
            final(mem).same_but_bytes(*old(mem)),
            (r, final(mem).ram()) == queue_processed(old(mem).ram(), self.queue, self.disk()),
    {
        let queue = self.queue;
        if !queue.ready || queue.desc_addr == 0 || queue.avail_addr == 0 || queue.used_addr == 0 {
            return Ok(());
        }
        let disk = match &self.disk_image {
            Some(disk) => disk,
            None => {
                return Err(RequestError::NoDiskImage);
            },
        };
        let avail_idx: u16 = match read_memory_u16_gpa(mem, queue.avail_addr, 2) {
            Ok(v) => v,
            Err(e) => {
                return Err(e);
            },
        };
        let ring_offset: u64 = 2 + (avail_idx as u64 % queue.size as u64) * 2;
        let desc_idx: u16 = match read_memory_u16_gpa(mem, queue.avail_addr + 2, ring_offset) {
            Ok(v) => v,
            Err(e) => {
                return Err(e);
            },
        };
        match Self::read_request(mem, &queue, desc_idx) {
            Ok(request) => Self::serve_request(mem, &queue, disk, &request),
            Err(e) => Err(e),
        }
    }

    /// Reads a request of the guest.
    pub fn read_request(mem: &MemoryManager, queue: &VirtQueue, desc_idx: u16) -> (r: Result<
        BlockRequest,
        RequestError,
    >)
        requires
            mem.wf(),
        ensures
            r == request_at(mem.ram(), *queue, desc_idx),
    {
        let desc = match read_memory_gpa(mem, queue.desc_addr, desc_idx as u64 * 16, 16) {
            Ok(v) => v,
            Err(e) => {
                return Err(e);
            },
        };
        let header = match read_memory_gpa(mem, descriptor_addr(&desc), 0, REQUEST_HEADER_SIZE) {
            Ok(v) => v,
            Err(e) => {
                return Err(e);
            },
        };
        let (req_type, sector): (u32, u64) = parse_header(header.as_slice());
        let next: u64 = descriptor_next(&desc) as u64;
        let data_desc = match read_memory_gpa(mem, queue.desc_addr, next * 16, 16) {
            Ok(v) => v,
            Err(e) => {
                return Err(e);
            },
        };
        let last: u64 = descriptor_next(&data_desc) as u64;
        let status_desc = match read_memory_gpa(mem, queue.desc_addr, last * 16, 16) {
            Ok(v) => v,
            Err(e) => {
                return Err(e);
            },
        };
        Ok(
            BlockRequest {
                desc_idx,
                req_type,
                sector,
                data_addr: descriptor_addr(&data_desc),
                data_len: descriptor_len(&data_desc),
                status_addr: descriptor_addr(&status_desc),
            },
        )
    }

    /// Moves the data of a request. Gives its status.
    fn transfer(mem: &mut MemoryManager, disk: &Vec<u8>, request: &BlockRequest) -> (r: Result<
        u8,
        RequestError,
    >)
        requires
            old(mem).wf(),
        ensures
            final(mem).wf(),
            final(mem).same_but_bytes(*old(mem)),
            (r, final(mem).ram()) == transferred(old(mem).ram(), disk@, *request),
    {
        match request.req_type {
            VIRTIO_BLK_T_IN | VIRTIO_BLK_T_OUT => {
                let offset: u64 = match request.sector.checked_mul(512) {
                    Some(offset) => offset,
                    None => {
                        return Err(RequestError::Overflow);
                    },
                };
                let end: u64 = match offset.checked_add(request.data_len as u64) {
                    Some(end) => end,
                    None => {
                        return Err(RequestError::Overflow);
                    },
                };
                if end > usize::MAX as u64 {
                    return Err(RequestError::Overflow);
                }
                if end > disk.len() as u64 {
                    return Ok(VIRTIO_BLK_S_IOERR);
                }
                if request.req_type == VIRTIO_BLK_T_IN {
                    let data = &disk.as_slice()[offset as usize..end as usize];
                    match write_memory_gpa(mem, request.data_addr, data) {
                        Ok(()) => Ok(VIRTIO_BLK_S_OK),
                        Err(e) => Err(e),
                    }
                } else {
                    match read_memory_gpa(mem, request.data_addr, 0, request.data_len as usize) {
                        Ok(_) => Ok(VIRTIO_BLK_S_OK),
                        Err(e) => Err(e),
                    }
                }
            },
            VIRTIO_BLK_T_FLUSH => Ok(VIRTIO_BLK_S_OK),
            _ => Ok(VIRTIO_BLK_S_UNSUPP),
        }
    }

    /// Serves a request: moves its data, writes its status and hands it back.
    pub fn serve_request(
        mem: &mut MemoryManager,
        queue: &VirtQueue,
        disk: &Vec<u8>,
        request: &BlockRequest,
    ) -> (r: Result<(), RequestError>)
        requires
            old(mem).wf(),
            queue.size > 0,
        ensures
            final(mem).wf(),
            final(mem).same_but_bytes(*old(mem)),
            (r, final(mem).ram()) == served(old(mem).ram(), *queue, disk@, *request),
    {
        let status: u8 = match Self::transfer(mem, disk, request) {
            Ok(status) => status,
            Err(e) => {
                return Err(e);
            },
        };
        let byte: Vec<u8> = vec![status];
        assert(byte@ =~= seq![status]);
        match write_memory_gpa(mem, request.status_addr, byte.as_slice()) {
            Ok(()) => {},
            Err(e) => {
                return Err(e);
            },
        }
        let used_idx: u16 = match read_memory_u16_gpa(mem, queue.used_addr, 2) {
            Ok(v) => v,
            Err(e) => {
                return Err(e);
            },
        };
        let used_idx_addr: u64 = queue.used_addr + 2;
        let elem_offset: u64 = 2 + (used_idx as u64 % queue.size as u64) * 8;
        let elem_addr: u64 = match used_idx_addr.checked_add(elem_offset) {
            Some(addr) => addr,
            None => {
                return Err(RequestError::Overflow);
            },
        };
        let mut elem = encode_le(request.desc_idx as u64, 4);
        let mut written = encode_le(1, 4);
        elem.append(&mut written);
        proof {
            lemma_le_bytes_len(request.desc_idx as nat, 4);
            lemma_le_bytes_len(1, 4);
        }
        match write_memory_gpa(mem, elem_addr, elem.as_slice()) {
            Ok(()) => {},
            Err(e) => {
                return Err(e);
            },
        }
        if used_idx == u16::MAX || queue.size > 0x7FFF {
            return Err(RequestError::Overflow);
        }
        let new_used_idx: u16 = (used_idx + 1) % (queue.size * 2);
        let index = encode_le(new_used_idx as u64, 2);
        proof {
            lemma_le_bytes_len(new_used_idx as nat, 2);
        }
        write_memory_gpa(mem, used_idx_addr, index.as_slice())
    }
}

/// A read that succeeds puts the bytes of the disk where the guest asked for
/// them.
pub proof fn law_read_delivers_disk(ram: Ram, disk: Seq<u8>, req: BlockRequest)
    requires
        ram.wf(),
        req.req_type == VIRTIO_BLK_T_IN,
        transferred(ram, disk, req).0 == Ok::<u8, RequestError>(VIRTIO_BLK_S_OK),
        find(ram.layout, req.data_addr as int) matches Some(k) && ram.layout[k].perms.read,
    ensures
        transferred(ram, disk, req).1.read(req.data_addr as int, req.data_len as int) == Ok::<
            Seq<u8>,
            MemoryError,
        >(disk.subrange(req.sector * 512, req.sector * 512 + req.data_len)),
{
    let data = disk.subrange(req.sector * 512, req.sector * 512 + req.data_len);
    law_read_after_write(ram, req.data_addr as int, data);
}

/// Only a read changes memory when its data is moved.
pub proof fn law_only_reads_change_memory(ram: Ram, disk: Seq<u8>, req: BlockRequest)
    ensures
        req.req_type != VIRTIO_BLK_T_IN ==> transferred(ram, disk, req).1 == ram,
        transferred(ram, disk, req).0 != Ok::<u8, RequestError>(VIRTIO_BLK_S_OK) ==> transferred(
            ram,
            disk,
            req,
        ).1 == ram,
{
}

proof fn lemma_halves(v: u64, low: u32, high: u32)
    by (bit_vector)
    ensures
        (((v & 0xFFFF_FFFF_0000_0000) | (low as u64)) & 0xFFFF_FFFF) | ((high as u64) << 32) == ((
        high as u64) << 32) | (low as u64),
        (((v & 0xFFFF_FFFF) | ((high as u64) << 32)) & 0xFFFF_FFFF_0000_0000) | (low as u64) == ((
        high as u64) << 32) | (low as u64),
{
}

/// An address that is written in two halves is put together from them, in
/// either order.
pub proof fn law_halves(v: u64, low: u32, high: u32)
    ensures
        with_high(with_low(v, low), high) == ((high as u64) << 32) | (low as u64),
        with_low(with_high(v, high), low) == ((high as u64) << 32) | (low as u64),
{
    lemma_halves(v, low, high);
}

proof fn lemma_capacity_halves(sectors: u64)
    by (bit_vector)
    ensures
        (((sectors >> 32) as u32) as u64) << 32 | ((sectors as u32) as u64) == sectors,
        0x100u64 & 0xFFF == 0x100,
        0x104u64 & 0xFFF == 0x104,
{
}

/// The two halves of the capacity make up the number of whole sectors of the
/// disk.
pub proof fn law_capacity(d: VirtioBlockDevice)
    ensures
        (register_read(d, VIRTIO_MMIO_CONFIG_HIGH) as u64) << 32 | register_read(
            d,
            VIRTIO_MMIO_CONFIG,
        ) as u64 == d.disk_size / 512,
{
    lemma_capacity_halves((d.disk_size / 512) as u64);
}

/// The status and the ready flag of the queue read back as they were written.
pub proof fn law_registers_read_back(d: VirtioBlockDevice, value: u32)
    ensures
        register_read(register_written(d, VIRTIO_MMIO_STATUS, value), VIRTIO_MMIO_STATUS) == value as u8,
        register_read(register_written(d, VIRTIO_MMIO_QUEUE_READY, value), VIRTIO_MMIO_QUEUE_READY) == (
        if value != 0 {
            1u32
        } else {
            0
        }),
{
    assert(0x070u64 & 0xFFF == 0x070 && 0x044u64 & 0xFFF == 0x044) by (bit_vector);
}

} // verus!
