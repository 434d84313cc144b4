//! Serves the requests of the block device's queue.

use vstd::prelude::*;

use crate::byte_order::{
    encode_le, law_le_value_of_bytes, le_bytes, le_value, lemma_le_bytes_len, lemma_pow256_values,
    read_le_u32, read_le_u64, resized,
};
use crate::devices::virtio::descriptor_utils::{
    gathered, lemma_gathered_len, reader_buffers, scattered, total_len, writer_buffers, GuestBuffer,
    Reader, Writer,
};
use crate::devices::virtio::queue::{Error, Queue};
use crate::memory::memory::{MemoryManager, Ram, RegionLayout};
use crate::memory::object::GuestObject;

verus! {

/// Request types.
pub const VIRTIO_BLK_T_IN: u32 = 0;

pub const VIRTIO_BLK_T_OUT: u32 = 1;

pub const VIRTIO_BLK_T_FLUSH: u32 = 4;

pub const VIRTIO_BLK_T_GET_ID: u32 = 8;

pub const VIRTIO_BLK_T_DISCARD: u32 = 11;

pub const VIRTIO_BLK_T_WRITE_ZEROES: u32 = 13;

/// Flag of a request to write zeroes: the sectors may be given back.
pub const VIRTIO_BLK_WRITE_ZEROES_FLAG_UNMAP: u32 = 1;

/// Request status: done.
pub const VIRTIO_BLK_S_OK: u8 = 0;

/// Request status: failed.
pub const VIRTIO_BLK_S_IOERR: u8 = 1;

/// Bytes in a sector.
pub const SECTOR_SIZE: u64 = 512;

/// Why a request failed.
#[derive(Clone, Copy, Debug, PartialEq, Eq, Structural)]
pub enum RequestError {
    Discarding,
    DiscardingToZero,
    FlushingToDisk,
    InvalidDataLength,
    ReadingFromDescriptor,
    WritingToDescriptor,
    WritingZeroes,
    UnknownRequest,
}

/// How the disk treats writes.
#[derive(Clone, Copy, Debug, PartialEq, Eq, Structural)]
pub enum CacheType {
    /// A flush is ignored.
    Unsafe,
    /// A flush reaches the disk.
    Writeback,
}

/// The header of a request.
#[derive(Clone, Copy, Debug, PartialEq, Eq, Structural)]
pub struct RequestHeader {
    pub request_type: u32,
    pub reserved: u32,
    /// Where a read or write starts.
    pub sector: u64,
}

impl GuestObject for RequestHeader {
    open spec fn size() -> nat {
        16
    }

    open spec fn encode(self) -> Seq<u8> {
        le_bytes(self.request_type as nat, 4) + le_bytes(self.reserved as nat, 4) + le_bytes(
            self.sector as nat,
            8,
        )
    }

    open spec fn decode(s: Seq<u8>) -> RequestHeader {
        RequestHeader {
            request_type: le_value(s.subrange(0, 4)) as u32,
            reserved: le_value(s.subrange(4, 8)) as u32,
            sector: le_value(s.subrange(8, 16)) as u64,
        }
    }

    proof fn decode_of_encode(self) {
        lemma_pow256_values();
        lemma_le_bytes_len(self.request_type as nat, 4);
        lemma_le_bytes_len(self.reserved as nat, 4);
        lemma_le_bytes_len(self.sector as nat, 8);
        law_le_value_of_bytes(self.request_type as nat, 4);
        law_le_value_of_bytes(self.reserved as nat, 4);
        law_le_value_of_bytes(self.sector as nat, 8);
        let s = self.encode();
        assert(s.subrange(0, 4) =~= le_bytes(self.request_type as nat, 4));
        assert(s.subrange(4, 8) =~= le_bytes(self.reserved as nat, 4));
        assert(s.subrange(8, 16) =~= le_bytes(self.sector as nat, 8));
    }

    fn byte_len() -> (n: usize) {
        16
    }

    fn to_bytes(&self) -> (r: Vec<u8>) {
        proof {
            lemma_le_bytes_len(self.request_type as nat, 4);
            lemma_le_bytes_len(self.reserved as nat, 4);
            lemma_le_bytes_len(self.sector as nat, 8);
        }
        let mut r = encode_le(self.request_type as u64, 4);
        let mut reserved = encode_le(self.reserved as u64, 4);
        let mut sector = encode_le(self.sector, 8);
        r.append(&mut reserved);
        r.append(&mut sector);
        r
    }

    fn from_bytes(s: &[u8]) -> (r: RequestHeader) {
        let a = &s[0..4];
        let b = &s[4..8];
        let c = &s[8..16];
        assert(resized(a@, 4) =~= a@);
        assert(resized(b@, 4) =~= b@);
        assert(resized(c@, 8) =~= c@);
        RequestHeader { request_type: read_le_u32(a), reserved: read_le_u32(b), sector: read_le_u64(c) }
    }
}

/// The sectors that a discard or a write of zeroes covers.
#[derive(Clone, Copy, Debug, PartialEq, Eq, Structural)]
pub struct DiscardWriteData {
    pub sector: u64,
    pub num_sectors: u32,
    pub flags: u32,
}

impl GuestObject for DiscardWriteData {
    open spec fn size() -> nat {
        16
    }

    open spec fn encode(self) -> Seq<u8> {
        le_bytes(self.sector as nat, 8) + le_bytes(self.num_sectors as nat, 4) + le_bytes(
            self.flags as nat,
            4,
        )
    }

    open spec fn decode(s: Seq<u8>) -> DiscardWriteData {
        DiscardWriteData {
            sector: le_value(s.subrange(0, 8)) as u64,
            num_sectors: le_value(s.subrange(8, 12)) as u32,
            flags: le_value(s.subrange(12, 16)) as u32,
        }
    }

    proof fn decode_of_encode(self) {
        lemma_pow256_values();
        lemma_le_bytes_len(self.sector as nat, 8);
        lemma_le_bytes_len(self.num_sectors as nat, 4);
        lemma_le_bytes_len(self.flags as nat, 4);
        law_le_value_of_bytes(self.sector as nat, 8);
        law_le_value_of_bytes(self.num_sectors as nat, 4);
        law_le_value_of_bytes(self.flags as nat, 4);
        let s = self.encode();
        assert(s.subrange(0, 8) =~= le_bytes(self.sector as nat, 8));
        assert(s.subrange(8, 12) =~= le_bytes(self.num_sectors as nat, 4));
        assert(s.subrange(12, 16) =~= le_bytes(self.flags as nat, 4));
    }

    fn byte_len() -> (n: usize) {
        16
    }

    fn to_bytes(&self) -> (r: Vec<u8>) {
        proof {
            lemma_le_bytes_len(self.sector as nat, 8);
            lemma_le_bytes_len(self.num_sectors as nat, 4);
            lemma_le_bytes_len(self.flags as nat, 4);
        }
        let mut r = encode_le(self.sector, 8);
        let mut num = encode_le(self.num_sectors as u64, 4);
        let mut flags = encode_le(self.flags as u64, 4);
        r.append(&mut num);
        r.append(&mut flags);
        r
    }

    fn from_bytes(s: &[u8]) -> (r: DiscardWriteData) {
        let a = &s[0..8];
        let b = &s[8..12];
        let c = &s[12..16];
        assert(resized(a@, 8) =~= a@);
        assert(resized(b@, 4) =~= b@);
        assert(resized(c@, 4) =~= c@);
        DiscardWriteData { sector: read_le_u64(a), num_sectors: read_le_u32(b), flags: read_le_u32(c) }
    }
}

/// What the disk must do.
#[derive(Clone, Copy, Debug, PartialEq, Eq, Structural)]
pub enum DiskOp {
    Read,
    Write,
    /// Flush and wait until the data is stored.
    Flush,
    /// Give up a range; it may read as anything afterwards.
    Discard,
    /// Give up a range; it reads as zeroes afterwards.
    DiscardToZero,
    WriteZeroes,
}

/// A command for the disk.
#[derive(Debug)]
pub struct DiskCommand {
    pub op: DiskOp,
    /// Where it starts, in bytes.
    pub offset: u64,
    /// How many bytes it covers.
    pub len: u64,
    /// The bytes to write.
    pub data: Vec<u8>,
}

/// A command for the disk.
#[verifier::ext_equal]
pub struct DiskCommandModel {
    pub op: DiskOp,
    pub offset: u64,
    pub len: u64,
    pub data: Seq<u8>,
}

impl View for DiskCommand {
    type V = DiskCommandModel;

    open spec fn view(&self) -> DiskCommandModel {
        DiskCommandModel { op: self.op, offset: self.offset, len: self.len, data: self.data@ }
    }
}

/// What the disk answered.
#[derive(Debug)]
pub enum DiskReply {
    Failed,
    /// The bytes that were read.
    Data(Vec<u8>),
    /// How many bytes were written.
    Done(usize),
}

impl DiskReply {
    /// The reply is one that the command can get.
    pub open spec fn answers(self, command: DiskCommandModel) -> bool {
        match self {
            DiskReply::Failed => true,
            DiskReply::Data(d) => command.op == DiskOp::Read && d@.len() <= command.len,
            DiskReply::Done(_) => command.op != DiskOp::Read,
        }
    }
}

/// What a request comes to.
pub enum PlanModel {
    /// It is settled without the disk.
    Done(Result<usize, RequestError>),
    /// It is settled by handing the identity of the disk to the driver.
    Identity,
    /// The disk must do something.
    Disk(DiskCommandModel),
    /// The header names a place beyond the end of the address space, or a
    /// read has no room for its status.
    Fault,
}

/// The place of a sector on the disk, if it can be expressed.
pub open spec fn sector_offset(sector: u64) -> Option<u64> {
    if sector * 512 > u64::MAX {
        None
    } else {
        Some((sector * 512) as u64)
    }
}

/// A command that covers the sectors of `d`.
pub open spec fn range_plan(op: DiskOp, d: DiscardWriteData) -> PlanModel {
    match sector_offset(d.sector) {
        None => PlanModel::Fault,
        Some(offset) => PlanModel::Disk(
            DiskCommandModel { op, offset, len: (d.num_sectors * 512) as u64, data: Seq::empty() },
        ),
    }
}

/// What a request with the given header comes to, where `left` can be read
/// and `room` bytes can be written, the last of them for the status.
pub open spec fn request_plan(
    header: RequestHeader,
    left: Seq<u8>,
    room: int,
    cache: CacheType,
    id_len: int,
) -> PlanModel {
    if header.request_type == VIRTIO_BLK_T_IN {
        if room == 0 {
            PlanModel::Fault
        } else if (room - 1) % 512 != 0 {
            PlanModel::Done(Err(RequestError::InvalidDataLength))
        } else {
            match sector_offset(header.sector) {
                None => PlanModel::Fault,
                Some(offset) => PlanModel::Disk(
                    DiskCommandModel {
                        op: DiskOp::Read,
                        offset,
                        len: (room - 1) as u64,
                        data: Seq::empty(),
                    },
                ),
            }
        }
    } else if header.request_type == VIRTIO_BLK_T_OUT {
        if left.len() % 512 != 0 {
            PlanModel::Done(Err(RequestError::InvalidDataLength))
        } else {
            match sector_offset(header.sector) {
                None => PlanModel::Fault,
                Some(offset) => PlanModel::Disk(
                    DiskCommandModel { op: DiskOp::Write, offset, len: left.len() as u64, data: left },
                ),
            }
        }
    } else if header.request_type == VIRTIO_BLK_T_FLUSH {
        match cache {
            CacheType::Writeback => PlanModel::Disk(
                DiskCommandModel { op: DiskOp::Flush, offset: 0, len: 0, data: Seq::empty() },
            ),
            CacheType::Unsafe => PlanModel::Done(Ok(0)),
        }
    } else if header.request_type == VIRTIO_BLK_T_GET_ID {
        if room < id_len {
            PlanModel::Done(Err(RequestError::InvalidDataLength))
        } else {
            PlanModel::Identity
        }
    } else if header.request_type == VIRTIO_BLK_T_DISCARD {
        if left.len() < 16 {
            PlanModel::Done(Err(RequestError::ReadingFromDescriptor))
        } else {
            range_plan(DiskOp::Discard, DiscardWriteData::decode(left.subrange(0, 16)))
        }
    } else if header.request_type == VIRTIO_BLK_T_WRITE_ZEROES {
        if left.len() < 16 {
            PlanModel::Done(Err(RequestError::ReadingFromDescriptor))
        } else {
            let d = DiscardWriteData::decode(left.subrange(0, 16));
            range_plan(
                if d.flags & VIRTIO_BLK_WRITE_ZEROES_FLAG_UNMAP != 0 {
                    DiskOp::DiscardToZero
                } else {
                    DiskOp::WriteZeroes
                },
                d,
            )
        }
    } else {
        PlanModel::Done(Err(RequestError::UnknownRequest))
    }
}

/// What the driver is told after the disk answered.
pub open spec fn reply_result(op: DiskOp, reply: DiskReply) -> Result<usize, RequestError> {
    match reply {
        DiskReply::Data(d) => Ok(d@.len() as usize),
        DiskReply::Done(n) => Ok(
            if op == DiskOp::Write {
                n
            } else {
                0
            },
        ),
        DiskReply::Failed => Err(
            match op {
                DiskOp::Read => RequestError::WritingToDescriptor,
                DiskOp::Write => RequestError::ReadingFromDescriptor,
                DiskOp::Flush => RequestError::FlushingToDisk,
                DiskOp::Discard => RequestError::Discarding,
                DiskOp::DiscardToZero => RequestError::DiscardingToZero,
                DiskOp::WriteZeroes => RequestError::WritingZeroes,
            },
        ),
    }
}

/// The bytes that the disk's answer puts into the driver's buffers.
pub open spec fn reply_data(reply: DiskReply) -> Seq<u8> {
    match reply {
        DiskReply::Data(d) => d@,
        _ => Seq::empty(),
    }
}

/// The status byte for a result.
pub open spec fn status_of(result: Result<usize, RequestError>) -> u8 {
    if result is Ok {
        VIRTIO_BLK_S_OK
    } else {
        VIRTIO_BLK_S_IOERR
    }
}

/// How many bytes the driver is told were written, for a result.
pub open spec fn used_len(result: Result<usize, RequestError>) -> u32 {
    match result {
        Ok(n) => n as u32,
        Err(_) => 0,
    }
}

/// Settling a request: the status is written after what was written before,
/// the chain is handed back, and it is decided whether to notify the driver.
pub open spec fn settled(
    q: Queue,
    ram: Ram,
    head: u16,
    bufs: Seq<GuestBuffer>,
    pos: int,
    result: Result<usize, RequestError>,
) -> (Queue, Ram, bool) {
    q.handed_back(scattered(ram, bufs, pos, seq![status_of(result)]), head, used_len(result))
}

/// A request that waits for the disk.
#[derive(Debug)]
pub struct PendingRequest {
    /// The chain to hand back.
    pub head_index: u16,
    /// Where the answer goes.
    pub writer: Writer,
    pub command: DiskCommand,
}

/// What serving the next request came to.
#[derive(Debug)]
pub enum BlockStep {
    /// There is no request.
    Idle,
    /// A request could not be made out and was dropped.
    Dropped,
    /// A request was settled; the driver must be notified if true.
    Settled(bool),
    /// A request waits for the disk.
    Disk(PendingRequest),
    /// A request that cannot be expressed: it names a place beyond the end of
    /// the address space, or has no room for its status.
    Fault,
}

impl PendingRequest {
    pub open spec fn wf(self, layout: Seq<RegionLayout>) -> bool {
        &&& self.writer.wf(layout)
        &&& self.command.op == DiskOp::Read ==> self.command.len < self.writer.room()
    }
}

/// What serving the next request came to.
pub enum StepModel {
    Idle,
    Dropped,
    Settled(bool),
    Disk { head_index: u16, bufs: Seq<GuestBuffer>, command: DiskCommandModel },
    Fault,
}

impl BlockStep {
    pub open spec fn stands_for(self, model: StepModel) -> bool {
        match model {
            StepModel::Idle => self is Idle,
            StepModel::Dropped => self is Dropped,
            StepModel::Settled(notify) => self == BlockStep::Settled(notify),
            StepModel::Disk { head_index, bufs, command } => self matches BlockStep::Disk(p)
                && p.head_index == head_index && p.writer.buffers@ == bufs && p.writer.pos == 0
                && p.command@ == command,
            StepModel::Fault => self is Fault,
        }
    }
}

/// Serving the next request of the queue: the queue, memory and what it came
/// to. A chain that cannot be made out is dropped.
pub open spec fn next_step(q: Queue, ram: Ram, cache: CacheType, id: Seq<u8>) -> (
    Queue,
    Ram,
    StepModel,
) {
    match q.front(ram) {
        None => (q, ram, StepModel::Idle),
        Some(head) => {
            let q1 = q.popped();
            match (reader_buffers(ram, head), writer_buffers(ram, head)) {
                (Ok(rb), Ok(wb)) => {
                    let input = gathered(ram, rb);
                    if input.len() < 16 {
                        (q1, ram, StepModel::Dropped)
                    } else {
                        let header = RequestHeader::decode(input.subrange(0, 16));
                        let left = input.subrange(16, input.len() as int);
                        match request_plan(
                            header,
                            left,
                            total_len(wb) as int,
                            cache,
                            id.len() as int,
                        ) {
                            PlanModel::Done(result) => {
                                let (q2, ram2, notify) = settled(q1, ram, head.index, wb, 0, result);
                                (q2, ram2, StepModel::Settled(notify))
                            },
                            PlanModel::Identity => {
                                let (q2, ram2, notify) = settled(
                                    q1,
                                    scattered(ram, wb, 0, id),
                                    head.index,
                                    wb,
                                    id.len() as int,
                                    Ok(id.len() as usize),
                                );
                                (q2, ram2, StepModel::Settled(notify))
                            },
                            PlanModel::Disk(command) => (
                                q1,
                                ram,
                                StepModel::Disk { head_index: head.index, bufs: wb, command },
                            ),
                            PlanModel::Fault => (q1, ram, StepModel::Fault),
                        }
                    }
                },
                _ => (q1, ram, StepModel::Dropped),
            }
        },
    }
}

/// What the disk is like.
#[derive(Debug)]
pub struct DiskProperties {
    pub cache_type: CacheType,
    pub image_id: Vec<u8>,
}

/// Serves the queue of a block device.
#[derive(Debug)]
pub struct BlockWorker {
    pub queue: Queue,
    pub disk: DiskProperties,
}

/// What a request comes to.
#[derive(Debug)]
pub enum Plan {
    /// It is settled.
    Done(Result<usize, RequestError>),
    /// The disk must do something.
    Disk(DiskCommand),
    /// It cannot be expressed.
    Fault,
}

impl Plan {
    /// The plan stands for `model`; a request for the identity is settled by
    /// having written it.
    pub open spec fn stands_for(self, model: PlanModel, id_len: int) -> bool {
        match model {
            PlanModel::Done(r) => self == Plan::Done(r),
            PlanModel::Identity => self == Plan::Done(Ok::<usize, RequestError>(id_len as usize)),
            PlanModel::Disk(c) => self matches Plan::Disk(d) && d@ == c,
            PlanModel::Fault => self is Fault,
        }
    }
}

/// A command for the disk that covers the sectors of `d`.
fn range_command(op: DiskOp, d: DiscardWriteData) -> (r: Plan)
    ensures
        r.stands_for(range_plan(op, d), 0),
{
    match d.sector.checked_mul(SECTOR_SIZE) {
        None => Plan::Fault,
        Some(offset) => Plan::Disk(
            DiskCommand { op, offset, len: d.num_sectors as u64 * SECTOR_SIZE, data: Vec::new() },
        ),
    }
}

impl BlockWorker {
    pub open spec fn wf(self, layout: Seq<RegionLayout>) -> bool {
        self.queue.reachable(layout)
    }

    pub fn new(queue: Queue, disk: DiskProperties) -> (r: Self)
        ensures
            r.queue == queue,
            r.disk == disk,
    {
        BlockWorker { queue, disk }
    }

    /// Goes on to the next round of serving the queue: with notifications off
    /// for the first one, and once the queue was found empty after asking for
    /// them again. Tells whether there is a round to serve.
    pub fn round(&mut self, mem: &mut MemoryManager, idle: bool) -> (r: Result<bool, Error>)
        requires
            old(mem).wf(),
        ensures
            final(mem).wf(),
            final(mem).same_but_bytes(*old(mem)),
            *final(self) == *old(self),
            (final(mem).ram(), r) == old(self).queue.round_spec(old(mem).ram(), idle),
    {
        self.queue.round(mem, idle)
    }

    /// Decides what a request comes to. A request for the identity of the
    /// disk is answered right away.
    pub fn process_request(
        &self,
        mem: &mut MemoryManager,
        header: RequestHeader,
        reader: &mut Reader,
        writer: &mut Writer,
    ) -> (r: Plan)
        requires
            old(mem).wf(),
            old(reader).wf(old(mem).ram().layout),
            old(writer).wf(old(mem).ram().layout),
        ensures
            final(mem).wf(),
            final(mem).same_but_bytes(*old(mem)),
            final(writer).wf(old(mem).ram().layout),
            final(writer).buffers == old(writer).buffers,
            ({
                let plan = request_plan(
                    header,
                    old(reader).rest(old(mem).ram()),
                    old(writer).room(),
                    self.disk.cache_type,
                    self.disk.image_id@.len() as int,
                );
                &&& r.stands_for(plan, self.disk.image_id@.len() as int)
                &&& final(mem).ram() == (if plan is Identity {
                    scattered(
                        old(mem).ram(),
                        old(writer).buffers@,
                        old(writer).pos as int,
                        self.disk.image_id@,
                    )
                } else {
                    old(mem).ram()
                })
                &&& final(writer).pos == old(writer).pos + (if plan is Identity {
                    self.disk.image_id@.len() as int
                } else {
                    0
                })
            }),
            header.request_type == 0 && old(writer).room() % 512 == 1 && 512 * header.sector <= u64::MAX
                ==> (r matches Plan::Disk(c) && c.op == DiskOp::Read && c.offset == 512 * header.sector
                && c.len == old(writer).room() - 1),
            header.request_type == 1 && old(reader).rest(old(mem).ram()).len() % 512 == 0 && 512
                * header.sector <= u64::MAX ==> (r matches Plan::Disk(c) && c.op == DiskOp::Write && c.offset
                == 512 * header.sector && c.data@ == old(reader).rest(old(mem).ram()) && c.len
                == c.data@.len()),
    {
        let ghost left = reader.rest(mem.ram());
        proof {
            mem.lemma_ram_wf();
            lemma_gathered_len(mem.ram(), reader.buffers@);
        }
        match header.request_type {
            VIRTIO_BLK_T_IN => {
                let room: usize = writer.available_bytes();
                if room == 0 {
                    return Plan::Fault;
                }
                let data_len: usize = room - 1;
                if data_len % 512 != 0 {
                    return Plan::Done(Err(RequestError::InvalidDataLength));
                }
                match header.sector.checked_mul(SECTOR_SIZE) {
                    None => Plan::Fault,
                    Some(offset) => Plan::Disk(
                        DiskCommand {
                            op: DiskOp::Read,
                            offset,
                            len: data_len as u64,
                            data: Vec::new(),
                        },
                    ),
                }
            },
            VIRTIO_BLK_T_OUT => {
                let data_len: usize = reader.available_bytes();
                if data_len % 512 != 0 {
                    return Plan::Done(Err(RequestError::InvalidDataLength));
                }
                match header.sector.checked_mul(SECTOR_SIZE) {
                    None => Plan::Fault,
                    Some(offset) => {
                        let data = reader.read(mem, data_len);
                        assert(data@ =~= left);
                        Plan::Disk(DiskCommand { op: DiskOp::Write, offset, len: data_len as u64, data })
                    },
                }
            },
            VIRTIO_BLK_T_FLUSH => match self.disk.cache_type {
                CacheType::Writeback => Plan::Disk(
                    DiskCommand { op: DiskOp::Flush, offset: 0, len: 0, data: Vec::new() },
                ),
                CacheType::Unsafe => Plan::Done(Ok(0)),
            },
            VIRTIO_BLK_T_GET_ID => {
                let room: usize = writer.available_bytes();
                let id_len: usize = self.disk.image_id.len();
                if room < id_len {
                    return Plan::Done(Err(RequestError::InvalidDataLength));
                }
                writer.write_all(mem, self.disk.image_id.as_slice());
                Plan::Done(Ok(id_len))
            },
            VIRTIO_BLK_T_DISCARD => match reader.read_obj::<DiscardWriteData>(mem) {
                None => Plan::Done(Err(RequestError::ReadingFromDescriptor)),
                Some(d) => range_command(DiskOp::Discard, d),
            },
            VIRTIO_BLK_T_WRITE_ZEROES => match reader.read_obj::<DiscardWriteData>(mem) {
                None => Plan::Done(Err(RequestError::ReadingFromDescriptor)),
                Some(d) => if d.flags & VIRTIO_BLK_WRITE_ZEROES_FLAG_UNMAP != 0 {
                    range_command(DiskOp::DiscardToZero, d)
                } else {
                    range_command(DiskOp::WriteZeroes, d)
                },
            },
            _ => Plan::Done(Err(RequestError::UnknownRequest)),
        }
    }

    /// Settles a request: writes its status, hands its chain back and decides
    /// whether the driver must be notified.
    fn settle(
        &mut self,
        mem: &mut MemoryManager,
        head_index: u16,
        writer: Writer,
        result: Result<usize, RequestError>,
    ) -> (r: bool)
        requires
            old(mem).wf(),
            old(self).wf(old(mem).ram().layout),
            writer.wf(old(mem).ram().layout),
        ensures
            final(mem).wf(),
            final(mem).same_but_bytes(*old(mem)),
            final(self).wf(final(mem).ram().layout),
            final(self).disk == old(self).disk,
            (final(self).queue, final(mem).ram(), r) == settled(
                old(self).queue,
                old(mem).ram(),
                head_index,
                writer.buffers@,
                writer.pos as int,
                result,
            ),
    {
        let mut writer = writer;
        let (status, len): (u8, u32) = match result {
            Ok(n) => (VIRTIO_BLK_S_OK, n as u32),
            Err(_) => (VIRTIO_BLK_S_IOERR, 0),
        };
        writer.write_obj(mem, status);
        assert(status.encode() =~= seq![status_of(result)]);
        self.queue.hand_back(mem, head_index, len)
    }

    /// Serves the next request of the queue.
    pub fn process_queue(&mut self, mem: &mut MemoryManager) -> (r: BlockStep)
        requires
            old(mem).wf(),
            old(self).wf(old(mem).ram().layout),
        ensures
            final(mem).wf(),
            final(mem).same_but_bytes(*old(mem)),
            final(self).wf(final(mem).ram().layout),
            final(self).disk == old(self).disk,
            ({
                let (q, ram, step) = next_step(
                    old(self).queue,
                    old(mem).ram(),
                    old(self).disk.cache_type,
                    old(self).disk.image_id@,
                );
                &&& final(self).queue == q
                &&& final(mem).ram() == ram
                &&& r.stands_for(step)
            }),
            r matches BlockStep::Disk(p) ==> p.wf(final(mem).ram().layout),
    {
        let ghost ram0 = mem.ram();
        proof {
            mem.lemma_ram_wf();
        }
        let head = match self.queue.take_chain(mem) {
            Some(h) => h,
            None => {
                return BlockStep::Idle;
            },
        };
        let mut reader = match Reader::new(mem, head) {
            Ok(v) => v,
            Err(_) => {
                return BlockStep::Dropped;
            },
        };
        let mut writer = match Writer::new(mem, head) {
            Ok(v) => v,
            Err(_) => {
                return BlockStep::Dropped;
            },
        };
        let ghost input = gathered(ram0, reader.buffers@);
        proof {
            lemma_gathered_len(ram0, reader.buffers@);
            assert(reader.rest(ram0) =~= input);
        }
        let header = match reader.read_obj::<RequestHeader>(mem) {
            Some(h) => h,
            None => {
                return BlockStep::Dropped;
            },
        };
        assert(reader.rest(ram0) =~= input.subrange(16, input.len() as int));
        match self.process_request(mem, header, &mut reader, &mut writer) {
            Plan::Done(result) => {
                let notify = self.settle(mem, head.index, writer, result);
                BlockStep::Settled(notify)
            },
            Plan::Disk(command) => BlockStep::Disk(
                PendingRequest { head_index: head.index, writer, command },
            ),
            Plan::Fault => BlockStep::Fault,
        }
    }

    /// Settles a request that the disk has answered. The result tells whether
    /// the driver must be notified.
    pub fn complete(&mut self, mem: &mut MemoryManager, pending: PendingRequest, reply: DiskReply) -> (r:
        bool)
        requires
            old(mem).wf(),
            old(self).wf(old(mem).ram().layout),
            pending.wf(old(mem).ram().layout),
            reply.answers(pending.command@),
        ensures
            final(mem).wf(),
            final(mem).same_but_bytes(*old(mem)),
            final(self).wf(final(mem).ram().layout),
            final(self).disk == old(self).disk,
            (final(self).queue, final(mem).ram(), r) == settled(
                old(self).queue,
                scattered(
                    old(mem).ram(),
                    pending.writer.buffers@,
                    pending.writer.pos as int,
                    reply_data(reply),
                ),
                pending.head_index,
                pending.writer.buffers@,
                pending.writer.pos + reply_data(reply).len(),
                reply_result(pending.command.op, reply),
            ),
    {
        let mut writer = pending.writer;
        let op = pending.command.op;
        let ghost ram0 = mem.ram();
        let ghost bufs = writer.buffers@;
        let ghost pos = writer.pos as int;
        let result: Result<usize, RequestError> = match &reply {
            DiskReply::Data(data) => {
                writer.write_all(mem, data.as_slice());
                Ok(data.len())
            },
            DiskReply::Done(n) => match op {
                DiskOp::Write => Ok(*n),
                _ => Ok(0),
            },
            DiskReply::Failed => Err(
                match op {
                    DiskOp::Read => RequestError::WritingToDescriptor,
                    DiskOp::Write => RequestError::ReadingFromDescriptor,
                    DiskOp::Flush => RequestError::FlushingToDisk,
                    DiskOp::Discard => RequestError::Discarding,
                    DiskOp::DiscardToZero => RequestError::DiscardingToZero,
                    DiskOp::WriteZeroes => RequestError::WritingZeroes,
                },
            ),
        };
        proof {
            if !(reply is Data) {
                assert(scattered(ram0, bufs, pos, Seq::<u8>::empty()) == ram0);
            }
        }
        self.settle(mem, pending.head_index, writer, result)
    }
}

} // verus!
