//! What becomes of the requests to the block device.

use vstd::prelude::*;

use crate::devices::virtio::block::worker::{
    next_step, reply_data, reply_result, settled, CacheType, DiscardWriteData, DiskOp, DiskReply,
    RequestError, RequestHeader, StepModel,
};
use crate::devices::virtio::descriptor_utils::{
    all_inside, gathered, law_scattered_keeps_layout, reader_buffers, scattered, total_len, writer_buffers,
    GuestBuffer,
};
use crate::devices::virtio::queue::{DescriptorChain, Queue};
use crate::laws::bits::lemma_bits;
use crate::laws::memory::{digits, law_numbers_are_little_endian, lemma_digits, lemma_digits_of};
use crate::laws::queue::{law_used_element_in_memory, ring_open, lemma_ring_open};
use crate::laws::stream::{
    apart, law_scattered_into_the_stream, law_stream_after_handing_back, off_the_ring, stream,
};
use crate::memory::memory::Ram;
use crate::memory::object::GuestObject;

verus! {

/// The next chain of the queue starts with `head`; what it hands to the device
/// is `input`, at least a header of sixteen bytes, and the device may write to
/// `bufs`.
pub open spec fn asks(
    q: Queue,
    ram: Ram,
    head: DescriptorChain,
    input: Seq<u8>,
    bufs: Seq<GuestBuffer>,
) -> bool {
    &&& q.front(ram) == Some(head)
    &&& reader_buffers(ram, head) matches Ok(rb) && gathered(ram, rb) == input
    &&& writer_buffers(ram, head) matches Ok(wb) && wb == bufs
    &&& input.len() >= 16
}

/// The step hands one command to the disk, and keeps the chain for its answer.
pub open spec fn commands(
    step: (Queue, Ram, StepModel),
    q: Queue,
    ram: Ram,
    head: DescriptorChain,
    bufs: Seq<GuestBuffer>,
    op: DiskOp,
    offset: int,
    len: int,
    data: Seq<u8>,
) -> bool {
    &&& step.0 == q.popped()
    &&& step.1 == ram
    &&& step.2 matches StepModel::Disk { head_index, bufs: wb, command } && {
        &&& head_index == head.index
        &&& wb == bufs
        &&& command.op == op
        &&& command.offset == offset
        &&& command.len == len
        &&& command.data == data
    }
}

/// The step settles the request at once, having written nothing but the
/// status.
pub open spec fn settles(
    step: (Queue, Ram, StepModel),
    q: Queue,
    ram: Ram,
    head: DescriptorChain,
    bufs: Seq<GuestBuffer>,
    result: Result<usize, RequestError>,
) -> bool {
    let (q2, after, notify) = settled(q.popped(), ram, head.index, bufs, 0, result);
    step == (q2, after, StepModel::Settled(notify))
}

proof fn lemma_header(input: Seq<u8>)
    requires
        input.len() >= 16,
    ensures
        ({
            let h = RequestHeader::decode(input.subrange(0, 16));
            h.request_type == digits(input, 0, 4) && h.sector == digits(input, 8, 8)
        }),
{
    let s = input.subrange(0, 16);
    lemma_digits(s, 0, 4);
    lemma_digits(s, 8, 8);
    lemma_digits_of(s, input, 0, 0, 4);
    lemma_digits_of(s, input, 8, 8, 8);
    law_numbers_are_little_endian(s, 0);
    law_numbers_are_little_endian(s, 8);
}

proof fn lemma_range(input: Seq<u8>)
    requires
        input.len() >= 32,
    ensures
        ({
            let d = DiscardWriteData::decode(input.subrange(16, input.len() as int).subrange(0, 16));
            &&& d.sector == digits(input, 16, 8)
            &&& d.num_sectors == digits(input, 24, 4)
            &&& d.flags == digits(input, 28, 4)
            &&& (d.flags & 1 != 0) == (digits(input, 28, 4) % 2 == 1)
        }),
{
    let s = input.subrange(16, input.len() as int).subrange(0, 16);
    assert(s =~= input.subrange(16, 32));
    lemma_digits(s, 0, 8);
    lemma_digits(s, 8, 4);
    lemma_digits(s, 12, 4);
    lemma_digits_of(s, input, 0, 16, 8);
    lemma_digits_of(s, input, 8, 24, 4);
    lemma_digits_of(s, input, 12, 28, 4);
    law_numbers_are_little_endian(s, 0);
    law_numbers_are_little_endian(s, 8);
    law_numbers_are_little_endian(s, 12);
    lemma_bits(DiscardWriteData::decode(s).flags as u64);
}

/// A read: where the room is whole sectors and one byte for the status, the
/// disk must read exactly those sectors, from the byte on where the sector of
/// the header starts. A room of another size is refused.
pub proof fn law_read_request(
    q: Queue,
    ram: Ram,
    cache: CacheType,
    id: Seq<u8>,
    head: DescriptorChain,
    input: Seq<u8>,
    bufs: Seq<GuestBuffer>,
    n: int,
)
    requires
        asks(q, ram, head, input, bufs),
        digits(input, 0, 4) == 0,
        total_len(bufs) <= u64::MAX,
    ensures
        ({
            let step = next_step(q, ram, cache, id);
            let sector = digits(input, 8, 8);
            let room = total_len(bufs) as int;
            &&& n >= 0 && room == 512 * n + 1 && 512 * sector <= u64::MAX ==> commands(
                step,
                q,
                ram,
                head,
                bufs,
                DiskOp::Read,
                512 * sector,
                512 * n,
                Seq::empty(),
            )
            &&& room == 0 ==> step.2 is Fault
            &&& room > 0 && room % 512 == 1 && 512 * sector > u64::MAX ==> step.2 is Fault
            &&& room > 0 && room % 512 != 1 ==> settles(
                step,
                q,
                ram,
                head,
                bufs,
                Err(RequestError::InvalidDataLength),
            )
        }),
{
    lemma_header(input);
}

/// A write: what follows the header goes to the disk, whole sectors of it, from
/// the byte on where the sector of the header starts. Other lengths are
/// refused.
pub proof fn law_write_request(
    q: Queue,
    ram: Ram,
    cache: CacheType,
    id: Seq<u8>,
    head: DescriptorChain,
    input: Seq<u8>,
    bufs: Seq<GuestBuffer>,
)
    requires
        asks(q, ram, head, input, bufs),
        digits(input, 0, 4) == 1,
        input.len() <= u64::MAX,
    ensures
        ({
            let step = next_step(q, ram, cache, id);
            let sector = digits(input, 8, 8);
            let n = input.len() - 16;
            &&& n % 512 == 0 && 512 * sector <= u64::MAX ==> commands(
                step,
                q,
                ram,
                head,
                bufs,
                DiskOp::Write,
                512 * sector,
                n,
                input.skip(16),
            )
            &&& n % 512 == 0 && 512 * sector > u64::MAX ==> step.2 is Fault
            &&& n % 512 != 0 ==> settles(step, q, ram, head, bufs, Err(RequestError::InvalidDataLength))
        }),
{
    lemma_header(input);
    assert(input.subrange(16, input.len() as int) =~= input.skip(16));
}

/// A discard or a write of zeroes: eight bytes with a sector, four with how
/// many, and four with flags follow the header; the disk must treat that many
/// sectors from there on. Zeroes may be written by giving the sectors up if the
/// lowest flag is set.
pub proof fn law_range_request(
    q: Queue,
    ram: Ram,
    cache: CacheType,
    id: Seq<u8>,
    head: DescriptorChain,
    input: Seq<u8>,
    bufs: Seq<GuestBuffer>,
)
    requires
        asks(q, ram, head, input, bufs),
        digits(input, 0, 4) == 11 || digits(input, 0, 4) == 13,
    ensures
        ({
            let step = next_step(q, ram, cache, id);
            let sector = digits(input, 16, 8);
            let op = if digits(input, 0, 4) == 11 {
                DiskOp::Discard
            } else if digits(input, 28, 4) % 2 == 1 {
                DiskOp::DiscardToZero
            } else {
                DiskOp::WriteZeroes
            };
            &&& input.len() >= 32 && 512 * sector <= u64::MAX ==> commands(
                step,
                q,
                ram,
                head,
                bufs,
                op,
                512 * sector,
                512 * digits(input, 24, 4),
                Seq::empty(),
            )
            &&& input.len() >= 32 && 512 * sector > u64::MAX ==> step.2 is Fault
            &&& input.len() < 32 ==> settles(
                step,
                q,
                ram,
                head,
                bufs,
                Err(RequestError::ReadingFromDescriptor),
            )
        }),
{
    lemma_header(input);
    if input.len() >= 32 {
        lemma_range(input);
    }
}

/// A flush reaches the disk where writes are cached, and is done at once where
/// they are not; a request of an unknown type is refused.
pub proof fn law_other_requests(
    q: Queue,
    ram: Ram,
    cache: CacheType,
    id: Seq<u8>,
    head: DescriptorChain,
    input: Seq<u8>,
    bufs: Seq<GuestBuffer>,
)
    requires
        asks(q, ram, head, input, bufs),
    ensures
        ({
            let step = next_step(q, ram, cache, id);
            let kind = digits(input, 0, 4);
            &&& kind == 4 && cache == CacheType::Writeback ==> commands(
                step,
                q,
                ram,
                head,
                bufs,
                DiskOp::Flush,
                0,
                0,
                Seq::empty(),
            )
            &&& kind == 4 && cache == CacheType::Unsafe ==> settles(step, q, ram, head, bufs, Ok(0))
            &&& kind != 0 && kind != 1 && kind != 4 && kind != 8 && kind != 11 && kind != 13 ==> settles(
                step,
                q,
                ram,
                head,
                bufs,
                Err(RequestError::UnknownRequest),
            )
        }),
{
    lemma_header(input);
}

/// A request for the disk's identity: it is put into the stream, the status
/// behind it, if there is room for it; otherwise the request is refused.
#[verifier::rlimit(50)]
pub proof fn law_identity_request(
    q: Queue,
    ram: Ram,
    cache: CacheType,
    id: Seq<u8>,
    head: DescriptorChain,
    input: Seq<u8>,
    bufs: Seq<GuestBuffer>,
    p: int,
)
    requires
        ram.wf(),
        asks(q, ram, head, input, bufs),
        all_inside(ram.layout, bufs),
        apart(bufs),
        off_the_ring(ram.layout, bufs, q),
        digits(input, 0, 4) == 8,
        0 <= p < total_len(bufs),
    ensures
        ({
            let step = next_step(q, ram, cache, id);
            &&& total_len(bufs) >= id.len() ==> step.2 is Settled && stream(step.1, bufs, p) == (if p
                < id.len() {
                id[p]
            } else if p == id.len() {
                0
            } else {
                stream(ram, bufs, p)
            })
            &&& total_len(bufs) < id.len() ==> settles(
                step,
                q,
                ram,
                head,
                bufs,
                Err(RequestError::InvalidDataLength),
            )
        }),
{
    lemma_header(input);
    if total_len(bufs) >= id.len() {
        let filled = scattered(ram, bufs, 0, id);
        law_scattered_keeps_layout(ram, bufs, 0, id);
        law_scattered_into_the_stream(ram, bufs, 0, id, p);
        lemma_settled_stream(q.popped(), filled, head.index, bufs, id.len() as int, Ok(id.len() as usize), p);
    }
}

proof fn lemma_settled_stream(
    q: Queue,
    ram: Ram,
    head: u16,
    bufs: Seq<GuestBuffer>,
    pos: int,
    result: Result<usize, RequestError>,
    p: int,
)
    requires
        ram.wf(),
        all_inside(ram.layout, bufs),
        apart(bufs),
        off_the_ring(ram.layout, bufs, q),
        0 <= pos,
        0 <= p < total_len(bufs),
    ensures
        stream(settled(q, ram, head, bufs, pos, result).1, bufs, p) == (if p == pos {
            if result is Ok {
                0
            } else {
                1
            }
        } else {
            stream(ram, bufs, p)
        }),
{
    let status = seq![crate::devices::virtio::block::worker::status_of(result)];
    let filled = scattered(ram, bufs, pos, status);
    law_scattered_keeps_layout(ram, bufs, pos, status);
    law_scattered_into_the_stream(ram, bufs, pos, status, p);
    law_stream_after_handing_back(
        q,
        filled,
        head,
        crate::devices::virtio::block::worker::used_len(result),
        bufs,
        p,
    );
}

/// What settling a request leaves behind: the status, zero for success and one
/// for a failure, at the stream's position, and no other change to the stream;
/// in the used ring the chain's head with the number of bytes, which for a
/// failure is zero.
pub proof fn law_settled_request(
    q: Queue,
    ram: Ram,
    head: u16,
    bufs: Seq<GuestBuffer>,
    pos: int,
    result: Result<usize, RequestError>,
    p: int,
)
    requires
        ram.wf(),
        all_inside(ram.layout, bufs),
        apart(bufs),
        off_the_ring(ram.layout, bufs, q),
        0 <= pos,
        0 <= p < total_len(bufs),
        head < q.size,
        ring_open(q, ram),
        result matches Ok(n) ==> n <= u32::MAX,
    ensures
        ({
            let (q2, after, notify) = settled(q, ram, head, bufs, pos, result);
            &&& stream(after, bufs, p) == (if p == pos {
                if result is Ok {
                    0
                } else {
                    1
                }
            } else {
                stream(ram, bufs, p)
            })
            &&& after.read(q.used_ring.0 + 4 + 8 * (q.next_used as int % q.size as int), 8) matches Ok(b) && {
                &&& digits(b, 0, 4) == head
                &&& digits(b, 4, 4) == (match result {
                    Ok(n) => n as int,
                    Err(_) => 0,
                })
            }
            &&& q2.next_used == (q.next_used + 1) % 0x1_0000
            &&& q2 == (Queue { next_used: q2.next_used, num_added: 0, ..q })
            &&& !q.event_idx_enabled ==> notify
        }),
{
    lemma_settled_stream(q, ram, head, bufs, pos, result, p);
    let status = seq![crate::devices::virtio::block::worker::status_of(result)];
    let filled = scattered(ram, bufs, pos, status);
    law_scattered_keeps_layout(ram, bufs, pos, status);
    let len = crate::devices::virtio::block::worker::used_len(result);
    lemma_ring_open(q, filled, head, len);
    law_used_element_in_memory(q, filled, head, len);
}

/// A read that the disk has answered: the bytes that it delivered are the first
/// of the stream, and the status follows them. So if it has delivered all that
/// the room allows but one byte, every byte before the last holds the disk's
/// byte, and the last is the status. The driver is told how many bytes came.
pub proof fn law_read_completed(
    q: Queue,
    ram: Ram,
    head: u16,
    bufs: Seq<GuestBuffer>,
    reply: DiskReply,
    d: Seq<u8>,
    p: int,
)
    requires
        ram.wf(),
        all_inside(ram.layout, bufs),
        apart(bufs),
        off_the_ring(ram.layout, bufs, q),
        head < q.size,
        ring_open(q, ram),
        reply matches DiskReply::Data(v) && v@ == d,
        d.len() < total_len(bufs),
        d.len() <= u32::MAX,
        0 <= p < total_len(bufs),
    ensures
        ({
            let (q2, after, notify) = settled(
                q,
                scattered(ram, bufs, 0, reply_data(reply)),
                head,
                bufs,
                reply_data(reply).len() as int,
                reply_result(DiskOp::Read, reply),
            );
            &&& stream(after, bufs, p) == (if p < d.len() {
                d[p]
            } else if p == d.len() {
                0
            } else {
                stream(ram, bufs, p)
            })
            &&& after.read(q.used_ring.0 + 4 + 8 * (q.next_used as int % q.size as int), 8) matches Ok(b)
                && digits(b, 0, 4) == head && digits(b, 4, 4) == d.len()
        }),
{
    let filled = scattered(ram, bufs, 0, d);
    law_scattered_keeps_layout(ram, bufs, 0, d);
    law_scattered_into_the_stream(ram, bufs, 0, d, p);
    law_settled_request(q, filled, head, bufs, d.len() as int, reply_result(DiskOp::Read, reply), p);
}

/// What the driver is told of the disk's answers: failure if the disk failed;
/// for a write how much was written, for the others nothing; and the stream
/// stays but for the status.
pub proof fn law_answers(op: DiskOp, reply: DiskReply)
    ensures
        reply is Failed <==> reply_result(op, reply) is Err,
        reply matches DiskReply::Done(n) ==> reply_data(reply).len() == 0 && reply_result(op, reply) == Ok::<
            usize,
            RequestError,
        >(
            if op == DiskOp::Write {
                n
            } else {
                0
            },
        ),
        reply is Failed ==> reply_data(reply).len() == 0 && reply_result(op, reply) == Err::<
            usize,
            RequestError,
        >(
            match op {
                DiskOp::Read => RequestError::WritingToDescriptor,
                DiskOp::Write => RequestError::ReadingFromDescriptor,
                DiskOp::Flush => RequestError::FlushingToDisk,
                DiskOp::Discard => RequestError::Discarding,
                DiskOp::DiscardToZero => RequestError::DiscardingToZero,
                DiskOp::WriteZeroes => RequestError::WritingZeroes,
            },
        ),
{
}

/// When no request is made out: no chain waits; or the chain's buffers cannot
/// be made out or hold no header, and it is dropped.
pub proof fn law_no_request(q: Queue, ram: Ram, cache: CacheType, id: Seq<u8>)
    ensures
        ({
            let step = next_step(q, ram, cache, id);
            &&& step.2 is Idle <==> q.front(ram) is None
            &&& step.2 is Idle ==> step.0 == q && step.1 == ram
            &&& q.front(ram) matches Some(head) ==> {
                let rb = reader_buffers(ram, head);
                let wb = writer_buffers(ram, head);
                &&& step.2 is Dropped <==> rb is Err || wb is Err || gathered(ram, rb->Ok_0).len() < 16
                &&& step.2 is Dropped ==> step.0 == q.popped() && step.1 == ram
            }
        }),
{
}

} // verus!
