//! What each operation on a queue does for the driver on the other side.

use vstd::prelude::*;

use crate::devices::virtio::block::worker::{
    next_step, BlockStep, BlockWorker, DiskOp, DiskReply, PendingRequest, Plan, RequestHeader,
};
use crate::devices::virtio::console::worker as console;
use crate::devices::virtio::descriptor_utils::{
    all_inside, gathered, lemma_gathered_len, reader_buffers, total_len, writer_buffers, Reader, Writer,
};
use crate::devices::virtio::net::worker as net;
use crate::devices::virtio::queue::{
    chain_list, device_written, read_only_prefix, DescIter, DescriptorChain, Error, Queue,
};
use crate::devices::virtio::rng::worker::{PendingFill, RngStep, RngWorker};
use crate::laws::bits::{lemma_low_bits, lemma_power, power};
use crate::laws::block::{commands, law_read_completed, law_read_request, law_write_request};
use crate::laws::memory::{
    digits, holds, law_addresses_are_found, law_numbers_are_little_endian, law_read_gives_bytes, placed,
};
use crate::laws::queue::{
    is_descriptor, law_chain_in_order, law_chains_waiting, law_descriptor_flags, law_driver_notified,
    law_front_of_the_ring, law_notifications_asked, law_notifications_possible, law_read_part,
    law_used_element_in_memory, law_used_refused, law_waiting_already, lemma_ring_open, open_at, position,
    ring_open, ring_size,
};
use crate::laws::stream::{
    apart, law_buffers_of_descriptors, law_gathered_is_the_stream, law_scattered_into_the_stream, off_the_ring,
    stream,
};
use crate::laws::workers::{
    law_console_input, law_console_output, law_entropy_given, law_entropy_request, law_frame_chain,
    law_frame_delivered,
};
use crate::memory::memory::{find, MemoryManager};

verus! {

/// A chain that is taken off the queue is the one that the available ring names
/// at the driver's position, and the queue moves on by one; if none is taken,
/// it stays.
pub proof fn law_chain_taken(q: &mut Queue, mem: &MemoryManager, r: Option<DescriptorChain>)
    requires
        mem.wf(),
        old(q).reachable(mem.ram().layout),
        call_ensures(Queue::pop, (q, mem), r) || call_ensures(Queue::take_chain, (q, mem), r),
    ensures
        ({
            let ram = mem.ram();
            let n = ring_size(*old(q));
            let idx = ram.load(old(q).avail_ring.0 + 2, 2)->Ok_0;
            let entry = ram.read(old(q).avail_ring.0 + 4 + 2 * (old(q).next_avail as int % n), 2)->Ok_0;
            &&& r matches Some(c) ==> {
                &&& digits(idx, 0, 2) != old(q).next_avail
                &&& c.index == digits(entry, 0, 2)
                &&& c.index < n
                &&& is_descriptor(
                    ram,
                    old(q).desc_table.0 as int,
                    c.index as int,
                    c.addr.0 as int,
                    c.len as int,
                    c.flags as int,
                    c.next as int,
                )
                &&& *final(q) == (Queue { next_avail: final(q).next_avail, ..*old(q) })
                &&& final(q).next_avail == (old(q).next_avail + 1) % 0x1_0000
            }
            &&& r is None ==> *final(q) == *old(q)
        }),
{
    mem.lemma_ram_wf();
    law_front_of_the_ring(*old(q), mem.ram());
}

/// Undoing that puts the queue back by one.
pub proof fn law_chain_put_back(q: &mut Queue)
    requires
        call_ensures(Queue::undo_pop, (q,), ()) || call_ensures(Queue::go_to_previous_position, (q,), ()),
    ensures
        *final(q) == (Queue { next_avail: final(q).next_avail, ..*old(q) }),
        (final(q).next_avail + 1) % 0x1_0000 == old(q).next_avail,
{
}

/// A chain that is handed back is in the used ring at the device's position,
/// with the number of bytes written, and the published position is one more.
pub proof fn law_chain_handed_back(
    q: &mut Queue,
    mem: &mut MemoryManager,
    head: u16,
    len: u32,
    r: Result<(), Error>,
)
    requires
        old(mem).wf(),
        call_ensures(Queue::add_used, (q, mem, head, len), r),
    ensures
        ({
            let n = old(q).size as int;
            let at = old(q).used_ring.0 + 4 + 8 * (old(q).next_used as int % n);
            &&& r is Ok && open_at(old(mem).ram(), at, 8) ==> (final(mem).ram().read(at, 8) matches Ok(b)
                && digits(b, 0, 4) == head && digits(b, 4, 4) == len)
            &&& r is Ok ==> exists|idx: Seq<u8>|
                idx.len() == 2 && digits(idx, 0, 2) == (old(q).next_used + 1) % 0x1_0000 && #[trigger] holds(
                    final(mem).ram(),
                    old(q).used_ring.0 + 2,
                    idx,
                )
            &&& r is Ok ==> final(q).next_used == (old(q).next_used + 1) % 0x1_0000
            &&& head >= n ==> r is Err && *final(q) == *old(q) && final(mem).ram() == old(mem).ram()
        }),
{
    old(mem).lemma_ram_wf();
    law_used_refused(*old(q), old(mem).ram(), head, len);
    if r is Ok {
        law_used_element_in_memory(*old(q), old(mem).ram(), head, len);
    }
}

/// How many chains wait: the driver's published position less the device's.
pub proof fn law_chains_counted(q: &Queue, mem: &MemoryManager, n: u16, empty: bool)
    requires
        mem.wf(),
        q.avail_idx_spec(mem.ram()) is Ok,
        call_ensures(Queue::len, (q, mem), n),
        call_ensures(Queue::is_empty, (q, mem), empty),
    ensures
        mem.ram().load(q.avail_ring.0 + 2, 2) matches Ok(b) && n == (digits(b, 0, 2) - q.next_avail) % 0x1_0000
            && empty == (digits(b, 0, 2) == q.next_avail),
{
    mem.lemma_ram_wf();
    law_chains_waiting(*q, mem.ram());
    let b = mem.ram().load(q.avail_ring.0 + 2, 2)->Ok_0;
    law_read_gives_bytes(mem.ram(), q.avail_ring.0 + 2, 2);
    law_numbers_are_little_endian(b, 0);
}

/// Whether the driver is notified: always where it did not ask for events, else
/// if one of the chains since the last decision was handed back at the position
/// that it named.
pub proof fn law_notification_decided(q: &mut Queue, mem: &MemoryManager, r: Result<bool, Error>)
    requires
        mem.wf(),
        call_ensures(Queue::needs_notification, (q, mem), r),
    ensures
        *final(q) == (Queue { num_added: 0, ..*old(q) }),
        !old(q).event_idx_enabled ==> r == Ok::<bool, Error>(true),
        old(q).event_idx_enabled && r is Ok ==> (mem.ram().load(old(q).avail_ring.0 + 4 + 2 * old(q).size, 2) matches Ok(
            b,
        ) && (r == Ok::<bool, Error>(true) <==> exists|i: int|
            1 <= i <= old(q).num_added && digits(b, 0, 2) == #[trigger] position(old(q).next_used - i))),
{
    mem.lemma_ram_wf();
    law_driver_notified(*old(q), mem.ram());
}

/// The parts of a chain: the descriptors up to the first that the device may
/// write are read, and those that it may write are written.
pub proof fn law_parts_of_a_chain(
    mem: &MemoryManager,
    head: DescriptorChain,
    r: Result<Reader, Error>,
    w: Result<Writer, Error>,
    i: int,
)
    requires
        mem.wf(),
        call_ensures(Reader::new, (mem, head), r),
        call_ensures(Writer::new, (mem, head), w),
    ensures
        ({
            let ram = mem.ram();
            let chain = chain_list(ram, Some(head));
            let read = read_only_prefix(chain);
            let written = device_written(chain);
            &&& r matches Ok(v) ==> {
                &&& v.buffers@.len() == read.len()
                &&& v.pos == 0
                &&& v.total == total_len(v.buffers@)
                &&& 0 <= i < read.len() ==> {
                    let b = v.buffers@[i];
                    &&& find(ram.layout, read[i].addr.0 as int) == Some(b.region as int)
                    &&& ram.layout[b.region as int].base + b.offset == read[i].addr.0
                    &&& b.len == read[i].len
                }
            }
            &&& w matches Ok(v) ==> {
                &&& v.buffers@.len() == written.len()
                &&& v.pos == 0
                &&& v.total == total_len(v.buffers@)
                &&& 0 <= i < written.len() ==> {
                    let b = v.buffers@[i];
                    &&& find(ram.layout, written[i].addr.0 as int) == Some(b.region as int)
                    &&& ram.layout[b.region as int].base + b.offset == written[i].addr.0
                    &&& b.len == written[i].len
                }
            }
        }),
{
    let ram = mem.ram();
    let chain = chain_list(ram, Some(head));
    assert forall|k: int| 0 <= k < ram.layout.len() && (#[trigger] ram.layout[k]).mapped implies 0
        <= ram.layout[k].base && ram.layout[k].size <= usize::MAX by {
        assert(mem.regions@[k].wf());
        if let Some(v) = mem.regions@[k].hpa {
            assert(v.len() == v@.len());
        }
    }
    assert(mem.regions.len() == mem.regions@.len());
    law_buffers_of_descriptors(ram.layout, read_only_prefix(chain), 0, i);
    law_buffers_of_descriptors(ram.layout, device_written(chain), 0, i);
}

/// Reading a chain gives its bytes in order, from where the last read ended.
pub proof fn law_chain_read(v: &mut Reader, mem: &MemoryManager, max: usize, r: Vec<u8>, p: int)
    requires
        mem.wf(),
        old(v).wf(mem.ram().layout),
        call_ensures(Reader::read, (v, mem, max), r),
    ensures
        r@.len() == (if max < old(v).total - old(v).pos {
            max as int
        } else {
            old(v).total - old(v).pos
        }),
        0 <= p < r@.len() ==> r@[p] == stream(mem.ram(), old(v).buffers@, old(v).pos + p),
        final(v).pos == old(v).pos + r@.len(),
        final(v).buffers == old(v).buffers,
{
    mem.lemma_ram_wf();
    lemma_gathered_len(mem.ram(), old(v).buffers@);
    law_gathered_is_the_stream(mem.ram(), old(v).buffers@, old(v).pos + p);
}

/// Writing a chain changes its bytes in order, from where the last write ended,
/// and no others; what has no room is left out.
pub proof fn law_chain_written(v: &mut Writer, mem: &mut MemoryManager, data: &[u8], r: bool, p: int)
    requires
        old(mem).wf(),
        old(v).wf(old(mem).ram().layout),
        apart(old(v).buffers@),
        call_ensures(Writer::write_all, (v, mem, data), r),
        0 <= p < old(v).total,
    ensures
        r == (old(v).pos + data@.len() <= old(v).total),
        stream(final(mem).ram(), old(v).buffers@, p) == (if old(v).pos <= p < old(v).pos + data@.len() {
            data@[p - old(v).pos]
        } else {
            stream(old(mem).ram(), old(v).buffers@, p)
        }),
        r ==> final(v).pos == old(v).pos + data@.len(),
        !r ==> final(v).pos == old(v).total,
        final(v).buffers == old(v).buffers,
{
    old(mem).lemma_ram_wf();
    law_scattered_into_the_stream(old(mem).ram(), old(v).buffers@, old(v).pos as int, data@, p);
}

/// A request to read or write sectors becomes a command for the disk that starts
/// 512 bytes per sector in: a read fills the room but for the status byte, and a
/// write has all the bytes that are left.
pub proof fn law_sectors_asked(
    w: &BlockWorker,
    mem: &mut MemoryManager,
    header: RequestHeader,
    reader: &mut Reader,
    writer: &mut Writer,
    r: Plan,
    n: int,
    p: int,
)
    requires
        old(mem).wf(),
        old(reader).wf(old(mem).ram().layout),
        old(writer).wf(old(mem).ram().layout),
        call_ensures(BlockWorker::process_request, (w, mem, header, reader, writer), r),
        512 * header.sector <= u64::MAX,
        n >= 0,
    ensures
        header.request_type == 0 && old(writer).total - old(writer).pos == 512 * n + 1 ==> final(mem).ram() == old(
            mem,
        ).ram() && (r matches Plan::Disk(c) && c.op == DiskOp::Read && c.offset == 512 * header.sector && c.len
            == 512 * n),
        header.request_type == 1 && old(reader).total - old(reader).pos == 512 * n ==> final(mem).ram() == old(
            mem,
        ).ram() && (r matches Plan::Disk(c) && c.op == DiskOp::Write && c.offset == 512 * header.sector && c.len
            == 512 * n && c.data@.len() == 512 * n && (0 <= p < 512 * n ==> c.data@[p] == stream(
            old(mem).ram(),
            old(reader).buffers@,
            old(reader).pos + p,
        ))),
{
    let ram = old(mem).ram();
    old(mem).lemma_ram_wf();
    lemma_gathered_len(ram, old(reader).buffers@);
    law_gathered_is_the_stream(ram, old(reader).buffers@, old(reader).pos + p);
    let left = old(reader).rest(ram);
    assert(left.len() == old(reader).total - old(reader).pos);
    assert((512 * n + 1) % 512 == 1 && (512 * n) % 512 == 0);
}

/// A read whose data came from the disk: the data lies in the chain, the byte
/// after it says that all went well, and the chain is handed back with as many
/// bytes.
pub proof fn law_sectors_read(
    w: &mut BlockWorker,
    mem: &mut MemoryManager,
    pending: PendingRequest,
    reply: DiskReply,
    r: bool,
    d: Seq<u8>,
    p: int,
)
    requires
        old(mem).wf(),
        pending.wf(old(mem).ram().layout),
        pending.writer.pos == 0,
        pending.command.op == DiskOp::Read,
        reply matches DiskReply::Data(v) && v@ == d,
        call_ensures(BlockWorker::complete, (w, mem, pending, reply), r),
        apart(pending.writer.buffers@),
        off_the_ring(old(mem).ram().layout, pending.writer.buffers@, old(w).queue),
        pending.head_index < old(w).queue.size,
        ring_open(old(w).queue, old(mem).ram()),
        d.len() < total_len(pending.writer.buffers@),
        d.len() <= u32::MAX,
        0 <= p < total_len(pending.writer.buffers@),
    ensures
        ({
            let q = old(w).queue;
            let bufs = pending.writer.buffers@;
            let after = final(mem).ram();
            &&& stream(after, bufs, p) == (if p < d.len() {
                d[p]
            } else if p == d.len() {
                0
            } else {
                stream(old(mem).ram(), bufs, p)
            })
            &&& after.read(q.used_ring.0 + 4 + 8 * (q.next_used as int % q.size as int), 8) matches Ok(b)
                && digits(b, 0, 4) == pending.head_index && digits(b, 4, 4) == d.len()
            &&& !q.event_idx_enabled ==> r
        }),
{
    let q = old(w).queue;
    old(mem).lemma_ram_wf();
    law_read_completed(q, old(mem).ram(), pending.head_index, pending.writer.buffers@, reply, d, p);
}

/// The frame of the next chain is sent: its length in two bytes, lowest first,
/// and what follows the chain's first twelve bytes.
pub proof fn law_frame_sent(
    w: &mut net::NetWorker,
    mem: &mut MemoryManager,
    r: net::TxReport,
    head: DescriptorChain,
    i: int,
)
    requires
        old(mem).wf(),
        call_ensures(net::NetWorker::process_tx_queue, (w, mem, 1usize), r),
        old(w).tx_queue.front(old(mem).ram()) == Some(head),
        reader_buffers(old(mem).ram(), head) matches Ok(bufs) && all_inside(old(mem).ram().layout, bufs),
    ensures
        ({
            let ram = old(mem).ram();
            let bufs = reader_buffers(ram, head)->Ok_0;
            let n = total_len(bufs) - 12;
            &&& r.used_any
            &&& n <= 0 ==> r.frames@.len() == 0
            &&& n > 0 ==> r.frames@.len() == 1 && {
                let m = r.frames@[0]@;
                &&& m.len() == n + 2
                &&& n <= 0xffff ==> m[0] == n % 256 && m[1] == n / 256
                &&& 0 <= i < n ==> m[2 + i] == stream(ram, bufs, 12 + i)
            }
        }),
{
    let ram = old(mem).ram();
    old(mem).lemma_ram_wf();
    law_frame_chain(old(w).tx_queue, ram, head);
    let run = net::tx_run(old(w).tx_queue, ram, 1);
    assert(net::contents(r.frames@).len() == r.frames@.len());
    if run.frames.len() == 1 {
        assert(net::contents(r.frames@)[0] == r.frames@[0]@);
        crate::laws::net::law_sent_messages(old(w).tx_queue, ram, 1, 0);
        assert(run.frames[0] == r.frames@[0]@);
        assert(0 <= i < total_len(reader_buffers(ram, head)->Ok_0) - 12 ==> run.frames[0][2 + i] == stream(
            ram,
            reader_buffers(ram, head)->Ok_0,
            12 + i,
        ));
    }
}

/// What the guest prints is the bytes of its next chain.
pub proof fn law_console_printed(
    w: &mut console::ConsoleWorker,
    mem: &mut MemoryManager,
    r: console::TxReport,
    head: DescriptorChain,
    p: int,
)
    requires
        old(mem).wf(),
        call_ensures(console::ConsoleWorker::process_tx_queue, (w, mem, 1usize), r),
        old(w).tx_queue.front(old(mem).ram()) == Some(head),
        reader_buffers(old(mem).ram(), head) matches Ok(bufs) && all_inside(old(mem).ram().layout, bufs),
    ensures
        ({
            let ram = old(mem).ram();
            let bufs = reader_buffers(ram, head)->Ok_0;
            &&& r.used_any
            &&& r.output@.len() == total_len(bufs)
            &&& 0 <= p < total_len(bufs) ==> r.output@[p] == stream(ram, bufs, p)
        }),
{
    old(mem).lemma_ram_wf();
    law_console_output(old(w).tx_queue, old(mem).ram(), head, p);
}

/// What is typed lies in the guest's next chain, as far as it has room.
pub proof fn law_console_typed(
    w: &mut console::ConsoleWorker,
    mem: &mut MemoryManager,
    data: &[u8],
    r: console::RxReport,
    head: DescriptorChain,
    p: int,
)
    requires
        old(mem).wf(),
        0 < data@.len() <= u32::MAX,
        call_ensures(console::ConsoleWorker::process_rx_input, (w, mem, data, 1usize), r),
        old(w).rx_queue.front(old(mem).ram()) == Some(head),
        writer_buffers(old(mem).ram(), head) matches Ok(bufs) && all_inside(old(mem).ram().layout, bufs) && apart(
            bufs,
        ) && off_the_ring(old(mem).ram().layout, bufs, old(w).rx_queue),
    ensures
        ({
            let ram = old(mem).ram();
            let bufs = writer_buffers(ram, head)->Ok_0;
            let n = if data@.len() < total_len(bufs) {
                data@.len() as int
            } else {
                total_len(bufs) as int
            };
            &&& r.consumed == n
            &&& r.done == (n == data@.len())
            &&& 0 <= p < total_len(bufs) ==> stream(final(mem).ram(), bufs, p) == (if p < n {
                data@[p]
            } else {
                stream(ram, bufs, p)
            })
        }),
{
    let ram = old(mem).ram();
    old(mem).lemma_ram_wf();
    law_console_input(old(w).rx_queue, ram, data@, 0, head, writer_buffers(ram, head)->Ok_0, p);
}

/// A frame from outside lies in the guest's next chain, after twelve bytes of
/// which the eleventh is one and the others are zero.
pub proof fn law_frame_received(
    w: &mut net::NetWorker,
    mem: &mut MemoryManager,
    frames: &Vec<Vec<u8>>,
    r: net::RxReport,
    head: DescriptorChain,
    p: int,
)
    requires
        old(mem).wf(),
        frames@.len() == 1,
        frames@[0]@.len() <= 1514,
        call_ensures(net::NetWorker::process_rx_virtio_queue, (w, mem, frames), r),
        old(w).rx_queue.front(old(mem).ram()) == Some(head),
        writer_buffers(old(mem).ram(), head) matches Ok(bufs) && all_inside(old(mem).ram().layout, bufs) && apart(
            bufs,
        ) && off_the_ring(old(mem).ram().layout, bufs, old(w).rx_queue) && total_len(bufs)
            >= frames@[0]@.len() + 12,
    ensures
        ({
            let ram = old(mem).ram();
            let bufs = writer_buffers(ram, head)->Ok_0;
            let frame = frames@[0]@;
            &&& r.taken == 1
            &&& 0 <= p < total_len(bufs) ==> stream(final(mem).ram(), bufs, p) == (if p == 10 {
                1u8
            } else if p < 12 {
                0
            } else if p < 12 + frame.len() {
                frame[p - 12]
            } else {
                stream(ram, bufs, p)
            })
        }),
{
    let ram = old(mem).ram();
    old(mem).lemma_ram_wf();
    assert(net::contents(frames@) =~= seq![frames@[0]@]);
    law_frame_delivered(old(w).rx_queue, ram, frames@[0]@, head, writer_buffers(ram, head)->Ok_0, p);
}

/// A request for entropy asks for as many bytes as its chain has room for.
pub proof fn law_entropy_asked(w: &mut RngWorker, mem: &mut MemoryManager, r: RngStep, head: DescriptorChain)
    requires
        old(mem).wf(),
        call_ensures(RngWorker::process_queue, (w, mem), r),
    ensures
        ({
            let q = old(w).queue;
            let ram = old(mem).ram();
            &&& r is Idle <==> q.front(ram) is None
            &&& q.front(ram) == Some(head) ==> (writer_buffers(ram, head) matches Ok(bufs) ==> total_len(bufs) > 0
                ==> (r matches RngStep::Fill(f) && f.head_index == head.index && f.writer.buffers@ == bufs && f.len
                == total_len(bufs)) && final(mem).ram() == ram)
        }),
{
    let ram = old(mem).ram();
    old(mem).lemma_ram_wf();
    law_entropy_request(old(w).queue, ram, head, writer_buffers(ram, head)->Ok_0);
}

/// The random bytes fill the chain, and it is handed back with their number.
pub proof fn law_entropy_filled(
    w: &mut RngWorker,
    mem: &mut MemoryManager,
    pending: PendingFill,
    random: Option<Vec<u8>>,
    r: bool,
    p: int,
)
    requires
        old(mem).wf(),
        pending.wf(old(mem).ram().layout),
        random matches Some(v) && v@.len() == pending.len && v@.len() <= u32::MAX,
        call_ensures(RngWorker::complete, (w, mem, pending, random), r),
        apart(pending.writer.buffers@),
        off_the_ring(old(mem).ram().layout, pending.writer.buffers@, old(w).queue),
        pending.head_index < old(w).queue.size,
        ring_open(old(w).queue, old(mem).ram()),
        0 <= p < total_len(pending.writer.buffers@),
    ensures
        ({
            let q = old(w).queue;
            let after = final(mem).ram();
            &&& stream(after, pending.writer.buffers@, p) == random->0@[p]
            &&& after.read(q.used_ring.0 + 4 + 8 * (q.next_used as int % q.size as int), 8) matches Ok(b)
                && digits(b, 0, 4) == pending.head_index && digits(b, 4, 4) == random->0@.len()
        }),
{
    let q = old(w).queue;
    old(mem).lemma_ram_wf();
    law_entropy_given(q, old(mem).ram(), pending.head_index, pending.writer.buffers@, random->0@, p);
}

/// The next request, when it asks for sectors: what is handed to the disk is the
/// read or write that the bytes of its header name.
#[verifier::spinoff_prover]
#[verifier::rlimit(60)]
pub proof fn law_next_request_served(
    w: &mut BlockWorker,
    mem: &mut MemoryManager,
    r: BlockStep,
    head: DescriptorChain,
    n: int,
    p: int,
)
    requires
        old(mem).wf(),
        call_ensures(BlockWorker::process_queue, (w, mem), r),
        old(w).queue.front(old(mem).ram()) == Some(head),
        reader_buffers(old(mem).ram(), head) matches Ok(rb) && all_inside(old(mem).ram().layout, rb) && total_len(rb)
            >= 16 && total_len(rb) <= u64::MAX,
        writer_buffers(old(mem).ram(), head) matches Ok(wb) && total_len(wb) <= u64::MAX,
        n >= 0,
    ensures
        ({
            let ram = old(mem).ram();
            let rb = reader_buffers(ram, head)->Ok_0;
            let wb = writer_buffers(ram, head)->Ok_0;
            let input = gathered(ram, rb);
            let sector = digits(input, 8, 8);
            &&& input.len() == total_len(rb)
            &&& 0 <= p < input.len() ==> input[p] == stream(ram, rb, p)
            &&& digits(input, 0, 4) == 0 && total_len(wb) == 512 * n + 1 && 512 * sector <= u64::MAX ==> final(mem).ram()
                == ram && (r matches BlockStep::Disk(d) && d.head_index == head.index && d.writer.buffers@ == wb
                && d.writer.pos == 0 && d.command.op == DiskOp::Read && d.command.offset == 512 * sector
                && d.command.len == 512 * n)
            &&& digits(input, 0, 4) == 1 && input.len() == 16 + 512 * n && 512 * sector <= u64::MAX ==> final(mem).ram()
                == ram && (r matches BlockStep::Disk(d) && d.head_index == head.index && d.command.op
                == DiskOp::Write && d.command.offset == 512 * sector && d.command.len == 512 * n
                && d.command.data@ == input.skip(16))
        }),
{
    let ram = old(mem).ram();
    old(mem).lemma_ram_wf();
    let rb = reader_buffers(ram, head)->Ok_0;
    let wb = writer_buffers(ram, head)->Ok_0;
    let input = gathered(ram, rb);
    let q = old(w).queue;
    let cache = old(w).disk.cache_type;
    let id = old(w).disk.image_id@;
    law_gathered_is_the_stream(ram, rb, p);
    let step = next_step(q, ram, cache, id);
    if digits(input, 0, 4) == 0 && total_len(wb) == 512 * n + 1 && 512 * digits(input, 8, 8) <= u64::MAX {
        assert(commands(step, q, ram, head, wb, DiskOp::Read, 512 * digits(input, 8, 8), 512 * n, Seq::empty())) by {
            law_read_request(q, ram, cache, id, head, input, wb, n);
        }
    }
    if digits(input, 0, 4) == 1 && input.len() == 16 + 512 * n && 512 * digits(input, 8, 8) <= u64::MAX {
        assert(commands(
            step,
            q,
            ram,
            head,
            wb,
            DiskOp::Write,
            512 * digits(input, 8, 8),
            512 * n,
            input.skip(16),
        )) by {
            assert((512 * n) % 512 == 0);
            law_write_request(q, ram, cache, id, head, input, wb);
        }
    }
}

/// A round of serving a queue: unless it was found empty, the driver is told
/// that no notifications are needed; if it was, the driver is asked for them,
/// and another round is due only if a chain has come meanwhile.
#[verifier::rlimit(50)]
pub proof fn law_next_round(q: &mut Queue, mem: &mut MemoryManager, idle: bool, r: Result<bool, Error>)
    requires
        old(mem).wf(),
        call_ensures(Queue::round, (q, mem, idle), r),
    ensures
        *final(q) == *old(q),
        !idle && r is Ok ==> r == Ok::<bool, Error>(true),
        idle && r == Ok::<bool, Error>(false) ==> (final(mem).ram().load(old(q).avail_ring.0 + 2, 2) matches Ok(b)
            && digits(b, 0, 2) == old(q).next_avail),
        old(q).event_idx_enabled && !idle && r is Ok ==> final(mem).ram() == old(mem).ram(),
        !old(q).event_idx_enabled && r == Ok::<bool, Error>(true) ==> exists|flags: Seq<u8>|
            flags.len() == 2 && digits(flags, 0, 2) == 1 && #[trigger] holds(
                final(mem).ram(),
                old(q).used_ring.0 as int,
                flags,
            ),
        !old(q).event_idx_enabled && r == Ok::<bool, Error>(false) ==> exists|flags: Seq<u8>|
            flags.len() == 2 && digits(flags, 0, 2) == 0 && #[trigger] holds(
                final(mem).ram(),
                old(q).used_ring.0 as int,
                flags,
            ),
{
    let ram = old(mem).ram();
    old(mem).lemma_ram_wf();
    let (asked, waiting) = if idle {
        old(q).enable_spec(ram)
    } else {
        (ram, Ok::<bool, Error>(true))
    };
    if idle {
        law_waiting_already(*old(q), ram);
        if old(q).set_notification_spec(ram, true) is Ok {
            let flags = law_notifications_asked(*old(q), ram, true);
            assert(asked.wf());
        }
    }
    if r == Ok::<bool, Error>(true) {
        let flags = law_notifications_asked(*old(q), asked, false);
    }
}

/// A queue can be used if the driver made it ready, its size is a power of two
/// that the device can take, its parts are aligned, and each ends in memory.
pub proof fn law_usable_queue(q: &Queue, mem: &MemoryManager, r: bool)
    requires
        call_ensures(Queue::is_valid, (q, mem), r),
    ensures
        r <==> {
            &&& q.ready
            &&& power(q.size as int)
            &&& q.size <= q.max_size
            &&& q.desc_table.0 % 16 == 0
            &&& q.avail_ring.0 % 2 == 0
            &&& q.used_ring.0 % 4 == 0
            &&& q.desc_table.0 + 16 * q.size <= u64::MAX && in_memory(*mem, q.desc_table.0 + 16 * q.size)
            &&& q.avail_ring.0 + 6 + 2 * q.size <= u64::MAX && in_memory(*mem, q.avail_ring.0 + 6 + 2 * q.size)
            &&& q.used_ring.0 + 6 + 8 * q.size <= u64::MAX && in_memory(*mem, q.used_ring.0 + 6 + 8 * q.size)
        },
{
    lemma_low_bits(q.desc_table.0);
    lemma_low_bits(q.avail_ring.0);
    lemma_low_bits(q.used_ring.0);
    if q.size > 0 {
        lemma_power(q.size);
    }
    lemma_in_memory(*mem, q.desc_table.0 + 16 * q.size);
    lemma_in_memory(*mem, q.avail_ring.0 + 6 + 2 * q.size);
    lemma_in_memory(*mem, q.used_ring.0 + 6 + 8 * q.size);
}

/// Some region of memory holds an address.
pub open spec fn in_memory(mem: MemoryManager, gpa: int) -> bool {
    exists|k: int|
        0 <= k < mem.regions@.len() && (#[trigger] mem.regions@[k]).gpa.0 <= gpa < mem.regions@[k].gpa.0
            + mem.regions@[k].size
}

proof fn lemma_in_memory(mem: MemoryManager, gpa: int)
    ensures
        in_memory(mem, gpa) <==> find(mem.ram().layout, gpa) is Some,
{
    let layout = mem.ram().layout;
    law_addresses_are_found(layout, gpa);
    match find(layout, gpa) {
        Some(k) => {
            assert(layout[k] == mem.regions@[k].layout());
            assert(mem.regions@[k].gpa.0 <= gpa < mem.regions@[k].gpa.0 + mem.regions@[k].size);
        },
        None => {
            assert forall|k: int| 0 <= k < mem.regions@.len() implies !((#[trigger] mem.regions@[k]).gpa.0 <= gpa
                < mem.regions@[k].gpa.0 + mem.regions@[k].size) by {
                assert(layout[k] == mem.regions@[k].layout());
            }
        },
    }
}

/// A new queue is empty and not ready.
pub proof fn law_new_queue(max: u16, q: Queue)
    requires
        call_ensures(Queue::new, (max,), q),
    ensures
        q.max_size == max,
        q.size == 0 && !q.ready && q.next_avail == 0 && q.next_used == 0 && q.num_added == 0,
        q.desc_table.0 == 0 && q.avail_ring.0 == 0 && q.used_ring.0 == 0,
        !q.event_idx_enabled,
{
}

/// A chain that a worker hands back, and whether it tells the driver.
pub proof fn law_handed_back_and_told(
    q: &mut Queue,
    mem: &mut MemoryManager,
    head: u16,
    len: u32,
    r: bool,
)
    requires
        old(mem).wf(),
        head < old(q).size,
        ring_open(*old(q), old(mem).ram()),
        call_ensures(Queue::hand_back, (q, mem, head, len), r),
    ensures
        ({
            let at = old(q).used_ring.0 + 4 + 8 * (old(q).next_used as int % old(q).size as int);
            &&& final(mem).ram().read(at, 8) matches Ok(b) && digits(b, 0, 4) == head && digits(b, 4, 4) == len
            &&& final(q).next_used == (old(q).next_used + 1) % 0x1_0000
            &&& final(q).num_added == 0
            &&& final(q).next_avail == old(q).next_avail
            &&& !old(q).event_idx_enabled ==> r
        }),
{
    let ram = old(mem).ram();
    old(mem).lemma_ram_wf();
    lemma_ring_open(*old(q), ram, head, len);
    law_used_element_in_memory(*old(q), ram, head, len);
}

/// Asking the driver for notifications puts zero in the used ring's flags, or
/// the device's position behind the ring where the driver goes by events;
/// telling it that none are needed puts one there, or nothing.
pub proof fn law_notifications_switched(
    q: &mut Queue,
    mem: &mut MemoryManager,
    r: Result<bool, Error>,
    p: &mut Queue,
    other: &mut MemoryManager,
    s: Result<(), Error>,
)
    requires
        old(mem).wf(),
        old(other).wf(),
        call_ensures(Queue::enable_notification, (q, mem), r),
        call_ensures(Queue::disable_notification, (p, other), s),
    ensures
        r is Ok && old(q).event_idx_enabled ==> exists|flags: Seq<u8>|
            flags.len() == 2 && digits(flags, 0, 2) == old(q).next_avail && #[trigger] holds(
                final(mem).ram(),
                old(q).used_ring.0 + 4 + 8 * old(q).size,
                flags,
            ),
        r is Ok && !old(q).event_idx_enabled ==> exists|flags: Seq<u8>|
            flags.len() == 2 && digits(flags, 0, 2) == 0 && #[trigger] holds(
                final(mem).ram(),
                old(q).used_ring.0 as int,
                flags,
            ),
        s is Ok && old(p).event_idx_enabled ==> final(other).ram() == old(other).ram(),
        s is Ok && !old(p).event_idx_enabled ==> exists|flags: Seq<u8>|
            flags.len() == 2 && digits(flags, 0, 2) == 1 && #[trigger] holds(
                final(other).ram(),
                old(p).used_ring.0 as int,
                flags,
            ),
        *final(q) == *old(q),
        *final(p) == *old(p),
{
    old(mem).lemma_ram_wf();
    old(other).lemma_ram_wf();
    if r is Ok {
        let flags = law_notifications_asked(*old(q), old(mem).ram(), true);
    }
    if s is Ok {
        let flags = law_notifications_asked(*old(p), old(other).ram(), false);
    }
}

/// A descriptor and the one that follows it: the lowest flag says that there is
/// one, the next that the device writes.
pub proof fn law_descriptor_followed(
    c: &DescriptorChain,
    mem: &MemoryManager,
    more: bool,
    ro: bool,
    wo: bool,
    r: Option<DescriptorChain>,
)
    requires
        mem.wf(),
        call_ensures(DescriptorChain::has_next, (c,), more),
        call_ensures(DescriptorChain::is_read_only, (c,), ro),
        call_ensures(DescriptorChain::is_write_only, (c,), wo),
        call_ensures(DescriptorChain::next_descriptor, (c, mem), r),
    ensures
        more <==> c.flags % 2 == 1 && c.ttl > 1,
        ro <==> (c.flags / 2) % 2 == 0,
        wo == !ro,
        r matches Some(d) ==> more && d.index == c.next && d.index < c.queue_size && d.ttl == c.ttl - 1
            && is_descriptor(
            mem.ram(),
            c.desc_table.0 as int,
            d.index as int,
            d.addr.0 as int,
            d.len as int,
            d.flags as int,
            d.next as int,
        ),
{
    mem.lemma_ram_wf();
    law_descriptor_flags(*c, mem.ram());
}

/// A chain as a list: each descriptor is followed by the one that it names, and
/// the parts are those that the device reads, up to the first that it writes,
/// and those that it writes.
pub proof fn law_chain_listed(
    c: DescriptorChain,
    mem: &MemoryManager,
    all: Vec<DescriptorChain>,
    ro: Vec<DescriptorChain>,
    wo: Vec<DescriptorChain>,
    i: int,
)
    requires
        call_ensures(DescIter::collect, (DescIter { next: Some(c) }, mem), all),
        call_ensures(DescIter::readable, (DescIter { next: Some(c) }, mem), ro),
        call_ensures(DescIter::writable, (DescIter { next: Some(c) }, mem), wo),
    ensures
        all@.len() >= 1 && all@[0] == c,
        0 <= i < all@.len() - 1 ==> all@[i].successor(mem.ram()) == Some(all@[i + 1]),
        all@.last().successor(mem.ram()) is None,
        ro@.len() <= all@.len(),
        0 <= i < ro@.len() ==> ro@[i] == all@[i] && (ro@[i].flags / 2) % 2 == 0,
        ro@.len() < all@.len() ==> (all@[ro@.len() as int].flags / 2) % 2 == 1,
        wo@ == device_written(all@),
{
    law_chain_in_order(mem.ram(), c, i);
    law_read_part(all@, i);
}

/// A round of sending: if the driver could be told that no notifications are
/// needed, the chains that wait are sent, up to the limit; and if none is left
/// the driver is asked again, which tells whether another round is due.
pub proof fn law_sending_round(
    w: &mut console::ConsoleWorker,
    mem: &mut MemoryManager,
    limit: usize,
    r: console::TxRound,
)
    requires
        old(mem).wf(),
        call_ensures(console::ConsoleWorker::process_tx_virtio_queue, (w, mem, limit), r),
        !old(w).tx_queue.event_idx_enabled,
    ensures
        old(w).tx_queue.set_notification_spec(old(mem).ram(), false) matches Ok(quiet) ==> {
            let run = console::tx_run(old(w).tx_queue, quiet, limit as nat);
            &&& r.output@ == run.output
            &&& final(w).tx_queue == run.queue
            &&& !run.done ==> r.again == Ok::<bool, Error>(true) && final(mem).ram() == run.ram
            &&& exists|flags: Seq<u8>|
                flags.len() == 2 && digits(flags, 0, 2) == 1 && #[trigger] placed(
                    old(mem).ram(),
                    quiet,
                    old(w).tx_queue.used_ring.0 as int,
                    flags,
                )
        },
        old(w).tx_queue.set_notification_spec(old(mem).ram(), false) is Err ==> r.output@.len() == 0 && r.again is Err
            && final(mem).ram() == old(mem).ram(),
{
    old(mem).lemma_ram_wf();
    if old(w).tx_queue.set_notification_spec(old(mem).ram(), false) is Ok {
        let flags = law_notifications_asked(old(w).tx_queue, old(mem).ram(), false);
    }
}

/// Whether a worker tells the driver of a chain that it hands back, where the
/// driver goes by events: if the position that the driver named is that of the
/// chain, or of one since the last decision.
pub proof fn law_told_by_event(q: &mut Queue, mem: &mut MemoryManager, head: u16, len: u32, r: bool)
    requires
        old(mem).wf(),
        head < old(q).size,
        ring_open(*old(q), old(mem).ram()),
        old(q).reachable(old(mem).ram().layout),
        old(q).event_idx_enabled,
        old(q).num_added < 0xffff,
        call_ensures(Queue::hand_back, (q, mem, head, len), r),
    ensures
        final(mem).ram().load(old(q).avail_ring.0 + 4 + 2 * old(q).size, 2) matches Ok(b) && (r <==> exists|i: int|
            0 <= i <= old(q).num_added && digits(b, 0, 2) == #[trigger] position(old(q).next_used - i)),
{
    let ram = old(mem).ram();
    old(mem).lemma_ram_wf();
    final(mem).lemma_ram_wf();
    lemma_ring_open(*old(q), ram, head, len);
    law_used_element_in_memory(*old(q), ram, head, len);
    let (done, q1, after) = old(q).add_used_spec(ram, head, len);
    law_driver_notified(q1, after);
    assert(after.layout == ram.layout);
    assert(q1.reachable(after.layout)) by {
        assert(q1.actual() == old(q).actual());
        assert forall|pos: int|
            #![trigger q1.slot_ok(after.layout, pos)]
            0 <= pos < 0x1_0000 && q1.actual() > 0 implies q1.slot_ok(after.layout, pos) by {
            assert(old(q).slot_ok(ram.layout, pos));
        }
    }
    law_notifications_possible(q1, after);
    let b = after.load(old(q).avail_ring.0 + 4 + 2 * old(q).size, 2)->Ok_0;
    let n = old(q).next_used as int;
    if r {
        let i = choose|i: int|
            1 <= i <= q1.num_added && digits(b, 0, 2) == #[trigger] position(q1.next_used - i);
        assert(position(q1.next_used - i) == position(n - (i - 1)));
        assert(0 <= i - 1 <= old(q).num_added);
    }
    if exists|i: int| 0 <= i <= old(q).num_added && digits(b, 0, 2) == #[trigger] position(n - i) {
        let i = choose|i: int| 0 <= i <= old(q).num_added && digits(b, 0, 2) == #[trigger] position(n - i);
        assert(position(q1.next_used - (i + 1)) == position(n - i));
    }
}

/// The driver is told of what the workers delivered, where it does not go by
/// events, and is not told of nothing.
pub proof fn law_deliveries_told(
    w: &mut console::ConsoleWorker,
    mem: &mut MemoryManager,
    data: &[u8],
    limit: usize,
    r: console::RxReport,
    v: &mut net::NetWorker,
    other: &mut MemoryManager,
    frames: &Vec<Vec<u8>>,
    s: net::RxReport,
)
    requires
        call_ensures(console::ConsoleWorker::process_rx_input, (w, mem, data, limit), r),
        call_ensures(net::NetWorker::process_rx_virtio_queue, (v, other, frames), s),
    ensures
        ({
            let run = console::rx_run(old(w).rx_queue, old(mem).ram(), data@, 0, limit as nat);
            &&& !run.used_any ==> !r.notify
            &&& run.used_any && !run.queue.event_idx_enabled ==> r.notify
        }),
        ({
            let run = net::rx_run(old(v).rx_queue, old(other).ram(), net::contents(frames@));
            &&& !run.used_any ==> !s.notify
            &&& run.used_any && !run.queue.event_idx_enabled ==> s.notify
        }),
{
}

} // verus!
