//! What the workers of the console, the network device and the entropy source
//! move between the guest's buffers and the host.

use vstd::prelude::*;

use crate::devices::virtio::console::worker as console;
use crate::devices::virtio::descriptor_utils::{
    all_inside, law_scattered_keeps_layout, reader_buffers, scattered, total_len, writer_buffers, GuestBuffer,
};
use crate::devices::virtio::net::worker as net;
use crate::devices::virtio::queue::{DescriptorChain, Queue};
use crate::devices::virtio::rng::worker::{next_fill, RngStepModel};
use crate::laws::memory::digits;
use crate::laws::queue::{law_used_element_in_memory, lemma_ring_open, ring_open};
use crate::laws::stream::{
    apart, law_gathered_is_the_stream, law_scattered_into_the_stream, law_stream_after_handing_back,
    off_the_ring, stream,
};
use crate::memory::memory::Ram;

verus! {

/// The used ring has taken in a chain: its head and a length stand at the place
/// of the position, both positions have gone on by one, and nothing else of the
/// queue has changed.
pub open spec fn took_in(q: Queue, q2: Queue, after: Ram, head: u16, len: int) -> bool {
    &&& after.read(q.used_ring.0 + 4 + 8 * (q.next_used as int % q.size as int), 8) matches Ok(b) && digits(
        b,
        0,
        4,
    ) == head && digits(b, 4, 4) == len
    &&& q2.next_avail == (q.next_avail + 1) % 0x1_0000
    &&& q2.next_used == (q.next_used + 1) % 0x1_0000
    &&& q2 == (Queue {
        next_avail: q2.next_avail,
        next_used: q2.next_used,
        num_added: q2.num_added,
        ..q
    })
}

/// The queue has gone past a chain without handing it back.
pub open spec fn skipped(q: Queue, q2: Queue) -> bool {
    &&& q2.next_avail == (q.next_avail + 1) % 0x1_0000
    &&& q2 == (Queue { next_avail: q2.next_avail, ..q })
}

proof fn lemma_took_in(q: Queue, ram: Ram, head: u16, len: u32)
    requires
        ram.wf(),
        ring_open(q, ram),
        head < q.size,
    ensures
        ({
            let (_, q2, after) = q.popped().add_used_spec(ram, head, len);
            took_in(q, q2, after, head, len as int)
        }),
{
    lemma_ring_open(q.popped(), ram, head, len);
    law_used_element_in_memory(q.popped(), ram, head, len);
}

/// Serving one chain of the console's output: what the guest wrote is what its
/// buffers hold, from the first byte to the last, and the chain is handed back
/// with nothing written. A chain that cannot be made out is gone past.
pub proof fn law_console_output(q: Queue, ram: Ram, head: DescriptorChain, p: int)
    requires
        ram.wf(),
    ensures
        ({
            let r = console::tx_run(q, ram, 1);
            &&& q.front(ram) is None ==> r.done && r.output.len() == 0 && !r.used_any && r.queue == q && r.ram
                == ram
            &&& q.front(ram) == Some(head) && reader_buffers(ram, head) is Err ==> !r.done && r.output.len()
                == 0 && !r.used_any && skipped(q, r.queue) && r.ram == ram
            &&& q.front(ram) == Some(head) ==> (reader_buffers(ram, head) matches Ok(bufs) ==> all_inside(
                ram.layout,
                bufs,
            ) ==> {
                &&& !r.done
                &&& r.used_any
                &&& r.output.len() == total_len(bufs)
                &&& 0 <= p < total_len(bufs) ==> r.output[p] == stream(ram, bufs, p)
                &&& head.index < q.size && ring_open(q, ram) ==> took_in(q, r.queue, r.ram, head.index, 0)
            })
        }),
{
    reveal_with_fuel(console::tx_run, 2);
    if q.front(ram) == Some(head) {
        if let Ok(bufs) = reader_buffers(ram, head) {
            if all_inside(ram.layout, bufs) {
                law_gathered_is_the_stream(ram, bufs, p);
                if head.index < q.size && ring_open(q, ram) {
                    lemma_took_in(q, ram, head.index, 0);
                }
            }
        }
    }
}

/// The console's output may be served in portions: a run goes on where one with
/// a lower limit has left off, and what it gives follows.
#[verifier::spinoff_prover]
#[verifier::rlimit(60)]
pub proof fn law_console_output_in_portions(q: Queue, ram: Ram, a: nat, b: nat)
    ensures
        ({
            let all = console::tx_run(q, ram, a + b);
            let first = console::tx_run(q, ram, a);
            let second = console::tx_run(first.queue, first.ram, b);
            if first.done {
                all == first
            } else {
                &&& all.queue == second.queue
                &&& all.ram == second.ram
                &&& all.output == first.output + second.output
                &&& all.used_any == (first.used_any || second.used_any)
                &&& all.done == second.done
            }
        }),
    decreases a,
{
    if a == 0 {
        let second = console::tx_run(q, ram, b);
        assert(Seq::<u8>::empty() + second.output =~= second.output);
    } else {
        match console::tx_step(q, ram) {
            None => {},
            Some((q1, ram1, text)) => {
                law_console_output_in_portions(q1, ram1, (a - 1) as nat, b);
                assert((a + b - 1) as nat == ((a - 1) as nat) + b);
                if let Some(t) = text {
                    let first = console::tx_run(q1, ram1, (a - 1) as nat);
                    let second = console::tx_run(first.queue, first.ram, b);
                    assert(t + (first.output + second.output) =~= (t + first.output) + second.output);
                }
            },
        }
    }
}

/// Handing input to the guest in one chain: as much of it as there is room for
/// goes to the buffers from the first byte on, the rest of them stays, and the
/// guest is told how much it is. Without a chain the rest is dropped.
#[verifier::spinoff_prover]
#[verifier::rlimit(60)]
pub proof fn law_console_input(
    q: Queue,
    ram: Ram,
    data: Seq<u8>,
    offset: int,
    head: DescriptorChain,
    bufs: Seq<GuestBuffer>,
    p: int,
)
    requires
        ram.wf(),
        0 <= offset < data.len(),
        data.len() <= u32::MAX,
    ensures
        ({
            let r = console::rx_run(q, ram, data, offset, 1);
            &&& q.front(ram) is None ==> r.done && r.consumed == offset && !r.used_any && r.queue == q && r.ram
                == ram
            &&& q.front(ram) == Some(head) && writer_buffers(ram, head) is Err ==> !r.done && r.consumed
                == offset && !r.used_any && skipped(q, r.queue) && r.ram == ram
            &&& q.front(ram) == Some(head) && (writer_buffers(ram, head) matches Ok(wb) && wb == bufs)
                && all_inside(ram.layout, bufs) && apart(bufs) && off_the_ring(ram.layout, bufs, q) ==> {
                let n = if data.len() - offset < total_len(bufs) {
                    data.len() - offset
                } else {
                    total_len(bufs) as int
                };
                &&& r.used_any
                &&& r.consumed == offset + n
                &&& r.done <==> r.consumed == data.len()
                &&& 0 <= p < total_len(bufs) ==> stream(r.ram, bufs, p) == (if p < n {
                    data[offset + p]
                } else {
                    stream(ram, bufs, p)
                })
                &&& head.index < q.size && ring_open(q, ram) ==> took_in(q, r.queue, r.ram, head.index, n)
            }
        }),
{
    reveal_with_fuel(console::rx_run, 2);
    if q.front(ram) == Some(head) && (writer_buffers(ram, head) matches Ok(wb) && wb == bufs) && all_inside(
        ram.layout,
        bufs,
    ) && apart(bufs) && off_the_ring(ram.layout, bufs, q) {
        let n = if data.len() - offset < total_len(bufs) {
            data.len() - offset
        } else {
            total_len(bufs) as int
        };
        let part = data.subrange(offset, offset + n);
        let filled = scattered(ram, bufs, 0, part);
        law_scattered_keeps_layout(ram, bufs, 0, part);
        if 0 <= p < total_len(bufs) {
            law_scattered_into_the_stream(ram, bufs, 0, part, p);
            law_stream_after_handing_back(q.popped(), filled, head.index, n as u32, bufs, p);
        }
        if head.index < q.size && ring_open(q, ram) {
            lemma_took_in(q, filled, head.index, n as u32);
        }
    }
}

/// Input may be handed over in portions: a run goes on where one with a lower
/// limit has left off.
pub proof fn law_console_input_in_portions(q: Queue, ram: Ram, data: Seq<u8>, offset: int, a: nat, b: nat)
    ensures
        ({
            let all = console::rx_run(q, ram, data, offset, a + b);
            let first = console::rx_run(q, ram, data, offset, a);
            let second = console::rx_run(first.queue, first.ram, data, first.consumed, b);
            if first.done {
                all == first
            } else {
                &&& all.queue == second.queue
                &&& all.ram == second.ram
                &&& all.consumed == second.consumed
                &&& all.used_any == (first.used_any || second.used_any)
                &&& all.done == second.done
            }
        }),
    decreases a,
{
    if a > 0 && offset < data.len() {
        assert((a + b - 1) as nat == ((a - 1) as nat) + b);
        if let Some(head) = q.front(ram) {
            match writer_buffers(ram, head) {
                Err(_) => {
                    law_console_input_in_portions(q.popped(), ram, data, offset, (a - 1) as nat, b);
                },
                Ok(bufs) => {
                    let left = data.len() - offset;
                    let n = if left <= total_len(bufs) {
                        left
                    } else {
                        total_len(bufs) as int
                    };
                    let filled = scattered(ram, bufs, 0, data.subrange(offset, offset + n));
                    let (_, q1, after) = q.popped().add_used_spec(filled, head.index, n as u32);
                    law_console_input_in_portions(q1, after, data, offset + n, (a - 1) as nat, b);
                },
            }
        }
    }
}

/// Frames may be sent in portions: a run goes on where one with a lower limit
/// has left off, and what it sends follows.
#[verifier::spinoff_prover]
#[verifier::rlimit(60)]
pub proof fn law_frames_sent_in_portions(q: Queue, ram: Ram, a: nat, b: nat)
    ensures
        ({
            let all = net::tx_run(q, ram, a + b);
            let first = net::tx_run(q, ram, a);
            let second = net::tx_run(first.queue, first.ram, b);
            if first.done {
                all == first
            } else {
                &&& all.queue == second.queue
                &&& all.ram == second.ram
                &&& all.frames == first.frames + second.frames
                &&& all.used_any == (first.used_any || second.used_any)
                &&& all.done == second.done
            }
        }),
    decreases a,
{
    if a == 0 {
        let second = net::tx_run(q, ram, b);
        assert(Seq::<Seq<u8>>::empty() + second.frames =~= second.frames);
    } else {
        match net::tx_step(q, ram) {
            None => {},
            Some((q1, ram1, used, frame)) => {
                law_frames_sent_in_portions(q1, ram1, (a - 1) as nat, b);
                assert((a + b - 1) as nat == ((a - 1) as nat) + b);
                if let Some(f) = frame {
                    let first = net::tx_run(q1, ram1, (a - 1) as nat);
                    let second = net::tx_run(first.queue, first.ram, b);
                    assert(seq![f] + (first.frames + second.frames) =~= (seq![f] + first.frames)
                        + second.frames);
                }
            },
        }
    }
}

/// Serving one chain of frames to be sent: one with more than a header sends
/// one message, and every chain that can be made out is handed back with
/// nothing written.
pub proof fn law_frame_chain(q: Queue, ram: Ram, head: DescriptorChain)
    requires
        ram.wf(),
    ensures
        ({
            let r = net::tx_run(q, ram, 1);
            &&& q.front(ram) is None ==> r.done && r.frames.len() == 0 && !r.used_any && r.queue == q && r.ram
                == ram
            &&& q.front(ram) == Some(head) && reader_buffers(ram, head) is Err ==> !r.done && r.frames.len()
                == 0 && !r.used_any && skipped(q, r.queue) && r.ram == ram
            &&& q.front(ram) == Some(head) ==> (reader_buffers(ram, head) matches Ok(bufs) ==> all_inside(
                ram.layout,
                bufs,
            ) ==> {
                &&& !r.done
                &&& r.used_any
                &&& total_len(bufs) <= 12 ==> r.frames.len() == 0
                &&& total_len(bufs) > 12 ==> r.frames.len() == 1 && r.frames[0].len() == total_len(bufs) - 10
                    && (forall|i: int|
                    0 <= i < total_len(bufs) - 12 ==> #[trigger] r.frames[0][2 + i] == stream(
                        ram,
                        bufs,
                        12 + i,
                    ))
                &&& head.index < q.size && ring_open(q, ram) ==> took_in(q, r.queue, r.ram, head.index, 0)
            })
        }),
{
    reveal_with_fuel(net::tx_run, 2);
    if q.front(ram) == Some(head) {
        if let Ok(bufs) = reader_buffers(ram, head) {
            if all_inside(ram.layout, bufs) {
                crate::laws::net::law_sent_frame(q, ram);
                law_gathered_is_the_stream(ram, bufs, 0);
                let r = net::tx_run(q, ram, 1);
                if total_len(bufs) > 12 {
                    let m = (net::tx_step(q, ram)->0).3->0;
                    assert(seq![m] + Seq::<Seq<u8>>::empty() =~= seq![m]);
                    assert forall|i: int| 0 <= i < total_len(bufs) - 12 implies #[trigger] r.frames[0][2 + i]
                        == stream(ram, bufs, 12 + i) by {
                        law_gathered_is_the_stream(ram, bufs, 12 + i);
                        assert(m[2 + i] == crate::devices::virtio::descriptor_utils::gathered(ram, bufs)[12
                            + i]);
                    }
                }
                if head.index < q.size && ring_open(q, ram) {
                    lemma_took_in(q, ram, head.index, 0);
                }
            }
        }
    }
}

/// Delivering one frame. One that is longer than an ethernet frame can be is
/// dropped; without a chain it waits; otherwise it takes one chain. If there is
/// room for a header of twelve bytes and the frame, the buffers hold the
/// header, all zero but for the number of buffers, one, and the frame behind
/// it, and the guest is told how much it is. If not, the chain is handed back
/// empty.
#[verifier::rlimit(50)]
pub proof fn law_frame_delivered(
    q: Queue,
    ram: Ram,
    frame: Seq<u8>,
    head: DescriptorChain,
    bufs: Seq<GuestBuffer>,
    p: int,
)
    requires
        ram.wf(),
    ensures
        ({
            let r = net::rx_run(q, ram, seq![frame]);
            let served = q.front(ram) == Some(head) && (writer_buffers(ram, head) matches Ok(wb) && wb == bufs)
                && all_inside(ram.layout, bufs) && apart(bufs) && off_the_ring(ram.layout, bufs, q);
            let ring = head.index < q.size && ring_open(q, ram);
            &&& frame.len() > 1514 ==> r.taken == 1 && !r.used_any && r.queue == q && r.ram == ram
            &&& frame.len() <= 1514 && q.front(ram) is None ==> r.taken == 0 && !r.used_any && r.queue == q
                && r.ram == ram
            &&& frame.len() <= 1514 && q.front(ram) == Some(head) && writer_buffers(ram, head) is Err
                ==> r.taken == 1 && !r.used_any && skipped(q, r.queue) && r.ram == ram
            &&& frame.len() <= 1514 && served && total_len(bufs) < frame.len() + 12 ==> {
                &&& r.taken == 1
                &&& !r.used_any
                &&& ring ==> took_in(q, r.queue, r.ram, head.index, 0)
                &&& 0 <= p < total_len(bufs) ==> stream(r.ram, bufs, p) == stream(ram, bufs, p)
            }
            &&& frame.len() <= 1514 && served && total_len(bufs) >= frame.len() + 12 ==> {
                &&& r.taken == 1
                &&& r.used_any
                &&& ring ==> took_in(q, r.queue, r.ram, head.index, frame.len() + 12int)
                &&& 0 <= p < total_len(bufs) ==> stream(r.ram, bufs, p) == (if p == 10 {
                    1u8
                } else if p < 12 {
                    0
                } else if p < 12 + frame.len() {
                    frame[p - 12]
                } else {
                    stream(ram, bufs, p)
                })
            }
        }),
{
    reveal_with_fuel(net::rx_run, 2);
    let one = seq![frame];
    assert(one.subrange(1, 1) =~= Seq::<Seq<u8>>::empty());
    if frame.len() <= 1514 && q.front(ram) == Some(head) && (writer_buffers(ram, head) matches Ok(wb) && wb
        == bufs) && all_inside(ram.layout, bufs) && apart(bufs) && off_the_ring(ram.layout, bufs, q) {
        if total_len(bufs) < frame.len() + 12 {
            if 0 <= p < total_len(bufs) {
                law_stream_after_handing_back(q.popped(), ram, head.index, 0, bufs, p);
            }
            if head.index < q.size && ring_open(q, ram) {
                lemma_took_in(q, ram, head.index, 0);
            }
        } else {
            let header = net::rx_header();
            let a = scattered(ram, bufs, 0, header);
            let b = scattered(a, bufs, 12, frame);
            law_scattered_keeps_layout(ram, bufs, 0, header);
            law_scattered_keeps_layout(a, bufs, 12, frame);
            if 0 <= p < total_len(bufs) {
                law_scattered_into_the_stream(ram, bufs, 0, header, p);
                law_scattered_into_the_stream(a, bufs, 12, frame, p);
                law_stream_after_handing_back(
                    q.popped(),
                    b,
                    head.index,
                    (12 + frame.len()) as u32,
                    bufs,
                    p,
                );
            }
            if head.index < q.size && ring_open(q, ram) {
                lemma_took_in(q, b, head.index, (12 + frame.len()) as u32);
            }
        }
    }
}

/// Frames may be delivered in portions: once all of the first ones were dealt
/// with, the others follow; if some have to wait, the others wait too.
pub proof fn law_frames_delivered_in_portions(q: Queue, ram: Ram, a: Seq<Seq<u8>>, b: Seq<Seq<u8>>)
    ensures
        ({
            let all = net::rx_run(q, ram, a + b);
            let first = net::rx_run(q, ram, a);
            let second = net::rx_run(first.queue, first.ram, b);
            if first.taken < a.len() {
                all == first
            } else {
                &&& all.queue == second.queue
                &&& all.ram == second.ram
                &&& all.taken == first.taken + second.taken
                &&& all.used_any == (first.used_any || second.used_any)
            }
        }),
    decreases a.len(),
{
    if a.len() == 0 {
        assert(a + b =~= b);
    } else {
        let frame = a[0];
        let rest = a.subrange(1, a.len() as int);
        assert((a + b)[0] == frame);
        assert((a + b).subrange(1, (a + b).len() as int) =~= rest + b);
        if frame.len() > 1514 {
            law_frames_delivered_in_portions(q, ram, rest, b);
        } else if let Some(head) = q.front(ram) {
            match writer_buffers(ram, head) {
                Err(_) => {
                    law_frames_delivered_in_portions(q.popped(), ram, rest, b);
                },
                Ok(bufs) => {
                    if total_len(bufs) < 12 + frame.len() {
                        let (_, q1, after) = q.popped().add_used_spec(ram, head.index, 0);
                        law_frames_delivered_in_portions(q1, after, rest, b);
                    } else {
                        let filled = scattered(
                            scattered(ram, bufs, 0, net::rx_header()),
                            bufs,
                            12,
                            frame,
                        );
                        let (_, q1, after) = q.popped().add_used_spec(
                            filled,
                            head.index,
                            (12 + frame.len()) as u32,
                        );
                        law_frames_delivered_in_portions(q1, after, rest, b);
                    }
                },
            }
        }
    }
}

/// A request for entropy: it waits for as many random bytes as its buffers have
/// room for; one without room is handed back at once, empty.
pub proof fn law_entropy_request(q: Queue, ram: Ram, head: DescriptorChain, bufs: Seq<GuestBuffer>)
    requires
        ram.wf(),
    ensures
        ({
            let (q2, after, step) = next_fill(q, ram);
            &&& q.front(ram) is None <==> step is Idle
            &&& step is Idle ==> q2 == q && after == ram
            &&& q.front(ram) == Some(head) && writer_buffers(ram, head) is Err ==> step is Dropped && skipped(
                q,
                q2,
            ) && after == ram
            &&& q.front(ram) == Some(head) && (writer_buffers(ram, head) matches Ok(wb) && wb == bufs) ==> {
                &&& total_len(bufs) > 0 ==> skipped(q, q2) && after == ram && (step matches RngStepModel::Fill {
                    head_index,
                    bufs: wb,
                } && head_index == head.index && wb == bufs)
                &&& total_len(bufs) == 0 ==> step is Empty && (head.index < q.size && ring_open(q, ram)
                    ==> took_in(q, q2, after, head.index, 0))
            }
        }),
{
    if q.front(ram) == Some(head) && writer_buffers(ram, head) is Ok && head.index < q.size && ring_open(q, ram) {
        lemma_took_in(q, ram, head.index, 0);
    }
}

/// A request that was given random bytes: its buffers hold them, from the first
/// to the last, and the guest is told how many; without any, the buffers stay
/// and it is told of none.
pub proof fn law_entropy_given(q: Queue, ram: Ram, head: u16, bufs: Seq<GuestBuffer>, random: Seq<u8>, p: int)
    requires
        ram.wf(),
        all_inside(ram.layout, bufs),
        apart(bufs),
        off_the_ring(ram.layout, bufs, q),
        random.len() == total_len(bufs),
        random.len() <= u32::MAX,
        0 <= p < total_len(bufs),
        head < q.size,
        ring_open(q, ram),
    ensures
        ({
            let (q2, after, notify) = q.handed_back(scattered(ram, bufs, 0, random), head, random.len() as u32);
            &&& stream(after, bufs, p) == random[p]
            &&& after.read(q.used_ring.0 + 4 + 8 * (q.next_used as int % q.size as int), 8) matches Ok(b)
                && digits(b, 0, 4) == head && digits(b, 4, 4) == random.len()
        }),
        ({
            let (q2, after, notify) = q.handed_back(ram, head, 0);
            &&& stream(after, bufs, p) == stream(ram, bufs, p)
            &&& after.read(q.used_ring.0 + 4 + 8 * (q.next_used as int % q.size as int), 8) matches Ok(b)
                && digits(b, 0, 4) == head && digits(b, 4, 4) == 0
        }),
{
    let filled = scattered(ram, bufs, 0, random);
    law_scattered_keeps_layout(ram, bufs, 0, random);
    law_scattered_into_the_stream(ram, bufs, 0, random, p);
    law_stream_after_handing_back(q, filled, head, random.len() as u32, bufs, p);
    law_stream_after_handing_back(q, ram, head, 0, bufs, p);
    lemma_ring_open(q, filled, head, random.len() as u32);
    lemma_ring_open(q, ram, head, 0);
    law_used_element_in_memory(q, filled, head, random.len() as u32);
    law_used_element_in_memory(q, ram, head, 0);
}

} // verus!
