//! Moves the characters between the guest's queues and the host.

use vstd::prelude::*;

use crate::devices::virtio::descriptor_utils::{
    gathered, lemma_gathered_len, reader_buffers, scattered, total_len, writer_buffers, Reader, Writer,
};
use crate::devices::virtio::queue::{plus16, Error, Queue};
use crate::memory::memory::{MemoryManager, Ram, RegionLayout};

verus! {

/// What serving a queue came to: the queue and memory afterwards, the bytes
/// that the guest wrote, whether a chain was handed back, and whether no
/// chain was left.
#[verifier::ext_equal]
pub struct TxModel {
    pub queue: Queue,
    pub ram: Ram,
    pub output: Seq<u8>,
    pub used_any: bool,
    pub done: bool,
}

/// One chain of the transmit queue: the queue and memory afterwards, and what
/// the guest wrote. A chain that cannot be made out is dropped.
pub open spec fn tx_step(q: Queue, ram: Ram) -> Option<(Queue, Ram, Option<Seq<u8>>)> {
    match q.front(ram) {
        None => None,
        Some(head) => match reader_buffers(ram, head) {
            Err(_) => Some((q.popped(), ram, None)),
            Ok(bufs) => {
                let (_, q1, after) = q.popped().add_used_spec(ram, head.index, 0);
                Some((q1, after, Some(gathered(ram, bufs))))
            },
        },
    }
}

/// Serving up to `limit` chains of the transmit queue.
pub open spec fn tx_run(q: Queue, ram: Ram, limit: nat) -> TxModel
    decreases limit,
{
    if limit == 0 {
        TxModel { queue: q, ram, output: Seq::empty(), used_any: false, done: false }
    } else {
        match tx_step(q, ram) {
            None => TxModel { queue: q, ram, output: Seq::empty(), used_any: false, done: true },
            Some((q1, ram1, None)) => tx_run(q1, ram1, (limit - 1) as nat),
            Some((q1, ram1, Some(text))) => {
                let rest = tx_run(q1, ram1, (limit - 1) as nat);
                TxModel { output: text + rest.output, used_any: true, ..rest }
            },
        }
    }
}

/// What serving the receive queue came to: the queue and memory afterwards,
/// how many bytes the guest has got, whether a chain was handed back, and
/// whether there is nothing more to do.
pub struct RxModel {
    pub queue: Queue,
    pub ram: Ram,
    pub consumed: int,
    pub used_any: bool,
    pub done: bool,
}

/// Handing `data` from `offset` on to the guest in up to `limit` chains. When
/// the guest offers no more buffers the rest is dropped.
pub open spec fn rx_run(q: Queue, ram: Ram, data: Seq<u8>, offset: int, limit: nat) -> RxModel
    decreases limit,
{
    if offset >= data.len() {
        RxModel { queue: q, ram, consumed: offset, used_any: false, done: true }
    } else if limit == 0 {
        RxModel { queue: q, ram, consumed: offset, used_any: false, done: false }
    } else {
        match q.front(ram) {
            None => RxModel { queue: q, ram, consumed: offset, used_any: false, done: true },
            Some(head) => match writer_buffers(ram, head) {
                Err(_) => rx_run(q.popped(), ram, data, offset, (limit - 1) as nat),
                Ok(bufs) => {
                    let left = data.len() - offset;
                    let n = if left <= total_len(bufs) {
                        left
                    } else {
                        total_len(bufs) as int
                    };
                    let filled = scattered(ram, bufs, 0, data.subrange(offset, offset + n));
                    let (_, q1, after) = q.popped().add_used_spec(filled, head.index, n as u32);
                    let rest = rx_run(q1, after, data, offset + n, (limit - 1) as nat);
                    RxModel { used_any: true, ..rest }
                },
            },
        }
    }
}

/// What serving the transmit queue came to.
#[derive(Debug)]
pub struct TxReport {
    /// What the guest wrote.
    pub output: Vec<u8>,
    /// Whether a chain was handed back, so that the driver must be notified.
    pub used_any: bool,
    /// Whether no chain was left.
    pub done: bool,
}

/// What a round of serving the transmit queue came to.
#[derive(Debug)]
pub struct TxRound {
    /// What the guest wrote.
    pub output: Vec<u8>,
    /// Whether a chain was handed back, so that the driver must be notified.
    pub used_any: bool,
    /// Whether another round is due.
    pub again: Result<bool, Error>,
}

impl TxRound {
    /// The round stands for serving `q` without notifications, and asking for
    /// them again once no chain is left.
    pub open spec fn stands_for(self, q: Queue, ram: Ram, limit: nat, q_after: Queue, ram_after: Ram) -> bool {
        match q.set_notification_spec(ram, false) {
            Err(e) => {
                &&& self.output@.len() == 0
                &&& !self.used_any
                &&& self.again == Err::<bool, Error>(e)
                &&& q_after == q
                &&& ram_after == ram
            },
            Ok(quiet) => {
                let run = tx_run(q, quiet, limit);
                &&& self.output@ == run.output
                &&& self.used_any == run.used_any
                &&& q_after == run.queue
                &&& (ram_after, self.again) == (if run.done {
                    run.queue.enable_spec(run.ram)
                } else {
                    (run.ram, Ok::<bool, Error>(true))
                })
            },
        }
    }
}

/// What serving the receive queue came to.
#[derive(Clone, Copy, Debug, PartialEq, Eq, Structural)]
pub struct RxReport {
    /// How many bytes the guest has got.
    pub consumed: usize,
    /// Whether the driver must be notified.
    pub notify: bool,
    /// Whether there is nothing more to do.
    pub done: bool,
}

/// Serves the queues of a console.
#[derive(Clone, Copy, Debug, PartialEq, Eq, Structural)]
pub struct ConsoleWorker {
    /// The guest's input.
    pub rx_queue: Queue,
    /// The guest's output.
    pub tx_queue: Queue,
}

impl ConsoleWorker {
    pub open spec fn wf(self, layout: Seq<RegionLayout>) -> bool {
        self.rx_queue.reachable(layout) && self.tx_queue.reachable(layout)
    }

    pub fn new(rx_queue: Queue, tx_queue: Queue) -> (r: Self)
        ensures
            r.rx_queue == rx_queue,
            r.tx_queue == tx_queue,
    {
        ConsoleWorker { rx_queue, tx_queue }
    }

    /// Serves up to `limit` chains of the transmit queue. The driver is
    /// notified of every chain that was handed back.
    pub fn process_tx_queue(&mut self, mem: &mut MemoryManager, limit: usize) -> (r: TxReport)
        requires
            old(mem).wf(),
            old(self).wf(old(mem).ram().layout),
        ensures
            final(mem).wf(),
            final(mem).same_but_bytes(*old(mem)),
            final(self).wf(final(mem).ram().layout),
            final(self).rx_queue == old(self).rx_queue,
            ({
                let run = tx_run(old(self).tx_queue, old(mem).ram(), limit as nat);
                &&& final(self).tx_queue == run.queue
                &&& final(mem).ram() == run.ram
                &&& r.output@ == run.output
                &&& r.used_any == run.used_any
                &&& r.done == run.done
            }),
    {
        let ghost goal = tx_run(self.tx_queue, mem.ram(), limit as nat);
        let ghost layout = mem.ram().layout;
        let mut output: Vec<u8> = Vec::new();
        let mut used_any = false;
        let mut left: usize = limit;
        assert(output@ + goal.output =~= goal.output);
        while left > 0
            invariant
                mem.wf(),
                mem.same_but_bytes(*old(mem)),
                layout == mem.ram().layout,
                self.wf(layout),
                self.rx_queue == old(self).rx_queue,
                goal == tx_run(old(self).tx_queue, old(mem).ram(), limit as nat),
                ({
                    let rest = tx_run(self.tx_queue, mem.ram(), left as nat);
                    &&& rest.queue == goal.queue
                    &&& rest.ram == goal.ram
                    &&& output@ + rest.output == goal.output
                    &&& (used_any || rest.used_any) == goal.used_any
                    &&& rest.done == goal.done
                }),
            decreases left,
        {
            let ghost q0 = self.tx_queue;
            let ghost ram0 = mem.ram();
            let ghost sent = output@;
            let head = match self.tx_queue.take_chain(mem) {
                Some(h) => h,
                None => {
                    assert(output@ + Seq::<u8>::empty() =~= output@);
                    return TxReport { output, used_any, done: true };
                },
            };
            left = left - 1;
            if let Ok(reader) = Reader::new(mem, head) {
                let mut reader = reader;
                let avail: usize = reader.available_bytes();
                proof {
                    mem.lemma_ram_wf();
                    lemma_gathered_len(ram0, reader.buffers@);
                }
                let ghost text = gathered(ram0, reader.buffers@);
                let mut buf = reader.read(mem, avail);
                assert(buf@ =~= text);
                output.append(&mut buf);
                self.tx_queue.give_back(mem, head.index, 0);
                used_any = true;
                proof {
                    let rest = tx_run(self.tx_queue, mem.ram(), left as nat);
                    assert(sent + (text + rest.output) =~= (sent + text) + rest.output);
                    assert(output@ =~= sent + text);
                }
            }
        }
        assert(output@ + Seq::<u8>::empty() =~= output@);
        TxReport { output, used_any, done: false }
    }

    /// One round of the transmit queue: the driver is told that notifications
    /// are not needed, up to `limit` chains are served, and once none is left
    /// notifications are asked for again.
    pub fn process_tx_virtio_queue(&mut self, mem: &mut MemoryManager, limit: usize) -> (r: TxRound)
        requires
            old(mem).wf(),
            old(self).wf(old(mem).ram().layout),
        ensures
            final(mem).wf(),
            final(mem).same_but_bytes(*old(mem)),
            final(self).wf(final(mem).ram().layout),
            final(self).rx_queue == old(self).rx_queue,
            r.stands_for(
                old(self).tx_queue,
                old(mem).ram(),
                limit as nat,
                final(self).tx_queue,
                final(mem).ram(),
            ),
    {
        if let Err(e) = self.tx_queue.disable_notification(mem) {
            return TxRound { output: Vec::new(), used_any: false, again: Err(e) };
        }
        let report = self.process_tx_queue(mem, limit);
        let again = if report.done {
            self.tx_queue.enable_notification(mem)
        } else {
            Ok(true)
        };
        TxRound { output: report.output, used_any: report.used_any, again }
    }

    /// Hands input to the guest in up to `limit` chains. When the guest offers
    /// no more buffers the rest is dropped.
    pub fn process_rx_input(&mut self, mem: &mut MemoryManager, data: &[u8], limit: usize) -> (r: RxReport)
        requires
            old(mem).wf(),
            old(self).wf(old(mem).ram().layout),
        ensures
            final(mem).wf(),
            final(mem).same_but_bytes(*old(mem)),
            final(self).wf(final(mem).ram().layout),
            final(self).tx_queue == old(self).tx_queue,
            ({
                let run = rx_run(old(self).rx_queue, old(mem).ram(), data@, 0, limit as nat);
                let (notify, q) = if run.used_any {
                    run.queue.notification_spec(run.ram)
                } else {
                    (Ok::<bool, Error>(false), run.queue)
                };
                &&& final(self).rx_queue == q
                &&& final(mem).ram() == run.ram
                &&& r.consumed == run.consumed
                &&& r.notify == notify->Ok_0
                &&& r.done == run.done
            }),
    {
        let ghost goal = rx_run(self.rx_queue, mem.ram(), data@, 0, limit as nat);
        let ghost layout = mem.ram().layout;
        let mut offset: usize = 0;
        let mut used_any = false;
        let mut left: usize = limit;
        let mut done = false;
        while offset < data.len() && left > 0 && !done
            invariant
                mem.wf(),
                mem.same_but_bytes(*old(mem)),
                layout == mem.ram().layout,
                self.wf(layout),
                self.tx_queue == old(self).tx_queue,
                offset <= data@.len(),
                ({
                    let rest = if done {
                        RxModel {
                            queue: self.rx_queue,
                            ram: mem.ram(),
                            consumed: offset as int,
                            used_any: false,
                            done: true,
                        }
                    } else {
                        rx_run(self.rx_queue, mem.ram(), data@, offset as int, left as nat)
                    };
                    &&& rest.queue == goal.queue
                    &&& rest.ram == goal.ram
                    &&& rest.consumed == goal.consumed
                    &&& (used_any || rest.used_any) == goal.used_any
                    &&& rest.done == goal.done
                }),
            decreases left,
        {
            left = left - 1;
            match self.rx_queue.take_chain(mem) {
                None => {
                    done = true;
                },
                Some(head) => {
                    if let Ok(writer) = Writer::new(mem, head) {
                        let mut writer = writer;
                        let room: usize = writer.available_bytes();
                        let rest: usize = data.len() - offset;
                        let n: usize = if rest <= room {
                            rest
                        } else {
                            room
                        };
                        writer.write_all(mem, &data[offset..offset + n]);
                        self.rx_queue.give_back(mem, head.index, n as u32);
                        offset = offset + n;
                        used_any = true;
                    }
                },
            }
        }
        let mut notify = false;
        if used_any {
            let ghost q0 = self.rx_queue;
            if let Ok(n) = self.rx_queue.needs_notification(mem) {
                notify = n;
            }
            proof {
                crate::devices::virtio::queue::lemma_reachable_progress(q0, self.rx_queue, layout);
            }
        }
        RxReport { consumed: offset, notify, done: done || offset >= data.len() }
    }
}

/// Serving up to `limit` chains never changes the position that the driver
/// has published in the transmit queue.
pub open spec fn tx_steady(q: Queue, ram: Ram, limit: nat) -> bool
    decreases limit,
{
    limit == 0 || match tx_step(q, ram) {
        None => true,
        Some((q1, ram1, _)) => q1.avail_idx_spec(ram1) == q.avail_idx_spec(ram) && tx_steady(
            q1,
            ram1,
            (limit - 1) as nat,
        ),
    }
}

/// Serving the transmit queue ends: as long as handing chains back does not
/// change the position that the driver has published, a limit above the
/// number of waiting chains is never reached.
pub proof fn law_tx_ends(q: Queue, ram: Ram, limit: nat)
    requires
        limit > q.pending(ram),
        tx_steady(q, ram, limit),
    ensures
        tx_run(q, ram, limit).done,
    decreases limit,
{
    match tx_step(q, ram) {
        None => {},
        Some((q1, ram1, text)) => {
            assert(q1.next_avail == plus16(q.next_avail, 1));
            assert(q.pending(ram) > 0);
            assert(q1.pending(ram1) == q.pending(ram) - 1);
            law_tx_ends(q1, ram1, (limit - 1) as nat);
        },
    }
}

} // verus!
