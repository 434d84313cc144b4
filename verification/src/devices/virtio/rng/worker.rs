//! Serves the requests for entropy.

use vstd::prelude::*;

use crate::devices::virtio::descriptor_utils::{
    scattered, total_len, writer_buffers, GuestBuffer, Writer,
};
use crate::devices::virtio::queue::{Error, Queue};
use crate::memory::memory::{MemoryManager, Ram, RegionLayout};

verus! {

/// A request that waits for random bytes.
#[derive(Debug)]
pub struct PendingFill {
    /// The chain to hand back.
    pub head_index: u16,
    /// Where the bytes go.
    pub writer: Writer,
    /// How many bytes are asked for.
    pub len: usize,
}

impl PendingFill {
    pub open spec fn wf(self, layout: Seq<RegionLayout>) -> bool {
        &&& self.writer.wf(layout)
        &&& self.writer.pos == 0
        &&& self.len == self.writer.room()
    }
}

/// What serving the next request came to.
#[derive(Debug)]
pub enum RngStep {
    /// There is no request.
    Idle,
    /// A request could not be made out and was dropped.
    Dropped,
    /// A request had no room and was handed back empty.
    Empty,
    /// A request waits for random bytes.
    Fill(PendingFill),
}

/// What serving the next request came to.
pub enum RngStepModel {
    Idle,
    Dropped,
    Empty,
    Fill { head_index: u16, bufs: Seq<GuestBuffer> },
}

impl RngStep {
    pub open spec fn stands_for(self, model: RngStepModel) -> bool {
        match model {
            RngStepModel::Idle => self is Idle,
            RngStepModel::Dropped => self is Dropped,
            RngStepModel::Empty => self is Empty,
            RngStepModel::Fill { head_index, bufs } => self matches RngStep::Fill(p) && p.head_index
                == head_index && p.writer.buffers@ == bufs && p.writer.pos == 0 && p.len
                == total_len(bufs),
        }
    }
}

/// Serving the next request of the queue: the queue, memory and what it came
/// to.
pub open spec fn next_fill(q: Queue, ram: Ram) -> (Queue, Ram, RngStepModel) {
    match q.front(ram) {
        None => (q, ram, RngStepModel::Idle),
        Some(head) => match writer_buffers(ram, head) {
            Err(_) => (q.popped(), ram, RngStepModel::Dropped),
            Ok(bufs) => if total_len(bufs) == 0 {
                let (_, q1, after) = q.popped().add_used_spec(ram, head.index, 0);
                (q1, after, RngStepModel::Empty)
            } else {
                (q.popped(), ram, RngStepModel::Fill { head_index: head.index, bufs })
            },
        },
    }
}

/// Serves the queue of an entropy source.
#[derive(Clone, Copy, Debug, PartialEq, Eq, Structural)]
pub struct RngWorker {
    pub queue: Queue,
}

impl RngWorker {
    pub open spec fn wf(self, layout: Seq<RegionLayout>) -> bool {
        self.queue.reachable(layout)
    }

    pub fn new(queue: Queue) -> (r: Self)
        ensures
            r.queue == queue,
    {
        RngWorker { queue }
    }

    /// Serves the next request of the queue.
    pub fn process_queue(&mut self, mem: &mut MemoryManager) -> (r: RngStep)
        requires
            old(mem).wf(),
            old(self).wf(old(mem).ram().layout),
        ensures
            final(mem).wf(),
            final(mem).same_but_bytes(*old(mem)),
            final(self).wf(final(mem).ram().layout),
            ({
                let (q, ram, step) = next_fill(old(self).queue, old(mem).ram());
                &&& final(self).queue == q
                &&& final(mem).ram() == ram
                &&& r.stands_for(step)
            }),
            r matches RngStep::Fill(p) ==> p.wf(final(mem).ram().layout),
    {
        let head = match self.queue.take_chain(mem) {
            Some(h) => h,
            None => {
                return RngStep::Idle;
            },
        };
        let writer = match Writer::new(mem, head) {
            Ok(w) => w,
            Err(_) => {
                return RngStep::Dropped;
            },
        };
        let len: usize = writer.available_bytes();
        if len == 0 {
            self.queue.give_back(mem, head.index, 0);
            return RngStep::Empty;
        }
        RngStep::Fill(PendingFill { head_index: head.index, writer, len })
    }

    /// Goes on to the next round of serving the queue: with notifications off
    /// for the first one, and once the queue was found empty after asking for
    /// them again. Tells whether there is a round to serve.
    pub fn round(&mut self, mem: &mut MemoryManager, idle: bool) -> (r: Result<bool, Error>)
        requires
            old(mem).wf(),
        ensures
            final(mem).wf(),
            final(mem).same_but_bytes(*old(mem)),
            *final(self) == *old(self),
            (final(mem).ram(), r) == old(self).queue.round_spec(old(mem).ram(), idle),
    {
        self.queue.round(mem, idle)
    }

    /// Settles a request with the random bytes, or without any if there were
    /// none to be had. The result tells whether the driver must be notified.
    pub fn complete(&mut self, mem: &mut MemoryManager, pending: PendingFill, random: Option<Vec<u8>>) -> (r:
        bool)
        requires
            old(mem).wf(),
            old(self).wf(old(mem).ram().layout),
            pending.wf(old(mem).ram().layout),
            random matches Some(bytes) ==> bytes@.len() == pending.len,
        ensures
            final(mem).wf(),
            final(mem).same_but_bytes(*old(mem)),
            final(self).wf(final(mem).ram().layout),
            (final(self).queue, final(mem).ram(), r) == (match random {
                Some(bytes) => old(self).queue.handed_back(
                    scattered(old(mem).ram(), pending.writer.buffers@, 0, bytes@),
                    pending.head_index,
                    pending.len as u32,
                ),
                None => old(self).queue.handed_back(old(mem).ram(), pending.head_index, 0),
            }),
    {
        let mut writer = pending.writer;
        let written: usize = match &random {
            Some(bytes) => {
                writer.write_all(mem, bytes.as_slice());
                pending.len
            },
            None => 0,
        };
        self.queue.hand_back(mem, pending.head_index, written as u32)
    }
}

} // verus!
