//! Moves ethernet frames between the guest's queues and the network.

use vstd::prelude::*;

use crate::byte_order::{encode_le, le_bytes};
use crate::devices::virtio::descriptor_utils::{
    gathered, lemma_gathered_len, reader_buffers, scattered, total_len, writer_buffers, Reader, Writer,
};
use crate::devices::virtio::queue::{lemma_reachable_progress, Error, Queue};
use crate::laws::net::law_sent_messages;
use crate::memory::memory::{MemoryManager, Ram, RegionLayout};

verus! {

/// Size of the header before a frame.
pub const NET_HDR_SIZE: usize = 12;

/// Maximum ethernet frame size.
pub const MAX_FRAME_SIZE: usize = 1514;

/// Number of frames to read in a single batch.
pub const BATCH_SIZE: usize = 32;

/// The header that is put before a received frame: no flags, no segmentation,
/// one buffer.
pub open spec fn rx_header() -> Seq<u8> {
    Seq::new(12, |i: int| if i == 10 { 1u8 } else { 0u8 })
}

/// A frame as it goes to the network: its length as 16 bits, then the frame.
pub open spec fn framed(frame: Seq<u8>) -> Seq<u8> {
    le_bytes(frame.len() as u16 as nat, 2) + frame
}

/// One chain of the transmit queue: the queue and memory afterwards, whether
/// the chain was handed back, and what goes to the network. The header before
/// the frame is left out; a chain without a frame sends nothing.
pub open spec fn tx_step(q: Queue, ram: Ram) -> Option<(Queue, Ram, bool, Option<Seq<u8>>)> {
    match q.front(ram) {
        None => None,
        Some(head) => match reader_buffers(ram, head) {
            Err(_) => Some((q.popped(), ram, false, None)),
            Ok(bufs) => {
                let (_, q1, after) = q.popped().add_used_spec(ram, head.index, 0);
                let packet = gathered(ram, bufs);
                Some(
                    (
                        q1,
                        after,
                        true,
                        if packet.len() > NET_HDR_SIZE {
                            Some(framed(packet.subrange(12, packet.len() as int)))
                        } else {
                            None
                        },
                    ),
                )
            },
        },
    }
}

/// What serving the transmit queue came to.
pub struct TxModel {
    pub queue: Queue,
    pub ram: Ram,
    /// What goes to the network, in order.
    pub frames: Seq<Seq<u8>>,
    /// Whether a chain was handed back.
    pub used_any: bool,
    /// Whether no chain was left.
    pub done: bool,
}

/// Serving up to `limit` chains of the transmit queue.
pub open spec fn tx_run(q: Queue, ram: Ram, limit: nat) -> TxModel
    decreases limit,
{
    if limit == 0 {
        TxModel { queue: q, ram, frames: Seq::empty(), used_any: false, done: false }
    } else {
        match tx_step(q, ram) {
            None => TxModel { queue: q, ram, frames: Seq::empty(), used_any: false, done: true },
            Some((q1, ram1, used, frame)) => {
                let rest = tx_run(q1, ram1, (limit - 1) as nat);
                TxModel {
                    frames: match frame {
                        Some(f) => seq![f] + rest.frames,
                        None => rest.frames,
                    },
                    used_any: used || rest.used_any,
                    ..rest
                }
            },
        }
    }
}

/// What delivering frames came to.
pub struct RxModel {
    pub queue: Queue,
    pub ram: Ram,
    /// Whether a frame was delivered.
    pub used_any: bool,
    /// How many frames were dealt with; the others wait for buffers.
    pub taken: nat,
}

/// Delivering `frames` to the guest, in order. A frame that is too large is
/// dropped; one whose buffers cannot be made out or are too small is lost.
/// Once the guest offers no buffers, the rest waits.
pub open spec fn rx_run(q: Queue, ram: Ram, frames: Seq<Seq<u8>>) -> RxModel
    decreases frames.len(),
{
    if frames.len() == 0 {
        RxModel { queue: q, ram, used_any: false, taken: 0 }
    } else {
        let frame = frames[0];
        let others = frames.subrange(1, frames.len() as int);
        if frame.len() > MAX_FRAME_SIZE {
            let rest = rx_run(q, ram, others);
            RxModel { taken: rest.taken + 1, ..rest }
        } else {
            match q.front(ram) {
                None => RxModel { queue: q, ram, used_any: false, taken: 0 },
                Some(head) => match writer_buffers(ram, head) {
                    Err(_) => {
                        let rest = rx_run(q.popped(), ram, others);
                        RxModel { taken: rest.taken + 1, ..rest }
                    },
                    Ok(bufs) => if total_len(bufs) < NET_HDR_SIZE + frame.len() {
                        let (_, q1, after) = q.popped().add_used_spec(ram, head.index, 0);
                        let rest = rx_run(q1, after, others);
                        RxModel { taken: rest.taken + 1, ..rest }
                    } else {
                        let filled = scattered(
                            scattered(ram, bufs, 0, rx_header()),
                            bufs,
                            12,
                            frame,
                        );
                        let (_, q1, after) = q.popped().add_used_spec(
                            filled,
                            head.index,
                            (NET_HDR_SIZE + frame.len()) as u32,
                        );
                        let rest = rx_run(q1, after, others);
                        RxModel { taken: rest.taken + 1, used_any: true, ..rest }
                    },
                },
            }
        }
    }
}

/// The contents of a list of frames.
pub open spec fn contents(frames: Seq<Vec<u8>>) -> Seq<Seq<u8>> {
    Seq::new(frames.len(), |i: int| frames[i]@)
}

/// What serving the transmit queue came to.
#[derive(Debug)]
pub struct TxReport {
    /// What goes to the network, in order.
    pub frames: Vec<Vec<u8>>,
    /// Whether a chain was handed back, so that the driver must be notified.
    pub used_any: bool,
    /// Whether no chain was left.
    pub done: bool,
}

/// What a round of serving the transmit queue came to.
#[derive(Debug)]
pub struct TxRound {
    /// What goes to the network, in order.
    pub frames: Vec<Vec<u8>>,
    /// Whether a chain was handed back, so that the driver must be notified.
    pub used_any: bool,
    /// Whether another round is due.
    pub again: Result<bool, Error>,
}

impl TxRound {
    /// The round stands for serving `q` without notifications, and asking for
    /// them again once no chain is left.
    pub open spec fn stands_for(self, q: Queue, ram: Ram, limit: nat, q_after: Queue, ram_after: Ram) -> bool {
        match q.set_notification_spec(ram, false) {
            Err(e) => {
                &&& self.frames@.len() == 0
                &&& !self.used_any
                &&& self.again == Err::<bool, Error>(e)
                &&& q_after == q
                &&& ram_after == ram
            },
            Ok(quiet) => {
                let run = tx_run(q, quiet, limit);
                &&& contents(self.frames@) == run.frames
                &&& self.used_any == run.used_any
                &&& q_after == run.queue
                &&& (ram_after, self.again) == (if run.done {
                    run.queue.enable_spec(run.ram)
                } else {
                    (run.ram, Ok::<bool, Error>(true))
                })
            },
        }
    }
}

/// What delivering frames came to.
#[derive(Clone, Copy, Debug, PartialEq, Eq, Structural)]
pub struct RxReport {
    /// How many frames were dealt with; the others wait for buffers.
    pub taken: usize,
    /// Whether the driver must be notified.
    pub notify: bool,
}

/// The header that is put before a received frame.
pub fn default_rx_header() -> (r: Vec<u8>)
    ensures
        r@ == rx_header(),
{
    let r: Vec<u8> = vec![0, 0, 0, 0, 0, 0, 0, 0, 0, 0, 1, 0];
    assert(r@ =~= rx_header());
    r
}

/// Serves the queues of a network device.
#[derive(Clone, Copy, Debug, PartialEq, Eq, Structural)]
pub struct NetWorker {
    /// Frames for the guest.
    pub rx_queue: Queue,
    /// Frames of the guest.
    pub tx_queue: Queue,
}

impl NetWorker {
    pub open spec fn wf(self, layout: Seq<RegionLayout>) -> bool {
        self.rx_queue.reachable(layout) && self.tx_queue.reachable(layout)
    }

    pub fn new(rx_queue: Queue, tx_queue: Queue) -> (r: Self)
        ensures
            r.rx_queue == rx_queue,
            r.tx_queue == tx_queue,
    {
        NetWorker { rx_queue, tx_queue }
    }

    /// Serves up to `limit` chains of the transmit queue. The driver is
    /// notified of every chain that was handed back.
    pub fn process_tx_queue(&mut self, mem: &mut MemoryManager, limit: usize) -> (r: TxReport)
        requires
            old(mem).wf(),
            old(self).wf(old(mem).ram().layout),
        ensures
            final(mem).wf(),
            final(mem).same_but_bytes(*old(mem)),
            final(self).wf(final(mem).ram().layout),
            final(self).rx_queue == old(self).rx_queue,
            ({
                let run = tx_run(old(self).tx_queue, old(mem).ram(), limit as nat);
                &&& final(self).tx_queue == run.queue
                &&& final(mem).ram() == run.ram
                &&& contents(r.frames@) == run.frames
                &&& r.used_any == run.used_any
                &&& r.done == run.done
            }),
            forall|i: int|
                #![trigger r.frames@[i]]
                0 <= i < r.frames@.len() ==> {
                    let m = r.frames@[i]@;
                    &&& m.len() > 2
                    &&& m.len() - 2 <= 0xffff ==> m[0] + 256 * m[1] == m.len() - 2
                },
    {
        let ghost goal = tx_run(self.tx_queue, mem.ram(), limit as nat);
        let ghost layout = mem.ram().layout;
        let mut frames: Vec<Vec<u8>> = Vec::new();
        let mut used_any = false;
        let mut left: usize = limit;
        assert(contents(frames@) + goal.frames =~= goal.frames);
        while left > 0
            invariant
                mem.wf(),
                mem.same_but_bytes(*old(mem)),
                layout == mem.ram().layout,
                self.wf(layout),
                self.rx_queue == old(self).rx_queue,
                goal == tx_run(old(self).tx_queue, old(mem).ram(), limit as nat),
                ({
                    let rest = tx_run(self.tx_queue, mem.ram(), left as nat);
                    &&& rest.queue == goal.queue
                    &&& rest.ram == goal.ram
                    &&& contents(frames@) + rest.frames == goal.frames
                    &&& (used_any || rest.used_any) == goal.used_any
                    &&& rest.done == goal.done
                }),
            decreases left,
        {
            let ghost ram0 = mem.ram();
            let ghost sent = contents(frames@);
            let head = match self.tx_queue.take_chain(mem) {
                Some(h) => h,
                None => {
                    assert(contents(frames@) + Seq::<Seq<u8>>::empty() =~= contents(frames@));
                    assert forall|i: int| #![trigger frames@[i]] 0 <= i < frames@.len() implies {
                        let m = frames@[i]@;
                        &&& m.len() > 2
                        &&& m.len() - 2 <= 0xffff ==> m[0] + 256 * m[1] == m.len() - 2
                    } by {
                        assert(contents(frames@)[i] == goal.frames[i]);
                        law_sent_messages(old(self).tx_queue, old(mem).ram(), limit as nat, i);
                    }
                    return TxReport { frames, used_any, done: true };
                },
            };
            left = left - 1;
            if let Ok(reader) = Reader::new(mem, head) {
                let mut reader = reader;
                let avail: usize = reader.available_bytes();
                proof {
                    mem.lemma_ram_wf();
                    lemma_gathered_len(ram0, reader.buffers@);
                }
                let ghost packet = gathered(ram0, reader.buffers@);
                if avail > NET_HDR_SIZE {
                    let buf = reader.read(mem, avail);
                    assert(buf@ =~= packet);
                    let body = &buf.as_slice()[NET_HDR_SIZE..avail];
                    let prefix: u16 = body.len() as u16;
                    let mut message = encode_le(prefix as u64, 2);
                    message.extend_from_slice(body);
                    assert(message@ =~= framed(packet.subrange(12, packet.len() as int)));
                    let ghost last = message@;
                    frames.push(message);
                    proof {
                        assert(contents(frames@) =~= sent.push(last));
                    }
                }
                self.tx_queue.give_back(mem, head.index, 0);
                used_any = true;
                proof {
                    let rest = tx_run(self.tx_queue, mem.ram(), left as nat);
                    if packet.len() > NET_HDR_SIZE {
                        let f = framed(packet.subrange(12, packet.len() as int));
                        assert(sent + (seq![f] + rest.frames) =~= sent.push(f) + rest.frames);
                    }
                }
            }
        }
        assert(contents(frames@) + Seq::<Seq<u8>>::empty() =~= contents(frames@));
        assert forall|i: int| #![trigger frames@[i]] 0 <= i < frames@.len() implies {
            let m = frames@[i]@;
            &&& m.len() > 2
            &&& m.len() - 2 <= 0xffff ==> m[0] + 256 * m[1] == m.len() - 2
        } by {
            assert(contents(frames@)[i] == goal.frames[i]);
            law_sent_messages(old(self).tx_queue, old(mem).ram(), limit as nat, i);
        }
        TxReport { frames, used_any, done: false }
    }

    /// One round of the transmit queue: the driver is told that notifications
    /// are not needed, up to `limit` chains are served, and once none is left
    /// notifications are asked for again.
    pub fn process_tx_virtio_queue(&mut self, mem: &mut MemoryManager, limit: usize) -> (r: TxRound)
        requires
            old(mem).wf(),
            old(self).wf(old(mem).ram().layout),
        ensures
            final(mem).wf(),
            final(mem).same_but_bytes(*old(mem)),
            final(self).wf(final(mem).ram().layout),
            final(self).rx_queue == old(self).rx_queue,
            r.stands_for(
                old(self).tx_queue,
                old(mem).ram(),
                limit as nat,
                final(self).tx_queue,
                final(mem).ram(),
            ),
    {
        if let Err(e) = self.tx_queue.disable_notification(mem) {
            return TxRound { frames: Vec::new(), used_any: false, again: Err(e) };
        }
        let report = self.process_tx_queue(mem, limit);
        let again = if report.done {
            self.tx_queue.enable_notification(mem)
        } else {
            Ok(true)
        };
        TxRound { frames: report.frames, used_any: report.used_any, again }
    }

    /// Delivers frames to the guest, in order. The result says from which
    /// frame on they must wait for the guest to offer buffers.
    pub fn process_rx_virtio_queue(&mut self, mem: &mut MemoryManager, frames: &Vec<Vec<u8>>) -> (r:
        RxReport)
        requires
            old(mem).wf(),
            old(self).wf(old(mem).ram().layout),
        ensures
            final(mem).wf(),
            final(mem).same_but_bytes(*old(mem)),
            final(self).wf(final(mem).ram().layout),
            final(self).tx_queue == old(self).tx_queue,
            ({
                let run = rx_run(old(self).rx_queue, old(mem).ram(), contents(frames@));
                let (notify, q) = if run.used_any {
                    run.queue.notification_spec(run.ram)
                } else {
                    (Ok::<bool, Error>(false), run.queue)
                };
                &&& final(self).rx_queue == q
                &&& final(mem).ram() == run.ram
                &&& r.taken == run.taken
                &&& r.notify == notify->Ok_0
            }),
    {
        let ghost all = contents(frames@);
        let ghost goal = rx_run(self.rx_queue, mem.ram(), all);
        let ghost layout = mem.ram().layout;
        let mut i: usize = 0;
        let mut used_any = false;
        let mut waiting = false;
        assert(all.subrange(0, all.len() as int) =~= all);
        while i < frames.len() && !waiting
            invariant
                mem.wf(),
                mem.same_but_bytes(*old(mem)),
                layout == mem.ram().layout,
                self.wf(layout),
                self.tx_queue == old(self).tx_queue,
                all == contents(frames@),
                i <= frames@.len(),
                ({
                    let rest = if waiting {
                        RxModel { queue: self.rx_queue, ram: mem.ram(), used_any: false, taken: 0 }
                    } else {
                        rx_run(self.rx_queue, mem.ram(), all.subrange(i as int, all.len() as int))
                    };
                    &&& rest.queue == goal.queue
                    &&& rest.ram == goal.ram
                    &&& i + rest.taken == goal.taken
                    &&& (used_any || rest.used_any) == goal.used_any
                }),
            decreases frames@.len() - i + (if waiting { 0int } else { 1 }),
        {
            let ghost rest = all.subrange(i as int, all.len() as int);
            assert(rest[0] == frames@[i as int]@);
            assert(rest.subrange(1, rest.len() as int) =~= all.subrange(i + 1, all.len() as int));
            let frame = &frames[i];
            if frame.len() > MAX_FRAME_SIZE {
                i += 1;
            } else {
                match self.rx_queue.take_chain(mem) {
                    None => {
                        waiting = true;
                    },
                    Some(head) => {
                        if let Ok(writer) = Writer::new(mem, head) {
                            let mut writer = writer;
                            let total: usize = NET_HDR_SIZE + frame.len();
                            if writer.available_bytes() < total {
                                self.rx_queue.give_back(mem, head.index, 0);
                            } else {
                                let header = default_rx_header();
                                writer.write_all(mem, header.as_slice());
                                writer.write_all(mem, frame.as_slice());
                                self.rx_queue.give_back(mem, head.index, total as u32);
                                used_any = true;
                            }
                        }
                        i += 1;
                    },
                }
            }
        }
        assert(!waiting ==> all.subrange(i as int, all.len() as int).len() == 0);
        let mut notify = false;
        if used_any {
            let ghost q0 = self.rx_queue;
            if let Ok(n) = self.rx_queue.needs_notification(mem) {
                notify = n;
            }
            proof {
                lemma_reachable_progress(q0, self.rx_queue, layout);
            }
        }
        RxReport { taken: i, notify }
    }
}

/// Frames are delivered or dropped in order, and none is skipped: those that
/// wait are the last ones, unchanged.
pub proof fn law_rx_takes_a_prefix(q: Queue, ram: Ram, frames: Seq<Seq<u8>>)
    ensures
        rx_run(q, ram, frames).taken <= frames.len(),
        rx_run(q, ram, frames).taken < frames.len() ==> rx_run(q, ram, frames).queue.front(
            rx_run(q, ram, frames).ram,
        ) is None,
    decreases frames.len(),
{
    if frames.len() > 0 {
        let frame = frames[0];
        let others = frames.subrange(1, frames.len() as int);
        if frame.len() > MAX_FRAME_SIZE {
            law_rx_takes_a_prefix(q, ram, others);
        } else if let Some(head) = q.front(ram) {
            match writer_buffers(ram, head) {
                Err(_) => {
                    law_rx_takes_a_prefix(q.popped(), ram, others);
                },
                Ok(bufs) => {
                    if total_len(bufs) < NET_HDR_SIZE + frame.len() {
                        let (_, q1, after) = q.popped().add_used_spec(ram, head.index, 0);
                        law_rx_takes_a_prefix(q1, after, others);
                    } else {
                        let filled = scattered(
                            scattered(ram, bufs, 0, rx_header()),
                            bufs,
                            12,
                            frame,
                        );
                        let (_, q1, after) = q.popped().add_used_spec(
                            filled,
                            head.index,
                            (NET_HDR_SIZE + frame.len()) as u32,
                        );
                        law_rx_takes_a_prefix(q1, after, others);
                    }
                },
            }
        }
    }
}

/// Why a frame from the network cannot be accepted.
#[derive(Clone, Copy, Debug, PartialEq, Eq, Structural)]
pub enum FrameError {
    TooLarge,
    TooSmall,
}

impl FrameError {
    pub open spec fn message_spec(self) -> Seq<char> {
        match self {
            FrameError::TooLarge => "frame length too large"@,
            FrameError::TooSmall => "frame length too small"@,
        }
    }

    /// The text of the error.
    pub fn message(&self) -> (r: &'static str)
        ensures
            r@ == self.message_spec(),
    {
        match self {
            FrameError::TooLarge => "frame length too large",
            FrameError::TooSmall => "frame length too small",
        }
    }
}

/// How long the frame is that follows a length prefix.
pub fn frame_length(prefix: [u8; 2]) -> (r: Result<usize, FrameError>)
    ensures
        ({
            let len = prefix@[0] + 256 * prefix@[1];
            r == (if len > MAX_FRAME_SIZE {
                Err::<usize, FrameError>(FrameError::TooLarge)
            } else if len == 0 {
                Err(FrameError::TooSmall)
            } else {
                Ok(len as usize)
            })
        }),
{
    let len: usize = prefix[0] as usize + 256 * (prefix[1] as usize);
    if len > MAX_FRAME_SIZE {
        Err(FrameError::TooLarge)
    } else if len == 0 {
        Err(FrameError::TooSmall)
    } else {
        Ok(len)
    }
}

/// Where the reader of the network's frames is.
#[derive(Clone, Copy, Debug, PartialEq, Eq, Structural)]
pub enum ReaderState {
    /// It waits for the first frame of a batch.
    First,
    /// It has so many frames of a batch and asks whether more is there.
    Asking(usize),
    /// It has so many frames of a batch and reads one more.
    Reading(usize),
    /// It has ended.
    Ended,
}

/// What has happened to the reader.
#[derive(Clone, Copy, Debug, PartialEq, Eq, Structural)]
pub enum ReaderEvent {
    /// A frame was read and queued.
    Frame,
    /// The stream has ended.
    EndOfStream,
    /// A frame could not be read.
    BadFrame,
    /// So many bytes are there to be read.
    Available(u32),
}

/// What the reader does next.
#[derive(Clone, Copy, Debug, PartialEq, Eq, Structural)]
pub enum ReaderAction {
    /// Read a frame.
    Read,
    /// Ask how much is there to be read.
    Ask,
    /// Announce the batch, then read the first frame of the next one.
    AnnounceAndRead,
    /// End.
    Stop,
}

/// The reader's next state and action. A batch ends when nothing more is
/// there, when it is full, or with the stream; only the first read of a batch
/// ends the reader.
pub open spec fn reader_next(state: ReaderState, event: ReaderEvent) -> (ReaderState, ReaderAction) {
    match state {
        ReaderState::First => match event {
            ReaderEvent::Frame => (ReaderState::Asking(1), ReaderAction::Ask),
            ReaderEvent::EndOfStream => (ReaderState::Ended, ReaderAction::Stop),
            _ => (ReaderState::First, ReaderAction::Read),
        },
        ReaderState::Asking(n) => match event {
            ReaderEvent::Available(bytes) => if bytes == 0 || n >= BATCH_SIZE {
                (ReaderState::First, ReaderAction::AnnounceAndRead)
            } else {
                (ReaderState::Reading(n), ReaderAction::Read)
            },
            _ => (state, ReaderAction::Ask),
        },
        ReaderState::Reading(n) => match event {
            ReaderEvent::Frame => (ReaderState::Asking((n + 1) as usize), ReaderAction::Ask),
            ReaderEvent::EndOfStream => (ReaderState::First, ReaderAction::AnnounceAndRead),
            _ => (ReaderState::Asking(n), ReaderAction::Ask),
        },
        ReaderState::Ended => (ReaderState::Ended, ReaderAction::Stop),
    }
}

/// No batch is larger than the batch size.
pub open spec fn batch_fits(state: ReaderState) -> bool {
    match state {
        ReaderState::Asking(n) => 1 <= n <= BATCH_SIZE,
        ReaderState::Reading(n) => 1 <= n < BATCH_SIZE,
        _ => true,
    }
}

/// The reader's next state and action.
pub fn rx_reader_step(state: ReaderState, event: ReaderEvent) -> (r: (ReaderState, ReaderAction))
    requires
        batch_fits(state),
    ensures
        r == reader_next(state, event),
        batch_fits(r.0),
{
    match state {
        ReaderState::First => match event {
            ReaderEvent::Frame => (ReaderState::Asking(1), ReaderAction::Ask),
            ReaderEvent::EndOfStream => (ReaderState::Ended, ReaderAction::Stop),
            _ => (ReaderState::First, ReaderAction::Read),
        },
        ReaderState::Asking(n) => match event {
            ReaderEvent::Available(bytes) => if bytes == 0 || n >= BATCH_SIZE {
                (ReaderState::First, ReaderAction::AnnounceAndRead)
            } else {
                (ReaderState::Reading(n), ReaderAction::Read)
            },
            _ => (state, ReaderAction::Ask),
        },
        ReaderState::Reading(n) => match event {
            ReaderEvent::Frame => (ReaderState::Asking(n + 1), ReaderAction::Ask),
            ReaderEvent::EndOfStream => (ReaderState::First, ReaderAction::AnnounceAndRead),
            _ => (ReaderState::Asking(n), ReaderAction::Ask),
        },
        ReaderState::Ended => (ReaderState::Ended, ReaderAction::Stop),
    }
}

} // verus!
