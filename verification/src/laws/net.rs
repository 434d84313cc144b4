//! What goes to the network and comes from it.

use vstd::prelude::*;

use crate::devices::virtio::descriptor_utils::{gathered, reader_buffers};
use crate::devices::virtio::net::worker::{frame_length, tx_run, tx_step, FrameError};
use crate::devices::virtio::queue::Queue;
use crate::laws::bits::lemma_bits;
use crate::laws::memory::{digits, law_bytes_add_up};
use crate::memory::memory::Ram;

verus! {

proof fn lemma_low_bytes(v: nat)
    requires
        v <= u64::MAX,
    ensures
        (v as u16) == v % 0x1_0000,
{
    lemma_bits(v as u64);
}

/// What is sent for a chain: two bytes with the number of bytes behind its
/// header of twelve, the lower byte first, and those bytes; nothing if
/// there are none.
pub proof fn law_sent_frame(q: Queue, ram: Ram)
    ensures
        tx_step(q, ram) is None <==> q.front(ram) is None,
        tx_step(q, ram) matches Some((_, _, used, sent)) ==> {
            let head = q.front(ram)->0;
            &&& used <==> reader_buffers(ram, head) is Ok
            &&& reader_buffers(ram, head) is Err ==> sent is None
            &&& reader_buffers(ram, head) matches Ok(bufs) ==> {
                let packet = gathered(ram, bufs);
                let n = packet.len() - 12;
                &&& sent is Some <==> n > 0
                &&& sent matches Some(m) ==> {
                    &&& m.len() == n + 2
                    &&& n <= 0xffff ==> m[0] + 256 * m[1] == n
                    &&& n <= u64::MAX ==> m[0] + 256 * m[1] == n % 0x1_0000
                    &&& forall|i: int| 0 <= i < n ==> #[trigger] m[2 + i] == packet[12 + i]
                }
            }
        },
{
    if let Some((_, _, used, sent)) = tx_step(q, ram) {
        let head = q.front(ram)->0;
        if let Ok(bufs) = reader_buffers(ram, head) {
            let packet = gathered(ram, bufs);
            if packet.len() > 12 {
                let n = (packet.len() - 12) as nat;
                if n <= u64::MAX {
                    lemma_low_bytes(n);
                }
                law_bytes_add_up(n as u16 as nat, 2);
                reveal_with_fuel(digits, 3);
                assert(packet.subrange(12, packet.len() as int).len() == n);
            }
        }
    }
}

/// Every message that a run sends begins with the length of what follows, and
/// something follows.
pub proof fn law_sent_messages(q: Queue, ram: Ram, limit: nat, i: int)
    requires
        0 <= i < tx_run(q, ram, limit).frames.len(),
    ensures
        ({
            let m = tx_run(q, ram, limit).frames[i];
            &&& m.len() > 2
            &&& m.len() - 2 <= 0xffff ==> m[0] + 256 * m[1] == m.len() - 2
        }),
    decreases limit,
{
    if limit > 0 {
        law_sent_frame(q, ram);
        if let Some((q1, ram1, used, sent)) = tx_step(q, ram) {
            let rest = tx_run(q1, ram1, (limit - 1) as nat);
            if sent is Some {
                if i > 0 {
                    law_sent_messages(q1, ram1, (limit - 1) as nat, i - 1);
                }
            } else {
                law_sent_messages(q1, ram1, (limit - 1) as nat, i);
            }
        }
    }
}

/// A frame that is sent can be taken in again: if it is no longer than an
/// ethernet frame can be, the length that the receiver makes out of the first
/// two bytes of its message is the frame's own.
pub proof fn law_frames_are_understood(
    q: Queue,
    ram: Ram,
    limit: nat,
    i: int,
    prefix: [u8; 2],
    r: Result<usize, FrameError>,
)
    requires
        0 <= i < tx_run(q, ram, limit).frames.len(),
        tx_run(q, ram, limit).frames[i].len() - 2 <= 1514,
        prefix@[0] == tx_run(q, ram, limit).frames[i][0],
        prefix@[1] == tx_run(q, ram, limit).frames[i][1],
        call_ensures(frame_length, (prefix,), r),
    ensures
        r matches Ok(n) && n == tx_run(q, ram, limit).frames[i].len() - 2,
{
    law_sent_messages(q, ram, limit, i);
}

} // verus!
