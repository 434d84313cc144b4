//! What the driver reads from and writes to a virtio device's registers.

use vstd::prelude::*;

use crate::byte_order::le_bytes;
use crate::devices::virtio::device::{DeviceModel, QueueConfig};
use crate::devices::virtio::mmio::{
    fresh_queues, is_queue_register, queue_written, TransportEvent, TransportModel,
};
use crate::devices::virtio::queue::Queue;
use crate::laws::bits::{lemma_bits, lemma_replaced};
use crate::laws::memory::{digits, law_bytes_add_up, law_numbers_are_little_endian, lemma_digits, lemma_digits_of};
use crate::memory::memory::GuestAddress;

verus! {

/// A four-byte read at `offset` gives the number `v`.
pub open spec fn shows(m: TransportModel, offset: u64, old: Seq<u8>, v: int) -> bool {
    let out = m.read_into(offset, old);
    out.len() == 4 && digits(out, 0, 4) == v
}

proof fn lemma_shows(m: TransportModel, offset: u64, old: Seq<u8>)
    requires
        old.len() == 4,
        offset <= 0xff,
    ensures
        m.register(offset) matches Some(v) ==> shows(m, offset, old, v as int),
{
    if let Some(v) = m.register(offset) {
        law_bytes_add_up(v as nat, 4);
        let out = m.read_into(offset, old);
        lemma_digits_of(out, le_bytes(v as nat, 4), 0, 0, 4);
    }
}

/// What the driver reads: the magic, the version, the device's type and vendor;
/// 32 of the offered features, those of the upper page with the bit for version
/// one set; of the selected queue the largest size and whether it is ready; the
/// interrupt and device status; and the generation of the configuration.
pub proof fn law_registers_shown(m: TransportModel, old: Seq<u8>)
    requires
        old.len() == 4,
    ensures
        shows(m, 0x00, old, 0x7472_6976),
        shows(m, 0x04, old, 2),
        shows(m, 0x08, old, m.device.device_type as int),
        shows(m, 0x0c, old, 0),
        m.features_select == 0 ==> shows(m, 0x10, old, m.device.avail_features as int % 0x1_0000_0000),
        m.features_select == 1 ==> shows(m, 0x10, old, {
            let page = m.device.avail_features / 0x1_0000_0000;
            page - page % 2 + 1
        }),
        m.features_select > 1 ==> shows(m, 0x10, old, 0),
        m.queues is Some && m.queue_select < m.queues->0.len() ==> shows(
            m,
            0x34,
            old,
            m.queues->0[m.queue_select as int].max_size as int,
        ) && shows(
            m,
            0x44,
            old,
            if m.queues->0[m.queue_select as int].ready {
                1
            } else {
                0
            },
        ),
        m.queues is None || m.queue_select >= m.queues->0.len() ==> shows(m, 0x34, old, 0) && shows(
            m,
            0x44,
            old,
            0,
        ),
        shows(m, 0x60, old, m.interrupt_status as int),
        shows(m, 0x70, old, m.device_status as int),
        shows(m, 0xfc, old, m.config_generation as int),
{
    lemma_shows(m, 0x00, old);
    lemma_shows(m, 0x04, old);
    lemma_shows(m, 0x08, old);
    lemma_shows(m, 0x0c, old);
    lemma_shows(m, 0x10, old);
    lemma_shows(m, 0x34, old);
    lemma_shows(m, 0x44, old);
    lemma_shows(m, 0x60, old);
    lemma_shows(m, 0x70, old);
    lemma_shows(m, 0xfc, old);
    lemma_feature_pages(m.device.avail_features);
}

proof fn lemma_feature_pages(f: u64)
    ensures
        ((f & 0xffff_ffff) as u32) == f % 0x1_0000_0000,
        ((f >> 32) as u32) == f / 0x1_0000_0000,
        ((f >> 32) as u32) | 1 == f / 0x1_0000_0000 - (f / 0x1_0000_0000) % 2 + 1,
{
    assert(((f & 0xffff_ffff) as u32) == f % 0x1_0000_0000 && ((f >> 32) as u32) == f / 0x1_0000_0000)
        by (bit_vector);
    let page = (f >> 32) as u32;
    assert(page | 1 == page - page % 2 + 1) by (bit_vector);
}

/// The selected shared memory region: its size and its address, in halves; all
/// ones and zero if there is none.
pub proof fn law_shared_memory_shown(m: TransportModel, old: Seq<u8>)
    requires
        old.len() == 4,
    ensures
        ({
            let (base, len) = match m.device.shm_region {
                Some(r) if m.shm_region_select <= 1 => (r.guest_addr, r.size),
                _ => (0u64, 0xffff_ffff_ffff_ffffu64),
            };
            &&& shows(m, 0xb0, old, len as int % 0x1_0000_0000)
            &&& shows(m, 0xb4, old, len as int / 0x1_0000_0000)
            &&& shows(m, 0xb8, old, base as int % 0x1_0000_0000)
            &&& shows(m, 0xbc, old, base as int / 0x1_0000_0000)
        }),
{
    lemma_shows(m, 0xb0, old);
    lemma_shows(m, 0xb4, old);
    lemma_shows(m, 0xb8, old);
    lemma_shows(m, 0xbc, old);
    lemma_bits(m.shm().0);
    lemma_bits(m.shm().1);
}

/// The configuration is read from byte 0x100 on, as far as it goes; what lies
/// elsewhere, or is read otherwise than four bytes at a time, leaves the buffer
/// as it was.
pub proof fn law_configuration_shown(m: TransportModel, offset: u64, old: Seq<u8>, i: int)
    requires
        0 <= i < old.len(),
        old.len() <= 0xffff,
    ensures
        ({
            let out = m.read_into(offset, old);
            &&& out.len() == old.len()
            &&& 0x100 <= offset <= 0xfff ==> out[i] == (if offset - 0x100 + i < m.device.config.len() {
                m.device.config[offset - 0x100 + i]
            } else {
                old[i]
            })
            &&& offset > 0xfff ==> out == old
            &&& offset <= 0xff && old.len() != 4 ==> out == old
        }),
{
}

proof fn lemma_value(data: Seq<u8>)
    requires
        data.len() == 4,
    ensures
        crate::byte_order::le_value(data) as u32 == digits(data, 0, 4),
        0 <= digits(data, 0, 4) <= u32::MAX,
{
    lemma_digits(data, 0, 4);
    assert(data.subrange(0, 4) =~= data);
    law_numbers_are_little_endian(data, 0);
}

/// The selections: of features to read and to accept, of a queue and of a
/// shared memory region. Each is what was written, and nothing else changes.
pub proof fn law_selections(m: TransportModel, data: Seq<u8>)
    requires
        data.len() == 4,
    ensures
        m.written(0x14, data) == (
            TransportModel { features_select: digits(data, 0, 4) as u32, ..m },
            TransportEvent::Nothing,
        ),
        m.written(0x24, data) == (
            TransportModel { acked_features_select: digits(data, 0, 4) as u32, ..m },
            TransportEvent::Nothing,
        ),
        m.written(0x30, data) == (
            TransportModel { queue_select: digits(data, 0, 4) as u32, ..m },
            TransportEvent::Nothing,
        ),
        m.written(0xac, data) == (
            TransportModel { shm_region_select: digits(data, 0, 4) as u32, ..m },
            TransportEvent::Nothing,
        ),
{
    lemma_value(data);
}

/// A notification names a queue of the device.
pub proof fn law_notification(m: TransportModel, data: Seq<u8>)
    requires
        data.len() == 4,
    ensures
        m.written(0x50, data).0 == m,
        m.written(0x50, data).1 == (if digits(data, 0, 4) < m.device.queue_config.len() {
            TransportEvent::Notify(digits(data, 0, 4) as u32)
        } else {
            TransportEvent::Nothing
        }),
{
    lemma_value(data);
}

/// Bit `n` of a number.
pub open spec fn bit(x: int, n: int) -> bool {
    (x / n) % 2 == 1
}

proof fn lemma_status(s: u32)
    ensures
        s & (2u32 | (8u32 | 128u32)) == 2 <==> bit(s as int, 2) && !bit(s as int, 8) && !bit(s as int, 128),
        s & (8u32 | 128u32) == 8 <==> bit(s as int, 8) && !bit(s as int, 128),
        s & (4u32 | 0u32) == 4 <==> bit(s as int, 4),
        s & (2u32 | 128u32) == 2 <==> bit(s as int, 2) && !bit(s as int, 128),
{
    assert({
        &&& s & (2u32 | (8u32 | 128u32)) == 2 <==> (s / 2) % 2 == 1 && (s / 8) % 2 == 0 && (s / 128) % 2 == 0
        &&& s & (8u32 | 128u32) == 8 <==> (s / 8) % 2 == 1 && (s / 128) % 2 == 0
        &&& s & (4u32 | 0u32) == 4 <==> (s / 4) % 2 == 1
        &&& s & (2u32 | 128u32) == 2 <==> (s / 2) % 2 == 1 && (s / 128) % 2 == 0
    }) by (bit_vector);
}

/// Accepting features: between the second and the third step of the set-up, and
/// unless the device has failed, the offered ones among those that were written
/// are added, in the lower or the upper half by the selected page; otherwise
/// nothing changes.
pub proof fn law_features_accepted(m: TransportModel, data: Seq<u8>)
    requires
        data.len() == 4,
    ensures
        ({
            let v = digits(data, 0, 4);
            let s = m.device_status as int;
            let (after, event) = m.written(0x20, data);
            let wanted: u64 = if m.acked_features_select == 0 {
                v as u64
            } else if m.acked_features_select == 1 {
                (v * 0x1_0000_0000) as u64
            } else {
                0
            };
            &&& event == TransportEvent::Nothing
            &&& after == (TransportModel {
                device: DeviceModel { acked_features: after.device.acked_features, ..m.device },
                ..m
            })
            &&& after.device.acked_features == (if bit(s, 2) && !bit(s, 8) && !bit(s, 128) {
                m.device.acked_features | (wanted & m.device.avail_features)
            } else {
                m.device.acked_features
            })
        }),
{
    lemma_value(data);
    lemma_status(m.device_status);
    let half = digits(data, 0, 4) as u32;
    let wide = half as u64;
    assert(wide << 32 == wide * 0x1_0000_0000) by (bit_vector)
        requires
            wide <= 0xffff_ffff,
    ;
}

/// Acknowledging interrupts: once the driver is ready, the bits that were
/// written are cleared in the interrupt status, and the line is lowered if none
/// is left; before, nothing changes.
pub proof fn law_interrupts_acknowledged(m: TransportModel, data: Seq<u8>)
    requires
        data.len() == 4,
    ensures
        ({
            let v = digits(data, 0, 4) as u32;
            let s = m.device_status as int;
            let (after, event) = m.written(0x64, data);
            &&& event == TransportEvent::Nothing
            &&& after == (TransportModel { interrupt_status: after.interrupt_status, ..m })
            &&& bit(s, 4) ==> after.interrupt_status == m.interrupt_status & !v
            &&& !bit(s, 4) ==> after.interrupt_status == m.interrupt_status
            &&& m.lowers_line(0x64, data) <==> bit(s, 4) && after.interrupt_status == 0
        }),
{
    lemma_value(data);
    lemma_status(m.device_status);
}

/// The halves of a queue's addresses, its size and whether it is ready.
proof fn lemma_queue_written(q: Queue, offset: u64, v: u32)
    requires
        is_queue_register(offset),
    ensures
        ({
            let w = queue_written(q, offset, v);
            &&& w == (Queue {
                size: w.size,
                ready: w.ready,
                desc_table: w.desc_table,
                avail_ring: w.avail_ring,
                used_ring: w.used_ring,
                ..q
            })
            &&& w.size == (if offset == 0x38 {
                v as int % 0x1_0000
            } else {
                q.size as int
            })
            &&& w.ready == (if offset == 0x44 {
                v == 1
            } else {
                q.ready
            })
            &&& w.desc_table.0 == half_written(q.desc_table, offset == 0x80, offset == 0x84, v)
            &&& w.avail_ring.0 == half_written(q.avail_ring, offset == 0x90, offset == 0x94, v)
            &&& w.used_ring.0 == half_written(q.used_ring, offset == 0xa0, offset == 0xa4, v)
        }),
{
    lemma_bits(v as u64);
    lemma_replaced(q.desc_table.0, v);
    lemma_replaced(q.avail_ring.0, v);
    lemma_replaced(q.used_ring.0, v);
}

/// An address with its lower or its upper half written.
pub open spec fn half_written(a: GuestAddress, low: bool, high: bool, v: u32) -> int {
    if low {
        a.0 / 0x1_0000_0000 * 0x1_0000_0000 + v
    } else if high {
        a.0 % 0x1_0000_0000 + v * 0x1_0000_0000
    } else {
        a.0 as int
    }
}

/// Setting up a queue: between the acceptance of the features and a failure,
/// each register of the selected queue takes what was written: the size its
/// lower sixteen bits, the readiness whether it is one, and each half of the
/// three addresses the 32 bits of that half. Nothing else of that queue, no
/// other queue and nothing else of the device changes.
pub proof fn law_queue_set_up(m: TransportModel, offset: u64, data: Seq<u8>, i: int)
    requires
        data.len() == 4,
        offset == 0x38 || offset == 0x44 || offset == 0x80 || offset == 0x84 || offset == 0x90 || offset == 0x94
            || offset == 0xa0 || offset == 0xa4,
        m.queues is Some,
        0 <= i < m.queues->0.len(),
    ensures
        ({
            let v = digits(data, 0, 4) as u32;
            let s = m.device_status as int;
            let (after, event) = m.written(offset, data);
            let chosen = i == m.queue_select && bit(s, 8) && !bit(s, 128);
            let q = m.queues->0[i];
            &&& event == TransportEvent::Nothing
            &&& after == (TransportModel { queues: after.queues, ..m })
            &&& after.queues matches Some(queues) && queues.len() == m.queues->0.len() && {
                let w = queues[i];
                &&& !chosen ==> w == q
                &&& w.max_size == q.max_size
                &&& w.next_avail == q.next_avail && w.next_used == q.next_used && w.num_added == q.num_added
                &&& w.event_idx_enabled == q.event_idx_enabled
                &&& w.size == (if chosen && offset == 0x38 {
                    v as int % 0x1_0000
                } else {
                    q.size as int
                })
                &&& w.ready == (if chosen && offset == 0x44 {
                    v == 1
                } else {
                    q.ready
                })
                &&& chosen ==> {
                    &&& w.desc_table.0 == half_written(q.desc_table, offset == 0x80, offset == 0x84, v)
                    &&& w.avail_ring.0 == half_written(q.avail_ring, offset == 0x90, offset == 0x94, v)
                    &&& w.used_ring.0 == half_written(q.used_ring, offset == 0xa0, offset == 0xa4, v)
                }
            }
        }),
{
    lemma_value(data);
    lemma_status(m.device_status);
    let v = digits(data, 0, 4) as u32;
    let q = m.queues->0[i];
    lemma_queue_written(q, offset, v);
}

proof fn lemma_steps(s: u32)
    ensures
        !0u32 & s == 1 <==> s == 1,
        !1u32 & s == 2 <==> s == 2 || s == 3,
        !3u32 & s == 8 <==> 8 <= s <= 11,
        !11u32 & s == 4 <==> 4 <= s <= 7 || 12 <= s <= 15,
        !11u32 & 0u32 == 0,
        0u32 & 128u32 == 0,
        (s & 128 != 0) == bit(s as int, 128),
{
    assert({
        &&& !0u32 & s == 1 <==> s == 1
        &&& !1u32 & s == 2 <==> s == 2 || s == 3
        &&& !3u32 & s == 8 <==> 8 <= s <= 11
        &&& !11u32 & s == 4 <==> 4 <= s <= 7 || 12 <= s <= 15
        &&& !11u32 & 0u32 == 0
        &&& 0u32 & 128u32 == 0
        &&& (s & 128 != 0) == ((s / 128) % 2 == 1)
    }) by (bit_vector);
}

/// What writing the device status does. From each step of the set-up only the
/// next bit may be added: one, two, eight and four. The last makes the device
/// work, if it does not yet and there are queues for it. Otherwise a write with
/// bit 128 marks the device as failed; zero stops and resets it, unless it works
/// and cannot be reset, which is a failure, or it has failed, when its registers
/// stay; and anything else is ignored.
pub proof fn law_status_written(m: TransportModel, data: Seq<u8>)
    requires
        data.len() == 4,
    ensures
        ({
            let v = digits(data, 0, 4);
            let s = m.device_status as int;
            let working = m.device.queues is Some;
            let (after, event) = m.written(0x70, data);
            let step = s == 0 && v == 1 || s == 1 && (v == 2 || v == 3) || s == 3 && 8 <= v <= 11;
            let last = s == 11 && (4 <= v <= 7 || 12 <= v <= 15);
            let start = last && !working && m.queues is Some;
            &&& step || last && !start ==> after == (TransportModel { device_status: v as u32, ..m }) && event
                == TransportEvent::Nothing
            &&& start ==> {
                &&& event == TransportEvent::Activated
                &&& after.device_status == v
                &&& after.queues is None
                &&& after.shared
                &&& after.device == (DeviceModel { queues: after.device.queues, ..m.device })
                &&& after.device.queues matches Some(queues) && queues.len() == m.queues->0.len() && (forall|i: int|
                    0 <= i < queues.len() ==> #[trigger] queues[i] == (Queue {
                        event_idx_enabled: bit(m.device.acked_features as int, 0x2000_0000),
                        ..m.queues->0[i]
                    }))
            }
            &&& !step && !last && bit(v, 128) ==> after == (TransportModel {
                device_status: m.device_status | 128,
                ..m
            }) && event == TransportEvent::Nothing
            &&& v == 0 && working && !m.device.resettable ==> after == (TransportModel {
                device_status: m.device_status | 128,
                ..m
            }) && event == TransportEvent::Nothing
            &&& v == 0 && (!working || m.device.resettable) ==> {
                &&& event == (if working {
                    TransportEvent::Stopped
                } else {
                    TransportEvent::Nothing
                })
                &&& after.device.queues is None
                &&& after.device == (DeviceModel { queues: None, ..m.device })
                &&& !bit(s, 128) ==> after.device_status == 0 && after.interrupt_status == 0 && (
                after.queues matches Some(queues) && empty_queues(queues, m.device.queue_config))
                    && after.features_select == 0 && after.acked_features_select == 0 && after.queue_select == 0
                &&& bit(s, 128) ==> after.device_status == m.device_status && after.queues == m.queues
                    && after.interrupt_status == m.interrupt_status
                &&& after.irq_line == m.irq_line
                &&& working ==> !after.shared
            }
            &&& !step && !last && !bit(v, 128) && v != 0 ==> after == m && event == TransportEvent::Nothing
        }),
{
    lemma_value(data);
    let v = digits(data, 0, 4) as u32;
    lemma_steps(v);
    lemma_steps(m.device_status);
    lemma_bits(m.device.acked_features);
    let d = m.device_status;
    assert(!d & 0u32 == 0) by (bit_vector);
    if v == 0 && !bit(d as int, 128) && (m.device.queues is None || m.device.resettable) {
        lemma_empty_queues(m.device.queue_config);
    }
}

/// Queues of the given sizes that nobody has set up.
pub open spec fn empty_queues(queues: Seq<Queue>, config: Seq<QueueConfig>) -> bool {
    &&& queues.len() == config.len()
    &&& forall|i: int|
        0 <= i < queues.len() ==> {
            let q = #[trigger] queues[i];
            &&& q.max_size == config[i].size
            &&& q.size == 0
            &&& !q.ready
            &&& q.desc_table.0 == 0 && q.avail_ring.0 == 0 && q.used_ring.0 == 0
            &&& q.next_avail == 0 && q.next_used == 0 && q.num_added == 0
            &&& !q.event_idx_enabled
        }
}

proof fn lemma_empty_queues(config: Seq<QueueConfig>)
    ensures
        empty_queues(fresh_queues(config), config),
{
}

/// Writes to the configuration: a character is printed where the device takes
/// one, once the driver is there and unless the device has failed.
pub proof fn law_configuration_written(m: TransportModel, offset: u64, data: Seq<u8>)
    requires
        0x100 <= offset <= 0xfff,
    ensures
        ({
            let s = m.device_status as int;
            &&& m.written(offset, data).0 == m
            &&& m.written(offset, data).1 == (if bit(s, 2) && !bit(s, 128) && m.device.emergency == Some(
                (offset - 0x100) as u64,
            ) && data.len() > 0 {
                TransportEvent::Print(data[0])
            } else {
                TransportEvent::Nothing
            })
        }),
{
    lemma_status(m.device_status);
}

} // verus!
