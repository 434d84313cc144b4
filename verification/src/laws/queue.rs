//! What the driver and the device find in a queue's rings.

use vstd::prelude::*;

use crate::devices::virtio::queue::{
    chain_list, device_written, read_only_prefix, Descriptor, DescriptorChain, Error, Queue, VirtqUsedElem,
};
use crate::laws::bits::lemma_bits;
use crate::laws::memory::{
    digits, holds, law_access_succeeds, law_addresses_are_found, law_bytes_add_up, law_numbers_are_little_endian,
    law_read_gives_bytes,
    law_write_places_bytes, lemma_digits, lemma_digits_of, lemma_placed_keeps, placed,
};
use crate::memory::memory::{find, law_write_keeps_layout, Ram};
use crate::memory::object::GuestObject;

verus! {

/// Memory can be written and read at `gpa`, for `n` bytes.
pub open spec fn open_at(ram: Ram, gpa: int, n: int) -> bool {
    find(ram.layout, gpa) matches Some(k) && {
        let r = ram.layout[k];
        &&& r.mapped
        &&& r.perms.read
        &&& r.perms.write
        &&& gpa + n < r.base + r.size
    }
}

/// The used ring is open where the next element and the index go.
pub open spec fn ring_open(q: Queue, ram: Ram) -> bool {
    let at = q.used_ring.0 + 4 + 8 * (q.next_used as int % q.size as int);
    &&& q.size > 0
    &&& at <= u64::MAX
    &&& open_at(ram, at, 8)
    &&& open_at(ram, q.used_ring.0 + 2, 2)
}

pub proof fn lemma_ring_open(q: Queue, ram: Ram, head: u16, len: u32)
    requires
        ram.wf(),
        ring_open(q, ram),
        head < q.size,
    ensures
        q.add_used_spec(ram, head, len).0 is Ok,
{
    let at = q.used_ring.0 + 4 + 8 * (q.next_used as int % q.size as int);
    let elem = VirtqUsedElem { id: head as u32, len }.encode();
    let idx = crate::devices::virtio::queue::plus16(q.next_used, 1).encode();
    lemma_used_elem(head, len);
    law_bytes_add_up(crate::devices::virtio::queue::plus16(q.next_used, 1) as nat, 2);
    law_write_keeps_layout(ram, at, elem);
    law_access_succeeds(ram, at, elem, 8);
    law_access_succeeds(ram.write(at, elem)->Ok_0, q.used_ring.0 + 2, idx, 2);
}

proof fn lemma_used_elem(head: u16, len: u32)
    ensures
        ({
            let b = VirtqUsedElem { id: head as u32, len }.encode();
            &&& b.len() == 8
            &&& digits(b, 0, 4) == head
            &&& digits(b, 4, 4) == len
        }),
{
    let b = VirtqUsedElem { id: head as u32, len }.encode();
    let id = crate::byte_order::le_bytes(head as nat, 4);
    let count = crate::byte_order::le_bytes(len as nat, 4);
    law_bytes_add_up(head as nat, 4);
    law_bytes_add_up(len as nat, 4);
    lemma_digits_of(b, id, 0, 0, 4);
    lemma_digits_of(b, count, 4, 0, 4);
}

proof fn lemma_apart(p: int, q: int, n: int)
    requires
        n > 0,
        p < q < p + n,
    ensures
        p % n != q % n,
{
    vstd::arithmetic::div_mod::lemma_fundamental_div_mod(p, n);
    vstd::arithmetic::div_mod::lemma_fundamental_div_mod(q, n);
    let d = q / n - p / n;
    if p % n == q % n {
        assert(q - p == n * d) by (nonlinear_arith)
            requires
                p == n * (p / n) + p % n,
                q == n * (q / n) + q % n,
                p % n == q % n,
                d == q / n - p / n,
        ;
        assert(false) by (nonlinear_arith)
            requires
                n > 0,
                0 < n * d < n,
        ;
    }
}

/// A chain that is handed back is found in the used ring: where the ring is
/// open, the eight bytes at the place of the used position hold the chain's
/// head and the length; after the ring's flags stands the next position, modulo
/// the range of positions; and the elements of the positions before it, as many
/// as the ring has besides this one, stay as they were.
#[verifier::rlimit(50)]
pub proof fn law_used_element_in_memory(q: Queue, ram: Ram, head: u16, len: u32)
    requires
        ram.wf(),
        q.add_used_spec(ram, head, len).0 is Ok,
    ensures
        ({
            let (r, q2, after) = q.add_used_spec(ram, head, len);
            let n = q.size as int;
            let at = q.used_ring.0 + 4 + 8 * (q.next_used as int % n);
            &&& open_at(ram, at, 8) ==> (after.read(at, 8) matches Ok(b) && b.len() == 8 && digits(b, 0, 4)
                == head && digits(b, 4, 4) == len)
            &&& exists|idx: Seq<u8>|
                idx.len() == 2 && digits(idx, 0, 2) == (q.next_used + 1) % 0x1_0000 && #[trigger] holds(
                    after,
                    q.used_ring.0 + 2,
                    idx,
                )
            &&& forall|p: int, b: Seq<u8>|
                #![trigger holds(ram, q.used_ring.0 + 4 + 8 * (p % n), b)]
                q.next_used - n < p < q.next_used + n && p != q.next_used && b.len() == 8 && holds(
                    ram,
                    q.used_ring.0 + 4 + 8 * (p % n),
                    b,
                ) ==> holds(after, q.used_ring.0 + 4 + 8 * (p % n), b)
            &&& q2.next_used == (q.next_used + 1) % 0x1_0000
            &&& q2.num_added == (q.num_added + 1) % 0x1_0000
            &&& q2 == (Queue { next_used: q2.next_used, num_added: q2.num_added, ..q })
        }),
{
    let (r, q2, after) = q.add_used_spec(ram, head, len);
    let n = q.size as int;
    let at = q.used_ring.0 + 4 + 8 * (q.next_used as int % n);
    let elem = VirtqUsedElem { id: head as u32, len }.encode();
    let idx = q2.next_used.encode();
    let index_at = q.used_ring.0 + 2;
    lemma_used_elem(head, len);
    law_bytes_add_up(q2.next_used as nat, 2);
    let written = match ram.write(at, elem) {
        Ok(w) => w,
        Err(_) => ram,
    };
    law_write_keeps_layout(ram, at, elem);
    law_write_places_bytes(ram, at, elem);
    law_write_places_bytes(written, index_at, idx);
    law_write_keeps_layout(written, index_at, idx);
    assert(placed(written, after, index_at, idx));
    assert(holds(after, index_at, idx));
    assert forall|p: int, b: Seq<u8>|
        #![trigger holds(ram, q.used_ring.0 + 4 + 8 * (p % n), b)]
        q.next_used - n < p < q.next_used + n && p != q.next_used && b.len() == 8 && holds(
            ram,
            q.used_ring.0 + 4 + 8 * (p % n),
            b,
        ) implies holds(after, q.used_ring.0 + 4 + 8 * (p % n), b) by {
        let held = q.used_ring.0 + 4 + 8 * (p % n);
        if p < q.next_used {
            lemma_apart(p, q.next_used as int, n);
        } else {
            lemma_apart(q.next_used as int, p, n);
        }
        if ram.write(at, elem) is Ok {
            lemma_placed_keeps(ram, written, at, elem, held, b);
        }
        lemma_placed_keeps(written, after, index_at, idx, held, b);
    }
    if open_at(ram, at, 8) {
        law_access_succeeds(ram, at, elem, 8);
        law_access_succeeds(after, at, elem, 8);
        lemma_placed_keeps(written, after, index_at, idx, at, elem);
        law_read_gives_bytes(after, at, 8);
        let b = after.read(at, 8)->Ok_0;
        let k = find(ram.layout, at)->0;
        assert(b =~= elem) by {
            assert forall|i: int| 0 <= i < 8 implies b[i] == elem[i] by {
                assert(after.bytes[k][at - after.layout[k].base + i] == elem[i]);
                assert(after.bytes[k][at - after.layout[k].base + i] == b[i]);
            }
        }
    }
}

/// Any two of as many consecutive used positions as the ring has elements have
/// elements that do not overlap, and all lie behind the ring's index.
pub proof fn law_used_positions_are_apart(q: Queue, p: int, i: int, j: int)
    requires
        q.size > 0,
        0 <= i < j < q.size,
    ensures
        ({
            let n = q.size as int;
            let a = q.used_ring.0 + 4 + 8 * ((p + i) % n);
            let b = q.used_ring.0 + 4 + 8 * ((p + j) % n);
            &&& q.used_addr(p + i) == a
            &&& q.used_addr(p + j) == b
            &&& a + 8 <= b || b + 8 <= a
            &&& q.used_ring.0 + 4 <= a < q.used_ring.0 + 4 + 8 * n
            &&& q.used_ring.0 + 4 <= b < q.used_ring.0 + 4 + 8 * n
        }),
{
    lemma_apart(p + i, p + j, q.size as int);
}

/// When a chain is refused: its head lies outside the queue, which changes
/// nothing; or its element would lie beyond the last address.
pub proof fn law_used_refused(q: Queue, ram: Ram, head: u16, len: u32)
    ensures
        ({
            let (r, q2, after) = q.add_used_spec(ram, head, len);
            &&& head >= q.size <==> r == Err::<(), Error>(Error::InvalidDescriptorIndex)
            &&& head >= q.size ==> q2 == q && after == ram
            &&& head < q.size ==> (r == Err::<(), Error>(Error::AddressOverflow) <==> q.used_ring.0 + 4 + 8
                * (q.next_used as int % q.size as int) > u64::MAX)
            &&& r == Err::<(), Error>(Error::AddressOverflow) ==> q2 == q && after == ram
        }),
{
}

/// The bytes of a descriptor: an address of eight bytes, a length of four, then
/// flags and the next index, of two each.
pub proof fn law_descriptor_bytes(b: Seq<u8>)
    requires
        b.len() == 16,
    ensures
        ({
            let d = Descriptor::decode(b);
            &&& d.addr == digits(b, 0, 8)
            &&& d.len == digits(b, 8, 4)
            &&& d.flags == digits(b, 12, 2)
            &&& d.next == digits(b, 14, 2)
        }),
{
    lemma_digits(b, 0, 8);
    lemma_digits(b, 8, 4);
    lemma_digits(b, 12, 2);
    lemma_digits(b, 14, 2);
    law_numbers_are_little_endian(b, 0);
    law_numbers_are_little_endian(b, 8);
    law_numbers_are_little_endian(b, 12);
    law_numbers_are_little_endian(b, 14);
}

/// How many descriptors the device uses: what the driver chose, but no more
/// than it offers.
pub open spec fn ring_size(q: Queue) -> int {
    if q.size < q.max_size {
        q.size as int
    } else {
        q.max_size as int
    }
}

/// The descriptor `d` of a chain is what memory holds at place `index` of the
/// table.
pub open spec fn is_descriptor(
    ram: Ram,
    table: int,
    index: int,
    addr: int,
    len: int,
    flags: int,
    next: int,
) -> bool {
    ram.read(table + 16 * index, 16) matches Ok(b) && digits(b, 0, 8) == addr && digits(b, 8, 4) == len
        && digits(b, 12, 2) == flags && digits(b, 14, 2) == next
}

/// What is popped: the driver's index, which stands behind the ring's flags,
/// has gone beyond the device's position; the ring's entry for that position
/// names a descriptor of the table; the chain is that descriptor, and where it
/// goes on, it goes on in the table. Afterwards the position is one further.
#[verifier::rlimit(50)]
pub proof fn law_front_of_the_ring(q: Queue, ram: Ram)
    requires
        ram.wf(),
        q.reachable(ram.layout),
    ensures
        ({
            let n = ring_size(q);
            let idx = ram.load(q.avail_ring.0 + 2, 2)->Ok_0;
            let entry = ram.read(q.avail_ring.0 + 4 + 2 * (q.next_avail as int % n), 2)->Ok_0;
            let table = q.desc_table.0 as int;
            &&& q.front(ram) is Some ==> digits(idx, 0, 2) != q.next_avail && n > 0
            &&& q.front(ram) matches Some(c) ==> {
                &&& c.index == digits(entry, 0, 2)
                &&& c.index < n
                &&& is_descriptor(
                    ram,
                    table,
                    c.index as int,
                    c.addr.0 as int,
                    c.len as int,
                    c.flags as int,
                    c.next as int,
                )
                &&& c.flags % 2 == 1 && n > 1 ==> c.next < n
                &&& c.desc_table == q.desc_table
                &&& c.queue_size == n
                &&& c.ttl == n
            }
            &&& digits(idx, 0, 2) != q.next_avail && n > 0 && q.front(ram) is None ==> {
                let i = digits(entry, 0, 2);
                ||| i >= n
                ||| table + 16 * i > u64::MAX
                ||| ram.read(table + 16 * i, 16) is Err
                ||| (ram.read(table + 16 * i, 16) matches Ok(b) && b[12] % 2 == 1 && digits(b, 14, 2) >= n
                    && n > 1)
            }
            &&& q.popped() == (Queue { next_avail: q.popped().next_avail, ..q })
            &&& q.popped().next_avail == (q.next_avail + 1) % 0x1_0000
        }),
{
    let n = ring_size(q);
    lemma_published(q, ram);
    if n > 0 {
        lemma_entry(q, ram);
        let at = q.avail_ring.0 + 4 + 2 * (q.next_avail as int % n);
        let entry = ram.read(at, 2)->Ok_0;
        lemma_descriptor(ram, q.desc_table.0 as int, digits(entry, 0, 2));
    }
}

/// The driver's index.
proof fn lemma_published(q: Queue, ram: Ram)
    requires
        ram.wf(),
        q.reachable(ram.layout),
    ensures
        ({
            let idx = ram.load(q.avail_ring.0 + 2, 2)->Ok_0;
            &&& q.avail_idx_spec(ram) matches Ok(v) && v == digits(idx, 0, 2)
            &&& q.pending(ram) == 0 <==> digits(idx, 0, 2) == q.next_avail
        }),
{
    let idx = ram.load(q.avail_ring.0 + 2, 2)->Ok_0;
    law_addresses_are_found(ram.layout, q.avail_ring.0 + 2);
    law_read_gives_bytes(ram, q.avail_ring.0 + 2, 2);
    law_numbers_are_little_endian(idx, 0);
    lemma_digits(idx, 0, 2);
    assert(idx.subrange(0, 2) =~= idx);
}

/// The ring's entry for the device's position.
proof fn lemma_entry(q: Queue, ram: Ram)
    requires
        ram.wf(),
        q.reachable(ram.layout),
        ring_size(q) > 0,
    ensures
        ({
            let entry = ram.read(q.avail_ring.0 + 4 + 2 * (q.next_avail as int % ring_size(q)), 2)->Ok_0;
            &&& q.slot(ram, q.next_avail as int) == digits(entry, 0, 2)
            &&& 0 <= digits(entry, 0, 2) < 0x1_0000
        }),
{
    assert(q.slot_ok(ram.layout, q.next_avail as int));
    let at = q.avail_ring.0 + 4 + 2 * (q.next_avail as int % ring_size(q));
    assert(at == q.slot_addr(q.next_avail as int));
    let entry = ram.read(at, 2)->Ok_0;
    law_read_gives_bytes(ram, at, 2);
    law_addresses_are_found(ram.layout, at);
    law_numbers_are_little_endian(entry, 0);
    lemma_digits(entry, 0, 2);
    assert(entry.subrange(0, 2) =~= entry);
}

/// The fields of a descriptor of a table.
proof fn lemma_descriptor(ram: Ram, table: int, i: int)
    requires
        ram.wf(),
    ensures
        ram.read(table + 16 * i, 16) matches Ok(b) ==> {
            let d = Descriptor::decode(b);
            &&& d.addr == digits(b, 0, 8)
            &&& d.len == digits(b, 8, 4)
            &&& d.flags == digits(b, 12, 2)
            &&& d.next == digits(b, 14, 2)
            &&& d.flags % 2 == b[12] % 2
            &&& (d.flags & 1 != 0) == (d.flags % 2 == 1)
        },
{
    if let Ok(b) = ram.read(table + 16 * i, 16) {
        law_read_gives_bytes(ram, table + 16 * i, 16);
        law_descriptor_bytes(b);
        law_numbers_are_little_endian(b, 12);
        let flags = Descriptor::decode(b).flags;
        assert((flags & 1 != 0) == (flags % 2 == 1)) by {
            lemma_bits(flags as u64);
        }
    }
}

/// The flags of a descriptor: the lowest says that the chain goes on, the next
/// one that the device writes. A chain goes on at most as often as it may, and
/// with the descriptor of the table that the present one names.
pub proof fn law_descriptor_flags(c: DescriptorChain, ram: Ram)
    requires
        ram.wf(),
    ensures
        c.links() <==> c.flags % 2 == 1 && c.ttl > 1,
        c.read_only() <==> (c.flags / 2) % 2 == 0,
        c.successor(ram) matches Some(d) ==> {
            &&& c.flags % 2 == 1
            &&& c.ttl > 1
            &&& d.ttl == c.ttl - 1
            &&& d.index == c.next
            &&& d.index < c.queue_size
            &&& d.desc_table == c.desc_table
            &&& d.queue_size == c.queue_size
            &&& is_descriptor(
                ram,
                c.desc_table.0 as int,
                d.index as int,
                d.addr.0 as int,
                d.len as int,
                d.flags as int,
                d.next as int,
            )
        },
{
    lemma_bits(c.flags as u64);
    let at = c.desc_table.0 + 16 * c.next;
    law_read_gives_bytes(ram, at, 16);
    if let Ok(b) = ram.read(at, 16) {
        law_descriptor_bytes(b);
    }
}

/// How many chains wait: as many as the driver's index, behind the ring's
/// flags, is ahead of the device's position, modulo the range of positions.
pub proof fn law_chains_waiting(q: Queue, ram: Ram)
    requires
        ram.wf(),
        q.avail_idx_spec(ram) is Ok,
    ensures
        ram.load(q.avail_ring.0 + 2, 2) matches Ok(b) && q.pending(ram) == (digits(b, 0, 2) - q.next_avail)
            % 0x1_0000,
{
    let b = ram.load(q.avail_ring.0 + 2, 2)->Ok_0;
    law_read_gives_bytes(ram, q.avail_ring.0 + 2, 2);
    law_numbers_are_little_endian(b, 0);
    lemma_digits(b, 0, 2);
    assert(b.subrange(0, 2) =~= b);
}

/// Asking the driver for notifications, and telling it that none are needed.
/// With event indices the device's position is put behind the used ring when it
/// asks, and nothing is done otherwise; without them the used ring's flags are
/// set to zero or one.
pub proof fn law_notifications_asked(q: Queue, ram: Ram, enable: bool) -> (flags: Seq<u8>)
    requires
        ram.wf(),
        q.set_notification_spec(ram, enable) is Ok,
    ensures
        ({
            let after = q.set_notification_spec(ram, enable)->Ok_0;
            if q.event_idx_enabled && !enable {
                after == ram
            } else {
                &&& flags.len() == 2
                &&& placed(
                    ram,
                    after,
                    if q.event_idx_enabled {
                        q.used_ring.0 + 4 + 8 * q.size
                    } else {
                        q.used_ring.0 as int
                    },
                    flags,
                )
                &&& digits(flags, 0, 2) == (if q.event_idx_enabled {
                    q.next_avail as int
                } else if enable {
                    0
                } else {
                    1
                })
            }
        }),
{
    let v: u16 = if q.event_idx_enabled {
        q.next_avail
    } else if enable {
        0
    } else {
        1
    };
    let flags = v.encode();
    law_bytes_add_up(v as nat, 2);
    law_write_places_bytes(ram, q.used_ring.0 + 4 + 8 * q.size, flags);
    law_write_places_bytes(ram, q.used_ring.0 as int, flags);
    flags
}

/// Whether the driver is notified: always without event indices. With them, if
/// the position that it has put behind the available ring is one of those that
/// were used since the last decision.
#[verifier::spinoff_prover]
#[verifier::rlimit(60)]
pub proof fn law_driver_notified(q: Queue, ram: Ram)
    requires
        ram.wf(),
    ensures
        ({
            let (r, q2) = q.notification_spec(ram);
            &&& q2 == (Queue { num_added: 0, ..q })
            &&& !q.event_idx_enabled ==> r == Ok::<bool, Error>(true)
            &&& q.event_idx_enabled && r is Ok ==> (ram.load(q.avail_ring.0 + 4 + 2 * q.size, 2) matches Ok(b) && (
            r == Ok::<bool, Error>(true) <==> exists|i: int|
                1 <= i <= q.num_added && digits(b, 0, 2) == #[trigger] position(q.next_used - i)))
        }),
{
    let (r, q2) = q.notification_spec(ram);
    if q.event_idx_enabled && r is Ok {
        let at = q.avail_ring.0 + 4 + 2 * q.size;
        let b = ram.load(at, 2)->Ok_0;
        law_read_gives_bytes(ram, at, 2);
        law_numbers_are_little_endian(b, 0);
        lemma_digits(b, 0, 2);
        assert(b.subrange(0, 2) =~= b);
        let event = digits(b, 0, 2);
        let back = (q.next_used - 1 - event) % 0x1_0000;
        if r == Ok::<bool, Error>(true) {
            assert(event == position(q.next_used - (back + 1)));
        }
        if exists|i: int| 1 <= i <= q.num_added && event == #[trigger] position(q.next_used - i) {
            let i = choose|i: int| 1 <= i <= q.num_added && event == #[trigger] position(q.next_used - i);
            assert(back == i - 1);
        }
    }
}

/// A position in the range of positions.
pub open spec fn position(p: int) -> int {
    p % 0x1_0000
}

/// Asking for notifications tells whether chains wait already: whether the
/// driver's index then differs from the device's position.
pub proof fn law_waiting_already(q: Queue, ram: Ram)
    requires
        ram.wf(),
    ensures
        q.enable_spec(ram).1 matches Ok(waiting) ==> (q.enable_spec(ram).0.load(q.avail_ring.0 + 2, 2) matches Ok(
            b,
        ) && waiting == (digits(b, 0, 2) != q.next_avail)),
{
    if let Ok(waiting) = q.enable_spec(ram).1 {
        let after = q.enable_spec(ram).0;
        let v: u16 = if q.event_idx_enabled {
            q.next_avail
        } else {
            0
        };
        law_write_keeps_layout(ram, q.used_ring.0 + 4 + 8 * q.size, v.encode());
        law_write_keeps_layout(ram, q.used_ring.0 as int, v.encode());
        let b = after.load(q.avail_ring.0 + 2, 2)->Ok_0;
        law_read_gives_bytes(after, q.avail_ring.0 + 2, 2);
        law_numbers_are_little_endian(b, 0);
        lemma_digits(b, 0, 2);
        assert(b.subrange(0, 2) =~= b);
    }
}

/// The descriptors of a chain are in the order of their links: after each comes
/// the one that it names, and the last names none.
pub proof fn law_chain_in_order(ram: Ram, first: DescriptorChain, i: int)
    ensures
        ({
            let list = chain_list(ram, Some(first));
            &&& list.len() >= 1
            &&& list[0] == first
            &&& 0 <= i < list.len() - 1 ==> list[i].successor(ram) == Some(list[i + 1])
            &&& list.last().successor(ram) is None
        }),
    decreases first.ttl,
{
    match first.successor(ram) {
        Some(next) => {
            law_chain_in_order(ram, next, i - 1);
        },
        None => {
            assert(chain_list(ram, None).len() == 0);
        },
    }
}

/// What the device may read of a chain: the descriptors before the first that
/// it may write, in their order.
pub proof fn law_read_part(list: Seq<DescriptorChain>, i: int)
    ensures
        ({
            let part = read_only_prefix(list);
            &&& part.len() <= list.len()
            &&& 0 <= i < part.len() ==> part[i] == list[i] && (list[i].flags / 2) % 2 == 0
            &&& part.len() < list.len() ==> (list[part.len() as int].flags / 2) % 2 == 1
        }),
    decreases list.len(),
{
    if list.len() > 0 {
        lemma_bits(list[0].flags as u64);
        law_read_part(list.subrange(1, list.len() as int), i - 1);
    }
}

/// What the device may write of a chain: all the descriptors that say so, in
/// their order.
pub proof fn law_write_part(list: Seq<DescriptorChain>)
    ensures
        list.len() == 0 ==> device_written(list).len() == 0,
        list.len() > 0 && (list.last().flags / 2) % 2 == 1 ==> device_written(list) == device_written(
            list.drop_last(),
        ).push(list.last()),
        list.len() > 0 && (list.last().flags / 2) % 2 == 0 ==> device_written(list) == device_written(
            list.drop_last(),
        ),
{
    reveal(Seq::filter);
    if list.len() > 0 {
        lemma_bits(list.last().flags as u64);
    }
}

/// Which queues can be served: the driver's index and every entry of its ring
/// can be read, and with event indices the position that it puts behind the
/// ring.
pub proof fn law_reachable_ring(q: Queue, ram: Ram, i: int)
    requires
        ram.wf(),
        q.reachable(ram.layout),
        0 <= i < ring_size(q),
    ensures
        ram.load(q.avail_ring.0 + 2, 2) is Ok,
        ram.read(q.avail_ring.0 + 4 + 2 * i, 2) is Ok,
        q.event_idx_enabled ==> ram.load(q.avail_ring.0 + 4 + 2 * q.size, 2) is Ok,
{
    vstd::arithmetic::div_mod::lemma_small_mod(i as nat, ring_size(q) as nat);
    assert(q.slot_ok(ram.layout, i));
    law_access_succeeds(ram, q.avail_ring.0 + 2, seq![0u8], 2);
    law_access_succeeds(ram, q.avail_ring.0 + 4 + 2 * i, seq![0u8], 2);
    law_access_succeeds(ram, q.avail_ring.0 + 4 + 2 * q.size, seq![0u8], 2);
}

/// Notifications can be asked for and declined exactly if memory takes the two
/// bytes that say so; with event indices declining needs none. And whether the
/// driver must be notified can be decided wherever its ring can be read.
pub proof fn law_notifications_possible(q: Queue, ram: Ram)
    ensures
        ({
            let at = if q.event_idx_enabled {
                q.used_ring.0 + 4 + 8 * q.size
            } else {
                q.used_ring.0 as int
            };
            let open = at <= u64::MAX && (find(ram.layout, at) matches Some(k) && ram.layout[k].perms.write
                && ram.layout[k].mapped && at + 2 <= ram.layout[k].base + ram.layout[k].size);
            &&& q.set_notification_spec(ram, true) is Ok <==> open
            &&& q.set_notification_spec(ram, false) is Ok <==> open || q.event_idx_enabled
        }),
        q.reachable(ram.layout) ==> q.notification_spec(ram).0 is Ok,
{
    let at = if q.event_idx_enabled {
        q.used_ring.0 + 4 + 8 * q.size
    } else {
        q.used_ring.0 as int
    };
    law_bytes_add_up(q.next_avail as nat, 2);
    law_bytes_add_up(0, 2);
    law_bytes_add_up(1, 2);
    law_access_succeeds(ram, at, q.next_avail.encode(), 1);
    law_access_succeeds(ram, at, 0u16.encode(), 1);
    law_access_succeeds(ram, at, 1u16.encode(), 1);
    if q.reachable(ram.layout) && q.event_idx_enabled {
        let event = q.avail_ring.0 + 4 + 2 * q.size;
        law_addresses_are_found(ram.layout, event);
        law_access_succeeds(ram, event, seq![0u8], 2);
    }
}

} // verus!
