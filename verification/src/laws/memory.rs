//! What guest memory and little-endian numbers are.

use vstd::prelude::*;

use crate::byte_order::{be_bytes, le_bytes, le_value, lemma_le_bytes_len, lemma_pow256_values};
use crate::linux_boot::{u16_at, u32_at, u64_at};
use crate::memory::memory::{
    find, find_mmio_from, law_write_keeps_layout, lemma_find_from, MemoryError, MmioRegion, Ram, RegionLayout,
};

verus! {

/// The number that the `n` bytes from `at` on stand for, the first byte being
/// the lowest digit.
pub open spec fn digits(s: Seq<u8>, at: int, n: nat) -> int
    decreases n,
{
    if n == 0 {
        0
    } else {
        s[at] + 256 * digits(s, at + 1, (n - 1) as nat)
    }
}

/// The bytes `data` lie from `gpa` on, in the first region that holds `gpa`.
pub open spec fn holds(ram: Ram, gpa: int, data: Seq<u8>) -> bool {
    find(ram.layout, gpa) matches Some(k) && {
        let r = ram.layout[k];
        &&& r.mapped
        &&& r.base <= gpa
        &&& gpa + data.len() <= r.base + r.size
        &&& forall|i: int|
            0 <= i < data.len() ==> #[trigger] ram.bytes[k][gpa - r.base + i] == data[i]
    }
}

pub proof fn lemma_digits(s: Seq<u8>, at: int, n: nat)
    requires
        0 <= at,
        at + n <= s.len(),
    ensures
        le_value(s.subrange(at, at + n)) == digits(s, at, n),
        0 <= digits(s, at, n),
    decreases n,
{
    let part = s.subrange(at, at + n);
    if n > 0 {
        lemma_digits(s, at + 1, (n - 1) as nat);
        assert(part.subrange(1, n as int) =~= s.subrange(at + 1, at + n));
    }
}

pub proof fn lemma_digits_of(s: Seq<u8>, t: Seq<u8>, at: int, from: int, n: nat)
    requires
        0 <= at,
        0 <= from,
        forall|i: int| 0 <= i < n ==> #[trigger] s[at + i] == t[from + i],
    ensures
        digits(s, at, n) == digits(t, from, n),
    decreases n,
{
    if n > 0 {
        assert(s[at + 0] == t[from + 0]);
        assert forall|i: int| 0 <= i < n - 1 implies #[trigger] s[at + 1 + i] == t[from + 1 + i] by {
            assert(s[at + (i + 1)] == t[from + (i + 1)]);
        }
        lemma_digits_of(s, t, at + 1, from + 1, (n - 1) as nat);
    }
}

/// Numbers of two, four and eight bytes are read with the lowest byte first.
pub proof fn law_numbers_are_little_endian(s: Seq<u8>, at: int)
    requires
        0 <= at,
    ensures
        at + 2 <= s.len() ==> u16_at(s, at) == s[at] + 0x100 * s[at + 1] && u16_at(s, at) == digits(s, at, 2),
        at + 4 <= s.len() ==> u32_at(s, at) == s[at] + 0x100 * s[at + 1] + 0x1_0000 * s[at + 2] + 0x100_0000
            * s[at + 3] && u32_at(s, at) == digits(s, at, 4),
        at + 8 <= s.len() ==> u64_at(s, at) == s[at] + 0x100 * s[at + 1] + 0x1_0000 * s[at + 2] + 0x100_0000
            * s[at + 3] + 0x1_0000_0000 * s[at + 4] + 0x100_0000_0000 * s[at + 5] + 0x1_0000_0000_0000 * s[at
            + 6] + 0x100_0000_0000_0000 * s[at + 7] && u64_at(s, at) == digits(s, at, 8),
{
    reveal_with_fuel(digits, 9);
    if at + 2 <= s.len() {
        lemma_digits(s, at, 2);
    }
    if at + 4 <= s.len() {
        lemma_digits(s, at, 4);
    }
    if at + 8 <= s.len() {
        lemma_digits(s, at, 8);
    }
}

/// The bytes of a number, the lowest first: each byte, weighed by its place,
/// adds up to the number.
pub proof fn law_bytes_add_up(v: nat, n: nat)
    requires
        n == 1 && v < 0x100 || n == 2 && v < 0x1_0000 || n == 4 && v < 0x1_0000_0000 || n == 8 && v
            < 0x1_0000_0000_0000_0000,
    ensures
        le_bytes(v, n).len() == n,
        digits(le_bytes(v, n), 0, n) == v,
        be_bytes(v, n).len() == n,
        forall|i: int| 0 <= i < n ==> #[trigger] be_bytes(v, n)[i] == le_bytes(v, n)[n - 1 - i],
{
    lemma_pow256_values();
    lemma_le_bytes_len(v, n);
    crate::byte_order::law_le_value_of_bytes(v, n);
    lemma_digits(le_bytes(v, n), 0, n);
    assert(le_bytes(v, n).subrange(0, n as int) =~= le_bytes(v, n));
}

/// An address is found in the first region that starts at or before it and
/// ends after it, and is found if there is any.
pub proof fn law_addresses_are_found(layout: Seq<RegionLayout>, gpa: int)
    ensures
        match find(layout, gpa) {
            Some(k) => 0 <= k < layout.len() && layout[k].base <= gpa < layout[k].base + layout[k].size && (
            forall|j: int|
                0 <= j < k ==> !((#[trigger] layout[j]).base <= gpa < layout[j].base + layout[j].size)),
            None => forall|j: int|
                0 <= j < layout.len() ==> !((#[trigger] layout[j]).base <= gpa < layout[j].base
                    + layout[j].size),
        },
{
    lemma_find_from(layout, gpa, 0);
    if let Some(k) = find(layout, gpa) {
        assert forall|j: int| 0 <= j < k implies !((#[trigger] layout[j]).base <= gpa < layout[j].base
            + layout[j].size) by {
            assert(!layout[j].has(gpa));
        }
    } else {
        assert forall|j: int| 0 <= j < layout.len() implies !((#[trigger] layout[j]).base <= gpa
            < layout[j].base + layout[j].size) by {
            assert(!layout[j].has(gpa));
        }
    }
}

proof fn lemma_mmio_found(regions: Seq<MmioRegion>, gpa: int, i: int)
    requires
        0 <= i,
    ensures
        match find_mmio_from(regions, gpa, i) {
            Some(k) => i <= k < regions.len() && regions[k].gpa.0 <= gpa < regions[k].gpa.0 + regions[k].size
                && (forall|j: int|
                i <= j < k ==> !((#[trigger] regions[j]).gpa.0 <= gpa < regions[j].gpa.0
                    + regions[j].size)),
            None => forall|j: int|
                i <= j < regions.len() ==> !((#[trigger] regions[j]).gpa.0 <= gpa < regions[j].gpa.0
                    + regions[j].size),
        },
    decreases regions.len() - i,
{
    if i < regions.len() && !regions[i].has(gpa) {
        lemma_mmio_found(regions, gpa, i + 1);
    }
}

/// An address is found in the first device region that starts at or before it
/// and ends after it, and is found if there is any.
pub proof fn law_device_addresses_are_found(regions: Seq<MmioRegion>, gpa: int)
    ensures
        match find_mmio_from(regions, gpa, 0) {
            Some(k) => 0 <= k < regions.len() && regions[k].gpa.0 <= gpa < regions[k].gpa.0 + regions[k].size
                && (forall|j: int|
                0 <= j < k ==> !((#[trigger] regions[j]).gpa.0 <= gpa < regions[j].gpa.0
                    + regions[j].size)),
            None => forall|j: int|
                0 <= j < regions.len() ==> !((#[trigger] regions[j]).gpa.0 <= gpa < regions[j].gpa.0
                    + regions[j].size),
        },
{
    lemma_mmio_found(regions, gpa, 0);
}

/// A write puts its bytes one after the other from its address on, changes no
/// other byte of any region, and no region.
pub proof fn law_write_places_bytes(ram: Ram, gpa: int, data: Seq<u8>)
    requires
        ram.wf(),
    ensures
        ram.write(gpa, data) matches Ok(after) ==> placed(ram, after, gpa, data),
        ram.store(gpa, data) matches Ok(after) ==> placed(ram, after, gpa, data),
{
    law_addresses_are_found(ram.layout, gpa);
    law_write_keeps_layout(ram, gpa, data);
}

/// `after` is `before` with `data` from `gpa` on.
pub open spec fn placed(before: Ram, after: Ram, gpa: int, data: Seq<u8>) -> bool {
    find(before.layout, gpa) matches Some(k) && {
        let start = gpa - before.layout[k].base;
        &&& after.layout == before.layout
        &&& after.bytes.len() == before.bytes.len()
        &&& holds(after, gpa, data)
        &&& forall|j: int, i: int|
            0 <= j < before.bytes.len() && 0 <= i < before.bytes[j].len() && !(j == k && start <= i < start
                + data.len()) ==> #[trigger] after.bytes[j][i] == before.bytes[j][i]
        &&& forall|j: int|
            0 <= j < before.bytes.len() ==> (#[trigger] after.bytes[j]).len() == before.bytes[j].len()
    }
}

/// A read gives the bytes from its address on, and so does a load.
pub proof fn law_read_gives_bytes(ram: Ram, gpa: int, n: int)
    requires
        ram.wf(),
        n >= 0,
    ensures
        ram.read(gpa, n) matches Ok(data) ==> data.len() == n && holds(ram, gpa, data),
        ram.load(gpa, n) matches Ok(data) ==> data.len() == n && holds(ram, gpa, data),
{
    law_addresses_are_found(ram.layout, gpa);
}

/// When an access succeeds. It must begin in a region that is mapped and allows
/// it; plain accesses must end before the region's last byte, accesses in one
/// step within the region.
pub proof fn law_access_succeeds(ram: Ram, gpa: int, data: Seq<u8>, n: int)
    requires
        n >= 1,
        data.len() >= 1,
    ensures
        ram.read(gpa, n) is Ok <==> (find(ram.layout, gpa) matches Some(k) && ram.layout[k].perms.read
            && ram.layout[k].mapped && gpa + n < ram.layout[k].base + ram.layout[k].size),
        ram.load(gpa, n) is Ok <==> (find(ram.layout, gpa) matches Some(k) && ram.layout[k].perms.read
            && ram.layout[k].mapped && gpa + n <= ram.layout[k].base + ram.layout[k].size),
        ram.write(gpa, data) is Ok <==> (find(ram.layout, gpa) matches Some(k) && ram.layout[k].perms.write
            && ram.layout[k].mapped && gpa + data.len() < ram.layout[k].base + ram.layout[k].size),
        ram.store(gpa, data) is Ok <==> (find(ram.layout, gpa) matches Some(k) && ram.layout[k].perms.write
            && ram.layout[k].mapped && gpa + data.len() <= ram.layout[k].base + ram.layout[k].size),
{
}

/// Why an access fails: because nothing is there; because it goes too far;
/// because it is not allowed; because no host memory is behind it.
pub proof fn law_access_fails(ram: Ram, gpa: int, data: Seq<u8>, n: int)
    ensures
        ram.read(gpa, n) matches Err(e) ==> {
            &&& e is NotAllocated <==> find(ram.layout, gpa) is None
            &&& e is NotReadable ==> !ram.layout[find(ram.layout, gpa)->0].perms.read
            &&& e is NoHostMemory ==> !ram.layout[find(ram.layout, gpa)->0].mapped
            &&& e is ReadExceeds <==> (find(ram.layout, gpa) matches Some(k) && gpa + n
                >= ram.layout[k].base + ram.layout[k].size)
            &&& e is NotAllocated || e is NotReadable || e is NoHostMemory || e is ReadExceeds
        },
        ram.write(gpa, data) matches Err(e) ==> {
            &&& e is NotAllocated <==> find(ram.layout, gpa) is None
            &&& e is ReadOnly ==> !ram.layout[find(ram.layout, gpa)->0].perms.write
            &&& e is NoHostMemory ==> !ram.layout[find(ram.layout, gpa)->0].mapped
            &&& e is WriteExceeds <==> (find(ram.layout, gpa) matches Some(k) && gpa + data.len()
                >= ram.layout[k].base + ram.layout[k].size)
            &&& e is NotAllocated || e is ReadOnly || e is NoHostMemory || e is WriteExceeds
        },
{
}

/// Bytes that are not overwritten stay where they are.
pub proof fn lemma_placed_keeps(ram: Ram, after: Ram, gpa: int, data: Seq<u8>, held: int, bytes: Seq<u8>)
    requires
        ram.wf(),
        placed(ram, after, gpa, data),
        holds(ram, held, bytes),
        held + bytes.len() <= gpa || gpa + data.len() <= held,
    ensures
        holds(after, held, bytes),
{
    let k = find(ram.layout, held)->0;
    let w = find(ram.layout, gpa)->0;
    law_addresses_are_found(ram.layout, held);
    law_addresses_are_found(ram.layout, gpa);
    let start = gpa - ram.layout[w].base;
    let r = ram.layout[k];
    assert forall|i: int| 0 <= i < bytes.len() implies #[trigger] after.bytes[k][held - r.base + i]
        == bytes[i] by {
        let at = held - r.base + i;
        assert(ram.bytes[k][held - r.base + i] == bytes[i]);
        assert(0 <= at < ram.bytes[k].len());
        assert(!(k == w && start <= at < start + data.len()));
        assert(after.bytes[k][at] == ram.bytes[k][at]);
    }
}

/// Bytes that a write does not meet stay where they are.
pub proof fn lemma_holds_on(ram: Ram, after: Ram, gpa: int, data: Seq<u8>, held: int, bytes: Seq<u8>)
    requires
        ram.wf(),
        ram.write(gpa, data) == Ok::<Ram, MemoryError>(after),
        holds(ram, held, bytes),
        held + bytes.len() <= gpa || gpa + data.len() <= held,
    ensures
        holds(after, held, bytes),
{
    law_write_places_bytes(ram, gpa, data);
    lemma_placed_keeps(ram, after, gpa, data, held, bytes);
}

} // verus!
