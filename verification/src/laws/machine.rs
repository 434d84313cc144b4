//! The machine's memory and its device regions.

use vstd::prelude::*;

use crate::byte_order::le_bytes;
use crate::laws::memory::{digits, holds, law_addresses_are_found, law_bytes_add_up, lemma_digits_of};
use crate::memory::layout::MemoryLayout;
use crate::memory::memory::{find, MemoryPerms, MmioRegion, RegionLayout};
use crate::partition::{
    memory_plan, minimal_params, mmio_overlap, mmio_registered, placeable, ram_overlap, MapRange, Partition,
    PartitionError,
};
use crate::vm_memory::io::{IoOutcome, Transfer, TransferStep, VolatileMemoryError};
use crate::vm_memory::mmap::{collection_error, order_error, GuestRegionCollectionError};

verus! {

/// Where byte `p` of the machine's memory lies: memory that goes beyond the
/// hole below four gigabytes is cut where the 32-bit devices start, and goes on
/// behind the hole.
pub open spec fn placed_at(total: u64, map: MemoryLayout, p: int) -> int {
    if total <= map.mem_32bit_reserved_start || p < map.mem_32bit_devices_start {
        p
    } else {
        map.ram_64bit_start + (p - map.mem_32bit_devices_start)
    }
}

/// The mapping flags: one for reading, two for writing and four for executing.
pub open spec fn flag_sum(p: MemoryPerms) -> int {
    (if p.read {
        1int
    } else {
        0
    }) + (if p.write {
        2int
    } else {
        0
    }) + (if p.execute {
        4int
    } else {
        0
    })
}

/// The ranges that are mapped: one from zero on, or one up to the 32-bit
/// devices and one behind the hole, which together have all bytes; each with
/// the flags of the permissions.
pub proof fn law_ranges_mapped(total: u64, flags: MemoryPerms, map: MemoryLayout)
    requires
        placeable(total, map),
    ensures
        ({
            let plan = memory_plan(total, flags.bits_spec(), map);
            &&& total <= map.mem_32bit_reserved_start ==> plan.len() == 1 && plan[0].gpa == 0 && plan[0].size
                == total
            &&& total > map.mem_32bit_reserved_start ==> plan.len() == 2 && plan[0].gpa == 0 && plan[0].size
                == map.mem_32bit_devices_start && plan[1].gpa == map.ram_64bit_start && plan[1].size == total
                - map.mem_32bit_devices_start
            &&& forall|i: int| 0 <= i < plan.len() ==> (#[trigger] plan[i]).flags == flag_sum(flags)
        }),
{
}

/// Once the machine was given memory, each byte of the host's lies where the
/// layout says, and the guest may read, write and execute it. Without host
/// memory nothing changes.
pub proof fn law_memory_given(
    before: Partition,
    after: Partition,
    total: u64,
    flags: MemoryPerms,
    source: Option<Vec<u8>>,
    r: Result<Vec<MapRange>, PartitionError>,
    p: int,
)
    requires
        before.memory.regions@.len() == 0,
        after.allocated(before, total, flags, source, r),
        placeable(total, before.layout),
        source matches Some(v) ==> v@.len() == total,
        total > before.layout.mem_32bit_reserved_start ==> before.layout.mem_32bit_devices_start
            <= before.layout.ram_64bit_start,
        0 <= p < total,
    ensures
        source is None ==> r is Err && after == before,
        source matches Some(v) ==> r is Ok && ({
            let gpa = placed_at(total, before.layout, p);
            let ram = after.memory.ram();
            &&& holds(ram, gpa, seq![v@[p]])
            &&& find(ram.layout, gpa) matches Some(k) && ram.layout[k].perms.read && ram.layout[k].perms.write
                && ram.layout[k].perms.execute
        }),
{
    if let Some(v) = source {
        let map = before.layout;
        let gpa = placed_at(total, map, p);
        let ram = after.memory.ram();
        let plan = memory_plan(total, flags.bits_spec(), map);
        let cut = plan[0].size as int;
        let regions = after.memory.regions@;
        assert(regions[0].layout() == ram.layout[0]);
        assert(ram.bytes[0] == v@.subrange(0, cut));
        law_addresses_are_found(ram.layout, gpa);
        if p < cut {
            assert(ram.layout[0].base <= gpa < ram.layout[0].base + ram.layout[0].size);
            assert(find(ram.layout, gpa) == Some(0int));
        } else {
            assert(regions[1].layout() == ram.layout[1]);
            assert(ram.bytes[1] == v@.subrange(cut, v@.len() as int));
            assert(!(ram.layout[0].base <= gpa < ram.layout[0].base + ram.layout[0].size));
            assert(ram.layout[1].base <= gpa < ram.layout[1].base + ram.layout[1].size);
            assert(find(ram.layout, gpa) == Some(1int));
        }
    }
}

/// The minimal boot parameters: the magic where the setup header starts, the
/// version's low byte, an alignment of two megabytes, the loader's type, and
/// zeroes.
pub proof fn law_minimal_params()
    ensures
        ({
            let page = minimal_params();
            &&& page.len() == 4096
            &&& page[0x1f1] == 0x48 && page[0x1f2] == 0x64 && page[0x1f3] == 0x72 && page[0x1f4] == 0x53
            &&& page[0x1f6] == 8
            &&& digits(page, 0x1f7, 4) == 0x20_0000
            &&& page[0x210] == 1
            &&& forall|i: int|
                0 <= i < 4096 && !(0x1f1 <= i < 0x1f5) && !(0x1f6 <= i < 0x1fb) && i != 0x210
                    ==> #[trigger] page[i] == 0
        }),
{
    let page = minimal_params();
    law_bytes_add_up(0x5372_6448, 4);
    law_bytes_add_up(0x0208, 2);
    law_bytes_add_up(0x20_0000, 4);
    reveal_with_fuel(le_bytes, 5);
    lemma_digits_of(page, le_bytes(0x20_0000, 4), 0x1f7, 0, 4);
}

proof fn lemma_overlaps(layout: Seq<RegionLayout>, regions: Seq<MmioRegion>, gpa: u64, end: u64, i: int)
    requires
        0 <= i,
    ensures
        ram_overlap(layout, gpa, end, i) is None <==> forall|k: int|
            i <= k < layout.len() ==> !(gpa < (#[trigger] layout[k]).base + layout[k].size && layout[k].base < end),
        mmio_overlap(regions, gpa, end, i) is None <==> forall|k: int|
            i <= k < regions.len() ==> !(gpa < (#[trigger] regions[k]).gpa.0 + regions[k].size && regions[k].gpa.0
                < end),
    decreases layout.len() + regions.len() - i,
{
    if i < layout.len() || i < regions.len() {
        lemma_overlaps(layout, regions, gpa, end, i + 1);
    }
}

/// A device region is accepted exactly if it ends within the address space and
/// runs into neither memory nor another device region.
pub proof fn law_device_region_accepted(
    layout: Seq<RegionLayout>,
    regions: Seq<MmioRegion>,
    gpa: u64,
    size: u64,
    name: Seq<char>,
    r: Result<(), PartitionError>,
)
    requires
        mmio_registered(layout, regions, gpa, size, name, r),
    ensures
        r is Ok <==> {
            &&& gpa + size <= u64::MAX
            &&& forall|k: int|
                0 <= k < layout.len() ==> gpa >= (#[trigger] layout[k]).base + layout[k].size || gpa + size
                    <= layout[k].base
            &&& forall|k: int|
                0 <= k < regions.len() ==> gpa >= (#[trigger] regions[k]).gpa.0 + regions[k].size || gpa + size
                    <= regions[k].gpa.0
        },
        r matches Err(PartitionError::MmioOverflow) <==> gpa + size > u64::MAX,
{
    if gpa + size <= u64::MAX {
        let end = (gpa + size) as u64;
        lemma_overlaps(layout, regions, gpa, end, 0);
        if ram_overlap(layout, gpa, end, 0) is None {
            assert forall|k: int| 0 <= k < layout.len() implies gpa >= (#[trigger] layout[k]).base
                + layout[k].size || gpa + size <= layout[k].base by {}
        }
    }
}

proof fn lemma_order(s: Seq<(int, int)>, i: int)
    requires
        1 <= i,
    ensures
        order_error(s, i) != Some(GuestRegionCollectionError::NoMemoryRegion),
        order_error(s, i) is None <==> forall|k: int|
            i <= k < s.len() ==> (#[trigger] s[k]).0 >= s[k - 1].0 && s[k].0 >= s[k - 1].1,
        order_error(s, i) == Some(GuestRegionCollectionError::UnsortedMemoryRegions) ==> exists|k: int|
            i <= k < s.len() && (#[trigger] s[k]).0 < s[k - 1].0,
        order_error(s, i) == Some(GuestRegionCollectionError::MemoryRegionOverlap) ==> exists|k: int|
            i <= k < s.len() && s[k - 1].0 <= (#[trigger] s[k]).0 < s[k - 1].1,
    decreases s.len() - i,
{
    if i < s.len() {
        lemma_order(s, i + 1);
        assert(s[i] == s[i]);
    }
}

/// Regions make up guest memory if there is one, and each starts no earlier
/// than the one before it starts and ends; else the error says which of these
/// fails.
pub proof fn law_regions_accepted(s: Seq<(int, int)>)
    ensures
        collection_error(s) is None <==> s.len() > 0 && forall|k: int|
            1 <= k < s.len() ==> (#[trigger] s[k]).0 >= s[k - 1].0 && s[k].0 >= s[k - 1].1,
        collection_error(s) == Some(GuestRegionCollectionError::NoMemoryRegion) <==> s.len() == 0,
        collection_error(s) == Some(GuestRegionCollectionError::UnsortedMemoryRegions) ==> exists|k: int|
            1 <= k < s.len() && (#[trigger] s[k]).0 < s[k - 1].0,
        collection_error(s) == Some(GuestRegionCollectionError::MemoryRegionOverlap) ==> exists|k: int|
            1 <= k < s.len() && s[k - 1].0 <= (#[trigger] s[k]).0 < s[k - 1].1,
{
    lemma_order(s, 1);
}

/// The steps of a transfer: what was moved is counted, until all is; an
/// interruption changes nothing; nothing moved, more than was left, and a
/// failure end it.
pub proof fn law_transfer_steps(t: Transfer, outcome: IoOutcome)
    requires
        t.done < t.total,
    ensures
        ({
            let (after, step) = t.after(outcome);
            &&& after == (Transfer { done: after.done, ..t })
            &&& outcome is Interrupted ==> after == t && step == (TransferStep::Move { offset: t.done })
            &&& outcome is Failed ==> step == TransferStep::Fail(VolatileMemoryError::Failed)
            &&& outcome matches IoOutcome::Moved(n) ==> {
                &&& n == 0 && t.writing ==> step == TransferStep::Fail(VolatileMemoryError::WriteZero)
                &&& n == 0 && !t.writing ==> step == TransferStep::Fail(VolatileMemoryError::UnexpectedEof)
                &&& t.done + n > t.total ==> step == TransferStep::Fail(VolatileMemoryError::OutOfBounds)
                &&& 0 < n && t.done + n <= t.total ==> after.done == t.done + n
                &&& 0 < n && t.done + n == t.total ==> step is Done
                &&& 0 < n && t.done + n < t.total ==> (step matches TransferStep::Move { offset } && offset == t.done
                    + n)
            }
        }),
{
}

} // verus!
