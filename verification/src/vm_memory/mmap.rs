//! Regions of guest memory that are mapped into the host.

use vstd::prelude::*;

use std::sync::Arc;

use crate::devices::virtio::mmio_adapter::zeroed;
use crate::memory::memory::GuestAddress;

verus! {

/// Memory that the host has set aside.
#[derive(Debug)]
pub struct MmapRegion {
    pub bytes: Vec<u8>,
}

impl MmapRegion {
    /// Fresh memory, which is zero.
    pub fn new(size: usize) -> (r: Self)
        ensures
            r.bytes@ == Seq::new(size as nat, |i: int| 0u8),
    {
        MmapRegion { bytes: zeroed(size) }
    }

    pub fn size(&self) -> (r: usize)
        ensures
            r == self.bytes@.len(),
    {
        self.bytes.len()
    }
}

/// Why regions do not make up guest memory.
#[derive(Clone, Copy, Debug, PartialEq, Eq, Structural)]
pub enum GuestRegionCollectionError {
    NoMemoryRegion,
    MemoryRegionOverlap,
    UnsortedMemoryRegions,
}

/// Why guest memory cannot be set up.
#[derive(Clone, Copy, Debug, PartialEq, Eq, Structural)]
pub enum FromRangesError {
    Collection(GuestRegionCollectionError),
    /// The host could not map memory; the number is its error code.
    MmapRegion(i32),
    InvalidGuestRegion,
}

/// Why an address in a region cannot be had.
#[derive(Clone, Copy, Debug, PartialEq, Eq, Structural)]
pub enum RegionAccessError {
    InvalidBackendAddress,
    OutOfBounds,
}

/// Mapped memory at a guest address.
#[derive(Debug)]
pub struct GuestRegionMmap {
    pub mapping: Arc<MmapRegion>,
    pub guest_base: GuestAddress,
}

impl GuestRegionMmap {
    /// The end of the region is an address.
    pub open spec fn wf(self) -> bool {
        self.guest_base.0 + self.mapping.bytes@.len() <= u64::MAX
    }

    /// Puts mapped memory at a guest address, if its end is an address.
    pub fn new(mapping: MmapRegion, guest_base: GuestAddress) -> (r: Option<Self>)
        ensures
            if guest_base.0 + mapping.bytes@.len() <= u64::MAX {
                r matches Some(region) && *region.mapping == mapping && region.guest_base == guest_base
                    && region.wf()
            } else {
                r is None
            },
    {
        Self::with_arc(Arc::new(mapping), guest_base)
    }

    /// Puts shared mapped memory at a guest address, if its end is an address.
    pub fn with_arc(mapping: Arc<MmapRegion>, guest_base: GuestAddress) -> (r: Option<Self>)
        ensures
            if guest_base.0 + mapping.bytes@.len() <= u64::MAX {
                r == Some(GuestRegionMmap { mapping, guest_base })
            } else {
                r is None
            },
    {
        match guest_base.0.checked_add(mapping.size() as u64) {
            Some(_) => Some(GuestRegionMmap { mapping, guest_base }),
            None => None,
        }
    }

    /// The mapped memory, shared.
    pub fn get_mmap(&self) -> (r: Arc<MmapRegion>)
        ensures
            r == self.mapping,
    {
        self.mapping.clone()
    }

    /// Puts at a guest address what mapping memory gave.
    pub fn from_range(addr: GuestAddress, mapping: Result<MmapRegion, i32>) -> (r: Result<
        Self,
        FromRangesError,
    >)
        ensures
            match pair_error((addr, mapping)) {
                Some(error) => r matches Err(e) && e == error,
                None => r matches Ok(region) && mapping == Ok::<MmapRegion, i32>(*region.mapping)
                    && region.guest_base == addr && region.wf(),
            },
    {
        let region = match mapping {
            Ok(region) => region,
            Err(code) => {
                return Err(FromRangesError::MmapRegion(code));
            },
        };
        match Self::new(region, addr) {
            Some(region) => Ok(region),
            None => Err(FromRangesError::InvalidGuestRegion),
        }
    }

    pub fn len(&self) -> (r: u64)
        ensures
            r == self.mapping.bytes@.len(),
    {
        self.mapping.size() as u64
    }

    pub fn start_addr(&self) -> (r: GuestAddress)
        ensures
            r == self.guest_base,
    {
        self.guest_base
    }

    /// The offset into the mapped memory of an address in the region.
    pub fn get_host_address(&self, addr: u64) -> (r: Result<usize, RegionAccessError>)
        ensures
            r == (if addr < self.mapping.bytes@.len() {
                Ok::<usize, RegionAccessError>(addr as usize)
            } else {
                Err(RegionAccessError::InvalidBackendAddress)
            }),
    {
        if addr < self.len() {
            Ok(addr as usize)
        } else {
            Err(RegionAccessError::InvalidBackendAddress)
        }
    }

    /// A part of the region.
    pub fn get_slice(&self, offset: u64, count: usize) -> (r: Result<&[u8], RegionAccessError>)
        ensures
            if offset + count <= self.mapping.bytes@.len() {
                r matches Ok(part) && part@ == self.mapping.bytes@.subrange(
                    offset as int,
                    offset + count,
                )
            } else {
                r == Err::<&[u8], RegionAccessError>(RegionAccessError::OutOfBounds)
            },
    {
        let total: usize = self.mapping.bytes.len();
        if count > total || offset > (total - count) as u64 {
            return Err(RegionAccessError::OutOfBounds);
        }
        let start: usize = offset as usize;
        Ok(&self.mapping.bytes.as_slice()[start..start + count])
    }
}

/// Guest memory made up of mapped regions.
#[derive(Debug)]
pub struct GuestMemoryMmap {
    pub regions: Vec<GuestRegionMmap>,
}

/// Where a region starts, and the address after it.
pub open spec fn span(r: GuestRegionMmap) -> (int, int) {
    (r.guest_base.0 as int, r.guest_base.0 + r.mapping.bytes@.len())
}

/// Where the regions are.
pub open spec fn spans(regions: Seq<GuestRegionMmap>) -> Seq<(int, int)> {
    Seq::new(regions.len(), |i: int| span(regions[i]))
}

/// Where the mapped ranges are.
pub open spec fn range_spans(ranges: Seq<(GuestAddress, Result<MmapRegion, i32>)>) -> Seq<(int, int)> {
    Seq::new(
        ranges.len(),
        |i: int|
            (ranges[i].0.0 as int, ranges[i].0.0 + ranges[i].1->Ok_0.bytes@.len()),
    )
}

/// What is wrong with spans from the second one of a pair at `i` on: out of
/// order, or overlapping.
pub open spec fn order_error(s: Seq<(int, int)>, i: int) -> Option<GuestRegionCollectionError>
    decreases s.len() - i,
{
    if i < 1 || i >= s.len() {
        None
    } else if s[i - 1].0 > s[i].0 {
        Some(GuestRegionCollectionError::UnsortedMemoryRegions)
    } else if s[i - 1].1 > s[i].0 {
        Some(GuestRegionCollectionError::MemoryRegionOverlap)
    } else {
        order_error(s, i + 1)
    }
}

/// What is wrong with spans as guest memory.
pub open spec fn collection_error(s: Seq<(int, int)>) -> Option<GuestRegionCollectionError> {
    if s.len() == 0 {
        Some(GuestRegionCollectionError::NoMemoryRegion)
    } else {
        order_error(s, 1)
    }
}

/// Why memory cannot be put at an address: the host did not map it, or its end
/// is no address.
pub open spec fn pair_error(pair: (GuestAddress, Result<MmapRegion, i32>)) -> Option<FromRangesError> {
    match pair.1 {
        Err(code) => Some(FromRangesError::MmapRegion(code)),
        Ok(m) => if pair.0.0 + m.bytes@.len() > u64::MAX {
            Some(FromRangesError::InvalidGuestRegion)
        } else {
            None
        },
    }
}

/// What is wrong with the first of the ranges from `i` on with which anything
/// is.
pub open spec fn range_error(ranges: Seq<(GuestAddress, Result<MmapRegion, i32>)>, i: int) -> Option<
    FromRangesError,
>
    decreases ranges.len() - i,
{
    if i < 0 || i >= ranges.len() {
        None
    } else if pair_error(ranges[i]) is Some {
        pair_error(ranges[i])
    } else {
        range_error(ranges, i + 1)
    }
}

/// The regions stand for the first ranges.
pub open spec fn stand_for(
    regions: Seq<GuestRegionMmap>,
    ranges: Seq<(GuestAddress, Result<MmapRegion, i32>)>,
) -> bool {
    &&& regions.len() <= ranges.len()
    &&& forall|i: int|
        0 <= i < regions.len() ==> {
            let r = #[trigger] regions[i];
            r.guest_base == ranges[i].0 && ranges[i].1 == Ok::<MmapRegion, i32>(*r.mapping) && r.wf()
        }
}

/// Where ranges of given sizes are.
pub open spec fn sized_spans(ranges: Seq<(GuestAddress, usize)>) -> Seq<(int, int)> {
    Seq::new(ranges.len(), |i: int| (ranges[i].0.0 as int, ranges[i].0.0 + ranges[i].1))
}

/// The end of every range is an address.
pub open spec fn all_end(ranges: Seq<(GuestAddress, usize)>) -> bool {
    forall|i: int| 0 <= i < ranges.len() ==> (#[trigger] ranges[i]).0.0 + ranges[i].1 <= u64::MAX
}

/// The ranges' addresses, each with what mapping memory for it gave.
pub open spec fn answered(
    ranges: Seq<(GuestAddress, usize)>,
    mapped: Seq<Result<MmapRegion, i32>>,
) -> Seq<(GuestAddress, Result<MmapRegion, i32>)> {
    Seq::new(ranges.len(), |i: int| (ranges[i].0, mapped[i]))
}

/// There is an answer for every range, and what was mapped is as large as was
/// asked for.
pub open spec fn answers_fit(
    ranges: Seq<(GuestAddress, usize)>,
    mapped: Seq<Result<MmapRegion, i32>>,
) -> bool {
    &&& mapped.len() == ranges.len()
    &&& forall|i: int|
        0 <= i < ranges.len() ==> ((#[trigger] mapped[i]) matches Ok(m) ==> m.bytes@.len()
            == ranges[i].1)
}

/// Setting up guest memory at the given addresses, from what mapping memory for
/// each gave.
pub open spec fn mapped_memory(
    ranges: Seq<(GuestAddress, Result<MmapRegion, i32>)>,
    r: Result<GuestMemoryMmap, FromRangesError>,
) -> bool {
    match range_error(ranges, 0) {
        Some(error) => r matches Err(e) && e == error,
        None => match collection_error(range_spans(ranges)) {
            Some(error) => r matches Err(e) && e == FromRangesError::Collection(error),
            None => r matches Ok(m) && m.wf() && m.regions@.len() == ranges.len() && stand_for(
                m.regions@,
                ranges,
            ),
        },
    }
}

/// Setting up guest memory at the given addresses and of the given sizes, from
/// what mapping memory for each gave.
pub open spec fn ranged_memory(
    ranges: Seq<(GuestAddress, usize)>,
    mapped: Seq<Result<MmapRegion, i32>>,
    r: Result<GuestMemoryMmap, FromRangesError>,
) -> bool {
    match range_error(answered(ranges, mapped), 0) {
        Some(error) => r matches Err(e) && e == error,
        None => match collection_error(sized_spans(ranges)) {
            Some(error) => r matches Err(e) && e == FromRangesError::Collection(error),
            None => r matches Ok(m) && m.wf() && m.regions@.len() == ranges.len() && forall|i: int|
                0 <= i < ranges.len() ==> {
                    let region = #[trigger] m.regions@[i];
                    region.guest_base == ranges[i].0 && mapped[i] == Ok::<MmapRegion, i32>(
                        *region.mapping,
                    )
                },
        },
    }
}

/// The same error, or the same mapped memory at the same addresses.
pub open spec fn same_outcome(
    a: Result<GuestMemoryMmap, FromRangesError>,
    b: Result<GuestMemoryMmap, FromRangesError>,
) -> bool {
    match (a, b) {
        (Err(e), Err(f)) => e == f,
        (Ok(x), Ok(y)) => x.regions@.len() == y.regions@.len() && forall|i: int|
            0 <= i < x.regions@.len() ==> {
                &&& (#[trigger] x.regions@[i]).guest_base == y.regions@[i].guest_base
                &&& *x.regions@[i].mapping == *y.regions@[i].mapping
            },
        _ => false,
    }
}

/// Setting up guest memory from addresses and sizes comes to the same as
/// setting it up from those addresses, where mapping gave the same for each.
pub proof fn law_ranges_are_mapped_without_files(
    ranges: Seq<(GuestAddress, usize)>,
    mapped: Seq<Result<MmapRegion, i32>>,
    a: Result<GuestMemoryMmap, FromRangesError>,
    b: Result<GuestMemoryMmap, FromRangesError>,
)
    requires
        answers_fit(ranges, mapped),
        ranged_memory(ranges, mapped, a),
        mapped_memory(answered(ranges, mapped), b),
    ensures
        same_outcome(a, b),
{
    lemma_answered_spans(ranges, mapped, 0);
    if let (Ok(x), Ok(y)) = (a, b) {
        assert forall|i: int| 0 <= i < x.regions@.len() implies {
            &&& (#[trigger] x.regions@[i]).guest_base == y.regions@[i].guest_base
            &&& *x.regions@[i].mapping == *y.regions@[i].mapping
        } by {
            assert(y.regions@[i].guest_base == ranges[i].0);
        }
    }
}

/// The first range that memory cannot be put at decides: its error is the
/// result, whatever comes after it, and no guest memory is built.
pub proof fn law_first_failing_range_decides(
    ranges: Seq<(GuestAddress, Result<MmapRegion, i32>)>,
    k: int,
    r: Result<GuestMemoryMmap, FromRangesError>,
)
    requires
        0 <= k < ranges.len(),
        forall|i: int| 0 <= i < k ==> pair_error(#[trigger] ranges[i]) is None,
        pair_error(ranges[k]) is Some,
        mapped_memory(ranges, r),
    ensures
        r matches Err(e) && Some(e) == pair_error(ranges[k]),
{
    lemma_first_error(ranges, k, 0);
}

proof fn lemma_first_error(ranges: Seq<(GuestAddress, Result<MmapRegion, i32>)>, k: int, i: int)
    requires
        0 <= i <= k < ranges.len(),
        forall|j: int| 0 <= j < k ==> pair_error(#[trigger] ranges[j]) is None,
        pair_error(ranges[k]) is Some,
    ensures
        range_error(ranges, i) == pair_error(ranges[k]),
    decreases k - i,
{
    if i < k {
        assert(pair_error(ranges[i]) is None);
        lemma_first_error(ranges, k, i + 1);
    }
}

/// Where the host maps everything, the addresses and the sizes alone decide
/// whether there is guest memory: every end must be an address, and the ranges
/// must be there, in order and apart.
pub proof fn law_sizes_decide(
    ranges: Seq<(GuestAddress, usize)>,
    mapped: Seq<Result<MmapRegion, i32>>,
    r: Result<GuestMemoryMmap, FromRangesError>,
)
    requires
        answers_fit(ranges, mapped),
        forall|i: int| 0 <= i < mapped.len() ==> (#[trigger] mapped[i]) is Ok,
        ranged_memory(ranges, mapped, r),
    ensures
        if !all_end(ranges) {
            r matches Err(e) && e == FromRangesError::InvalidGuestRegion
        } else {
            match collection_error(sized_spans(ranges)) {
                Some(error) => r matches Err(e) && e == FromRangesError::Collection(error),
                None => r is Ok,
            }
        },
{
    let pairs = answered(ranges, mapped);
    assert forall|k: int| 0 <= k < ranges.len() implies (#[trigger] pairs[k]).0 == ranges[k].0 && (
    pairs[k].1 matches Ok(m) && m.bytes@.len() == ranges[k].1) by {
        assert(mapped[k] is Ok);
    }
    lemma_granted_ranges(pairs, ranges, 0);
    assert(range_spans(pairs) =~= sized_spans(ranges));
}

impl GuestMemoryMmap {
    /// The regions are there, in order, and do not overlap.
    pub open spec fn wf(self) -> bool {
        &&& forall|i: int| 0 <= i < self.regions@.len() ==> (#[trigger] self.regions@[i]).wf()
        &&& collection_error(spans(self.regions@)) is None
    }

    /// Guest memory of the given regions: there must be one, and they must be in
    /// order and not overlap.
    pub fn from_regions(regions: Vec<GuestRegionMmap>) -> (r: Result<Self, GuestRegionCollectionError>)
        requires
            forall|i: int| 0 <= i < regions@.len() ==> (#[trigger] regions@[i]).wf(),
        ensures
            match collection_error(spans(regions@)) {
                Some(error) => r matches Err(e) && e == error,
                None => r matches Ok(m) && m.regions == regions && m.wf(),
            },
    {
        if regions.len() == 0 {
            return Err(GuestRegionCollectionError::NoMemoryRegion);
        }
        let mut i: usize = 1;
        while i < regions.len()
            invariant
                1 <= i <= regions@.len(),
                forall|k: int| 0 <= k < regions@.len() ==> (#[trigger] regions@[k]).wf(),
                order_error(spans(regions@), 1) == order_error(spans(regions@), i as int),
            decreases regions@.len() - i,
        {
            assert(regions@[i - 1].wf());
            let previous: u64 = regions[i - 1].start_addr().0;
            let end: u64 = previous + regions[i - 1].len();
            let start: u64 = regions[i].start_addr().0;
            if previous > start {
                return Err(GuestRegionCollectionError::UnsortedMemoryRegions);
            }
            if end > start {
                return Err(GuestRegionCollectionError::MemoryRegionOverlap);
            }
            i += 1;
        }
        Ok(GuestMemoryMmap { regions })
    }

    /// Guest memory at the given addresses and of the given sizes, from what
    /// mapping memory for each gave.
    pub fn from_ranges(
        ranges: &[(GuestAddress, usize)],
        mapped: Vec<Result<MmapRegion, i32>>,
    ) -> (r: Result<Self, FromRangesError>)
        requires
            answers_fit(ranges@, mapped@),
        ensures
            ranged_memory(ranges@, mapped@, r),
    {
        let ghost answers = mapped@;
        let ghost goal = answered(ranges@, mapped@);
        let mut rest = mapped;
        let mut pairs: Vec<(GuestAddress, Result<MmapRegion, i32>)> = Vec::new();
        let mut i: usize = 0;
        assert(answers.subrange(0, answers.len() as int) =~= answers);
        while i < ranges.len()
            invariant
                i <= ranges@.len(),
                answers == mapped@,
                answers.len() == ranges@.len(),
                goal == answered(ranges@, answers),
                rest@ == answers.subrange(i as int, answers.len() as int),
                pairs@ == goal.subrange(0, i as int),
            decreases ranges@.len() - i,
        {
            let (addr, _) = ranges[i];
            let mapping = rest.remove(0);
            pairs.push((addr, mapping));
            i += 1;
            assert(rest@ =~= answers.subrange(i as int, answers.len() as int));
            assert(pairs@ =~= goal.subrange(0, i as int));
        }
        assert(goal.subrange(0, i as int) =~= goal);
        proof {
            lemma_answered_spans(ranges@, answers, 0);
        }
        Self::from_ranges_with_files(pairs)
    }

    /// Guest memory at the given addresses, from what mapping memory for each
    /// gave.
    pub fn from_ranges_with_files(ranges: Vec<(GuestAddress, Result<MmapRegion, i32>)>) -> (r: Result<
        Self,
        FromRangesError,
    >)
        ensures
            mapped_memory(ranges@, r),
    {
        let ghost all = ranges@;
        let total: usize = ranges.len();
        let mut rest = ranges;
        let mut regions: Vec<GuestRegionMmap> = Vec::new();
        let mut i: usize = 0;
        assert(all.subrange(0, all.len() as int) =~= all);
        while i < total
            invariant
                i <= total,
                total == all.len(),
                all == ranges@,
                rest@ == all.subrange(i as int, total as int),
                regions@.len() == i,
                stand_for(regions@, all),
                range_error(all, 0) == range_error(all, i as int),
            decreases total - i,
        {
            let (addr, mapping) = rest.remove(0);
            assert(rest@ =~= all.subrange(i + 1, total as int));
            assert(all[i as int] == (addr, mapping));
            match GuestRegionMmap::from_range(addr, mapping) {
                Ok(region) => {
                    regions.push(region);
                },
                Err(e) => {
                    return Err(e);
                },
            }
            i += 1;
        }
        assert(spans(regions@) =~= range_spans(all));
        match Self::from_regions(regions) {
            Ok(m) => Ok(m),
            Err(e) => Err(FromRangesError::Collection(e)),
        }
    }
}

/// Fresh ranges fail only where one of them has no end.
proof fn lemma_answered_spans(
    ranges: Seq<(GuestAddress, usize)>,
    mapped: Seq<Result<MmapRegion, i32>>,
    i: int,
)
    requires
        0 <= i <= ranges.len(),
        answers_fit(ranges, mapped),
    ensures
        range_error(answered(ranges, mapped), i) is None ==> forall|k: int|
            i <= k < ranges.len() ==> (#[trigger] mapped[k]) is Ok,
        i == 0 && range_error(answered(ranges, mapped), 0) is None ==> range_spans(
            answered(ranges, mapped),
        ) == sized_spans(ranges),
    decreases ranges.len() - i,
{
    let pairs = answered(ranges, mapped);
    if i < ranges.len() {
        assert(pairs[i] == (ranges[i].0, mapped[i]));
        lemma_answered_spans(ranges, mapped, i + 1);
    }
    if i == 0 && range_error(pairs, 0) is None {
        assert forall|k: int| 0 <= k < ranges.len() implies mapped[k]->Ok_0.bytes@.len() == ranges[k].1 by {
            assert(mapped[k] is Ok);
        }
        assert(range_spans(pairs) =~= sized_spans(ranges));
    }
}

proof fn lemma_granted_ranges(
    mapped: Seq<(GuestAddress, Result<MmapRegion, i32>)>,
    ranges: Seq<(GuestAddress, usize)>,
    i: int,
)
    requires
        0 <= i <= ranges.len(),
        mapped.len() == ranges.len(),
        forall|k: int|
            0 <= k < ranges.len() ==> (#[trigger] mapped[k]).0 == ranges[k].0 && (mapped[k].1 matches Ok(m)
                && m.bytes@.len() == ranges[k].1),
    ensures
        (forall|k: int| i <= k < ranges.len() ==> (#[trigger] ranges[k]).0.0 + ranges[k].1 <= u64::MAX)
            ==> range_error(mapped, i) is None,
        !(forall|k: int| i <= k < ranges.len() ==> (#[trigger] ranges[k]).0.0 + ranges[k].1 <= u64::MAX)
            ==> range_error(mapped, i) == Some(FromRangesError::InvalidGuestRegion),
    decreases ranges.len() - i,
{
    if i < ranges.len() {
        assert(mapped[i].0 == ranges[i].0);
        lemma_granted_ranges(mapped, ranges, i + 1);
    }
}

proof fn lemma_ordered(s: Seq<(int, int)>, i: int, k: int)
    requires
        1 <= i <= k < s.len(),
        order_error(s, i) is None,
    ensures
        s[k - 1].1 <= s[k].0,
    decreases k - i,
{
    if i < k {
        lemma_ordered(s, i + 1, k);
    }
}

/// In guest memory that was accepted, a region ends before every later one
/// starts.
pub proof fn law_regions_are_apart(m: GuestMemoryMmap, i: int, j: int)
    requires
        m.wf(),
        0 <= i < j < m.regions@.len(),
    ensures
        span(m.regions@[i]).1 <= span(m.regions@[j]).0,
    decreases j - i,
{
    lemma_ordered(spans(m.regions@), 1, j);
    if i < j - 1 {
        law_regions_are_apart(m, i, j - 1);
    }
}

} // verus!
