//! The bus that port accesses are sent to.

use vstd::prelude::*;

verus! {

/// Why a device could not be put on the bus.
#[derive(Clone, Copy, Debug, PartialEq, Eq, Structural)]
pub enum BusError {
    /// The range is empty, ends beyond the address space, or meets that of
    /// another device.
    Overlap,
}

/// The addresses of a device.
#[derive(Clone, Copy, Debug, PartialEq, Eq, Structural)]
pub struct BusRange {
    pub base: u64,
    pub len: u64,
    /// Which device it is.
    pub device: u32,
}

impl BusRange {
    pub open spec fn has(self, addr: int) -> bool {
        self.base <= addr < self.base + self.len
    }

    /// No address belongs to both ranges.
    pub open spec fn apart(self, other: BusRange) -> bool {
        self.base + self.len <= other.base || other.base + other.len <= self.base
    }
}

/// A bus with devices at ranges of addresses.
#[derive(Debug)]
pub struct Bus {
    pub ranges: Vec<BusRange>,
}

impl Bus {
    /// The ranges are not empty and no two of them meet.
    pub open spec fn wf(self) -> bool {
        &&& forall|i: int|
            0 <= i < self.ranges@.len() ==> {
                let r = #[trigger] self.ranges@[i];
                r.len > 0 && r.base + r.len <= u64::MAX
            }
        &&& forall|i: int, j: int|
            0 <= i < j < self.ranges@.len() ==> (#[trigger] self.ranges@[i]).apart(
                #[trigger] self.ranges@[j],
            )
    }

    pub fn new() -> (r: Self)
        ensures
            r.wf(),
            r.ranges@.len() == 0,
    {
        Bus { ranges: Vec::new() }
    }

    /// Puts a device at a range of addresses, if the range is free.
    pub fn insert(&mut self, device: u32, base: u64, len: u64) -> (r: Result<(), BusError>)
        requires
            old(self).wf(),
        ensures
            final(self).wf(),
            ({
                let range = BusRange { base, len, device };
                let free = len > 0 && base + len <= u64::MAX && forall|i: int|
                    0 <= i < old(self).ranges@.len() ==> range.apart(
                        #[trigger] old(self).ranges@[i],
                    );
                if free {
                    r is Ok && final(self).ranges@ == old(self).ranges@.push(range)
                } else {
                    r == Err::<(), BusError>(BusError::Overlap) && final(self).ranges@ == old(
                        self,
                    ).ranges@
                }
            }),
    {
        let ghost range = BusRange { base, len, device };
        if len == 0 {
            return Err(BusError::Overlap);
        }
        let end: u64 = match base.checked_add(len) {
            Some(e) => e,
            None => {
                return Err(BusError::Overlap);
            },
        };
        let mut i: usize = 0;
        while i < self.ranges.len()
            invariant
                self.wf(),
                self.ranges@ == old(self).ranges@,
                i <= self.ranges@.len(),
                end == base + len,
                range == (BusRange { base, len, device }),
                forall|j: int| 0 <= j < i ==> range.apart(#[trigger] self.ranges@[j]),
            decreases self.ranges@.len() - i,
        {
            let other = self.ranges[i];
            assert(self.ranges@[i as int].len > 0);
            if !(end <= other.base || other.base + other.len <= base) {
                assert(!range.apart(old(self).ranges@[i as int]));
                return Err(BusError::Overlap);
            }
            i += 1;
        }
        self.ranges.push(BusRange { base, len, device });
        Ok(())
    }

    /// The device at an address, and how far the address lies from its start.
    pub fn find(&self, addr: u64) -> (r: Option<(u32, u64)>)
        requires
            self.wf(),
        ensures
            match r {
                Some((device, offset)) => exists|i: int|
                    0 <= i < self.ranges@.len() && (#[trigger] self.ranges@[i]).has(addr as int)
                        && device == self.ranges@[i].device && offset == addr - self.ranges@[i].base,
                None => forall|i: int|
                    0 <= i < self.ranges@.len() ==> !(#[trigger] self.ranges@[i]).has(addr as int),
            },
            forall|i: int|
                0 <= i < self.ranges@.len() && (#[trigger] self.ranges@[i]).base <= addr < self.ranges@[i].base
                    + self.ranges@[i].len ==> r == Some(
                    (self.ranges@[i].device, (addr - self.ranges@[i].base) as u64),
                ),
    {
        let mut i: usize = 0;
        while i < self.ranges.len()
            invariant
                self.wf(),
                i <= self.ranges@.len(),
                forall|j: int| 0 <= j < i ==> !(#[trigger] self.ranges@[j]).has(addr as int),
            decreases self.ranges@.len() - i,
        {
            let range = self.ranges[i];
            assert(self.ranges@[i as int].len > 0);
            if range.base <= addr && addr - range.base < range.len {
                proof {
                    let found = i as int;
                    assert(self.ranges@[found].has(addr as int));
                    assert forall|j: int|
                        0 <= j < self.ranges@.len() && (#[trigger] self.ranges@[j]).base <= addr
                            < self.ranges@[j].base + self.ranges@[j].len implies j == found by {
                        assert(self.ranges@[j].has(addr as int));
                        law_one_device_per_address(*self, addr as int, found, j);
                    }
                }
                return Some((range.device, addr - range.base));
            }
            i += 1;
        }
        None
    }
}

/// An address belongs to at most one device.
pub proof fn law_one_device_per_address(bus: Bus, addr: int, i: int, j: int)
    requires
        bus.wf(),
        0 <= i < bus.ranges@.len(),
        0 <= j < bus.ranges@.len(),
        bus.ranges@[i].has(addr),
        bus.ranges@[j].has(addr),
    ensures
        i == j,
{
    if i < j {
        assert(bus.ranges@[i].apart(bus.ranges@[j]));
    } else if j < i {
        assert(bus.ranges@[j].apart(bus.ranges@[i]));
    }
}

} // verus!
