//! Guest memory regions, permissions and the memory manager.

use vstd::prelude::*;

use crate::memory::debugger::{access_log_spec, access_log_text, push_range, range_text};
use crate::memory::object::GuestObject;
use crate::text::{dec_text, decimal, hex, hex_text};

verus! {

/// Bytes that the memory manager takes in the ACPI tables.
pub const MEMORY_MANAGER_ACPI_SIZE: usize = 0x18;

/// How many entries the access log keeps.
pub const ACCESS_LOG_LEN: usize = 1000;

/// Represents a guest physical address (GPA).
#[derive(Clone, Copy, Debug, PartialEq, Eq, PartialOrd, Ord, Structural)]
pub struct GuestAddress(pub u64);

impl Default for GuestAddress {
    fn default() -> (r: Self)
        ensures
            r.0 == 0,
    {
        GuestAddress(0)
    }
}

impl GuestAddress {
    pub fn new(addr: u64) -> (r: Self)
        ensures
            r.0 == addr,
    {
        GuestAddress(addr)
    }

    pub fn raw_value(&self) -> (r: u64)
        ensures
            r == self.0,
    {
        self.0
    }

    /// How far this address lies above `base`.
    pub fn checked_offset_from(&self, base: Self) -> (r: Option<u64>)
        ensures
            r == (if self.0 >= base.0 { Some((self.0 - base.0) as u64) } else { None }),
    {
        self.0.checked_sub(base.0)
    }

    pub fn checked_add(&self, other: u64) -> (r: Option<Self>)
        ensures
            r == (if self.0 + other <= u64::MAX {
                Some(GuestAddress((self.0 + other) as u64))
            } else {
                None
            }),
    {
        match self.0.checked_add(other) {
            Some(v) => Some(GuestAddress(v)),
            None => None,
        }
    }

    /// The sum modulo 2^64, and whether it wrapped.
    pub fn overflowing_add(&self, other: u64) -> (r: (Self, bool))
        ensures
            r.1 == (self.0 + other > u64::MAX),
            r.0.0 == (self.0 + other) % 0x1_0000_0000_0000_0000,
    {
        (GuestAddress(self.0.wrapping_add(other)), self.0.checked_add(other).is_none())
    }

    pub fn unchecked_add(&self, offset: u64) -> (r: Self)
        requires
            self.0 + offset <= u64::MAX,
        ensures
            r.0 == self.0 + offset,
    {
        GuestAddress(self.0 + offset)
    }

    pub fn checked_sub(&self, other: u64) -> (r: Option<Self>)
        ensures
            r == (if self.0 >= other { Some(GuestAddress((self.0 - other) as u64)) } else { None }),
    {
        match self.0.checked_sub(other) {
            Some(v) => Some(GuestAddress(v)),
            None => None,
        }
    }

    /// The difference modulo 2^64, and whether it wrapped.
    pub fn overflowing_sub(&self, other: u64) -> (r: (Self, bool))
        ensures
            r.1 == (self.0 < other),
            r.0.0 == (self.0 - other) % 0x1_0000_0000_0000_0000,
    {
        (GuestAddress(self.0.wrapping_sub(other)), self.0 < other)
    }

    pub fn unchecked_sub(&self, other: u64) -> (r: Self)
        requires
            self.0 >= other,
        ensures
            r.0 == self.0 - other,
    {
        GuestAddress(self.0 - other)
    }
}

/// A set of access permissions.
#[derive(Clone, Copy, Debug, PartialEq, Eq, Structural)]
pub struct MemoryPerms {
    pub read: bool,
    pub write: bool,
    pub execute: bool,
}

/// The name of a permission set, as diagnostics print it.
pub open spec fn perms_text(p: MemoryPerms) -> Seq<char> {
    match (p.read, p.write, p.execute) {
        (false, false, false) => "MemoryPerms(0x0)"@,
        (true, false, false) => "MemoryPerms(READ)"@,
        (false, true, false) => "MemoryPerms(WRITE)"@,
        (true, true, false) => "MemoryPerms(READ | WRITE)"@,
        (false, false, true) => "MemoryPerms(EXECUTE)"@,
        (true, false, true) => "MemoryPerms(READ | EXECUTE)"@,
        (false, true, true) => "MemoryPerms(WRITE | EXECUTE)"@,
        (true, true, true) => "MemoryPerms(READ | WRITE | EXECUTE)"@,
    }
}

impl MemoryPerms {
    pub fn new(read: bool, write: bool, execute: bool) -> (r: Self)
        ensures
            r == (MemoryPerms { read, write, execute }),
    {
        MemoryPerms { read, write, execute }
    }

    pub fn rw() -> (r: Self)
        ensures
            r == (MemoryPerms { read: true, write: true, execute: false }),
    {
        MemoryPerms::new(true, true, false)
    }

    pub fn rx() -> (r: Self)
        ensures
            r == (MemoryPerms { read: true, write: false, execute: true }),
    {
        MemoryPerms::new(true, false, true)
    }

    pub fn rwx() -> (r: Self)
        ensures
            r == (MemoryPerms { read: true, write: true, execute: true }),
    {
        MemoryPerms::new(true, true, true)
    }

    /// Whether every permission of `other` is in this set.
    pub fn contains(&self, other: Self) -> (r: bool)
        ensures
            r == ((other.read ==> self.read) && (other.write ==> self.write) && (other.execute
                ==> self.execute)),
    {
        (!other.read || self.read) && (!other.write || self.write) && (!other.execute || self.execute)
    }

    /// The permissions as a bit set.
    pub open spec fn bits_spec(self) -> u32 {
        ((if self.read { 1int } else { 0 }) + (if self.write { 2int } else { 0 }) + (if self.execute {
            4int
        } else {
            0
        })) as u32
    }

    /// The permissions as hypervisor mapping flags: read is bit 0, write is
    /// bit 1 and execute is bit 2.
    pub fn to_flags(&self) -> (r: u32)
        ensures
            r == self.bits_spec(),
    {
        let mut flags: u32 = 0;
        if self.read {
            flags = flags + 1;
        }
        if self.write {
            flags = flags + 2;
        }
        if self.execute {
            flags = flags + 4;
        }
        flags
    }

    /// The name of the permission set, as diagnostics print it.
    pub fn describe(&self) -> (r: &'static str)
        ensures
            r@ == perms_text(*self),
    {
        match (self.read, self.write, self.execute) {
            (false, false, false) => "MemoryPerms(0x0)",
            (true, false, false) => "MemoryPerms(READ)",
            (false, true, false) => "MemoryPerms(WRITE)",
            (true, true, false) => "MemoryPerms(READ | WRITE)",
            (false, false, true) => "MemoryPerms(EXECUTE)",
            (true, false, true) => "MemoryPerms(READ | EXECUTE)",
            (false, true, true) => "MemoryPerms(WRITE | EXECUTE)",
            (true, true, true) => "MemoryPerms(READ | WRITE | EXECUTE)",
        }
    }
}

/// Why an access to guest memory was refused.
#[derive(Clone, Copy, Debug, PartialEq, Eq, Structural)]
pub enum MemoryError {
    NotAllocated,
    WriteExceeds,
    ReadExceeds,
    ReadOnly,
    NotReadable,
    NoHostMemory,
}

impl MemoryError {
    pub open spec fn message_spec(self) -> Seq<char> {
        match self {
            MemoryError::NotAllocated => "Memory not allocated"@,
            MemoryError::WriteExceeds => "Code exceeds allocated memory"@,
            MemoryError::ReadExceeds => "Read exceeds allocated memory"@,
            MemoryError::ReadOnly => "Memory is read-only"@,
            MemoryError::NotReadable => "Memory is not readable"@,
            MemoryError::NoHostMemory => "Region has no host physical address"@,
        }
    }

    pub fn message(&self) -> (r: &'static str)
        ensures
            r@ == self.message_spec(),
    {
        match self {
            MemoryError::NotAllocated => "Memory not allocated",
            MemoryError::WriteExceeds => "Code exceeds allocated memory",
            MemoryError::ReadExceeds => "Read exceeds allocated memory",
            MemoryError::ReadOnly => "Memory is read-only",
            MemoryError::NotReadable => "Memory is not readable",
            MemoryError::NoHostMemory => "Region has no host physical address",
        }
    }
}

/// Why a window of a region cannot be had.
#[derive(Clone, Copy, Debug, PartialEq, Eq, Structural)]
pub enum GuestMemoryError {
    InvalidBackendAddress,
    HostAddressNotAvailable,
}

/// Where a region lies, who may access it, and whether host memory backs it.
pub struct RegionLayout {
    pub base: int,
    pub size: int,
    pub perms: MemoryPerms,
    pub mapped: bool,
}

impl RegionLayout {
    pub open spec fn last(self) -> int {
        self.base + self.size - 1
    }

    pub open spec fn has(self, gpa: int) -> bool {
        self.base <= gpa <= self.last()
    }
}

/// `s` with `data` written over it from `offset` on.
pub open spec fn spliced(s: Seq<u8>, offset: int, data: Seq<u8>) -> Seq<u8> {
    Seq::new(
        s.len(),
        |i: int| if offset <= i < offset + data.len() { data[i - offset] } else { s[i] },
    )
}

/// The first region at or after `i` that holds `gpa`.
pub open spec fn find_from(layout: Seq<RegionLayout>, gpa: int, i: int) -> Option<int>
    decreases layout.len() - i,
{
    if i < 0 || i >= layout.len() {
        None
    } else if layout[i].has(gpa) {
        Some(i)
    } else {
        find_from(layout, gpa, i + 1)
    }
}

/// The first region that holds `gpa`.
pub open spec fn find(layout: Seq<RegionLayout>, gpa: int) -> Option<int> {
    find_from(layout, gpa, 0)
}

/// The region found holds the address, and none before it does.
pub proof fn lemma_find_from(layout: Seq<RegionLayout>, gpa: int, i: int)
    requires
        0 <= i,
    ensures
        find_from(layout, gpa, i) matches Some(k) ==> i <= k < layout.len() && layout[k].has(gpa) && (
        forall|j: int| i <= j < k ==> !(#[trigger] layout[j]).has(gpa)),
        find_from(layout, gpa, i) is None ==> forall|j: int|
            i <= j < layout.len() ==> !(#[trigger] layout[j]).has(gpa),
    decreases layout.len() - i,
{
    if i < layout.len() && !layout[i].has(gpa) {
        lemma_find_from(layout, gpa, i + 1);
    }
}

/// The contents of guest memory: where the regions lie, and the bytes of each.
#[verifier::ext_equal]
pub struct Ram {
    pub layout: Seq<RegionLayout>,
    pub bytes: Seq<Seq<u8>>,
}

impl Ram {
    /// What reading `n` bytes at `gpa` gives. The last byte of a region cannot
    /// be reached.
    pub open spec fn read(self, gpa: int, n: int) -> Result<Seq<u8>, MemoryError> {
        match find(self.layout, gpa) {
            None => Err(MemoryError::NotAllocated),
            Some(k) => {
                let r = self.layout[k];
                if gpa + n > r.last() {
                    Err(MemoryError::ReadExceeds)
                } else if !r.perms.read {
                    Err(MemoryError::NotReadable)
                } else if !r.mapped {
                    Err(MemoryError::NoHostMemory)
                } else {
                    Ok(self.bytes[k].subrange(gpa - r.base, gpa - r.base + n))
                }
            },
        }
    }

    /// What memory holds after writing `data` at `gpa`. The last byte of a
    /// region cannot be reached.
    pub open spec fn write(self, gpa: int, data: Seq<u8>) -> Result<Ram, MemoryError> {
        match find(self.layout, gpa) {
            None => Err(MemoryError::NotAllocated),
            Some(k) => {
                let r = self.layout[k];
                if gpa + data.len() > r.last() {
                    Err(MemoryError::WriteExceeds)
                } else if !r.perms.write {
                    Err(MemoryError::ReadOnly)
                } else if !r.mapped {
                    Err(MemoryError::NoHostMemory)
                } else {
                    Ok(self.with(k, gpa - r.base, data))
                }
            },
        }
    }

    /// Memory with `data` written into region `k` from `offset` on.
    pub open spec fn with(self, k: int, offset: int, data: Seq<u8>) -> Ram {
        Ram {
            layout: self.layout,
            bytes: self.bytes.update(k, spliced(self.bytes[k], offset, data)),
        }
    }

    /// What an atomic load of `n` bytes at `gpa` gives. They must lie in one
    /// region.
    pub open spec fn load(self, gpa: int, n: int) -> Result<Seq<u8>, MemoryError> {
        match find(self.layout, gpa) {
            None => Err(MemoryError::NotAllocated),
            Some(k) => {
                let r = self.layout[k];
                if !r.perms.read {
                    Err(MemoryError::NotReadable)
                } else if !r.mapped {
                    Err(MemoryError::NoHostMemory)
                } else if gpa + n - 1 > r.last() {
                    Err(MemoryError::ReadExceeds)
                } else {
                    Ok(self.bytes[k].subrange(gpa - r.base, gpa - r.base + n))
                }
            },
        }
    }

    /// What memory holds after an atomic store of `data` at `gpa`. It must lie
    /// in one region.
    pub open spec fn store(self, gpa: int, data: Seq<u8>) -> Result<Ram, MemoryError> {
        match find(self.layout, gpa) {
            None => Err(MemoryError::NotAllocated),
            Some(k) => {
                let r = self.layout[k];
                if !r.perms.write {
                    Err(MemoryError::ReadOnly)
                } else if !r.mapped {
                    Err(MemoryError::NoHostMemory)
                } else if gpa + data.len() - 1 > r.last() {
                    Err(MemoryError::WriteExceeds)
                } else {
                    Ok(self.with(k, gpa - r.base, data))
                }
            },
        }
    }

    /// Each backed region has as many bytes as its layout says.
    pub open spec fn wf(self) -> bool {
        &&& self.bytes.len() == self.layout.len()
        &&& forall|i: int|
            0 <= i < self.layout.len() ==> {
                let r = #[trigger] self.layout[i];
                &&& r.size > 0
                &&& 0 <= r.base
                &&& r.base + r.size - 1 <= u64::MAX
                &&& r.mapped ==> self.bytes[i].len() == r.size
            }
    }
}

/// The end of the region that holds `gpa`, if one does, is an address.
pub open spec fn end_fits(layout: Seq<RegionLayout>, gpa: int) -> bool {
    find(layout, gpa) matches Some(k) ==> layout[k].last() < u64::MAX
}

/// Writing keeps the layout, and so the well-formedness.
pub proof fn law_write_keeps_layout(ram: Ram, gpa: int, data: Seq<u8>)
    requires
        ram.wf(),
    ensures
        ram.write(gpa, data) matches Ok(after) ==> after.layout == ram.layout && after.wf(),
        ram.store(gpa, data) matches Ok(after) ==> after.layout == ram.layout && after.wf(),
{
    lemma_find_from(ram.layout, gpa, 0);
}

/// Protection is enforced: where memory must not be written, neither a write
/// nor a store succeeds, and where it must not be read, neither a read nor a
/// load does.
pub proof fn law_protection_is_enforced(ram: Ram, gpa: int, data: Seq<u8>, n: int)
    ensures
        find(ram.layout, gpa) matches Some(k) && !ram.layout[k].perms.write ==> ram.write(gpa, data) is Err
            && ram.store(gpa, data) is Err,
        find(ram.layout, gpa) matches Some(k) && !ram.layout[k].perms.read ==> ram.read(gpa, n) is Err
            && ram.load(gpa, n) is Err,
        find(ram.layout, gpa) is None ==> ram.write(gpa, data) is Err && ram.store(gpa, data) is Err
            && ram.read(gpa, n) is Err && ram.load(gpa, n) is Err,
{
}

/// A read gives back what a write at the same place wrote, where the region
/// can be read.
pub proof fn law_read_after_write(ram: Ram, gpa: int, data: Seq<u8>)
    requires
        ram.wf(),
    ensures
        ram.write(gpa, data) matches Ok(after) ==> (find(ram.layout, gpa) matches Some(k)
            && ram.layout[k].perms.read ==> after.read(gpa, data.len() as int) == Ok::<
            Seq<u8>,
            MemoryError,
        >(data)),
{
    lemma_find_from(ram.layout, gpa, 0);
    if let Ok(after) = ram.write(gpa, data) {
        let k = find(ram.layout, gpa)->0;
        let off = gpa - ram.layout[k].base;
        assert(after.bytes[k].subrange(off, off + data.len()) =~= data);
    }
}

/// A load gives back what a store at the same place stored, where the region
/// can be read.
pub proof fn law_load_after_store(ram: Ram, gpa: int, data: Seq<u8>)
    requires
        ram.wf(),
    ensures
        ram.store(gpa, data) matches Ok(after) ==> (find(ram.layout, gpa) matches Some(k)
            && ram.layout[k].perms.read ==> after.load(gpa, data.len() as int) == Ok::<
            Seq<u8>,
            MemoryError,
        >(data)),
{
    lemma_find_from(ram.layout, gpa, 0);
    if let Ok(after) = ram.store(gpa, data) {
        let k = find(ram.layout, gpa)->0;
        let off = gpa - ram.layout[k].base;
        assert(after.bytes[k].subrange(off, off + data.len()) =~= data);
    }
}

/// A write leaves every byte outside the range that it covers unchanged: a
/// read of a range that does not meet it gives what it gave before.
pub proof fn law_read_elsewhere_after_write(ram: Ram, gpa: int, data: Seq<u8>, other: int, n: int)
    requires
        ram.wf(),
        n >= 0,
        other + n <= gpa || gpa + data.len() <= other,
    ensures
        ram.write(gpa, data) matches Ok(after) ==> after.read(other, n) == ram.read(other, n),
{
    lemma_find_from(ram.layout, gpa, 0);
    lemma_find_from(ram.layout, other, 0);
    if let Ok(after) = ram.write(gpa, data) {
        let k = find(ram.layout, gpa)->0;
        if let Some(j) = find(ram.layout, other) {
            if j == k && other + n <= ram.layout[j].last() {
                let off = other - ram.layout[j].base;
                assert(after.bytes[j].subrange(off, off + n) =~= ram.bytes[j].subrange(off, off + n));
            }
        }
    }
}

/// Represents a memory-mapped I/O region.
#[derive(Debug, Clone)]
pub struct MmioRegion {
    pub gpa: GuestAddress,
    pub size: u64,
    pub name: String,
    /// Name of the device that serves the region.
    pub handler: Option<String>,
}

impl MmioRegion {
    /// Whether `gpa` lies in the region.
    pub open spec fn has(self, gpa: int) -> bool {
        self.gpa.0 <= gpa < self.gpa.0 + self.size
    }

    pub open spec fn wf(self) -> bool {
        self.gpa.0 + self.size <= u64::MAX
    }
}

/// A region of guest memory and the host memory behind it.
#[derive(Debug)]
pub struct MemoryRegion {
    pub gpa: GuestAddress,
    pub size: u64,
    pub perms: MemoryPerms,
    pub hpa: Option<Vec<u8>>,
}

/// A window of a region's host memory.
#[derive(Clone, Copy, Debug, PartialEq, Eq, Structural)]
pub struct RegionSlice {
    pub offset: usize,
    pub len: usize,
}

impl MemoryRegion {
    pub open spec fn base(self) -> int {
        self.gpa.0 as int
    }

    pub open spec fn size_spec(self) -> int {
        self.size as int
    }

    pub open spec fn layout(self) -> RegionLayout {
        RegionLayout {
            base: self.base(),
            size: self.size_spec(),
            perms: self.perms,
            mapped: self.hpa is Some,
        }
    }

    /// The bytes of the region, none where no host memory backs it.
    pub open spec fn contents(self) -> Seq<u8> {
        match self.hpa {
            Some(v) => v@,
            None => Seq::empty(),
        }
    }

    pub open spec fn wf(self) -> bool {
        &&& self.size_spec() > 0
        &&& 0 <= self.base()
        &&& self.base() + self.size_spec() - 1 <= u64::MAX
        &&& self.hpa is Some ==> self.contents().len() == self.size_spec()
    }

    pub fn new(gpa: GuestAddress, size: u64, perms: MemoryPerms, hpa: Option<Vec<u8>>) -> (r: Self)
        ensures
            r.base() == gpa.0,
            r.size_spec() == size,
            r.perms == perms,
            r.hpa == hpa,
    {
        MemoryRegion { gpa, size, perms, hpa }
    }

    pub fn len(&self) -> (r: u64)
        ensures
            r == self.size_spec(),
    {
        self.size
    }

    pub fn start_addr(&self) -> (r: GuestAddress)
        ensures
            r.0 == self.base(),
    {
        self.gpa
    }

    /// The address of the last byte.
    pub fn last_addr(&self) -> (r: GuestAddress)
        requires
            self.size_spec() > 0,
            self.base() + self.size_spec() - 1 <= u64::MAX,
        ensures
            r.0 == self.layout().last(),
    {
        self.gpa.unchecked_add(self.size - 1)
    }

    /// The address itself, if it lies in the region.
    pub fn check_address(&self, addr: GuestAddress) -> (r: Option<GuestAddress>)
        requires
            addr.0 >= self.base() ==> self.size_spec() > 0 && self.base() + self.size_spec() - 1
                <= u64::MAX,
        ensures
            r == (if self.layout().has(addr.0 as int) { Some(addr) } else { None }),
    {
        if addr.0 >= self.start_addr().0 && addr.0 <= self.last_addr().0 {
            Some(addr)
        } else {
            None
        }
    }

    /// Returns the address plus the offset if it is in this region.
    pub fn checked_offset(&self, base: GuestAddress, offset: usize) -> (r: Option<GuestAddress>)
        requires
            self.size_spec() > 0,
            self.base() + self.size_spec() - 1 <= u64::MAX,
        ensures
            r == (if self.layout().has(base.0 + offset) {
                Some(GuestAddress((base.0 + offset) as u64))
            } else {
                None
            }),
    {
        match base.checked_add(offset as u64) {
            Some(addr) => self.check_address(addr),
            None => None,
        }
    }

    /// How far `gpa` lies from the start of the region's host memory.
    fn host_offset(&self, gpa: GuestAddress) -> (r: usize)
        requires
            self.wf(),
            self.layout().has(gpa.0 as int),
            self.hpa is Some,
        ensures
            r == gpa.0 - self.base(),
    {
        match &self.hpa {
            Some(bytes) => {
                let total: usize = bytes.len();
                assert(gpa.0 - self.base() < total);
                (gpa.raw_value() - self.gpa.0) as usize
            },
            None => 0,
        }
    }

    /// The window of `count` bytes from the offset `addr` on.
    pub fn get_slice(&self, addr: GuestAddress, count: usize) -> (r: Result<
        RegionSlice,
        GuestMemoryError,
    >)
        requires
            self.wf(),
        ensures
            r == self.slice_spec(addr.0 as int, count as int),
            r matches Ok(s) ==> s.offset == addr.0 && s.len == count,
    {
        let offset: u64 = addr.raw_value();
        match offset.checked_add(count as u64) {
            None => Err(GuestMemoryError::InvalidBackendAddress),
            Some(end) => {
                if end > self.len() {
                    return Err(GuestMemoryError::InvalidBackendAddress);
                }
                match &self.hpa {
                    None => Err(GuestMemoryError::HostAddressNotAvailable),
                    Some(bytes) => {
                        let total: usize = bytes.len();
                        assert(offset <= total);
                        Ok(RegionSlice { offset: offset as usize, len: count })
                    },
                }
            },
        }
    }

    /// The window of `count` bytes from `offset` on, if the region has it and
    /// host memory backs it.
    pub open spec fn slice_spec(self, offset: int, count: int) -> Result<RegionSlice, GuestMemoryError> {
        if offset + count > self.size_spec() {
            Err(GuestMemoryError::InvalidBackendAddress)
        } else if self.hpa is None {
            Err(GuestMemoryError::HostAddressNotAvailable)
        } else {
            Ok(RegionSlice { offset: offset as usize, len: count as usize })
        }
    }
}

/// A guest access that the hypervisor reported because memory did not allow it.
#[derive(Clone, Copy, Debug, PartialEq, Eq, Structural)]
pub struct MemoryAccessViolation {
    pub gpa: GuestAddress,
    pub action: MemoryPerms,
    pub access_size: u32,
    pub instruction_rip: u64,
}

impl MemoryAccessViolation {
    /// Decodes the access information of a memory-access exit: bit 0 is set
    /// for a write, bit 1 for an instruction fetch, bits 2 to 4 give the size.
    /// Neither bit set means a read.
    pub fn from_exit_context(access_info: u32, gpa: u64, rip: u64) -> (r: Self)
        ensures
            r.gpa.0 == gpa,
            r.instruction_rip == rip,
            r.access_size == (access_info >> 2) & 7,
            r.action == (MemoryPerms {
                read: access_info & 1 == 0 && access_info & 2 == 0,
                write: access_info & 1 != 0,
                execute: access_info & 2 != 0,
            }),
    {
        let is_write = (access_info & 0x1) != 0;
        let is_execute = (access_info & 0x2) != 0;
        MemoryAccessViolation {
            gpa: GuestAddress(gpa),
            action: MemoryPerms {
                read: !is_write && !is_execute,
                write: is_write,
                execute: is_execute,
            },
            access_size: (access_info >> 2) & 0x7,
            instruction_rip: rip,
        }
    }
}

/// The guest's memory map: RAM regions, MMIO regions and the access log.
#[derive(Debug)]
pub struct MemoryManager {
    pub regions: Vec<MemoryRegion>,
    pub mmio_regions: Vec<MmioRegion>,
    pub access_log: Vec<(u64, bool, u64)>,
    pub acpi_address: Option<GuestAddress>,
}

/// The layouts of a sequence of regions.
pub open spec fn layouts(regions: Seq<MemoryRegion>) -> Seq<RegionLayout> {
    Seq::new(regions.len(), |i: int| regions[i].layout())
}

/// The index of the first MMIO region at or after `i` that holds `gpa`.
pub open spec fn find_mmio_from(regions: Seq<MmioRegion>, gpa: int, i: int) -> Option<int>
    decreases regions.len() - i,
{
    if i < 0 || i >= regions.len() {
        None
    } else if regions[i].has(gpa) {
        Some(i)
    } else {
        find_mmio_from(regions, gpa, i + 1)
    }
}

/// The text that explains a memory access violation.
pub open spec fn violation_text(
    regions: Seq<MemoryRegion>,
    mmio: Seq<MmioRegion>,
    v: MemoryAccessViolation,
) -> Seq<char> {
    let head = "Memory Access Violation:\n  GPA: 0x"@ + hex_text(v.gpa.0 as nat, 16) + "\n  Type: "@
        + perms_text(v.action) + "\n  Size: "@ + dec_text(v.access_size as nat)
        + " bytes\n  RIP: 0x"@ + hex_text(v.instruction_rip as nat, 16) + "\n"@;
    match find(layouts(regions), v.gpa.0 as int) {
        Some(k) => head + "  Region: (0x"@ + hex_text(regions[k].base() as nat, 16) + " - 0x"@
            + hex_text((regions[k].base() + regions[k].size_spec()) as nat, 16)
            + ")\n  Protection: "@ + perms_text(regions[k].perms) + "\n"@ + (match (
            v.action.read,
            v.action.write,
            v.action.execute,
        ) {
            (true, false, false) => "  ❌ Read access violation!\n"@,
            (false, true, false) => "  ❌ Write access violation!\n"@,
            (false, false, true) => "  ❌ Execute access violation!\n"@,
            _ => ""@,
        }),
        None => match find_mmio_from(mmio, v.gpa.0 as int, 0) {
            Some(k) => head + "  MMIO Region: "@ + mmio[k].name@ + " (0x"@ + hex_text(
                mmio[k].gpa.0 as nat,
                16,
            ) + " - 0x"@ + hex_text((mmio[k].gpa.0 + mmio[k].size) as nat, 16) + ")\n"@,
            None => head + "  ❌ GPA not mapped to any region!\n"@,
        },
    }
}

/// The lines of the memory regions in a memory map.
pub open spec fn region_lines(regions: Seq<MemoryRegion>) -> Seq<char>
    decreases regions.len(),
{
    if regions.len() == 0 {
        Seq::empty()
    } else {
        let r = regions.last();
        region_lines(regions.drop_last()) + "GPA: "@ + range_text(r.gpa.0, r.size) + " - "@ + perms_text(
            r.perms,
        ) + "\n"@
    }
}

/// The lines of the device regions in a memory map.
pub open spec fn mmio_lines(regions: Seq<MmioRegion>) -> Seq<char>
    decreases regions.len(),
{
    if regions.len() == 0 {
        Seq::empty()
    } else {
        let r = regions.last();
        mmio_lines(regions.drop_last()) + "GPA: "@ + range_text(r.gpa.0, r.size) + " ("@ + r.name@ + ")\n"@
    }
}

/// A memory map as text.
pub open spec fn map_text(regions: Seq<MemoryRegion>, mmio: Seq<MmioRegion>) -> Seq<char> {
    "\n=== Memory Map ===\n"@ + region_lines(regions) + (if mmio.len() == 0 {
        Seq::<char>::empty()
    } else {
        "\n=== MMIO Regions ===\n"@ + mmio_lines(mmio)
    })
}

/// The last `n` elements of `s`, or all of them.
pub open spec fn last_n<T>(s: Seq<T>, n: int) -> Seq<T> {
    if s.len() > n {
        s.subrange(s.len() - n, s.len() as int)
    } else {
        s
    }
}

/// Copies `src` over `dst` from `offset` on.
pub fn copy_into(dst: &mut Vec<u8>, offset: usize, src: &[u8])
    requires
        offset + src@.len() <= old(dst)@.len(),
    ensures
        final(dst)@ == spliced(old(dst)@, offset as int, src@),
{
    let total: usize = dst.len();
    let mut i: usize = 0;
    while i < src.len()
        invariant
            i <= src@.len(),
            total == old(dst)@.len(),
            offset + src@.len() <= total,
            dst@ == spliced(old(dst)@, offset as int, src@.subrange(0, i as int)),
        decreases src@.len() - i,
    {
        dst[offset + i] = src[i];
        i += 1;
        assert(dst@ =~= spliced(old(dst)@, offset as int, src@.subrange(0, i as int)));
    }
    assert(src@.subrange(0, src@.len() as int) =~= src@);
}

/// The `n` bytes of `src` from `offset` on.
pub fn copy_out(src: &Vec<u8>, offset: usize, n: usize) -> (r: Vec<u8>)
    requires
        offset + n <= src@.len(),
    ensures
        r@ == src@.subrange(offset as int, offset + n),
{
    let total: usize = src.len();
    let mut r: Vec<u8> = Vec::new();
    let mut i: usize = 0;
    while i < n
        invariant
            i <= n,
            total == src@.len(),
            offset + n <= total,
            r@ == src@.subrange(offset as int, offset + i),
        decreases n - i,
    {
        r.push(src[offset + i]);
        i += 1;
        assert(r@ =~= src@.subrange(offset as int, offset + i));
    }
    r
}

impl Default for MemoryManager {
    fn default() -> (r: Self)
        ensures
            r.wf(),
            r.regions@.len() == 0,
            r.mmio_regions@.len() == 0,
            r.log().len() == 0,
            r.acpi_address is None,
    {
        MemoryManager::new()
    }
}

impl MemoryManager {
    /// What guest memory holds.
    pub open spec fn ram(self) -> Ram {
        Ram {
            layout: layouts(self.regions@),
            bytes: Seq::new(self.regions@.len(), |i: int| self.regions@[i].contents()),
        }
    }

    /// The recorded accesses, oldest first.
    pub open spec fn log(self) -> Seq<(u64, bool, u64)> {
        self.access_log@
    }

    pub open spec fn wf(self) -> bool {
        &&& forall|i: int| 0 <= i < self.regions@.len() ==> (#[trigger] self.regions@[i]).wf()
        &&& forall|i: int| 0 <= i < self.mmio_regions@.len() ==> (#[trigger] self.mmio_regions@[i]).wf()
        &&& self.log().len() <= ACCESS_LOG_LEN
    }

    /// Everything but the bytes of guest memory is the same.
    pub open spec fn same_but_bytes(self, other: Self) -> bool {
        &&& self.ram().layout == other.ram().layout
        &&& self.mmio_regions == other.mmio_regions
        &&& self.log() == other.log()
        &&& self.acpi_address == other.acpi_address
    }

    pub proof fn lemma_ram_wf(self)
        requires
            self.wf(),
        ensures
            self.ram().wf(),
    {
        assert forall|i: int| 0 <= i < self.regions@.len() implies {
            let r = #[trigger] self.ram().layout[i];
            &&& r.size > 0
            &&& 0 <= r.base
            &&& r.base + r.size - 1 <= u64::MAX
            &&& r.mapped ==> self.ram().bytes[i].len() == r.size
        } by {
            assert(self.regions@[i].wf());
        }
    }

    pub fn new() -> (r: Self)
        ensures
            r.wf(),
            r.regions@.len() == 0,
            r.mmio_regions@.len() == 0,
            r.log().len() == 0,
            r.acpi_address is None,
    {
        MemoryManager {
            regions: Vec::new(),
            mmio_regions: Vec::new(),
            access_log: Vec::new(),
            acpi_address: None,
        }
    }

    pub fn get_regions(&self) -> (r: &Vec<MemoryRegion>)
        ensures
            *r == self.regions,
    {
        &self.regions
    }

    pub fn get_mmio_regions(&self) -> (r: &Vec<MmioRegion>)
        ensures
            *r == self.mmio_regions,
    {
        &self.mmio_regions
    }

    /// Adds a RAM region.
    pub fn register_region(&mut self, region: MemoryRegion)
        ensures
            final(self).regions@ == old(self).regions@.push(region),
            final(self).mmio_regions == old(self).mmio_regions,
            final(self).log() == old(self).log(),
            final(self).acpi_address == old(self).acpi_address,
            old(self).wf() && region.wf() ==> final(self).wf(),
    {
        self.regions.push(region);
    }

    /// Adds an MMIO region.
    pub fn register_mmio(&mut self, mmio: MmioRegion)
        ensures
            final(self).mmio_regions@ == old(self).mmio_regions@.push(mmio),
            final(self).regions == old(self).regions,
            final(self).log() == old(self).log(),
            final(self).acpi_address == old(self).acpi_address,
            old(self).wf() && mmio.wf() ==> final(self).wf(),
    {
        self.mmio_regions.push(mmio);
    }

    /// Records an access. Only the latest accesses are kept; each is numbered
    /// by the length of the log when it was made.
    pub fn log_access(&mut self, gpa: u64, is_write: bool)
        requires
            old(self).wf(),
        ensures
            final(self).wf(),
            final(self).log() == last_n(
                old(self).log().push((gpa, is_write, old(self).log().len() as u64)),
                ACCESS_LOG_LEN as int,
            ),
            final(self).regions == old(self).regions,
            final(self).mmio_regions == old(self).mmio_regions,
            final(self).acpi_address == old(self).acpi_address,
    {
        let count: u64 = self.access_log.len() as u64;
        self.access_log.push((gpa, is_write, count));
        let ghost pushed = self.access_log@;
        if self.access_log.len() > ACCESS_LOG_LEN {
            self.access_log.remove(0);
            assert(self.access_log@ =~= pushed.subrange(1, pushed.len() as int));
        }
    }

    /// Whether RAM lies at `addr`.
    pub fn address_in_range(&self, addr: GuestAddress) -> (r: bool)
        requires
            self.wf(),
        ensures
            r == (find(self.ram().layout, addr.0 as int) is Some),
    {
        self.find_region_index(addr).is_some()
    }

    /// The index of the first region that holds `gpa`.
    pub fn find_region_index(&self, gpa: GuestAddress) -> (r: Option<usize>)
        requires
            self.wf(),
        ensures
            match r {
                Some(k) => find(self.ram().layout, gpa.0 as int) == Some(k as int) && k
                    < self.regions@.len() && self.regions@[k as int].layout().has(gpa.0 as int),
                None => find(self.ram().layout, gpa.0 as int) is None,
            },
    {
        let ghost layout = self.ram().layout;
        let mut i: usize = 0;
        while i < self.regions.len()
            invariant
                self.wf(),
                i <= self.regions@.len(),
                layout == self.ram().layout,
                find(layout, gpa.0 as int) == find_from(layout, gpa.0 as int, i as int),
            decreases self.regions@.len() - i,
        {
            assert(self.regions@[i as int].wf());
            if gpa.0 >= self.regions[i].start_addr().0 && gpa.0 <= self.regions[i].last_addr().0 {
                return Some(i);
            }
            i += 1;
        }
        None
    }

    /// Finds which region contains a GPA.
    pub fn find_region(&self, gpa: GuestAddress) -> (r: Option<&MemoryRegion>)
        requires
            self.wf(),
        ensures
            match r {
                Some(region) => find(self.ram().layout, gpa.0 as int) matches Some(k)
                    && region == self.regions@[k],
                None => find(self.ram().layout, gpa.0 as int) is None,
            },
    {
        match self.find_region_index(gpa) {
            Some(k) => Some(&self.regions[k]),
            None => None,
        }
    }

    /// Finds the MMIO region for a GPA.
    pub fn find_mmio(&self, gpa: u64) -> (r: Option<&MmioRegion>)
        requires
            self.wf(),
        ensures
            match r {
                Some(region) => find_mmio_from(self.mmio_regions@, gpa as int, 0) matches Some(k)
                    && 0 <= k < self.mmio_regions@.len() && region == self.mmio_regions@[k]
                    && region.has(gpa as int),
                None => find_mmio_from(self.mmio_regions@, gpa as int, 0) is None,
            },
    {
        let ghost regions = self.mmio_regions@;
        let mut i: usize = 0;
        while i < self.mmio_regions.len()
            invariant
                self.wf(),
                regions == self.mmio_regions@,
                i <= regions.len(),
                find_mmio_from(regions, gpa as int, 0) == find_mmio_from(regions, gpa as int, i as int),
            decreases regions.len() - i,
        {
            assert(self.mmio_regions@[i as int].wf());
            let r = &self.mmio_regions[i];
            if gpa >= r.gpa.0 && gpa < r.gpa.0 + r.size {
                return Some(r);
            }
            i += 1;
        }
        None
    }

    /// The memory map as text.
    pub fn print_memory_map(&self) -> (r: String)
        requires
            self.wf(),
            forall|i: int|
                0 <= i < self.regions@.len() ==> (#[trigger] self.regions@[i]).base()
                    + self.regions@[i].size_spec() <= u64::MAX,
        ensures
            r@ == map_text(self.regions@, self.mmio_regions@),
    {
        let mut text = "\n=== Memory Map ===\n".to_owned();
        let ghost head = text@;
        let mut i: usize = 0;
        assert(self.regions@.subrange(0, 0) =~= Seq::<MemoryRegion>::empty());
        assert(text@ =~= head + region_lines(self.regions@.subrange(0, 0)));
        while i < self.regions.len()
            invariant
                forall|i: int|
                    0 <= i < self.regions@.len() ==> (#[trigger] self.regions@[i]).base()
                        + self.regions@[i].size_spec() <= u64::MAX,
                i <= self.regions@.len(),
                text@ == head + region_lines(self.regions@.subrange(0, i as int)),
            decreases self.regions@.len() - i,
        {
            let region = &self.regions[i];
            let ghost shown = self.regions@.subrange(0, i + 1);
            assert(self.regions@[i as int].base() + self.regions@[i as int].size_spec() <= u64::MAX);
            text.append("GPA: ");
            push_range(&mut text, region.gpa.0, region.size);
            text.append(" - ");
            text.append(region.perms.describe());
            text.append("\n");
            proof {
                assert(shown.drop_last() =~= self.regions@.subrange(0, i as int));
                assert(shown.last() == self.regions@[i as int]);
                assert(text@ =~= head + region_lines(shown));
            }
            i += 1;
        }
        assert(self.regions@.subrange(0, i as int) =~= self.regions@);
        if self.mmio_regions.len() > 0 {
            text.append("\n=== MMIO Regions ===\n");
            let ghost upper = text@;
            i = 0;
            assert(self.mmio_regions@.subrange(0, 0) =~= Seq::<MmioRegion>::empty());
            assert(text@ =~= upper + mmio_lines(self.mmio_regions@.subrange(0, 0)));
            while i < self.mmio_regions.len()
                invariant
                    self.wf(),
                    i <= self.mmio_regions@.len(),
                    text@ == upper + mmio_lines(self.mmio_regions@.subrange(0, i as int)),
                decreases self.mmio_regions@.len() - i,
            {
                let region = &self.mmio_regions[i];
                let ghost shown = self.mmio_regions@.subrange(0, i + 1);
                assert(self.mmio_regions@[i as int].wf());
                text.append("GPA: ");
                push_range(&mut text, region.gpa.0, region.size);
                text.append(" (");
                text.append(region.name.as_str());
                text.append(")\n");
                proof {
                    assert(shown.drop_last() =~= self.mmio_regions@.subrange(0, i as int));
                    assert(shown.last() == self.mmio_regions@[i as int]);
                    assert(text@ =~= upper + mmio_lines(shown));
                }
                i += 1;
            }
            assert(self.mmio_regions@.subrange(0, i as int) =~= self.mmio_regions@);
        }
        assert(text@ =~= map_text(self.regions@, self.mmio_regions@));
        text
    }

    /// The last `count` accesses as text.
    pub fn print_access_log(&self, count: usize) -> (r: String)
        ensures
            r@ == access_log_spec(self.log(), count),
    {
        access_log_text(&self.access_log, count)
    }

    /// Explains a memory access violation.
    pub fn analyze_violation(&self, violation: &MemoryAccessViolation) -> (r: String)
        requires
            self.wf(),
            end_fits(self.ram().layout, violation.gpa.0 as int),
        ensures
            r@ == violation_text(self.regions@, self.mmio_regions@, *violation),
    {
        let mut text = String::new();
        text.append("Memory Access Violation:\n  GPA: 0x");
        text.append(hex(violation.gpa.0, 16).as_str());
        text.append("\n  Type: ");
        text.append(violation.action.describe());
        text.append("\n  Size: ");
        text.append(decimal(violation.access_size as u64).as_str());
        text.append(" bytes\n  RIP: 0x");
        text.append(hex(violation.instruction_rip, 16).as_str());
        text.append("\n");
        let ghost v = *violation;
        let ghost head = "Memory Access Violation:\n  GPA: 0x"@ + hex_text(v.gpa.0 as nat, 16)
            + "\n  Type: "@ + perms_text(v.action) + "\n  Size: "@ + dec_text(v.access_size as nat)
            + " bytes\n  RIP: 0x"@ + hex_text(v.instruction_rip as nat, 16) + "\n"@;
        assert(text@ =~= head);
        if let Some(region) = self.find_region(violation.gpa) {
            proof {
                lemma_find_from(self.ram().layout, violation.gpa.0 as int, 0);
            }
            assert(region.layout() == self.ram().layout[find(
                self.ram().layout,
                violation.gpa.0 as int,
            )->0]);
            text.append("  Region: (0x");
            text.append(hex(region.gpa.0, 16).as_str());
            text.append(" - 0x");
            text.append(hex(region.gpa.0 + region.size, 16).as_str());
            text.append(")\n  Protection: ");
            text.append(region.perms.describe());
            text.append("\n");
            let ghost before = text@;
            match (violation.action.read, violation.action.write, violation.action.execute) {
                (true, false, false) => text.append("  ❌ Read access violation!\n"),
                (false, true, false) => text.append("  ❌ Write access violation!\n"),
                (false, false, true) => text.append("  ❌ Execute access violation!\n"),
                _ => {
                    proof {
                        reveal_strlit("");
                        assert(before + ""@ =~= before);
                    }
                },
            }
        } else if let Some(mmio) = self.find_mmio(violation.gpa.0) {
            text.append("  MMIO Region: ");
            text.append(mmio.name.as_str());
            text.append(" (0x");
            text.append(hex(mmio.gpa.0, 16).as_str());
            text.append(" - 0x");
            text.append(hex(mmio.gpa.0 + mmio.size, 16).as_str());
            text.append(")\n");
        } else {
            text.append("  ❌ GPA not mapped to any region!\n");
        }
        text
    }

    /// Writes `data` into region `k` from `offset` on.
    pub fn write_slice(&mut self, k: usize, offset: usize, data: &[u8])
        requires
            old(self).wf(),
            k < old(self).regions@.len(),
            old(self).regions@[k as int].hpa is Some,
            offset + data@.len() <= old(self).regions@[k as int].size_spec(),
        ensures
            final(self).wf(),
            final(self).same_but_bytes(*old(self)),
            final(self).ram() == old(self).ram().with(k as int, offset as int, data@),
    {
        let ghost before = *self;
        assert(self.regions@[k as int].wf());
        if let Some(bytes) = &mut self.regions[k].hpa {
            copy_into(bytes, offset, data);
        }
        proof {
            assert forall|i: int| 0 <= i < self.regions@.len() implies (
            #[trigger] self.regions@[i]).wf() by {
                assert(before.regions@[i].wf());
            }
            assert(self.ram().layout =~= before.ram().layout);
            assert(self.ram().bytes =~= before.ram().with(k as int, offset as int, data@).bytes);
        }
    }

    /// The `n` bytes of region `k` from `offset` on.
    pub fn read_slice(&self, k: usize, offset: usize, n: usize) -> (r: Vec<u8>)
        requires
            self.wf(),
            k < self.regions@.len(),
            self.regions@[k as int].hpa is Some,
            offset + n <= self.regions@[k as int].size_spec(),
        ensures
            r@ == self.ram().bytes[k as int].subrange(offset as int, offset + n),
    {
        assert(self.regions@[k as int].wf());
        match &self.regions[k].hpa {
            Some(bytes) => copy_out(bytes, offset, n),
            None => Vec::new(),
        }
    }

    /// Writes bytes to guest memory.
    pub fn write_guest_memory(&mut self, code: &[u8], gpa: GuestAddress) -> (r: Result<(), MemoryError>)
        requires
            old(self).wf(),
        ensures
            final(self).wf(),
            final(self).same_but_bytes(*old(self)),
            match old(self).ram().write(gpa.0 as int, code@) {
                Ok(after) => r is Ok && final(self).ram() == after,
                Err(e) => r == Err::<(), MemoryError>(e) && final(self).ram() == old(self).ram(),
            },
    {
        let k: usize = match self.find_region_index(gpa) {
            Some(k) => k,
            None => {
                return Err(MemoryError::NotAllocated);
            },
        };
        assert(self.regions@[k as int].wf());
        let region = &self.regions[k];
        if code.len() as u64 > region.last_addr().0 - gpa.0 {
            return Err(MemoryError::WriteExceeds);
        }
        if !region.perms.write {
            return Err(MemoryError::ReadOnly);
        }
        if region.hpa.is_none() {
            return Err(MemoryError::NoHostMemory);
        }
        let offset: usize = region.host_offset(gpa);
        self.write_slice(k, offset, code);
        Ok(())
    }

    /// Reads guest memory as raw bytes.
    pub fn read_guest_memory(&self, gpa: GuestAddress, size: usize) -> (r: Result<
        Vec<u8>,
        MemoryError,
    >)
        requires
            self.wf(),
        ensures
            match self.ram().read(gpa.0 as int, size as int) {
                Ok(bytes) => r matches Ok(v) && v@ == bytes,
                Err(e) => r matches Err(f) && f == e,
            },
    {
        let k: usize = match self.find_region_index(gpa) {
            Some(k) => k,
            None => {
                return Err(MemoryError::NotAllocated);
            },
        };
        assert(self.regions@[k as int].wf());
        let region = &self.regions[k];
        if size as u64 > region.last_addr().0 - gpa.0 {
            return Err(MemoryError::ReadExceeds);
        }
        if !region.perms.read {
            return Err(MemoryError::NotReadable);
        }
        match &region.hpa {
            None => Err(MemoryError::NoHostMemory),
            Some(bytes) => {
                let offset: usize = region.host_offset(gpa);
                Ok(copy_out(bytes, offset, size))
            },
        }
    }

    /// Reads a typed object from guest memory.
    pub fn read_obj<T: GuestObject>(&self, gpa: GuestAddress) -> (r: Result<T, MemoryError>)
        requires
            self.wf(),
        ensures
            match self.ram().read(gpa.0 as int, T::size() as int) {
                Ok(bytes) => r == Ok::<T, MemoryError>(T::decode(bytes)),
                Err(e) => r == Err::<T, MemoryError>(e),
            },
    {
        let size: usize = T::byte_len();
        match self.read_guest_memory(gpa, size) {
            Ok(bytes) => {
                proof {
                    self.lemma_ram_wf();
                    lemma_find_from(self.ram().layout, gpa.0 as int, 0);
                }
                Ok(T::from_bytes(bytes.as_slice()))
            },
            Err(e) => Err(e),
        }
    }

    /// Writes a typed object to guest memory.
    pub fn write_obj<T: GuestObject>(&mut self, obj: T, gpa: GuestAddress) -> (r: Result<
        (),
        MemoryError,
    >)
        requires
            old(self).wf(),
        ensures
            final(self).wf(),
            final(self).same_but_bytes(*old(self)),
            match old(self).ram().write(gpa.0 as int, obj.encode()) {
                Ok(after) => r is Ok && final(self).ram() == after,
                Err(e) => r == Err::<(), MemoryError>(e) && final(self).ram() == old(self).ram(),
            },
    {
        let bytes = obj.to_bytes();
        self.write_guest_memory(bytes.as_slice(), gpa)
    }

    /// Stores a value at the specified guest address in one step.
    pub fn store<T: GuestObject>(&mut self, val: T, addr: GuestAddress) -> (r: Result<(), MemoryError>)
        requires
            old(self).wf(),
        ensures
            final(self).wf(),
            final(self).same_but_bytes(*old(self)),
            match old(self).ram().store(addr.0 as int, val.encode()) {
                Ok(after) => r is Ok && final(self).ram() == after,
                Err(e) => r == Err::<(), MemoryError>(e) && final(self).ram() == old(self).ram(),
            },
    {
        let k: usize = match self.find_region_index(addr) {
            Some(k) => k,
            None => {
                return Err(MemoryError::NotAllocated);
            },
        };
        assert(self.regions@[k as int].wf());
        let region = &self.regions[k];
        if !region.perms.write {
            return Err(MemoryError::ReadOnly);
        }
        if region.hpa.is_none() {
            return Err(MemoryError::NoHostMemory);
        }
        let bytes = val.to_bytes();
        if bytes.len() > 0 && bytes.len() as u64 - 1 > region.last_addr().0 - addr.0 {
            return Err(MemoryError::WriteExceeds);
        }
        let offset: usize = region.host_offset(addr);
        self.write_slice(k, offset, bytes.as_slice());
        Ok(())
    }

    /// Loads a value from the specified guest address in one step.
    pub fn load<T: GuestObject>(&self, addr: GuestAddress) -> (r: Result<T, MemoryError>)
        requires
            self.wf(),
        ensures
            match self.ram().load(addr.0 as int, T::size() as int) {
                Ok(bytes) => r == Ok::<T, MemoryError>(T::decode(bytes)),
                Err(e) => r == Err::<T, MemoryError>(e),
            },
    {
        let k: usize = match self.find_region_index(addr) {
            Some(k) => k,
            None => {
                return Err(MemoryError::NotAllocated);
            },
        };
        assert(self.regions@[k as int].wf());
        let region = &self.regions[k];
        if !region.perms.read {
            return Err(MemoryError::NotReadable);
        }
        match &region.hpa {
            None => Err(MemoryError::NoHostMemory),
            Some(bytes) => {
                let size: usize = T::byte_len();
                if size > 0 && size as u64 - 1 > region.last_addr().0 - addr.0 {
                    return Err(MemoryError::ReadExceeds);
                }
                let offset: usize = region.host_offset(addr);
                let value = copy_out(bytes, offset, size);
                Ok(T::from_bytes(value.as_slice()))
            },
        }
    }
}

} // verus!
