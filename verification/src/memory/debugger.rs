//! A map of guest memory that explains accesses.

use vstd::prelude::*;

use crate::memory::memory::last_n;
use crate::text::{dec_text, decimal, hex, hex_text};

verus! {

/// How many accesses the log keeps.
pub const ACCESS_LOG_LEN: usize = 1000;

/// What the guest may do with a range of memory.
#[derive(Clone, Copy, Debug, PartialEq, Eq, Structural)]
pub enum MemoryProtection {
    ReadWriteExecute,
    ReadWrite,
    ReadExecute,
    ReadOnly,
    ExecuteOnly,
}

impl MemoryProtection {
    pub open spec fn readable(self) -> bool {
        !(self is ExecuteOnly)
    }

    pub open spec fn writable(self) -> bool {
        self is ReadWriteExecute || self is ReadWrite
    }

    pub open spec fn executable(self) -> bool {
        self is ReadWriteExecute || self is ReadExecute || self is ExecuteOnly
    }

    /// The protection as hypervisor mapping flags: read is bit 0, write is bit
    /// 1 and execute is bit 2.
    pub fn to_flags(&self) -> (r: u32)
        ensures
            r == (if self.readable() {
                1int
            } else {
                0
            }) + (if self.writable() {
                2int
            } else {
                0
            }) + (if self.executable() {
                4int
            } else {
                0
            }),
    {
        match self {
            MemoryProtection::ReadWriteExecute => 7,
            MemoryProtection::ReadWrite => 3,
            MemoryProtection::ReadExecute => 5,
            MemoryProtection::ReadOnly => 1,
            MemoryProtection::ExecuteOnly => 4,
        }
    }

    pub open spec fn name_spec(self) -> Seq<char> {
        match self {
            MemoryProtection::ReadWriteExecute => "ReadWriteExecute"@,
            MemoryProtection::ReadWrite => "ReadWrite"@,
            MemoryProtection::ReadExecute => "ReadExecute"@,
            MemoryProtection::ReadOnly => "ReadOnly"@,
            MemoryProtection::ExecuteOnly => "ExecuteOnly"@,
        }
    }

    /// The name of the protection.
    pub fn name(&self) -> (r: &'static str)
        ensures
            r@ == self.name_spec(),
    {
        match self {
            MemoryProtection::ReadWriteExecute => "ReadWriteExecute",
            MemoryProtection::ReadWrite => "ReadWrite",
            MemoryProtection::ReadExecute => "ReadExecute",
            MemoryProtection::ReadOnly => "ReadOnly",
            MemoryProtection::ExecuteOnly => "ExecuteOnly",
        }
    }
}

/// A device region.
#[derive(Debug)]
pub struct MmioRegion {
    pub gpa: u64,
    pub size: u64,
    pub name: String,
    /// Name of the device that serves the region.
    pub handler: Option<String>,
}

/// A memory region.
#[derive(Debug)]
pub struct MemoryRegion {
    pub gpa: u64,
    pub size: u64,
    pub protection: MemoryProtection,
    pub description: String,
}

/// An access that memory did not allow.
#[derive(Clone, Copy, Debug, PartialEq, Eq, Structural)]
pub struct MemoryAccessViolation {
    pub gpa: u64,
    pub is_write: bool,
    pub is_execute: bool,
    pub access_size: u32,
    pub instruction_rip: u64,
}

impl MemoryAccessViolation {
    /// Decodes the access information of an exit: bit 0 is set for a write, bit
    /// 1 for an instruction fetch, bits 2 to 4 give the size. Only an exit for
    /// a memory access has any.
    pub fn from_exit_context(memory_access: bool, access_info: u32, gpa: u64, rip: u64) -> (r: Option<
        Self,
    >)
        ensures
            r == (if memory_access {
                Some(
                    MemoryAccessViolation {
                        gpa,
                        is_write: access_info & 1 != 0,
                        is_execute: access_info & 2 != 0,
                        access_size: (access_info >> 2) & 7,
                        instruction_rip: rip,
                    },
                )
            } else {
                None
            }),
    {
        if memory_access {
            Some(
                MemoryAccessViolation {
                    gpa,
                    is_write: (access_info & 0x1) != 0,
                    is_execute: (access_info & 0x2) != 0,
                    access_size: (access_info >> 2) & 0x7,
                    instruction_rip: rip,
                },
            )
        } else {
            None
        }
    }

    /// What kind of access it was.
    pub open spec fn kind(self) -> Seq<char> {
        if self.is_write {
            "WRITE"@
        } else if self.is_execute {
            "EXECUTE"@
        } else {
            "READ"@
        }
    }
}

/// Whether an access goes against a protection: it writes, executes or reads,
/// and the protection does not allow that. An access that neither writes nor
/// executes reads.
pub open spec fn violates(p: MemoryProtection, v: MemoryAccessViolation) -> bool {
    ||| v.is_write && !p.writable()
    ||| v.is_execute && !p.executable()
    ||| !v.is_write && !v.is_execute && !p.readable()
}

/// What the five protection levels allow: an access violates memory that can
/// only be read if it writes or executes, memory that cannot be written if it
/// writes, memory that cannot be executed if it executes, memory that can only
/// be executed if it is anything but an instruction fetch, and never memory
/// that allows everything.
pub proof fn law_protection_levels(p: MemoryProtection, v: MemoryAccessViolation)
    ensures
        violates(p, v) == match p {
            MemoryProtection::ReadOnly => v.is_write || v.is_execute,
            MemoryProtection::ReadExecute => v.is_write,
            MemoryProtection::ReadWrite => v.is_execute,
            MemoryProtection::ExecuteOnly => v.is_write || !v.is_execute,
            MemoryProtection::ReadWriteExecute => false,
        },
{
}

/// A map of guest memory and a log of accesses.
#[derive(Debug)]
pub struct MemoryDebugger {
    pub regions: Vec<MemoryRegion>,
    pub mmio_regions: Vec<MmioRegion>,
    pub access_log: Vec<(u64, bool, u64)>,
}

/// The first memory region at or after `i` that holds `gpa`.
pub open spec fn region_from(regions: Seq<MemoryRegion>, gpa: u64, i: int) -> Option<int>
    decreases regions.len() - i,
{
    if i < 0 || i >= regions.len() {
        None
    } else if regions[i].gpa <= gpa < regions[i].gpa + regions[i].size {
        Some(i)
    } else {
        region_from(regions, gpa, i + 1)
    }
}

/// The first device region at or after `i` that holds `gpa`.
pub open spec fn mmio_from(regions: Seq<MmioRegion>, gpa: u64, i: int) -> Option<int>
    decreases regions.len() - i,
{
    if i < 0 || i >= regions.len() {
        None
    } else if regions[i].gpa <= gpa < regions[i].gpa + regions[i].size {
        Some(i)
    } else {
        mmio_from(regions, gpa, i + 1)
    }
}

/// A range of addresses as text.
pub open spec fn range_text(start: u64, size: u64) -> Seq<char> {
    "0x"@ + hex_text(start as nat, 16) + " - 0x"@ + hex_text((start + size) as nat, 16)
}

/// The explanation of an access.
pub open spec fn analysis(regions: Seq<MemoryRegion>, mmio: Seq<MmioRegion>, v: MemoryAccessViolation) -> Seq<
    char,
> {
    let head = "Memory Access Violation:\n  GPA: 0x"@ + hex_text(v.gpa as nat, 16) + "\n  Type: "@ + v.kind()
        + "\n  Size: "@ + dec_text(v.access_size as nat) + " bytes\n  RIP: 0x"@ + hex_text(
        v.instruction_rip as nat,
        16,
    ) + "\n"@;
    match region_from(regions, v.gpa, 0) {
        Some(k) => {
            let r = regions[k];
            let body = head + "  Region: "@ + r.description@ + " ("@ + range_text(r.gpa, r.size)
                + ")\n  Protection: "@ + r.protection.name_spec() + "\n"@;
            if violates(r.protection, v) {
                body + "  ❌ Access violates region protection!\n"@
            } else {
                body
            }
        },
        None => match mmio_from(mmio, v.gpa, 0) {
            Some(k) => head + "  MMIO Region: "@ + mmio[k].name@ + " ("@ + range_text(
                mmio[k].gpa,
                mmio[k].size,
            ) + ")\n"@,
            None => head + "  ❌ GPA not mapped to any region!\n"@,
        },
    }
}

/// The lines of the memory regions.
pub open spec fn region_lines(regions: Seq<MemoryRegion>) -> Seq<char>
    decreases regions.len(),
{
    if regions.len() == 0 {
        Seq::empty()
    } else {
        let r = regions.last();
        region_lines(regions.drop_last()) + "GPA: "@ + range_text(r.gpa, r.size) + " ("@ + r.description@
            + ") - "@ + r.protection.name_spec() + "\n"@
    }
}

/// The lines of the device regions.
pub open spec fn mmio_lines(regions: Seq<MmioRegion>) -> Seq<char>
    decreases regions.len(),
{
    if regions.len() == 0 {
        Seq::empty()
    } else {
        let r = regions.last();
        mmio_lines(regions.drop_last()) + "GPA: "@ + range_text(r.gpa, r.size) + " ("@ + r.name@ + ")\n"@
    }
}

/// The lines of logged accesses.
pub open spec fn access_lines(log: Seq<(u64, bool, u64)>) -> Seq<char>
    decreases log.len(),
{
    if log.len() == 0 {
        Seq::empty()
    } else {
        access_lines(log.drop_last()) + "GPA: 0x"@ + hex_text(log.last().0 as nat, 16) + " - "@ + (
        if log.last().1 {
            "WRITE"@
        } else {
            "READ"@
        }) + "\n"@
    }
}

/// The last `count` accesses of a log, under a heading.
pub open spec fn access_log_spec(log: Seq<(u64, bool, u64)>, count: usize) -> Seq<char> {
    "\n=== Recent Memory Accesses (last "@ + dec_text(count as nat) + ") ===\n"@ + access_lines(
        last_n(log, count as int),
    )
}

/// Appends a range of addresses.
pub(crate) fn push_range(text: &mut String, start: u64, size: u64)
    requires
        start + size <= u64::MAX,
    ensures
        final(text)@ == old(text)@ + range_text(start, size),
{
    let ghost before = text@;
    text.append("0x");
    text.append(hex(start, 16).as_str());
    text.append(" - 0x");
    text.append(hex(start + size, 16).as_str());
    assert(text@ =~= before + range_text(start, size));
}

/// The last `count` accesses of a log as text.
pub(crate) fn access_log_text(recorded: &Vec<(u64, bool, u64)>, count: usize) -> (r: String)
    ensures
        r@ == access_log_spec(recorded@, count),
{
    let total: usize = recorded.len();
    let start: usize = if total > count {
        total - count
    } else {
        0
    };
    let mut text = "\n=== Recent Memory Accesses (last ".to_owned();
    text.append(decimal(count as u64).as_str());
    text.append(") ===\n");
    let ghost head = text@;
    let ghost log = recorded@.subrange(start as int, total as int);
    assert(log =~= last_n(recorded@, count as int));
    let mut i: usize = start;
    assert(log.subrange(0, 0) =~= Seq::<(u64, bool, u64)>::empty());
    assert(text@ =~= head + access_lines(log.subrange(0, 0)));
    while i < total
        invariant
            total == recorded@.len(),
            start <= i <= total,
            log == recorded@.subrange(start as int, total as int),
            text@ == head + access_lines(log.subrange(0, i - start)),
        decreases total - i,
    {
        let (gpa, is_write, _) = recorded[i];
        let ghost shown = log.subrange(0, i + 1 - start);
        text.append("GPA: 0x");
        text.append(hex(gpa, 16).as_str());
        text.append(" - ");
        if is_write {
            text.append("WRITE");
        } else {
            text.append("READ");
        }
        text.append("\n");
        proof {
            assert(shown.drop_last() =~= log.subrange(0, i - start));
            assert(shown.last() == recorded@[i as int]);
            assert(text@ =~= head + access_lines(shown));
        }
        i += 1;
    }
    assert(log.subrange(0, i - start) =~= log);
    text
}

impl Default for MemoryDebugger {
    fn default() -> (r: Self)
        ensures
            r.wf(),
            r.regions@.len() == 0,
            r.mmio_regions@.len() == 0,
            r.access_log@.len() == 0,
    {
        MemoryDebugger::new()
    }
}

impl MemoryDebugger {
    /// Every region has an end, and the log is not too long.
    pub open spec fn wf(self) -> bool {
        &&& forall|i: int|
            0 <= i < self.regions@.len() ==> (#[trigger] self.regions@[i]).gpa + self.regions@[i].size
                <= u64::MAX
        &&& forall|i: int|
            0 <= i < self.mmio_regions@.len() ==> (#[trigger] self.mmio_regions@[i]).gpa
                + self.mmio_regions@[i].size <= u64::MAX
        &&& self.access_log@.len() <= ACCESS_LOG_LEN
    }

    pub fn new() -> (r: Self)
        ensures
            r.wf(),
            r.regions@.len() == 0,
            r.mmio_regions@.len() == 0,
            r.access_log@.len() == 0,
    {
        MemoryDebugger { regions: Vec::new(), mmio_regions: Vec::new(), access_log: Vec::new() }
    }

    /// Adds a memory region.
    pub fn register_region(&mut self, region: MemoryRegion)
        ensures
            old(self).wf() && region.gpa + region.size <= u64::MAX ==> final(self).wf(),
            final(self).regions@ == old(self).regions@.push(region),
            final(self).mmio_regions == old(self).mmio_regions,
            final(self).access_log == old(self).access_log,
    {
        self.regions.push(region);
    }

    /// Adds a device region.
    pub fn register_mmio(&mut self, mmio: MmioRegion)
        ensures
            old(self).wf() && mmio.gpa + mmio.size <= u64::MAX ==> final(self).wf(),
            final(self).mmio_regions@ == old(self).mmio_regions@.push(mmio),
            final(self).regions == old(self).regions,
            final(self).access_log == old(self).access_log,
    {
        self.mmio_regions.push(mmio);
    }

    /// Records an access. Only the latest accesses are kept; each is numbered by
    /// the length of the log when it was made.
    pub fn log_access(&mut self, gpa: u64, is_write: bool)
        requires
            old(self).wf(),
        ensures
            final(self).wf(),
            final(self).access_log@ == last_n(
                old(self).access_log@.push((gpa, is_write, old(self).access_log@.len() as u64)),
                ACCESS_LOG_LEN as int,
            ),
            final(self).regions == old(self).regions,
            final(self).mmio_regions == old(self).mmio_regions,
    {
        let stamp: u64 = self.access_log.len() as u64;
        self.access_log.push((gpa, is_write, stamp));
        let ghost longer = self.access_log@;
        if self.access_log.len() > ACCESS_LOG_LEN {
            self.access_log.remove(0);
        }
        assert(self.access_log@ =~= last_n(longer, ACCESS_LOG_LEN as int));
    }

    /// The first memory region that holds an address.
    pub fn find_region(&self, gpa: u64) -> (r: Option<&MemoryRegion>)
        requires
            self.wf(),
        ensures
            match r {
                Some(region) => region_from(self.regions@, gpa, 0) matches Some(k) && *region
                    == self.regions@[k] && 0 <= k < self.regions@.len(),
                None => region_from(self.regions@, gpa, 0) is None,
            },
    {
        let mut i: usize = 0;
        while i < self.regions.len()
            invariant
                self.wf(),
                i <= self.regions@.len(),
                region_from(self.regions@, gpa, 0) == region_from(self.regions@, gpa, i as int),
            decreases self.regions@.len() - i,
        {
            let region = &self.regions[i];
            if gpa >= region.gpa && gpa < region.gpa + region.size {
                return Some(region);
            }
            i += 1;
        }
        None
    }

    /// The first device region that holds an address.
    pub fn find_mmio(&self, gpa: u64) -> (r: Option<&MmioRegion>)
        requires
            self.wf(),
        ensures
            match r {
                Some(region) => mmio_from(self.mmio_regions@, gpa, 0) matches Some(k) && *region
                    == self.mmio_regions@[k] && 0 <= k < self.mmio_regions@.len(),
                None => mmio_from(self.mmio_regions@, gpa, 0) is None,
            },
    {
        let mut i: usize = 0;
        while i < self.mmio_regions.len()
            invariant
                self.wf(),
                i <= self.mmio_regions@.len(),
                mmio_from(self.mmio_regions@, gpa, 0) == mmio_from(self.mmio_regions@, gpa, i as int),
            decreases self.mmio_regions@.len() - i,
        {
            let region = &self.mmio_regions[i];
            if gpa >= region.gpa && gpa < region.gpa + region.size {
                return Some(region);
            }
            i += 1;
        }
        None
    }

    /// The memory map as text.
    pub fn print_memory_map(&self) -> (r: String)
        requires
            self.wf(),
        ensures
            r@ == "\n=== Memory Map ===\n"@ + region_lines(self.regions@) + (if self.mmio_regions@.len()
                == 0 {
                Seq::<char>::empty()
            } else {
                "\n=== MMIO Regions ===\n"@ + mmio_lines(self.mmio_regions@)
            }),
    {
        let mut text = "\n=== Memory Map ===\n".to_owned();
        let ghost head = text@;
        let mut i: usize = 0;
        assert(self.regions@.subrange(0, 0) =~= Seq::<MemoryRegion>::empty());
        assert(text@ =~= head + region_lines(self.regions@.subrange(0, 0)));
        while i < self.regions.len()
            invariant
                self.wf(),
                i <= self.regions@.len(),
                text@ == head + region_lines(self.regions@.subrange(0, i as int)),
            decreases self.regions@.len() - i,
        {
            let region = &self.regions[i];
            assert(self.regions@[i as int].gpa + self.regions@[i as int].size <= u64::MAX);
            let ghost shown = self.regions@.subrange(0, i + 1);
            text.append("GPA: ");
            push_range(&mut text, region.gpa, region.size);
            text.append(" (");
            text.append(region.description.as_str());
            text.append(") - ");
            text.append(region.protection.name());
            text.append("\n");
            proof {
                assert(shown.drop_last() =~= self.regions@.subrange(0, i as int));
                assert(shown.last() == self.regions@[i as int]);
                assert(text@ =~= head + region_lines(shown));
            }
            i += 1;
        }
        assert(self.regions@.subrange(0, i as int) =~= self.regions@);
        if self.mmio_regions.len() > 0 {
            text.append("\n=== MMIO Regions ===\n");
            let ghost upper = text@;
            i = 0;
            assert(self.mmio_regions@.subrange(0, 0) =~= Seq::<MmioRegion>::empty());
            assert(text@ =~= upper + mmio_lines(self.mmio_regions@.subrange(0, 0)));
            while i < self.mmio_regions.len()
                invariant
                    self.wf(),
                    i <= self.mmio_regions@.len(),
                    text@ == upper + mmio_lines(self.mmio_regions@.subrange(0, i as int)),
                decreases self.mmio_regions@.len() - i,
            {
                let region = &self.mmio_regions[i];
                assert(self.mmio_regions@[i as int].gpa + self.mmio_regions@[i as int].size <= u64::MAX);
                let ghost shown = self.mmio_regions@.subrange(0, i + 1);
                text.append("GPA: ");
                push_range(&mut text, region.gpa, region.size);
                text.append(" (");
                text.append(region.name.as_str());
                text.append(")\n");
                proof {
                    assert(shown.drop_last() =~= self.mmio_regions@.subrange(0, i as int));
                    assert(shown.last() == self.mmio_regions@[i as int]);
                    assert(text@ =~= upper + mmio_lines(shown));
                }
                i += 1;
            }
            assert(self.mmio_regions@.subrange(0, i as int) =~= self.mmio_regions@);
        }
        assert(text@ =~= "\n=== Memory Map ===\n"@ + region_lines(self.regions@) + (
        if self.mmio_regions@.len() == 0 {
            Seq::<char>::empty()
        } else {
            "\n=== MMIO Regions ===\n"@ + mmio_lines(self.mmio_regions@)
        }));
        text
    }

    /// The last `count` accesses as text.
    pub fn print_access_log(&self, count: usize) -> (r: String)
        ensures
            r@ == access_log_spec(self.access_log@, count),
    {
        access_log_text(&self.access_log, count)
    }

    /// Explains an access that memory did not allow.
    pub fn analyze_violation(&self, violation: &MemoryAccessViolation) -> (r: String)
        requires
            self.wf(),
        ensures
            r@ == analysis(self.regions@, self.mmio_regions@, *violation),
    {
        let mut text = "Memory Access Violation:\n  GPA: 0x".to_owned();
        text.append(hex(violation.gpa, 16).as_str());
        text.append("\n  Type: ");
        if violation.is_write {
            text.append("WRITE");
        } else if violation.is_execute {
            text.append("EXECUTE");
        } else {
            text.append("READ");
        }
        text.append("\n  Size: ");
        text.append(decimal(violation.access_size as u64).as_str());
        text.append(" bytes\n  RIP: 0x");
        text.append(hex(violation.instruction_rip, 16).as_str());
        text.append("\n");
        if let Some(region) = self.find_region(violation.gpa) {
            text.append("  Region: ");
            text.append(region.description.as_str());
            text.append(" (");
            push_range(&mut text, region.gpa, region.size);
            text.append(")\n  Protection: ");
            text.append(region.protection.name());
            text.append("\n");
            let against = match region.protection {
                MemoryProtection::ReadOnly => violation.is_write || violation.is_execute,
                MemoryProtection::ReadExecute => violation.is_write,
                MemoryProtection::ReadWrite => violation.is_execute,
                MemoryProtection::ExecuteOnly => violation.is_write || !violation.is_execute,
                MemoryProtection::ReadWriteExecute => false,
            };
            if against {
                text.append("  ❌ Access violates region protection!\n");
            }
        } else if let Some(mmio) = self.find_mmio(violation.gpa) {
            text.append("  MMIO Region: ");
            text.append(mmio.name.as_str());
            text.append(" (");
            push_range(&mut text, mmio.gpa, mmio.size);
            text.append(")\n");
        } else {
            text.append("  ❌ GPA not mapped to any region!\n");
        }
        text
    }
}

} // verus!
