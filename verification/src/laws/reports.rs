//! What the reports on memory say.

use vstd::prelude::*;

use crate::laws::bits::{lemma_bits, lemma_low_bits};
use crate::laws::text::{all_digits, law_hexadecimal_digits, number, pow16};
use crate::memory::debugger::{
    access_lines, mmio_from, region_from, MemoryAccessViolation, MemoryDebugger, MemoryProtection, MemoryRegion,
    MmioRegion,
};
use crate::memory::memory as manager;
use crate::text::hex_text;

verus! {

/// A text ends with another.
pub open spec fn ends(text: Seq<char>, tail: Seq<char>) -> bool {
    text.len() >= tail.len() && text.subrange(text.len() - tail.len(), text.len() as int) == tail
}

proof fn lemma_ends(a: Seq<char>, tail: Seq<char>)
    ensures
        ends(a + tail, tail),
{
    assert((a + tail).subrange(a.len() as int, (a + tail).len() as int) =~= tail);
}

proof fn lemma_sixteen_digits(v: u64)
    ensures
        hex_text(v as nat, 16).len() == 16,
        all_digits(hex_text(v as nat, 16), 16),
        number(hex_text(v as nat, 16), 16) == v,
{
    law_hexadecimal_digits(v as nat, 16);
    assert(pow16(16) == 0x1_0000_0000_0000_0000) by {
        reveal_with_fuel(pow16, 17);
    }
    assert(v as int % 0x1_0000_0000_0000_0000 == v);
}

proof fn lemma_region_from(regions: Seq<MemoryRegion>, gpa: u64, i: int)
    requires
        0 <= i,
    ensures
        match region_from(regions, gpa, i) {
            Some(k) => i <= k < regions.len() && regions[k].gpa <= gpa < regions[k].gpa + regions[k].size && (forall|
                j: int,
            |
                i <= j < k ==> !((#[trigger] regions[j]).gpa <= gpa < regions[j].gpa + regions[j].size)),
            None => forall|j: int|
                i <= j < regions.len() ==> !((#[trigger] regions[j]).gpa <= gpa < regions[j].gpa + regions[j].size),
        },
    decreases regions.len() - i,
{
    if i < regions.len() && !(regions[i].gpa <= gpa < regions[i].gpa + regions[i].size) {
        lemma_region_from(regions, gpa, i + 1);
    }
}

proof fn lemma_mmio_from(regions: Seq<MmioRegion>, gpa: u64, i: int)
    requires
        0 <= i,
    ensures
        match mmio_from(regions, gpa, i) {
            Some(k) => i <= k < regions.len() && regions[k].gpa <= gpa < regions[k].gpa + regions[k].size && (forall|
                j: int,
            |
                i <= j < k ==> !((#[trigger] regions[j]).gpa <= gpa < regions[j].gpa + regions[j].size)),
            None => forall|j: int|
                i <= j < regions.len() ==> !((#[trigger] regions[j]).gpa <= gpa < regions[j].gpa + regions[j].size),
        },
    decreases regions.len() - i,
{
    if i < regions.len() && !(regions[i].gpa <= gpa < regions[i].gpa + regions[i].size) {
        lemma_mmio_from(regions, gpa, i + 1);
    }
}

/// The region at an address is the first that holds it.
pub proof fn law_first_region(
    d: &MemoryDebugger,
    gpa: u64,
    r: Option<&MemoryRegion>,
    m: Option<&MmioRegion>,
    k: int,
)
    requires
        call_ensures(MemoryDebugger::find_region, (d, gpa), r),
        call_ensures(MemoryDebugger::find_mmio, (d, gpa), m),
    ensures
        r matches Some(x) ==> x.gpa <= gpa < x.gpa + x.size,
        m matches Some(x) ==> x.gpa <= gpa < x.gpa + x.size,
        r is None && 0 <= k < d.regions@.len() ==> !(d.regions@[k].gpa <= gpa < d.regions@[k].gpa
            + d.regions@[k].size),
        m is None && 0 <= k < d.mmio_regions@.len() ==> !(d.mmio_regions@[k].gpa <= gpa < d.mmio_regions@[k].gpa
            + d.mmio_regions@[k].size),
        0 <= k < d.regions@.len() && d.regions@[k].gpa <= gpa < d.regions@[k].gpa + d.regions@[k].size && (forall|
            j: int,
        |
            0 <= j < k ==> !((#[trigger] d.regions@[j]).gpa <= gpa < d.regions@[j].gpa + d.regions@[j].size))
            ==> r == Some(&d.regions@[k]),
{
    lemma_region_from(d.regions@, gpa, 0);
    lemma_mmio_from(d.mmio_regions@, gpa, 0);
}

/// The report on an access tells its address in sixteen hexadecimal digits and
/// its kind, and ends with what is wrong: that the address is in no region, or
/// that the first region that holds it does not allow the access.
#[verifier::spinoff_prover]
#[verifier::rlimit(60)]
pub proof fn law_access_explained(d: &MemoryDebugger, v: &MemoryAccessViolation, r: String, k: int)
    requires
        call_ensures(MemoryDebugger::analyze_violation, (d, v), r),
    ensures
        r@.len() > 60,
        all_digits(r@.subrange(34, 50), 16) && number(r@.subrange(34, 50), 16) == v.gpa,
        r@[59] == (if v.is_write {
            'W'
        } else if v.is_execute {
            'E'
        } else {
            'R'
        }),
        (forall|j: int|
            0 <= j < d.regions@.len() ==> !((#[trigger] d.regions@[j]).gpa <= v.gpa < d.regions@[j].gpa
                + d.regions@[j].size)) && (forall|j: int|
            0 <= j < d.mmio_regions@.len() ==> !((#[trigger] d.mmio_regions@[j]).gpa <= v.gpa
                < d.mmio_regions@[j].gpa + d.mmio_regions@[j].size)) ==> ends(
            r@,
            "  ❌ GPA not mapped to any region!\n"@,
        ),
        0 <= k < d.regions@.len() && d.regions@[k].gpa <= v.gpa < d.regions@[k].gpa + d.regions@[k].size && (forall|
            j: int,
        |
            0 <= j < k ==> !((#[trigger] d.regions@[j]).gpa <= v.gpa < d.regions@[j].gpa + d.regions@[j].size))
            ==> {
            let denied = match d.regions@[k].protection {
                MemoryProtection::ReadOnly => v.is_write || v.is_execute,
                MemoryProtection::ReadExecute => v.is_write,
                MemoryProtection::ReadWrite => v.is_execute,
                MemoryProtection::ExecuteOnly => v.is_write || !v.is_execute,
                MemoryProtection::ReadWriteExecute => false,
            };
            ends(
                r@,
                if denied {
                    "  ❌ Access violates region protection!\n"@
                } else {
                    d.regions@[k].protection.name_spec() + "\n"@
                },
            )
        },
{
    reveal_strlit("Memory Access Violation:\n  GPA: 0x");
    reveal_strlit("\n  Type: ");
    reveal_strlit("WRITE");
    reveal_strlit("EXECUTE");
    reveal_strlit("READ");
    lemma_sixteen_digits(v.gpa);
    lemma_region_from(d.regions@, v.gpa, 0);
    lemma_mmio_from(d.mmio_regions@, v.gpa, 0);
    let start = "Memory Access Violation:\n  GPA: 0x"@ + hex_text(v.gpa as nat, 16) + "\n  Type: "@ + v.kind();
    assert(start.len() >= 63);
    assert forall|i: int| 0 <= i < 63 implies #[trigger] r@[i] == start[i] by {}
    assert(r@.subrange(34, 50) =~= hex_text(v.gpa as nat, 16));
    assert(start[59] == v.kind()[0]);
    let head = start + "\n  Size: "@ + crate::text::dec_text(v.access_size as nat) + " bytes\n  RIP: 0x"@
        + hex_text(v.instruction_rip as nat, 16) + "\n"@;
    match region_from(d.regions@, v.gpa, 0) {
        Some(at) => {
            let x = d.regions@[at];
            let body = head + "  Region: "@ + x.description@ + " ("@ + crate::memory::debugger::range_text(
                x.gpa,
                x.size,
            ) + ")\n  Protection: "@ + x.protection.name_spec() + "\n"@;
            crate::memory::debugger::law_protection_levels(x.protection, *v);
            lemma_ends(body, "  ❌ Access violates region protection!\n"@);
            let front = head + "  Region: "@ + x.description@ + " ("@ + crate::memory::debugger::range_text(
                x.gpa,
                x.size,
            ) + ")\n  Protection: "@;
            lemma_ends(front, x.protection.name_spec() + "\n"@);
            assert(body =~= front + (x.protection.name_spec() + "\n"@));
        },
        None => {
            if mmio_from(d.mmio_regions@, v.gpa, 0) is None {
                lemma_ends(head, "  ❌ GPA not mapped to any region!\n"@);
            }
        },
    }
}

/// The log of accesses as text ends with the last access: its address in sixteen
/// hexadecimal digits, and whether it wrote. What stands before that is the text
/// of the accesses before it.
pub proof fn law_accesses_listed(log: Seq<(u64, bool, u64)>, gpa: u64, write: bool, at: u64)
    ensures
        ({
            let n = access_lines(log).len() as int;
            let text = access_lines(log.push((gpa, write, at)));
            &&& text.subrange(0, n) == access_lines(log)
            &&& text.len() == n + (if write {
                32int
            } else {
                31
            })
            &&& all_digits(text.subrange(n + 7, n + 23), 16) && number(text.subrange(n + 7, n + 23), 16) == gpa
            &&& text[n + 26] == (if write {
                'W'
            } else {
                'R'
            })
            &&& text.last() == '\n'
        }),
        access_lines(Seq::<(u64, bool, u64)>::empty()).len() == 0,
{
    reveal_strlit("GPA: 0x");
    reveal_strlit(" - ");
    reveal_strlit("WRITE");
    reveal_strlit("READ");
    reveal_strlit("\n");
    lemma_sixteen_digits(gpa);
    let longer = log.push((gpa, write, at));
    assert(longer.drop_last() =~= log);
    let n = access_lines(log).len() as int;
    let text = access_lines(longer);
    assert(text.subrange(0, n) =~= access_lines(log));
    assert(text.subrange(n + 7, n + 23) =~= hex_text(gpa as nat, 16));
}

/// The text of the log has the last accesses under a heading, as many as are
/// asked for and there are.
pub proof fn law_log_printed(
    d: &MemoryDebugger,
    m: &manager::MemoryManager,
    count: usize,
    r: String,
    s: String,
)
    requires
        call_ensures(MemoryDebugger::print_access_log, (d, count), r),
        call_ensures(manager::MemoryManager::print_access_log, (m, count), s),
    ensures
        d.access_log@.len() >= count ==> ends(
            r@,
            access_lines(d.access_log@.skip(d.access_log@.len() - count)),
        ),
        d.access_log@.len() < count ==> ends(r@, access_lines(d.access_log@)),
        m.log().len() >= count ==> ends(s@, access_lines(m.log().skip(m.log().len() - count))),
        m.log().len() < count ==> ends(s@, access_lines(m.log())),
{
    let head = "\n=== Recent Memory Accesses (last "@ + crate::text::dec_text(count as nat) + ") ===\n"@;
    let a = d.access_log@;
    let b = m.log();
    if a.len() >= count {
        assert(manager::last_n(a, count as int) =~= a.skip(a.len() - count));
    }
    if b.len() >= count {
        assert(manager::last_n(b, count as int) =~= b.skip(b.len() - count));
    }
    lemma_ends(head, access_lines(manager::last_n(a, count as int)));
    lemma_ends(head, access_lines(manager::last_n(b, count as int)));
}

/// The report of the memory manager on an access: the address, and what is wrong
/// where no region holds it.
pub proof fn law_violation_reported(m: &manager::MemoryManager, v: &manager::MemoryAccessViolation, r: String)
    requires
        m.wf(),
        call_ensures(manager::MemoryManager::analyze_violation, (m, v), r),
    ensures
        r@.len() > 50,
        all_digits(r@.subrange(34, 50), 16) && number(r@.subrange(34, 50), 16) == v.gpa.0,
        ({
            let found = exists|j: int|
                0 <= j < m.regions@.len() && (#[trigger] m.regions@[j]).gpa.0 <= v.gpa.0 < m.regions@[j].gpa.0
                    + m.regions@[j].size;
            let device = exists|j: int|
                0 <= j < m.mmio_regions@.len() && (#[trigger] m.mmio_regions@[j]).gpa.0 <= v.gpa.0
                    < m.mmio_regions@[j].gpa.0 + m.mmio_regions@[j].size;
            &&& !found && !device ==> ends(r@, "  ❌ GPA not mapped to any region!\n"@)
            &&& found && v.action.read && !v.action.write && !v.action.execute ==> ends(
                r@,
                "  ❌ Read access violation!\n"@,
            )
            &&& found && v.action.write && !v.action.read && !v.action.execute ==> ends(
                r@,
                "  ❌ Write access violation!\n"@,
            )
            &&& found && v.action.execute && !v.action.read && !v.action.write ==> ends(
                r@,
                "  ❌ Execute access violation!\n"@,
            )
        }),
{
    reveal_strlit("Memory Access Violation:\n  GPA: 0x");
    lemma_sixteen_digits(v.gpa.0);
    crate::laws::memory::law_addresses_are_found(manager::layouts(m.regions@), v.gpa.0 as int);
    crate::laws::memory::law_device_addresses_are_found(m.mmio_regions@, v.gpa.0 as int);
    let start = "Memory Access Violation:\n  GPA: 0x"@ + hex_text(v.gpa.0 as nat, 16);
    let head = start + "\n  Type: "@ + manager::perms_text(v.action) + "\n  Size: "@ + crate::text::dec_text(
        v.access_size as nat,
    ) + " bytes\n  RIP: 0x"@ + hex_text(v.instruction_rip as nat, 16) + "\n"@;
    reveal_strlit("\n  Type: ");
    assert forall|i: int| 0 <= i < 50 implies #[trigger] r@[i] == start[i] by {}
    assert(r@.subrange(34, 50) =~= hex_text(v.gpa.0 as nat, 16));
    assert forall|j: int| 0 <= j < m.regions@.len() implies #[trigger] manager::layouts(m.regions@)[j]
        == m.regions@[j].layout() by {}
    match crate::memory::memory::find(manager::layouts(m.regions@), v.gpa.0 as int) {
        Some(k) => {
            let x = m.regions@[k];
            assert(x.gpa.0 <= v.gpa.0 < x.gpa.0 + x.size);
            let front = head + "  Region: (0x"@ + hex_text(x.base() as nat, 16) + " - 0x"@ + hex_text(
                (x.base() + x.size_spec()) as nat,
                16,
            ) + ")\n  Protection: "@ + manager::perms_text(x.perms) + "\n"@;
            lemma_ends(front, "  ❌ Read access violation!\n"@);
            lemma_ends(front, "  ❌ Write access violation!\n"@);
            lemma_ends(front, "  ❌ Execute access violation!\n"@);
        },
        None => {
            assert forall|j: int| 0 <= j < m.regions@.len() implies !((#[trigger] m.regions@[j]).gpa.0 <= v.gpa.0
                < m.regions@[j].gpa.0 + m.regions@[j].size) by {
                assert(manager::layouts(m.regions@)[j] == m.regions@[j].layout());
            }
            lemma_ends(head, "  ❌ GPA not mapped to any region!\n"@);
        },
    }
}

/// What an exit tells of an access: the lowest bit says that it writes, the next
/// that it executes, and the three above give the size.
pub proof fn law_access_decoded(
    memory: bool,
    info: u32,
    gpa: u64,
    rip: u64,
    r: Option<MemoryAccessViolation>,
    s: manager::MemoryAccessViolation,
)
    requires
        call_ensures(MemoryAccessViolation::from_exit_context, (memory, info, gpa, rip), r),
        call_ensures(manager::MemoryAccessViolation::from_exit_context, (info, gpa, rip), s),
    ensures
        r is Some <==> memory,
        r matches Some(v) ==> {
            &&& v.is_write == (info % 2 == 1)
            &&& v.is_execute == ((info / 2) % 2 == 1)
            &&& v.access_size == (info / 4) % 8
            &&& v.gpa == gpa
            &&& v.instruction_rip == rip
        },
        s.action.write == (info % 2 == 1),
        s.action.execute == ((info / 2) % 2 == 1),
        s.action.read == (info % 4 == 0),
        s.access_size == (info / 4) % 8,
        s.gpa.0 == gpa,
        s.instruction_rip == rip,
{
    lemma_bits(info as u64);
    lemma_low_bits(info as u64);
    assert((info as u64 >> 2) & 7 == ((info >> 2) & 7) as u64);
}

} // verus!
