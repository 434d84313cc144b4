//! What is done about the processor's exits.

use vstd::prelude::*;

use crate::byte_order::le_bytes;
use crate::emulator::handler_from;
use crate::laws::bits::{lemma_bits, lemma_low_bits};
use crate::laws::memory::{digits, law_bytes_add_up, law_device_addresses_are_found, lemma_digits_of};
use crate::laws::ports::law_first_handler;
use crate::linux_boot::{RegisterName, RegisterValue};
use crate::partition::{Partition, PartitionError};
use crate::vm::{
    accessed, after_mmio_emulation, after_port_emulation, cpuid_result, exit_handled, is_write,
    msr_handled, msr_read, msr_value, msr_written, tsc_page, tsc_page_gpa, tsc_scale, enables_tsc_page,
    Clock, CpuidAccess, ExitAction, ExitContext, MsrAccess,
};

verus! {

pub(crate) proof fn lemma_nibble(b: u8)
    by (bit_vector)
    ensures
        b & 0x0F == b % 16,
{
}

/// What an exit comes to, by its reason. A memory access is emulated if a
/// device region holds its address, and stops the machine otherwise; a port
/// access is emulated; a halt is nothing; an acknowledged interrupt is written,
/// as four bytes, to the controller's register for it, if there is a
/// controller; and a reason that is none of these, nor a model-specific
/// register, a processor identification or a window for interrupts, stops the
/// machine.
pub proof fn law_exits(
    before: Partition,
    after: Partition,
    c: ExitContext,
    clock: Clock,
    r: Result<ExitAction, PartitionError>,
)
    requires
        exit_handled(before, after, c, clock, r),
    ensures
        c.reason == 1 ==> {
            let regions = before.memory.mmio_regions@;
            let held = exists|k: int|
                0 <= k < regions.len() && (#[trigger] regions[k]).gpa.0 <= c.memory_gpa < regions[k].gpa.0
                    + regions[k].size;
            &&& held ==> (r matches Ok(ExitAction::EmulateMmio))
            &&& !held ==> (r matches Ok(ExitAction::Stop))
        },
        c.reason == 2 ==> (r matches Ok(ExitAction::EmulatePort)) && after == before,
        c.reason == 8 ==> (r matches Ok(ExitAction::Continue)) && after == before,
        c.reason == 9 ==> after == before && {
            let names = before.mmio_handlers@;
            &&& (forall|k: int| 0 <= k < names.len() ==> (#[trigger] names[k])@ != "ioapic"@) ==> (r matches Ok(
                ExitAction::Continue,
            ))
            &&& forall|k: int|
                0 <= k < names.len() && (#[trigger] names[k])@ == "ioapic"@ && (forall|j: int|
                    0 <= j < k ==> (#[trigger] names[j])@ != "ioapic"@) ==> {
                    r matches Ok(ExitAction::WriteHandler { handler, offset, data }) && handler == k && offset
                        == 0x40 && data@.len() == 4 && digits(data@, 0, 4) == c.eoi_vector
                }
        },
        c.reason != 1 && c.reason != 2 && c.reason != 7 && c.reason != 8 && c.reason != 9 && c.reason != 0x1000
            && c.reason != 0x1001 ==> (r matches Ok(ExitAction::Stop)) && after == before,
{
    if c.reason == 1 {
        law_device_addresses_are_found(before.memory.mmio_regions@, c.memory_gpa as int);
    }
    if c.reason == 9 {
        let names = before.mmio_handlers@;
        law_first_handler(names, "ioapic"@);
        law_bytes_add_up(c.eoi_vector as nat, 4);
        if let Some(h) = handler_from(names, "ioapic"@, 0) {
            assert forall|k: int|
                0 <= k < names.len() && (#[trigger] names[k])@ == "ioapic"@ && (forall|j: int|
                    0 <= j < k ==> (#[trigger] names[j])@ != "ioapic"@) implies k == h by {
                assert(names[h]@ == "ioapic"@);
            }
        }
    }
}

/// A window for interrupts: an interrupt of the timer, vector 32, fixed, edge
/// and for processor zero, is requested if the clock has gone on since the last
/// one, or there was none; otherwise nothing is done.
pub proof fn law_timer_interrupt(
    before: Partition,
    after: Partition,
    c: ExitContext,
    clock: Clock,
    r: Result<ExitAction, PartitionError>,
)
    requires
        c.reason == 7,
        exit_handled(before, after, c, clock, r),
    ensures
        clock.now > before.last_interrupt_time || before.last_interrupt_time == 0 ==> (r matches Ok(
            ExitAction::Inject(i),
        ) && i.vector == 32 && i.bitfield == 0 && i.destination == 0) && after == (Partition {
            last_interrupt_time: clock.now,
            ..before
        }),
        !(clock.now > before.last_interrupt_time || before.last_interrupt_time == 0) ==> (r matches Ok(
            ExitAction::Continue,
        )) && after == before,
{
}

/// A processor identification sets the four registers, and goes on behind the
/// instruction, whose length is the lowest four bits; it fails if there is no
/// address behind it.
pub proof fn law_identification(
    before: Partition,
    after: Partition,
    c: ExitContext,
    clock: Clock,
    r: Result<ExitAction, PartitionError>,
)
    requires
        c.reason == 0x1001,
        exit_handled(before, after, c, clock, r),
    ensures
        ({
            let rip = c.rip + c.bitfield % 16;
            let (a, b, x, d) = cpuid_result(c.cpuid);
            &&& after == before
            &&& rip > u64::MAX ==> (r matches Err(PartitionError::RipOverflow))
            &&& rip <= u64::MAX ==> (r matches Ok(ExitAction::SetRegisters(v)) && v@ == seq![
                (RegisterName::Rax, RegisterValue::Reg64(a)),
                (RegisterName::Rbx, RegisterValue::Reg64(b)),
                (RegisterName::Rcx, RegisterValue::Reg64(x)),
                (RegisterName::Rdx, RegisterValue::Reg64(d)),
                (RegisterName::Rip, RegisterValue::Reg64(rip as u64)),
            ])
        }),
{
    lemma_nibble(c.bitfield);
}

/// The hypervisor's own leaves: the highest is the fifth; the interface is
/// "Hv#1"; the version is ten; there are the reference counter, the reference
/// time page and the control of the invariant counter; and the two last are
/// empty.
pub proof fn law_hypervisor_leaves(c: CpuidAccess)
    ensures
        c.leaf == 0x4000_0000 ==> cpuid_result(c).0 == 0x4000_0000 + 5,
        c.leaf == 0x4000_0001 ==> cpuid_result(c).0 == 0x48 + 0x100 * 0x76 + 0x1_0000 * 0x23 + 0x100_0000 * 0x31
            && cpuid_result(c).1 == 0 && cpuid_result(c).2 == 0 && cpuid_result(c).3 == 0,
        c.leaf == 0x4000_0002 ==> cpuid_result(c) == (0u64, 0xA_0000u64, 0u64, 0u64),
        c.leaf == 0x4000_0003 ==> cpuid_result(c).0 == 2 + 512 + 32768 && cpuid_result(c).1 == 0 && cpuid_result(
            c,
        ).2 == 0 && cpuid_result(c).3 == 0,
        c.leaf == 0x4000_0004 || c.leaf == 0x4000_0005 ==> cpuid_result(c) == (0u64, 0u64, 0u64, 0u64),
{
}

proof fn lemma_value(rax: u64, rdx: u64)
    by (bit_vector)
    ensures
        (rdx << 32) | (rax & 0xFFFF_FFFF) == (rdx % 0x1_0000_0000) * 0x1_0000_0000 + rax % 0x1_0000_0000,
{
}

proof fn lemma_split(v: u64)
    by (bit_vector)
    ensures
        v & 0xFFFF_FFFF == v % 0x1_0000_0000,
        v >> 32 == v / 0x1_0000_0000,
        v & !0xFFFu64 == v - v % 0x1000,
        (v & !0xFFFu64) | 1 == v - v % 0x1000 + 1,
{
}

/// What model-specific registers read as, in two halves: the guest's identity;
/// for hypercalls one; the reference time, in steps of a hundred nanoseconds;
/// where the reference time page is, with the lowest bit set, or zero; and the
/// control of the invariant counter. Others read as zero.
pub proof fn law_msr_reads(p: Partition, number: u32, elapsed: u128)
    ensures
        ({
            let (low, high) = msr_read(p, number, elapsed);
            let t = elapsed / 100;
            &&& number == 0x4000_0000 ==> low == p.guest_os_id % 0x1_0000_0000 && high == p.guest_os_id
                / 0x1_0000_0000
            &&& number == 0x4000_0001 ==> low == 1 && high == 0
            &&& number == 0x4000_0020 ==> low == t % 0x1_0000_0000 && high == (t / 0x1_0000_0000) % 0x1_0000_0000
            &&& number == 0x4000_0021 ==> match p.tsc_reference_gpa {
                Some(gpa) => gpa % 0x1000 == 0 ==> low == (gpa + 1) % 0x1_0000_0000 && high == gpa
                    / 0x1_0000_0000,
                None => low == 0 && high == 0,
            }
            &&& number == 0x4000_0118 ==> low == p.tsc_invariant_control % 0x1_0000_0000 && high
                == p.tsc_invariant_control / 0x1_0000_0000
            &&& number != 0x4000_0000 && number != 0x4000_0001 && number != 0x4000_0020 && number != 0x4000_0021
                && number != 0x4000_0118 ==> low == 0 && high == 0
        }),
{
    lemma_split(p.guest_os_id);
    lemma_split(p.tsc_invariant_control);
    if let Some(gpa) = p.tsc_reference_gpa {
        lemma_split(gpa);
        lemma_split(gpa | 1);
    }
}

/// What writing a model-specific register changes: of the two registers that
/// keep what is written, the one that is named takes the 64 bits made of the
/// lower halves of RDX and RAX; the one for the reference time page gives the
/// page up, if the lowest bit is clear; and nothing else changes.
#[verifier::rlimit(30)]
pub proof fn law_msr_writes(p: Partition, m: MsrAccess)
    ensures
        ({
            let v = (m.rdx % 0x1_0000_0000) * 0x1_0000_0000 + m.rax % 0x1_0000_0000;
            let w = msr_written(p, m);
            &&& is_write(m) <==> m.access_info % 2 == 1
            &&& msr_value(m) == v
            &&& w == (Partition {
                guest_os_id: w.guest_os_id,
                tsc_reference_gpa: w.tsc_reference_gpa,
                tsc_invariant_control: w.tsc_invariant_control,
                ..p
            })
            &&& w.guest_os_id == (if m.number == 0x4000_0000 {
                v
            } else {
                p.guest_os_id as int
            })
            &&& w.tsc_reference_gpa == (if m.number == 0x4000_0021 {
                None::<u64>
            } else {
                p.tsc_reference_gpa
            })
            &&& w.tsc_invariant_control == (if m.number == 0x4000_0118 {
                v
            } else {
                p.tsc_invariant_control as int
            })
            &&& enables_tsc_page(m) <==> m.access_info % 2 == 1 && m.number == 0x4000_0021 && m.rax % 2 == 1
            &&& tsc_page_gpa(m) == v - v % 0x1000
        }),
{
    lemma_value(m.rax, m.rdx);
    let v = msr_value(m);
    assert(v % 2 == m.rax % 2) by {
        lemma_even_high(m.rdx, m.rax);
    }
    assert((m.access_info & 1 != 0) == (m.access_info % 2 == 1)) by {
        lemma_bits(m.access_info as u64);
    }
    assert((v & 1 != 0) == (v % 2 == 1)) by {
        lemma_bits(v);
    }
    assert(v & !0xFFFu64 == v - v % 0x1000) by {
        lemma_split(v);
    }
}

pub(crate) proof fn lemma_even_high(high: u64, low: u64)
    ensures
        ((high % 0x1_0000_0000) * 0x1_0000_0000 + low % 0x1_0000_0000) % 2 == low % 2,
{
    let h = high % 0x1_0000_0000;
    let l = low % 0x1_0000_0000;
    assert((h * 0x1_0000_0000 + l) % 2 == l % 2);
    assert(l % 2 == low % 2);
}

/// An access to a model-specific register goes on behind the instruction, as an
/// identification does; a read sets RAX and RDX, a write sets neither.
pub proof fn law_msr_answered(
    before: Partition,
    after: Partition,
    c: ExitContext,
    elapsed: u128,
    r: Result<ExitAction, PartitionError>,
)
    requires
        msr_handled(before, after, c, elapsed, r),
        r is Ok,
    ensures
        ({
            let rip = (c.rip + c.bitfield % 16) as u64;
            let (low, high) = msr_read(before, c.msr.number, elapsed);
            &&& c.rip + c.bitfield % 16 <= u64::MAX
            &&& c.msr.access_info % 2 == 1 ==> (r matches Ok(ExitAction::SetRegisters(v)) && v@ == seq![
                (RegisterName::Rip, RegisterValue::Reg64(rip)),
            ])
            &&& c.msr.access_info % 2 == 0 ==> after == before && (r matches Ok(ExitAction::SetRegisters(v)) && v@
                == seq![
                (RegisterName::Rax, RegisterValue::Reg64(low)),
                (RegisterName::Rdx, RegisterValue::Reg64(high)),
                (RegisterName::Rip, RegisterValue::Reg64(rip)),
            ])
        }),
{
    lemma_nibble(c.bitfield);
    lemma_bits(c.msr.access_info as u64);
}

/// The reference time page: a sequence number of one, then from byte eight on
/// the factor, which is ten million times 2^64 over the frequency, and from
/// byte sixteen on what makes the time zero at the start, both modulo 2^64; and
/// zeroes.
pub proof fn law_reference_page(start: u64, frequency: u64)
    requires
        frequency != 0,
    ensures
        ({
            let page = tsc_page(start, frequency);
            let w: int = 0x1_0000_0000_0000_0000;
            let scale = digits(page, 8, 8);
            &&& page.len() == 4096
            &&& digits(page, 0, 4) == 1
            &&& scale == (10_000_000 * w / frequency as int) % w
            &&& (digits(page, 16, 8) + start * scale / w) % w == 0
            &&& forall|i: int| 4 <= i < 8 || 24 <= i < 4096 ==> #[trigger] page[i] == 0
        }),
{
    let page = tsc_page(start, frequency);
    let w: int = 0x1_0000_0000_0000_0000;
    let scale = tsc_scale(frequency);
    let offset = crate::vm::tsc_offset(start, scale);
    law_bytes_add_up(1, 4);
    law_bytes_add_up(scale as nat, 8);
    law_bytes_add_up(offset as nat, 8);
    lemma_digits_of(page, le_bytes(1, 4), 0, 0, 4);
    lemma_digits_of(page, le_bytes(scale as nat, 8), 8, 0, 8);
    lemma_digits_of(page, le_bytes(offset as nat, 8), 16, 0, 8);
    assert(0 <= start * scale / w < w) by (nonlinear_arith)
        requires
            0 <= start <= u64::MAX,
            0 <= scale <= u64::MAX,
            w == 0x1_0000_0000_0000_0000int,
    ;
}

/// The access that a memory exit tells of: a write or an execution by its two
/// lowest bits, a read if neither, and its size in the next three.
pub proof fn law_access_told(c: ExitContext)
    ensures
        ({
            let a = accessed(c);
            let info = c.memory_access_info;
            &&& a.action.write <==> info % 2 == 1
            &&& a.action.execute <==> (info / 2) % 2 == 1
            &&& a.action.read <==> info % 4 == 0
            &&& a.access_size == (info / 4) % 8
            &&& a.gpa.0 == c.memory_gpa
            &&& a.instruction_rip == c.rip
        }),
{
    lemma_bits(c.memory_access_info as u64);
    let info = c.memory_access_info;
    lemma_low_bits(info as u64);
    assert((info as u64 >> 2) & 7 == ((info >> 2) & 7) as u64);
}

/// Whether the machine runs on after an emulation: if it succeeded, which the
/// lowest bit of its status says.
pub proof fn law_runs_on(status: u32, r: bool, m: bool, n: bool)
    requires
        call_ensures(after_port_emulation, (status,), r),
        call_ensures(after_mmio_emulation, (Some(status),), m),
        call_ensures(after_mmio_emulation, (None::<u32>,), n),
    ensures
        r <==> status % 2 == 1,
        m <==> status % 2 == 1,
        !n,
{
    lemma_bits(status as u64);
    lemma_low_bits(status as u64);
    assert(status as u64 & 1 == (status & 1) as u64);
}

} // verus!
