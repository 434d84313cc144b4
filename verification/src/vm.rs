//! The processor's run loop and what is done when it exits.

use vstd::prelude::*;

use crate::byte_order::{encode_le, law_le_value_of_bytes, le_bytes, lemma_le_bytes_len, lemma_pow256_values};
use crate::devices::legacy::ioapic::InterruptRequest;
use crate::devices::virtio::mmio_adapter::zeroed;
use crate::emulator::{find_handler, handler_from};
use crate::linux_boot::{u32_at, u64_at, zeros, RegisterName, RegisterValue};
use crate::memory::memory::{
    copy_into, end_fits, find, find_mmio_from, last_n, law_read_after_write, spliced, violation_text, GuestAddress,
    MemoryAccessViolation, MemoryError, MemoryPerms, Ram, ACCESS_LOG_LEN,
};
use crate::partition::{Partition, PartitionError};

verus! {

/// The reasons for which a processor exits, as the hypervisor numbers them.
pub const EXIT_NONE: i32 = 0;

pub const EXIT_MEMORY_ACCESS: i32 = 1;

pub const EXIT_IO_PORT_ACCESS: i32 = 2;

pub const EXIT_UNRECOVERABLE_EXCEPTION: i32 = 4;

pub const EXIT_INVALID_REGISTER_VALUE: i32 = 5;

pub const EXIT_UNSUPPORTED_FEATURE: i32 = 6;

pub const EXIT_INTERRUPT_WINDOW: i32 = 7;

pub const EXIT_HALT: i32 = 8;

pub const EXIT_APIC_EOI: i32 = 9;

pub const EXIT_MSR_ACCESS: i32 = 0x1000;

pub const EXIT_CPUID: i32 = 0x1001;

pub const EXIT_EXCEPTION: i32 = 0x1002;

/// Registers of the hypervisor interface.
pub const HV_MSR_GUEST_OS_ID: u32 = 0x4000_0000;

pub const HV_MSR_HYPERCALL: u32 = 0x4000_0001;

pub const HV_MSR_TIME_REF_COUNT: u32 = 0x4000_0020;

pub const HV_MSR_REFERENCE_TSC: u32 = 0x4000_0021;

pub const HV_MSR_TSC_INVARIANT_CONTROL: u32 = 0x4000_0118;

/// The vector of the timer interrupt.
pub const TIMER_VECTOR: u32 = 0x20;

/// The register of the interrupt controller that takes an acknowledged vector.
pub const IOAPIC_EOI_OFFSET: u64 = 0x40;

/// The frequency that is taken where the processor does not tell.
pub const FALLBACK_TSC_FREQUENCY: u64 = 2_712_000_000;

/// A processor identification that the guest asked for, and what the host
/// would answer.
#[derive(Clone, Copy, Debug, PartialEq, Eq, Structural)]
pub struct CpuidAccess {
    pub leaf: u64,
    pub rax: u64,
    pub rbx: u64,
    pub rcx: u64,
    pub rdx: u64,
}

/// An access to a model-specific register.
#[derive(Clone, Copy, Debug, PartialEq, Eq, Structural)]
pub struct MsrAccess {
    pub number: u32,
    /// Bit 0 is set for a write.
    pub access_info: u32,
    pub rax: u64,
    pub rdx: u64,
}

/// Why a processor exited. Only the part that the reason names matters.
#[derive(Clone, Copy, Debug, PartialEq, Eq, Structural)]
pub struct ExitContext {
    pub reason: i32,
    pub rip: u64,
    /// The length of the instruction is in bits 0 to 3.
    pub bitfield: u8,
    pub memory_access_info: u32,
    pub memory_gpa: u64,
    pub eoi_vector: u32,
    pub cpuid: CpuidAccess,
    pub msr: MsrAccess,
}

/// The host's clocks when a processor exited.
#[derive(Clone, Copy, Debug, PartialEq, Eq, Structural)]
pub struct Clock {
    /// The time of day in milliseconds.
    pub now: u64,
    /// How long the machine has been running, in nanoseconds.
    pub elapsed: u128,
}

/// What is left to do about an exit, besides running on.
#[derive(Debug)]
pub enum ExitAction {
    /// The machine stops.
    Stop,
    /// Nothing is left to do.
    Continue,
    /// The instruction is to be emulated: the machine runs on if it could be.
    EmulateMmio,
    EmulatePort,
    /// An interrupt is to be requested; that it fails does not matter.
    Inject(InterruptRequest),
    /// A register of the device with this number is to be written.
    WriteHandler { handler: usize, offset: u64, data: Vec<u8> },
    /// Registers are to be set.
    SetRegisters(Vec<(RegisterName, RegisterValue)>),
}

/// The answers to a processor identification: the hypervisor's leaves, and the
/// host's answers for all others.
pub open spec fn cpuid_result(c: CpuidAccess) -> (u64, u64, u64, u64) {
    if c.leaf == 0x4000_0000 {
        (0x4000_0005, 0x7263_694d, 0x666f_736f, 0x7648_2074)
    } else if c.leaf == 0x4000_0001 {
        (0x3123_7648, 0, 0, 0)
    } else if c.leaf == 0x4000_0002 {
        (0, 0xA_0000, 0, 0)
    } else if c.leaf == 0x4000_0003 {
        (0x8202, 0, 0, 0)
    } else if c.leaf == 0x4000_0004 || c.leaf == 0x4000_0005 {
        (0, 0, 0, 0)
    } else {
        (c.rax, c.rbx, c.rcx, c.rdx)
    }
}

/// The address after the instruction.
pub open spec fn next_rip(c: ExitContext) -> int {
    c.rip + (c.bitfield & 0x0F)
}

/// The value that the guest wrote to a model-specific register.
pub open spec fn msr_value(m: MsrAccess) -> u64 {
    (m.rdx << 32) | (m.rax & 0xFFFF_FFFF)
}

pub open spec fn is_write(m: MsrAccess) -> bool {
    m.access_info & 1 != 0
}

/// What a model-specific register reads as: the low and the high half.
pub open spec fn halves(v: u64) -> (u64, u64) {
    (v & 0xFFFF_FFFF, v >> 32)
}

/// The reference time, in steps of 100 nanoseconds, in two halves.
pub open spec fn time_halves(elapsed: u128) -> (u64, u64) {
    ((elapsed / 100 % 0x1_0000_0000) as u64, (elapsed / 100 / 0x1_0000_0000 % 0x1_0000_0000) as u64)
}

/// What reading a model-specific register gives.
pub open spec fn msr_read(p: Partition, number: u32, elapsed: u128) -> (u64, u64) {
    if number == HV_MSR_GUEST_OS_ID {
        halves(p.guest_os_id)
    } else if number == HV_MSR_HYPERCALL {
        (1, 0)
    } else if number == HV_MSR_TIME_REF_COUNT {
        time_halves(elapsed)
    } else if number == HV_MSR_REFERENCE_TSC {
        match p.tsc_reference_gpa {
            Some(gpa) => halves(gpa | 1),
            None => (0, 0),
        }
    } else if number == HV_MSR_TSC_INVARIANT_CONTROL {
        halves(p.tsc_invariant_control)
    } else {
        (0, 0)
    }
}

/// The factor that turns counter ticks into steps of 100 nanoseconds, as a
/// fraction of 2^64, cut to 64 bits.
pub open spec fn tsc_scale(frequency: u64) -> u64 {
    (10_000_000int * 0x1_0000_0000_0000_0000int / frequency as int % 0x1_0000_0000_0000_0000) as u64
}

/// The reference time that a counter value scales to, before the offset.
pub open spec fn scaled(tsc: u64, scale: u64) -> int {
    tsc * scale / 0x1_0000_0000_0000_0000
}

/// The offset that makes the reference time zero when the counter is `start`,
/// modulo 2^64.
pub open spec fn tsc_offset(start: u64, scale: u64) -> u64 {
    ((0x1_0000_0000_0000_0000 - scaled(start, scale)) % 0x1_0000_0000_0000_0000) as u64
}

/// The reference time page: a sequence number, the scale and the offset.
pub open spec fn tsc_page(start: u64, frequency: u64) -> Seq<u8> {
    let scale = tsc_scale(frequency);
    let a = spliced(zeros(4096), 0, le_bytes(1, 4));
    let b = spliced(a, 8, le_bytes(scale as nat, 8));
    spliced(b, 16, le_bytes(tsc_offset(start, scale) as nat, 8))
}

/// The reference time that the guest computes from the page and the counter,
/// modulo 2^64.
pub open spec fn reference_time(page: Seq<u8>, tsc: u64) -> int {
    (scaled(tsc, u64_at(page, 8)) + u64_at(page, 16)) % 0x1_0000_0000_0000_0000
}

/// The frequency of the time stamp counter: from the ratio of two clocks and
/// the slower one's frequency, else from the base frequency in megahertz, else
/// a fixed value.
pub open spec fn tsc_frequency_of(eax: u32, ebx: u32, ecx: u32, base_mhz: u32) -> int {
    if eax != 0 && ebx != 0 && ecx != 0 {
        ecx * ebx / eax as int
    } else if base_mhz != 0 {
        base_mhz * 1_000_000
    } else {
        FALLBACK_TSC_FREQUENCY as int
    }
}

/// The frequency of the time stamp counter, from what the processor says in
/// its leaves on the counter and on frequencies.
pub fn get_tsc_frequency_hz(eax: u32, ebx: u32, ecx: u32, base_mhz: u32) -> (r: u64)
    ensures
        r == tsc_frequency_of(eax, ebx, ecx, base_mhz),
{
    if eax != 0 && ebx != 0 && ecx != 0 {
        assert(ecx * ebx <= u32::MAX * u32::MAX) by (nonlinear_arith)
            requires
                ecx <= u32::MAX,
                ebx <= u32::MAX,
        ;
        return (ecx as u64 * ebx as u64) / eax as u64;
    }
    if base_mhz != 0 {
        return base_mhz as u64 * 1_000_000;
    }
    FALLBACK_TSC_FREQUENCY
}

proof fn lemma_truncate(v: u128)
    by (bit_vector)
    ensures
        v as u64 == v % 0x1_0000_0000_0000_0000,
        v >> 64 == v / 0x1_0000_0000_0000_0000,
{
}

proof fn lemma_time_halves(t: u128)
    by (bit_vector)
    ensures
        (t & 0xFFFF_FFFF) as u64 == t % 0x1_0000_0000,
        ((t >> 32) & 0xFFFF_FFFF) as u64 == t / 0x1_0000_0000 % 0x1_0000_0000,
{
}

/// The reference time in two halves.
fn time_ref_count(elapsed: u128) -> (r: (u64, u64))
    ensures
        r == time_halves(elapsed),
{
    let ticks: u128 = elapsed / 100;
    proof {
        lemma_time_halves(ticks);
    }
    ((ticks & 0xFFFF_FFFF) as u64, ((ticks >> 32) & 0xFFFF_FFFF) as u64)
}

/// Builds the reference time page.
fn build_tsc_page(start: u64, frequency: u64) -> (r: Vec<u8>)
    requires
        frequency != 0,
    ensures
        r@ == tsc_page(start, frequency),
{
    // Ten million, 64 bits up.
    let numerator: u128 = 184_467_440_737_095_516_160_000_000;
    let quotient: u128 = numerator / (frequency as u128);
    proof {
        lemma_truncate(quotient);
    }
    let scale: u64 = quotient as u64;
    assert(start * scale <= u64::MAX * u64::MAX) by (nonlinear_arith)
        requires
            start <= u64::MAX,
            scale <= u64::MAX,
    ;
    let product: u128 = (start as u128) * (scale as u128);
    proof {
        lemma_truncate(product);
    }
    let ticks: u64 = (product >> 64) as u64;
    let offset: u64 = 0u64.wrapping_sub(ticks);
    assert(ticks == scaled(start, scale));
    assert(offset == tsc_offset(start, scale));
    let mut page = zeroed(4096);
    let sequence = encode_le(1, 4);
    let scale_bytes = encode_le(scale, 8);
    let offset_bytes = encode_le(offset, 8);
    proof {
        lemma_le_bytes_len(1, 4);
        lemma_le_bytes_len(scale as nat, 8);
        lemma_le_bytes_len(offset as nat, 8);
    }
    copy_into(&mut page, 0, sequence.as_slice());
    copy_into(&mut page, 8, scale_bytes.as_slice());
    copy_into(&mut page, 16, offset_bytes.as_slice());
    page
}

impl Partition {
    /// Writes the reference time page to guest memory.
    fn write_tsc_reference_page(&mut self, gpa: u64) -> (r: Result<(), PartitionError>)
        requires
            old(self).wf(),
        ensures
            final(self).wf(),
            final(self).same_but_memory(*old(self)),
            final(self).memory.same_but_bytes(old(self).memory),
            final(self).memory.ram() == tsc_page_written(*old(self), gpa).1,
            tsc_outcome(tsc_page_written(*old(self), gpa).0, r),
    {
        if self.tsc_frequency == 0 {
            return Err(PartitionError::NoTscFrequency);
        }
        let page = build_tsc_page(self.vm_start_tsc, self.tsc_frequency);
        self.write_code(page.as_slice(), GuestAddress(gpa))
    }
}

/// Why the reference time page cannot be written, if it cannot.
pub enum TscFailure {
    NoFrequency,
    Memory(MemoryError),
}

/// Writing the reference time page: what goes wrong, if anything, and memory.
pub open spec fn tsc_page_written(p: Partition, gpa: u64) -> (Option<TscFailure>, Ram) {
    let ram = p.memory.ram();
    if p.tsc_frequency == 0 {
        (Some(TscFailure::NoFrequency), ram)
    } else {
        match ram.write(gpa as int, tsc_page(p.vm_start_tsc, p.tsc_frequency)) {
            Ok(after) => (None, after),
            Err(e) => (Some(TscFailure::Memory(e)), ram),
        }
    }
}

/// How a failure is reported.
pub open spec fn tsc_outcome<T>(f: Option<TscFailure>, r: Result<T, PartitionError>) -> bool {
    match f {
        None => r is Ok,
        Some(TscFailure::NoFrequency) => r matches Err(PartitionError::NoTscFrequency),
        Some(TscFailure::Memory(e)) => r matches Err(PartitionError::Memory(g)) && g == e,
    }
}

/// The registers after a processor identification.
pub open spec fn cpuid_registers(c: ExitContext) -> Seq<(RegisterName, RegisterValue)> {
    let (rax, rbx, rcx, rdx) = cpuid_result(c.cpuid);
    seq![
        (RegisterName::Rax, RegisterValue::Reg64(rax)),
        (RegisterName::Rbx, RegisterValue::Reg64(rbx)),
        (RegisterName::Rcx, RegisterValue::Reg64(rcx)),
        (RegisterName::Rdx, RegisterValue::Reg64(rdx)),
        (RegisterName::Rip, RegisterValue::Reg64(next_rip(c) as u64)),
    ]
}

/// The registers after an access to a model-specific register: a read gives
/// its two halves.
pub open spec fn msr_registers(p: Partition, c: ExitContext, elapsed: u128) -> Seq<
    (RegisterName, RegisterValue),
> {
    let rip = (RegisterName::Rip, RegisterValue::Reg64(next_rip(c) as u64));
    if is_write(c.msr) {
        seq![rip]
    } else {
        let (low, high) = msr_read(p, c.msr.number, elapsed);
        seq![
            (RegisterName::Rax, RegisterValue::Reg64(low)),
            (RegisterName::Rdx, RegisterValue::Reg64(high)),
            rip,
        ]
    }
}

/// The exit is answered by setting registers, if the next instruction has an
/// address.
pub open spec fn answered(
    c: ExitContext,
    registers: Seq<(RegisterName, RegisterValue)>,
    r: Result<ExitAction, PartitionError>,
) -> bool {
    if next_rip(c) > u64::MAX {
        r matches Err(PartitionError::RipOverflow)
    } else {
        r matches Ok(ExitAction::SetRegisters(v)) && v@ == registers
    }
}

/// The guest asks for the reference time page.
pub open spec fn enables_tsc_page(m: MsrAccess) -> bool {
    is_write(m) && m.number == HV_MSR_REFERENCE_TSC && msr_value(m) & 1 != 0
}

/// Where the guest wants the reference time page.
pub open spec fn tsc_page_gpa(m: MsrAccess) -> u64 {
    msr_value(m) & !0xFFFu64
}

/// The machine after a write to a model-specific register, but for the one
/// that asks for the reference time page.
pub open spec fn msr_written(p: Partition, m: MsrAccess) -> Partition {
    if m.number == HV_MSR_GUEST_OS_ID {
        Partition { guest_os_id: msr_value(m), ..p }
    } else if m.number == HV_MSR_REFERENCE_TSC {
        Partition { tsc_reference_gpa: None, ..p }
    } else if m.number == HV_MSR_TSC_INVARIANT_CONTROL {
        Partition { tsc_invariant_control: msr_value(m), ..p }
    } else {
        p
    }
}

/// An access to a model-specific register: what it comes to and the machine
/// after it.
pub open spec fn msr_handled(
    before: Partition,
    after: Partition,
    c: ExitContext,
    elapsed: u128,
    r: Result<ExitAction, PartitionError>,
) -> bool {
    let m = c.msr;
    if enables_tsc_page(m) {
        let gpa = tsc_page_gpa(m);
        let (failure, ram) = tsc_page_written(before, gpa);
        &&& after.memory.ram() == ram
        &&& after.memory.same_but_bytes(before.memory)
        &&& if failure is Some {
            tsc_outcome(failure, r) && after.same_but_memory(before)
        } else {
            answered(c, msr_registers(before, c, elapsed), r) && after.same_but_memory(
                (Partition { tsc_reference_gpa: Some(gpa), ..before }),
            )
        }
    } else {
        &&& answered(c, msr_registers(before, c, elapsed), r)
        &&& after == (if is_write(m) {
            msr_written(before, m)
        } else {
            before
        })
    }
}

/// The access that a memory exit tells of.
pub open spec fn accessed(c: ExitContext) -> MemoryAccessViolation {
    let write = c.memory_access_info & 1 != 0;
    let execute = c.memory_access_info & 2 != 0;
    MemoryAccessViolation {
        gpa: GuestAddress(c.memory_gpa),
        action: MemoryPerms { read: !write && !execute, write, execute },
        access_size: (c.memory_access_info >> 2) & 7,
        instruction_rip: c.rip,
    }
}

/// The access of a memory exit is added to the log, and nothing else changes.
pub open spec fn access_logged(before: Partition, after: Partition, c: ExitContext) -> bool {
    let log = before.memory.log();
    let entry = (c.memory_gpa, accessed(c).action.write, log.len() as u64);
    &&& after.memory.log() == last_n(log.push(entry), ACCESS_LOG_LEN as int)
    &&& after.memory.regions == before.memory.regions
    &&& after.memory.mmio_regions == before.memory.mmio_regions
    &&& after.memory.acpi_address == before.memory.acpi_address
    &&& after.same_but_memory(before)
}

/// The report on an exit: an access outside all device regions is explained.
pub open spec fn fault_text(p: Partition, c: ExitContext) -> Option<Seq<char>> {
    if c.reason == EXIT_MEMORY_ACCESS && find_mmio_from(
        p.memory.mmio_regions@,
        c.memory_gpa as int,
        0,
    ) is None {
        Some(violation_text(p.memory.regions@, p.memory.mmio_regions@, accessed(c)))
    } else {
        None
    }
}

/// An exit: what it comes to and the machine after it.
pub open spec fn exit_handled(
    before: Partition,
    after: Partition,
    c: ExitContext,
    clock: Clock,
    r: Result<ExitAction, PartitionError>,
) -> bool {
    if c.reason == EXIT_MSR_ACCESS {
        msr_handled(before, after, c, clock.elapsed, r)
    } else if c.reason == EXIT_CPUID {
        answered(c, cpuid_registers(c), r) && after == before
    } else if c.reason == EXIT_INTERRUPT_WINDOW {
        if clock.now > before.last_interrupt_time || before.last_interrupt_time == 0 {
            &&& r matches Ok(ExitAction::Inject(i)) && i == (InterruptRequest {
                bitfield: 0,
                destination: 0,
                vector: TIMER_VECTOR,
            })
            &&& after == (Partition { last_interrupt_time: clock.now, ..before })
        } else {
            r matches Ok(ExitAction::Continue) && after == before
        }
    } else if c.reason == EXIT_MEMORY_ACCESS {
        &&& access_logged(before, after, c)
        &&& match find_mmio_from(before.memory.mmio_regions@, c.memory_gpa as int, 0) {
            Some(_) => r matches Ok(ExitAction::EmulateMmio),
            None => r matches Ok(ExitAction::Stop),
        }
    } else {
        &&& after == before
        &&& if c.reason == EXIT_IO_PORT_ACCESS {
            r matches Ok(ExitAction::EmulatePort)
        } else if c.reason == EXIT_HALT {
            r matches Ok(ExitAction::Continue)
        } else if c.reason == EXIT_APIC_EOI {
            match handler_from(before.mmio_handlers@, "ioapic"@, 0) {
                Some(k) => r matches Ok(ExitAction::WriteHandler { handler, offset, data }) && handler
                    == k && offset == IOAPIC_EOI_OFFSET && data@ == le_bytes(c.eoi_vector as nat, 4),
                None => r matches Ok(ExitAction::Continue),
            }
        } else {
            r matches Ok(ExitAction::Stop)
        }
    }
}

/// Whether the machine runs on after an emulated access to a device register:
/// not if the emulator failed, or left the instruction undone.
pub fn after_mmio_emulation(status: Option<u32>) -> (r: bool)
    ensures
        r == (status matches Some(s) && s & 1 == 1),
{
    match status {
        Some(s) => s & 1 == 1,
        None => false,
    }
}

/// Whether the machine runs on after an emulated port access.
pub fn after_port_emulation(status: u32) -> (r: bool)
    ensures
        r == (status & 1 == 1),
{
    status & 1 == 1
}

impl Partition {
    /// Decides what is to be done about an exit. An access to memory is logged.
    pub fn handle_exit(&mut self, exit_context: &ExitContext, clock: &Clock) -> (r: Result<
        ExitAction,
        PartitionError,
    >)
        requires
            old(self).wf(),
        ensures
            final(self).wf(),
            exit_handled(*old(self), *final(self), *exit_context, *clock, r),
    {
        match exit_context.reason {
            EXIT_MEMORY_ACCESS => {
                let violation = MemoryAccessViolation::from_exit_context(
                    exit_context.memory_access_info,
                    exit_context.memory_gpa,
                    exit_context.rip,
                );
                self.memory.log_access(violation.gpa.0, violation.action.write);
                if self.memory.find_mmio(violation.gpa.0).is_some() {
                    Ok(ExitAction::EmulateMmio)
                } else {
                    Ok(ExitAction::Stop)
                }
            },
            EXIT_IO_PORT_ACCESS => Ok(ExitAction::EmulatePort),
            EXIT_INTERRUPT_WINDOW => Ok(self.handle_interrupt_window(clock.now)),
            EXIT_HALT => Ok(ExitAction::Continue),
            EXIT_APIC_EOI => {
                let name = "ioapic".to_owned();
                match find_handler(&self.mmio_handlers, &name) {
                    Some(handler) => {
                        let data = encode_le(exit_context.eoi_vector as u64, 4);
                        Ok(ExitAction::WriteHandler { handler, offset: IOAPIC_EOI_OFFSET, data })
                    },
                    None => Ok(ExitAction::Continue),
                }
            },
            EXIT_CPUID => Self::handle_cpuid(exit_context),
            EXIT_MSR_ACCESS => self.handle_msr_access(exit_context, clock.elapsed),
            _ => Ok(ExitAction::Stop),
        }
    }

    /// Explains an access to memory that neither RAM nor a device region
    /// serves: where it went, what it was and what lies there.
    pub fn fault_report(&self, exit_context: &ExitContext) -> (r: Option<String>)
        requires
            self.wf(),
            end_fits(self.memory.ram().layout, exit_context.memory_gpa as int),
        ensures
            r is Some == fault_text(*self, *exit_context) is Some,
            r matches Some(text) ==> text@ == fault_text(*self, *exit_context)->0,
    {
        if exit_context.reason != EXIT_MEMORY_ACCESS {
            return None;
        }
        let violation = MemoryAccessViolation::from_exit_context(
            exit_context.memory_access_info,
            exit_context.memory_gpa,
            exit_context.rip,
        );
        if self.memory.find_mmio(violation.gpa.0).is_some() {
            None
        } else {
            Some(self.memory.analyze_violation(&violation))
        }
    }

    /// Requests a timer interrupt when the guest can take one, at most once a
    /// millisecond.
    fn handle_interrupt_window(&mut self, now: u64) -> (r: ExitAction)
        ensures
            if now > old(self).last_interrupt_time || old(self).last_interrupt_time == 0 {
                &&& r matches ExitAction::Inject(i) && i == (InterruptRequest {
                    bitfield: 0,
                    destination: 0,
                    vector: TIMER_VECTOR,
                })
                &&& *final(self) == (Partition { last_interrupt_time: now, ..*old(self) })
            } else {
                r matches ExitAction::Continue && *final(self) == *old(self)
            },
    {
        let last_time: u64 = self.last_interrupt_time;
        if now > last_time || last_time == 0 {
            self.last_interrupt_time = now;
            ExitAction::Inject(
                InterruptRequest { bitfield: 0, destination: 0, vector: TIMER_VECTOR },
            )
        } else {
            ExitAction::Continue
        }
    }

    /// Answers a processor identification.
    fn handle_cpuid(exit_context: &ExitContext) -> (r: Result<ExitAction, PartitionError>)
        ensures
            answered(*exit_context, cpuid_registers(*exit_context), r),
    {
        let access = &exit_context.cpuid;
        let (rax, rbx, rcx, rdx): (u64, u64, u64, u64) = match access.leaf {
            // The highest leaf, and the vendor "Microsoft Hv".
            0x4000_0000 => (0x4000_0005, 0x7263_694d, 0x666f_736f, 0x7648_2074),
            // The interface "Hv#1".
            0x4000_0001 => (0x3123_7648, 0, 0, 0),
            // The version 10.0.
            0x4000_0002 => (0, 0xA_0000, 0, 0),
            // The reference counter, the reference time page and the control of
            // the invariant counter are there.
            0x4000_0003 => (0x8202, 0, 0, 0),
            0x4000_0004 => (0, 0, 0, 0),
            0x4000_0005 => (0, 0, 0, 0),
            _ => (access.rax, access.rbx, access.rcx, access.rdx),
        };
        let rip: u64 = match exit_context.rip.checked_add((exit_context.bitfield & 0x0F) as u64) {
            Some(rip) => rip,
            None => {
                return Err(PartitionError::RipOverflow);
            },
        };
        let mut registers: Vec<(RegisterName, RegisterValue)> = Vec::new();
        registers.push((RegisterName::Rax, RegisterValue::Reg64(rax)));
        registers.push((RegisterName::Rbx, RegisterValue::Reg64(rbx)));
        registers.push((RegisterName::Rcx, RegisterValue::Reg64(rcx)));
        registers.push((RegisterName::Rdx, RegisterValue::Reg64(rdx)));
        registers.push((RegisterName::Rip, RegisterValue::Reg64(rip)));
        assert(registers@ =~= cpuid_registers(*exit_context));
        Ok(ExitAction::SetRegisters(registers))
    }

    /// Serves an access to a model-specific register.
    pub fn handle_msr_access(&mut self, exit_context: &ExitContext, elapsed: u128) -> (r: Result<
        ExitAction,
        PartitionError,
    >)
        requires
            old(self).wf(),
        ensures
            final(self).wf(),
            msr_handled(*old(self), *final(self), *exit_context, elapsed, r),
    {
        let msr = &exit_context.msr;
        let write = (msr.access_info & 1) != 0;
        let value: u64 = (msr.rdx << 32) | (msr.rax & 0xFFFF_FFFF);
        let mut rax: u64 = 0;
        let mut rdx: u64 = 0;
        match msr.number {
            HV_MSR_GUEST_OS_ID => {
                if write {
                    self.guest_os_id = value;
                } else {
                    rax = self.guest_os_id & 0xFFFF_FFFF;
                    rdx = self.guest_os_id >> 32;
                }
            },
            HV_MSR_HYPERCALL => {
                if !write {
                    rax = 1;
                }
            },
            HV_MSR_TIME_REF_COUNT => {
                if !write {
                    let halves = time_ref_count(elapsed);
                    rax = halves.0;
                    rdx = halves.1;
                }
            },
            HV_MSR_REFERENCE_TSC => {
                if write {
                    if value & 1 != 0 {
                        let gpa: u64 = value & !0xFFFu64;
                        match self.write_tsc_reference_page(gpa) {
                            Ok(()) => {},
                            Err(e) => {
                                return Err(e);
                            },
                        }
                        self.tsc_reference_gpa = Some(gpa);
                    } else {
                        self.tsc_reference_gpa = None;
                    }
                } else {
                    match self.tsc_reference_gpa {
                        Some(gpa) => {
                            let stored: u64 = gpa | 1;
                            rax = stored & 0xFFFF_FFFF;
                            rdx = stored >> 32;
                        },
                        None => {},
                    }
                }
            },
            HV_MSR_TSC_INVARIANT_CONTROL => {
                if write {
                    self.tsc_invariant_control = value;
                } else {
                    rax = self.tsc_invariant_control & 0xFFFF_FFFF;
                    rdx = self.tsc_invariant_control >> 32;
                }
            },
            _ => {},
        }
        let rip: u64 = match exit_context.rip.checked_add((exit_context.bitfield & 0x0F) as u64) {
            Some(rip) => rip,
            None => {
                return Err(PartitionError::RipOverflow);
            },
        };
        let mut registers: Vec<(RegisterName, RegisterValue)> = Vec::new();
        if !write {
            registers.push((RegisterName::Rax, RegisterValue::Reg64(rax)));
            registers.push((RegisterName::Rdx, RegisterValue::Reg64(rdx)));
        }
        registers.push((RegisterName::Rip, RegisterValue::Reg64(rip)));
        assert(registers@ =~= msr_registers(*old(self), *exit_context, elapsed));
        Ok(ExitAction::SetRegisters(registers))
    }
}

/// What the run loop knows.
#[derive(Clone, Copy, Debug, PartialEq, Eq, Structural)]
pub struct RunState {
    /// How often the processor was run.
    pub iteration: u64,
    /// Where it exited last.
    pub last_rip: u64,
    /// How often it exited there again in a row.
    pub rip_repeat_count: u64,
}

/// What happens to the run loop.
#[derive(Clone, Copy, Debug, PartialEq, Eq, Structural)]
pub enum RunEvent {
    /// The machine is about to run; its first instruction is at `rip`, if that
    /// could be read.
    Start { rip: Option<u64>, kernel_entry: u64 },
    /// Whether the machine is to run on.
    Running(bool),
    /// The processor ran and exited at `rip`, if it ran at all.
    Exited { rip: Option<u64> },
    /// The exit was handled: the machine may run on or not, or handling failed.
    Handled { run_on: Option<bool> },
}

/// What is worth a line in the log.
#[derive(Clone, Copy, Debug, PartialEq, Eq, Structural)]
pub enum RunNote {
    Nothing,
    RipMismatch { rip: u64, expected: u64 },
    RipUnknown,
    /// The processor exits at the same place again and again.
    Stuck { rip: u64, count: u64, iteration: u64 },
    /// It left a place where it was for long.
    Resumed { from: u64, to: u64, after: u64 },
    Heartbeat { iteration: u64, rip: u64 },
}

/// Why the run loop ends.
#[derive(Clone, Copy, Debug, PartialEq, Eq, Structural)]
pub enum StopReason {
    Interrupted,
    RunFailed,
    Stopped,
    ExitFailed,
}

/// What the run loop does next.
#[derive(Clone, Copy, Debug, PartialEq, Eq, Structural)]
pub enum RunAction {
    /// Look whether the machine is to run on.
    Check(RunNote),
    /// Run the processor until it exits.
    RunVp,
    /// Handle the exit.
    HandleExit(RunNote),
    Stop { reason: StopReason, iteration: u64 },
}

/// The state after an exit at `rip`, and what is worth noting. A place is noted
/// each time that its count is a multiple of a thousand, from two thousand on.
pub open spec fn exit_observed(s: RunState, rip: u64) -> (RunState, RunNote) {
    if rip == s.last_rip {
        let count = (s.rip_repeat_count + 1) as u64;
        (
            RunState { rip_repeat_count: count, ..s },
            if count > 1000 && count % 1000 == 0 {
                RunNote::Stuck { rip, count, iteration: s.iteration }
            } else {
                RunNote::Nothing
            },
        )
    } else {
        (
            RunState { last_rip: rip, rip_repeat_count: 0, ..s },
            if s.rip_repeat_count > 100 {
                RunNote::Resumed { from: s.last_rip, to: rip, after: s.rip_repeat_count }
            } else {
                RunNote::Nothing
            },
        )
    }
}

/// The next state and action of the run loop.
pub open spec fn run_next(s: RunState, event: RunEvent) -> (RunState, RunAction) {
    match event {
        RunEvent::Start { rip, kernel_entry } => (
            RunState { iteration: 0, last_rip: 0, rip_repeat_count: 0 },
            RunAction::Check(
                match rip {
                    Some(rip) => if rip != kernel_entry {
                        RunNote::RipMismatch { rip, expected: kernel_entry }
                    } else {
                        RunNote::Nothing
                    },
                    None => RunNote::RipUnknown,
                },
            ),
        ),
        RunEvent::Running(false) => (
            s,
            RunAction::Stop { reason: StopReason::Interrupted, iteration: s.iteration },
        ),
        RunEvent::Running(true) => (
            RunState { iteration: (s.iteration + 1) as u64, ..s },
            RunAction::RunVp,
        ),
        RunEvent::Exited { rip: None } => (
            s,
            RunAction::Stop { reason: StopReason::RunFailed, iteration: s.iteration },
        ),
        RunEvent::Exited { rip: Some(rip) } => {
            let (after, note) = exit_observed(s, rip);
            (after, RunAction::HandleExit(note))
        },
        RunEvent::Handled { run_on: Some(true) } => (
            s,
            RunAction::Check(
                if s.iteration % 100_000 == 0 {
                    RunNote::Heartbeat { iteration: s.iteration, rip: s.last_rip }
                } else {
                    RunNote::Nothing
                },
            ),
        ),
        RunEvent::Handled { run_on: Some(false) } => (
            s,
            RunAction::Stop { reason: StopReason::Stopped, iteration: s.iteration },
        ),
        RunEvent::Handled { run_on: None } => (
            s,
            RunAction::Stop { reason: StopReason::ExitFailed, iteration: s.iteration },
        ),
    }
}

impl RunState {
    pub fn new() -> (r: Self)
        ensures
            r == (RunState { iteration: 0, last_rip: 0, rip_repeat_count: 0 }),
    {
        RunState { iteration: 0, last_rip: 0, rip_repeat_count: 0 }
    }

    /// Takes note of an exit.
    fn observe(&mut self, rip: u64) -> (r: RunNote)
        requires
            old(self).rip_repeat_count < u64::MAX,
        ensures
            (*final(self), r) == exit_observed(*old(self), rip),
    {
        if rip == self.last_rip {
            self.rip_repeat_count = self.rip_repeat_count + 1;
            if self.rip_repeat_count > 1000 && self.rip_repeat_count % 1000 == 0 {
                return RunNote::Stuck {
                    rip,
                    count: self.rip_repeat_count,
                    iteration: self.iteration,
                };
            }
            RunNote::Nothing
        } else {
            let from: u64 = self.last_rip;
            let after: u64 = self.rip_repeat_count;
            self.last_rip = rip;
            self.rip_repeat_count = 0;
            if after > 100 {
                RunNote::Resumed { from, to: rip, after }
            } else {
                RunNote::Nothing
            }
        }
    }
}

/// The run loop of the processor: takes what happened and says what to do next.
/// It runs until the machine stops, fails, or is told to.
pub fn run(state: &mut RunState, event: RunEvent) -> (r: RunAction)
    requires
        old(state).iteration < u64::MAX,
        old(state).rip_repeat_count < u64::MAX,
    ensures
        (*final(state), r) == run_next(*old(state), event),
{
    match event {
        RunEvent::Start { rip, kernel_entry } => {
            *state = RunState::new();
            let note = match rip {
                Some(rip) => if rip != kernel_entry {
                    RunNote::RipMismatch { rip, expected: kernel_entry }
                } else {
                    RunNote::Nothing
                },
                None => RunNote::RipUnknown,
            };
            RunAction::Check(note)
        },
        RunEvent::Running(running) => {
            if !running {
                return RunAction::Stop {
                    reason: StopReason::Interrupted,
                    iteration: state.iteration,
                };
            }
            state.iteration = state.iteration + 1;
            RunAction::RunVp
        },
        RunEvent::Exited { rip } => match rip {
            Some(rip) => RunAction::HandleExit(state.observe(rip)),
            None => RunAction::Stop { reason: StopReason::RunFailed, iteration: state.iteration },
        },
        RunEvent::Handled { run_on } => match run_on {
            Some(true) => {
                if state.iteration % 100_000 == 0 {
                    RunAction::Check(
                        RunNote::Heartbeat { iteration: state.iteration, rip: state.last_rip },
                    )
                } else {
                    RunAction::Check(RunNote::Nothing)
                }
            },
            Some(false) => RunAction::Stop {
                reason: StopReason::Stopped,
                iteration: state.iteration,
            },
            None => RunAction::Stop { reason: StopReason::ExitFailed, iteration: state.iteration },
        },
    }
}

/// The state after `n` exits at the same place, with runs in between.
pub open spec fn repeated(s: RunState, rip: u64, n: nat) -> RunState
    decreases n,
{
    if n == 0 {
        s
    } else {
        exit_observed(repeated(s, rip, (n - 1) as nat), rip).0
    }
}

/// The count of a place is how often the processor came back to it: after the
/// first exit at a new place and `n` more, it is `n`.
pub proof fn law_repeat_count(s: RunState, rip: u64, n: nat)
    requires
        rip != s.last_rip,
        n < u64::MAX,
    ensures
        repeated(s, rip, n + 1).last_rip == rip,
        repeated(s, rip, n + 1).rip_repeat_count == n,
        repeated(s, rip, n + 1).iteration == s.iteration,
    decreases n,
{
    reveal_with_fuel(repeated, 2);
    if n > 0 {
        law_repeat_count(s, rip, (n - 1) as nat);
        assert(repeated(s, rip, n + 1) == exit_observed(repeated(s, rip, n), rip).0);
    }
}

/// The loop goes on only where the exit was handled and the machine may run on,
/// and the processor runs only where the machine is to run on.
pub proof fn law_run_goes_on(s: RunState, event: RunEvent)
    ensures
        run_next(s, event).1 is RunVp <==> event == RunEvent::Running(true),
        run_next(s, event).1 is Check <==> (event is Start || event == (RunEvent::Handled {
            run_on: Some(true),
        })),
        run_next(s, event).1 is HandleExit <==> (event matches RunEvent::Exited { rip } && rip is Some),
{
}

proof fn lemma_msr_halves(rax: u64, rdx: u64)
    by (bit_vector)
    ensures
        ((rdx << 32) | (rax & 0xFFFF_FFFF)) & 0xFFFF_FFFF == rax & 0xFFFF_FFFF,
        ((rdx << 32) | (rax & 0xFFFF_FFFF)) >> 32 == rdx & 0xFFFF_FFFF,
{
}

/// A read of the guest's identity, or of the control of the invariant counter,
/// gives back the two halves that were last written.
pub proof fn law_msr_reads_back(p: Partition, m: MsrAccess, elapsed: u128)
    requires
        is_write(m),
        m.number == HV_MSR_GUEST_OS_ID || m.number == HV_MSR_TSC_INVARIANT_CONTROL,
    ensures
        msr_read(msr_written(p, m), m.number, elapsed) == (m.rax & 0xFFFF_FFFF, m.rdx & 0xFFFF_FFFF),
{
    lemma_msr_halves(m.rax, m.rdx);
}

/// An exit for a write to the guest's identity, or to the control of the
/// invariant counter, and a later exit for a read of it: the read sets RAX and
/// RDX to the low halves that were written, and steps over the instruction.
pub proof fn law_written_msr_is_read_back(
    before: Partition,
    written: Partition,
    after: Partition,
    write: ExitContext,
    read: ExitContext,
    written_at: Clock,
    read_at: Clock,
    w: Result<ExitAction, PartitionError>,
    r: Result<ExitAction, PartitionError>,
)
    requires
        write.reason == EXIT_MSR_ACCESS,
        read.reason == EXIT_MSR_ACCESS,
        is_write(write.msr),
        !is_write(read.msr),
        write.msr.number == HV_MSR_GUEST_OS_ID || write.msr.number == HV_MSR_TSC_INVARIANT_CONTROL,
        read.msr.number == write.msr.number,
        next_rip(read) <= u64::MAX,
        exit_handled(before, written, write, written_at, w),
        exit_handled(written, after, read, read_at, r),
    ensures
        after == written,
        r matches Ok(ExitAction::SetRegisters(v)) && v@ == seq![
            (RegisterName::Rax, RegisterValue::Reg64(write.msr.rax & 0xFFFF_FFFF)),
            (RegisterName::Rdx, RegisterValue::Reg64(write.msr.rdx & 0xFFFF_FFFF)),
            (RegisterName::Rip, RegisterValue::Reg64(next_rip(read) as u64)),
        ],
{
    law_msr_reads_back(before, write.msr, read_at.elapsed);
}

/// After a memory exit the newest entry of the access log is its access, and
/// the entries before it are the newest of those that were there.
pub proof fn law_memory_exits_are_logged(
    before: Partition,
    after: Partition,
    c: ExitContext,
    clock: Clock,
    r: Result<ExitAction, PartitionError>,
)
    requires
        before.wf(),
        c.reason == EXIT_MEMORY_ACCESS,
        exit_handled(before, after, c, clock, r),
    ensures
        after.memory.log().len() > 0,
        after.memory.log().last() == (
            c.memory_gpa,
            c.memory_access_info & 1 != 0,
            before.memory.log().len() as u64,
        ),
        after.memory.log().drop_last() == last_n(before.memory.log(), ACCESS_LOG_LEN - 1),
{
    let log = before.memory.log();
    assert(after.memory.log().drop_last() =~= last_n(log, ACCESS_LOG_LEN - 1));
}

/// A write to one register leaves what the others read as.
pub proof fn law_msrs_are_apart(p: Partition, m: MsrAccess, other: u32, elapsed: u128)
    requires
        is_write(m),
        other != m.number,
    ensures
        msr_read(msr_written(p, m), other, elapsed) == msr_read(p, other, elapsed),
{
}

proof fn lemma_page_bits(v: u64)
    by (bit_vector)
    ensures
        (v & !0xFFFu64) & 0xFFF == 0,
        ((v & !0xFFFu64) | 1) & 0xFFF == 1,
        ((v & !0xFFFu64) | 1) & !0xFFFu64 == v & !0xFFFu64,
{
}

/// Once the guest has asked for the reference time page and got it, memory
/// holds the page there, and the register reads as the page's address with the
/// enable bit.
pub proof fn law_tsc_page_is_there(
    before: Partition,
    after: Partition,
    c: ExitContext,
    elapsed: u128,
    r: Result<ExitAction, PartitionError>,
)
    requires
        before.wf(),
        enables_tsc_page(c.msr),
        msr_handled(before, after, c, elapsed, r),
        r is Ok,
        find(before.memory.ram().layout, tsc_page_gpa(c.msr) as int) matches Some(k)
            && before.memory.ram().layout[k].perms.read,
    ensures
        after.memory.ram().read(tsc_page_gpa(c.msr) as int, 4096) == Ok::<Seq<u8>, MemoryError>(
            tsc_page(before.vm_start_tsc, before.tsc_frequency),
        ),
        msr_read(after, HV_MSR_REFERENCE_TSC, elapsed) == halves(tsc_page_gpa(c.msr) | 1),
        (tsc_page_gpa(c.msr) | 1) & 0xFFF == 1,
{
    let page = tsc_page(before.vm_start_tsc, before.tsc_frequency);
    let gpa = tsc_page_gpa(c.msr);
    assert(page.len() == 4096);
    before.memory.lemma_ram_wf();
    law_read_after_write(before.memory.ram(), gpa as int, page);
    lemma_page_bits(msr_value(c.msr));
}

/// The guest finds the vendor that it looks for.
pub proof fn law_hypervisor_vendor(c: CpuidAccess)
    requires
        c.leaf == 0x4000_0000,
    ensures
        le_bytes(cpuid_result(c).1 as nat, 4) + le_bytes(cpuid_result(c).2 as nat, 4) + le_bytes(
            cpuid_result(c).3 as nat,
            4,
        ) == Seq::new("Microsoft Hv"@.len(), |i: int| "Microsoft Hv"@[i] as u8),
{
    reveal_with_fuel(le_bytes, 5);
    reveal_strlit("Microsoft Hv");
    let a = le_bytes(0x7263_694d, 4);
    let b = le_bytes(0x666f_736f, 4);
    let d = le_bytes(0x7648_2074, 4);
    assert(a =~= seq![0x4du8, 0x69u8, 0x63u8, 0x72u8]);
    assert(b =~= seq![0x6fu8, 0x73u8, 0x6fu8, 0x66u8]);
    assert(d =~= seq![0x74u8, 0x20u8, 0x48u8, 0x76u8]);
    assert(a + b + d =~= Seq::new("Microsoft Hv"@.len(), |i: int| "Microsoft Hv"@[i] as u8));
}

/// Leaves that the hypervisor does not define are passed through.
pub proof fn law_other_leaves(c: CpuidAccess)
    requires
        c.leaf < 0x4000_0000 || c.leaf > 0x4000_0005,
    ensures
        cpuid_result(c) == (c.rax, c.rbx, c.rcx, c.rdx),
{
}

proof fn lemma_scaled_bound(tsc: u64, scale: u64)
    ensures
        0 <= scaled(tsc, scale) < 0x1_0000_0000_0000_0000,
        0 <= tsc * scale,
{
    assert(0 <= tsc * scale <= u64::MAX * u64::MAX) by (nonlinear_arith)
        requires
            0 <= tsc <= u64::MAX,
            0 <= scale <= u64::MAX,
    ;
}

proof fn lemma_tsc_page_fields(start: u64, frequency: u64)
    ensures
        u64_at(tsc_page(start, frequency), 8) == tsc_scale(frequency),
        u64_at(tsc_page(start, frequency), 16) == tsc_offset(start, tsc_scale(frequency)),
        u32_at(tsc_page(start, frequency), 0) == 1,
        tsc_page(start, frequency).len() == 4096,
{
    let scale = tsc_scale(frequency);
    let offset = tsc_offset(start, scale);
    let page = tsc_page(start, frequency);
    lemma_pow256_values();
    lemma_le_bytes_len(1, 4);
    lemma_le_bytes_len(scale as nat, 8);
    lemma_le_bytes_len(offset as nat, 8);
    law_le_value_of_bytes(1, 4);
    law_le_value_of_bytes(scale as nat, 8);
    law_le_value_of_bytes(offset as nat, 8);
    assert(page.subrange(0, 4) =~= le_bytes(1, 4));
    assert(page.subrange(8, 16) =~= le_bytes(scale as nat, 8));
    assert(page.subrange(16, 24) =~= le_bytes(offset as nat, 8));
}

/// The time that the guest computes from the page is zero when the machine
/// starts, and the scaled counter less the scaled start after that.
pub proof fn law_reference_time(start: u64, frequency: u64, tsc: u64)
    requires
        frequency != 0,
        tsc >= start,
    ensures
        u32_at(tsc_page(start, frequency), 0) == 1,
        reference_time(tsc_page(start, frequency), start) == 0,
        reference_time(tsc_page(start, frequency), tsc) == scaled(tsc, tsc_scale(frequency)) - scaled(
            start,
            tsc_scale(frequency),
        ),
{
    let scale = tsc_scale(frequency);
    lemma_tsc_page_fields(start, frequency);
    lemma_scaled_bound(start, scale);
    lemma_scaled_bound(tsc, scale);
    assert(start * scale <= tsc * scale) by (nonlinear_arith)
        requires
            start <= tsc,
            0 <= scale,
    ;
    assert(scaled(start, scale) <= scaled(tsc, scale));
}

/// The reference time never runs backwards.
pub proof fn law_reference_time_is_monotonic(start: u64, frequency: u64, earlier: u64, later: u64)
    requires
        frequency != 0,
        start <= earlier <= later,
    ensures
        reference_time(tsc_page(start, frequency), earlier) <= reference_time(
            tsc_page(start, frequency),
            later,
        ),
{
    let scale = tsc_scale(frequency);
    law_reference_time(start, frequency, earlier);
    law_reference_time(start, frequency, later);
    assert(earlier * scale <= later * scale) by (nonlinear_arith)
        requires
            earlier <= later,
            0 <= scale,
    ;
}

/// The reference time counts ten million steps a second, to within two steps:
/// the ticks since the start, times ten million and over the frequency.
pub proof fn law_reference_time_rate(start: u64, frequency: u64, tsc: u64)
    requires
        frequency > 10_000_000,
        tsc >= start,
    ensures
        ({
            let steps = reference_time(tsc_page(start, frequency), tsc);
            let ticks = tsc - start;
            &&& steps * frequency <= ticks * 10_000_000 + frequency
            &&& ticks * 10_000_000 < (steps + 2) * frequency
        }),
{
    let w: int = 0x1_0000_0000_0000_0000;
    let n: int = 10_000_000 * w;
    let f = frequency as int;
    let s = tsc_scale(frequency) as int;
    let e = tsc - start;
    law_reference_time(start, frequency, tsc);
    let r = reference_time(tsc_page(start, frequency), tsc);
    assert(0 <= n / f < w) by (nonlinear_arith)
        requires
            f > 10_000_000,
            n == 10_000_000 * w,
            w == 0x1_0000_0000_0000_0000int,
    ;
    assert(s == n / f);
    assert(s * f <= n && n < s * f + f) by (nonlinear_arith)
        requires
            f > 0,
            s == n / f,
    ;
    let a = tsc * s;
    let b = start * s;
    let qa = scaled(tsc, s as u64);
    let qb = scaled(start, s as u64);
    lemma_scaled_bound(tsc, s as u64);
    lemma_scaled_bound(start, s as u64);
    assert(w * qa <= a < w * qa + w);
    assert(w * qb <= b < w * qb + w);
    assert(a - b == e * s) by (nonlinear_arith)
        requires
            a == tsc * s,
            b == start * s,
            e == tsc - start,
    ;
    assert(r == qa - qb);
    assert(w * r < e * s + w && w * r > e * s - w);
    assert(w * (r * f) <= w * (e * 10_000_000 + f)) by (nonlinear_arith)
        requires
            w * r < e * s + w,
            s * f <= n,
            n == 10_000_000 * w,
            f > 0,
            e >= 0,
            w > 0,
    {
        assert(w * r * f <= (e * s + w) * f);
        assert((e * s + w) * f == e * (s * f) + w * f);
        assert(e * (s * f) <= e * n);
    }
    assert(w * (e * 10_000_000) < w * ((r + 2) * f)) by (nonlinear_arith)
        requires
            w * r > e * s - w,
            n < s * f + f,
            n == 10_000_000 * w,
            f > 0,
            0 <= e < w,
    {
        assert(w * r * f >= (e * s - w + 1) * f);
        assert((e * s - w + 1) * f == e * (s * f) - w * f + f);
        assert(e * (s * f) >= e * (n - f));
        assert(e * (n - f) == e * n - e * f);
        assert(e * f <= w * f);
        assert(w * ((r + 2) * f) == w * r * f + 2 * (w * f));
    }
    assert(r * f <= e * 10_000_000 + f) by (nonlinear_arith)
        requires
            w * (r * f) <= w * (e * 10_000_000 + f),
            w > 0,
    ;
    assert(e * 10_000_000 < (r + 2) * f) by (nonlinear_arith)
        requires
            w * (e * 10_000_000) < w * ((r + 2) * f),
            w > 0,
    ;
}

} // verus!
