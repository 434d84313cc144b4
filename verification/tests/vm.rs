use whp_vmm::devices::legacy::ioapic::InterruptRequest;
use whp_vmm::linux_boot::{RegisterName, RegisterValue};
use whp_vmm::memory::layout::MemoryLayout;
use whp_vmm::memory::memory::{GuestAddress, MemoryError, MemoryPerms, MemoryRegion};
use whp_vmm::partition::{Partition, PartitionError};
use whp_vmm::vm::{
    after_mmio_emulation, after_port_emulation, get_tsc_frequency_hz, run, Clock, CpuidAccess, ExitAction,
    ExitContext, MsrAccess, RunAction, RunEvent, RunNote, RunState, StopReason, EXIT_APIC_EOI, EXIT_CPUID,
    EXIT_EXCEPTION, EXIT_HALT, EXIT_INTERRUPT_WINDOW, EXIT_IO_PORT_ACCESS, EXIT_MEMORY_ACCESS, EXIT_MSR_ACCESS,
    EXIT_NONE,
};

fn layout() -> MemoryLayout {
    MemoryLayout {
        boot_gdt_start: 0x500,
        boot_stack_pointer: 0x8ff0,
        zero_page_start: 0x7000,
        pml4_start: 0x9000,
        pdpte_start: 0xa000,
        cmdline_start: 0x2_0000,
        cmdline_max_size: 0x1_0000,
        high_ram_start: 0x10_0000,
        mem_32bit_reserved_start: 0xc000_0000,
        mem_32bit_reserved_size: 0x4000_0000,
        mem_32bit_devices_start: 0xc000_0000,
        mem_32bit_devices_size: 0x2800_0000,
        pci_mmconfig_start: 0xe800_0000,
        pci_mmconfig_size: 0x1000_0000,
        pci_mmio_config_size_per_segment: 0x10_0000,
        virtio_mmio_start: 0xd000_0000,
        virtio_mmio_size_per_device: 0x1000,
        ioapic_start: 0xfec0_0000,
        ioapic_size: 0x20,
        apic_start: 0xfee0_0000,
        ram_64bit_start: 0x1_0000_0000,
    }
}

const CLOCK: Clock = Clock { now: 5_000, elapsed: 0 };

fn machine() -> Partition {
    let mut p = Partition::new(0x1_0000, layout(), 4_000_000_000, 2_000_000_000);
    p.allocate_memory_with_size(0x1_0000, MemoryPerms::rwx(), Some(vec![0; 0x1_0000])).unwrap();
    p
}

fn exit(reason: i32) -> ExitContext {
    ExitContext {
        reason,
        rip: 0x1000,
        bitfield: 0xF2,
        memory_access_info: 0,
        memory_gpa: 0,
        eoi_vector: 0,
        cpuid: CpuidAccess { leaf: 0, rax: 1, rbx: 2, rcx: 3, rdx: 4 },
        msr: MsrAccess { number: 0, access_info: 0, rax: 0, rdx: 0 },
    }
}

fn registers(r: Result<ExitAction, PartitionError>) -> Vec<(RegisterName, u64)> {
    match r {
        Ok(ExitAction::SetRegisters(list)) => list
            .into_iter()
            .map(|(name, value)| match value {
                RegisterValue::Reg64(v) => (name, v),
                _ => panic!("not a plain register"),
            })
            .collect(),
        other => panic!("{:?}", other),
    }
}

fn msr(p: &mut Partition, number: u32, write: bool, rax: u64, rdx: u64) -> Vec<(RegisterName, u64)> {
    let msr = MsrAccess { number, access_info: write as u32, rax, rdx };
    registers(p.handle_exit(&ExitContext { msr, ..exit(EXIT_MSR_ACCESS) }, &CLOCK))
}

fn halves(list: &[(RegisterName, u64)]) -> (u64, u64) {
    assert_eq!(list[0].0, RegisterName::Rax);
    assert_eq!(list[1].0, RegisterName::Rdx);
    assert_eq!(list[2], (RegisterName::Rip, 0x1002));
    (list[0].1, list[1].1)
}

#[test]
fn the_hypervisor_leaves_are_answered() {
    let mut p = machine();
    let mut ask = |leaf: u64| {
        let cpuid = CpuidAccess { leaf, rax: 1, rbx: 2, rcx: 3, rdx: 4 };
        let list = registers(p.handle_exit(&ExitContext { cpuid, ..exit(EXIT_CPUID) }, &CLOCK));
        assert_eq!(list[4], (RegisterName::Rip, 0x1002));
        (list[0].1, list[1].1, list[2].1, list[3].1)
    };
    let (max, b, c, d) = ask(0x4000_0000);
    assert_eq!(max, 0x4000_0005);
    let mut vendor = Vec::new();
    for v in [b, c, d] {
        vendor.extend_from_slice(&(v as u32).to_le_bytes());
    }
    assert_eq!(vendor, b"Microsoft Hv".to_vec());
    assert_eq!(ask(0x4000_0001), (u32::from_le_bytes(*b"Hv#1") as u64, 0, 0, 0));
    assert_eq!(ask(0x4000_0002), (0, 10 << 16, 0, 0));
    assert_eq!(ask(0x4000_0003), (1 << 1 | 1 << 9 | 1 << 15, 0, 0, 0));
    assert_eq!(ask(0x4000_0004), (0, 0, 0, 0));
    assert_eq!(ask(0x4000_0005), (0, 0, 0, 0));
    assert_eq!(ask(0x4000_0006), (1, 2, 3, 4));
    assert_eq!(ask(1), (1, 2, 3, 4));
}

#[test]
fn the_next_instruction_must_have_an_address() {
    let mut p = machine();
    let r = p.handle_exit(&ExitContext { rip: u64::MAX, ..exit(EXIT_CPUID) }, &CLOCK);
    assert!(matches!(r, Err(PartitionError::RipOverflow)));
    let r = p.handle_exit(&ExitContext { rip: u64::MAX - 1, ..exit(EXIT_MSR_ACCESS) }, &CLOCK);
    assert!(matches!(r, Err(PartitionError::RipOverflow)));
}

#[test]
fn registers_read_back_what_was_written() {
    let mut p = machine();
    for number in [0x4000_0000, 0x4000_0118] {
        assert_eq!(halves(&msr(&mut p, number, false, 0, 0)), (0, 0));
        assert_eq!(
            msr(&mut p, number, true, 0xFFFF_FFFF_1234_5678, 0x9ABC_DEF0),
            vec![(RegisterName::Rip, 0x1002)]
        );
        assert_eq!(halves(&msr(&mut p, number, false, 0, 0)), (0x1234_5678, 0x9ABC_DEF0));
    }
    let msr_access = MsrAccess { number: 0x4000_0000, access_info: 0, rax: 0, rdx: 0 };
    let read = p.handle_msr_access(&ExitContext { msr: msr_access, ..exit(EXIT_MSR_ACCESS) }, 0);
    assert_eq!(halves(&registers(read)), (0x1234_5678, 0x9ABC_DEF0));
    assert_eq!(halves(&msr(&mut p, 0x4000_0001, false, 0, 0)), (1, 0));
    assert_eq!(msr(&mut p, 0x4000_0001, true, 7, 7), vec![(RegisterName::Rip, 0x1002)]);
    assert_eq!(halves(&msr(&mut p, 0x1B, false, 0, 0)), (0, 0));
}

#[test]
fn memory_at_the_end_of_the_address_space_does_not_matter() {
    let mut p = machine();
    p.memory_manager_mut().register_region(MemoryRegion::new(
        GuestAddress(u64::MAX - 0xFFF),
        0x1000,
        MemoryPerms::rwx(),
        Some(vec![0; 0x1000]),
    ));
    msr(&mut p, 0x4000_0000, true, 7, 8);
    assert_eq!(halves(&msr(&mut p, 0x4000_0000, false, 0, 0)), (7, 8));
    let msr = MsrAccess { number: 0x4000_0021, access_info: 1, rax: 0xFFFF_F001, rdx: 0xFFFF_FFFF };
    let r = p.handle_exit(&ExitContext { msr, ..exit(EXIT_MSR_ACCESS) }, &CLOCK);
    assert!(matches!(r, Err(PartitionError::Memory(MemoryError::WriteExceeds))));
}

#[test]
fn the_reference_counter_counts_100_nanoseconds() {
    let mut p = machine();
    let msr = MsrAccess { number: 0x4000_0020, access_info: 0, rax: 0, rdx: 0 };
    let clock = Clock { now: 0, elapsed: 0x5_0000_0003 * 100 + 99 };
    let list = registers(p.handle_exit(&ExitContext { msr, ..exit(EXIT_MSR_ACCESS) }, &clock));
    assert_eq!(halves(&list), (3, 5));
}

#[test]
fn the_reference_time_page_is_written() {
    let mut p = machine();
    assert_eq!(halves(&msr(&mut p, 0x4000_0021, false, 0, 0)), (0, 0));
    msr(&mut p, 0x4000_0021, true, 0x2FF1, 0);
    assert_eq!(halves(&msr(&mut p, 0x4000_0021, false, 0, 0)), (0x2001, 0));
    let page = p.read_memory(GuestAddress(0x2000), 4096).unwrap();
    assert_eq!(&page[0..8], &[1, 0, 0, 0, 0, 0, 0, 0]);
    let scale = u64::from_le_bytes(page[8..16].try_into().unwrap());
    let offset = i64::from_le_bytes(page[16..24].try_into().unwrap());
    assert_eq!(scale, (10_000_000u128 * (1 << 64) / 2_000_000_000) as u64);
    let time = |tsc: u64| ((tsc as u128 * scale as u128) >> 64) as i64 + offset;
    assert_eq!(time(4_000_000_000), 0);
    assert_eq!(time(6_000_000_000), 10_000_000);
    assert!(time(6_000_000_001) >= time(6_000_000_000));
    msr(&mut p, 0x4000_0021, true, 0x2000, 0);
    assert_eq!(halves(&msr(&mut p, 0x4000_0021, false, 0, 0)), (0, 0));
}

#[test]
fn the_reference_time_page_may_fail() {
    let mut p = machine();
    let write = |rax| ExitContext {
        msr: MsrAccess { number: 0x4000_0021, access_info: 1, rax, rdx: 0 },
        ..exit(EXIT_MSR_ACCESS)
    };
    let r = p.handle_exit(&write(0x8000_0001), &CLOCK);
    assert!(matches!(r, Err(PartitionError::Memory(MemoryError::NotAllocated))));
    assert_eq!(p.tsc_reference_gpa, None);
    p.tsc_frequency = 0;
    let r = p.handle_exit(&write(0x2001), &CLOCK);
    assert!(matches!(r, Err(PartitionError::NoTscFrequency)));
}

#[test]
fn the_counter_frequency() {
    assert_eq!(get_tsc_frequency_hz(2, 216, 24_000_000, 0), 2_592_000_000);
    assert_eq!(get_tsc_frequency_hz(0, 216, 24_000_000, 2_600), 2_600_000_000);
    assert_eq!(get_tsc_frequency_hz(2, 0, 24_000_000, 0), 2_712_000_000);
}

#[test]
fn the_timer_fires_once_a_millisecond() {
    let mut p = machine();
    let mut window = |now| p.handle_exit(&exit(EXIT_INTERRUPT_WINDOW), &Clock { now, elapsed: 0 }).unwrap();
    let timer = InterruptRequest { bitfield: 0, destination: 0, vector: 0x20 };
    assert!(matches!(window(7), ExitAction::Inject(i) if i == timer));
    assert!(matches!(window(7), ExitAction::Continue));
    assert!(matches!(window(6), ExitAction::Continue));
    assert!(matches!(window(8), ExitAction::Inject(_)));
}

#[test]
fn memory_exits_go_to_devices() {
    let mut p = machine();
    p.register_mmio_region(0xFEC0_0000, 0x20, "IOAPIC".to_string(), Some("ioapic".to_string())).unwrap();
    let mut access = |memory_gpa| {
        p.handle_exit(&ExitContext { memory_gpa, ..exit(EXIT_MEMORY_ACCESS) }, &CLOCK).unwrap()
    };
    assert!(matches!(access(0xFEC0_001F), ExitAction::EmulateMmio));
    assert!(matches!(access(0xFEC0_0020), ExitAction::Stop));
    assert!(matches!(access(0x1000), ExitAction::Stop));
}

#[test]
fn memory_exits_are_logged() {
    let mut p = machine();
    p.register_mmio_region(0xFEC0_0000, 0x20, "IOAPIC".to_string(), Some("ioapic".to_string())).unwrap();
    for (memory_gpa, memory_access_info) in [(0xFEC0_0000, 1), (0x3000, 2), (0x9999_0000, 3)] {
        let c = ExitContext { memory_gpa, memory_access_info, ..exit(EXIT_MEMORY_ACCESS) };
        p.handle_exit(&c, &CLOCK).unwrap();
    }
    p.handle_exit(&exit(EXIT_HALT), &CLOCK).unwrap();
    assert_eq!(
        p.memory.access_log,
        vec![(0xFEC0_0000, true, 0), (0x3000, false, 1), (0x9999_0000, true, 2)]
    );
    for memory_gpa in 0..1000 {
        p.handle_exit(&ExitContext { memory_gpa, ..exit(EXIT_MEMORY_ACCESS) }, &CLOCK).unwrap();
    }
    assert_eq!(p.memory.access_log.len(), 1000);
    assert_eq!(p.memory.access_log[0], (0, false, 3));
    assert_eq!(p.memory.access_log[999], (999, false, 1000));
}

#[test]
fn faults_are_reported() {
    let mut p = machine();
    p.register_mmio_region(0xFEC0_0000, 0x20, "IOAPIC".to_string(), None).unwrap();
    let report = |memory_gpa, memory_access_info| {
        p.fault_report(&ExitContext { memory_gpa, memory_access_info, ..exit(EXIT_MEMORY_ACCESS) })
    };
    assert_eq!(report(0xFEC0_0000, 1), None);
    assert_eq!(
        report(0x9000_0000, 0x11).unwrap(),
        "Memory Access Violation:\n  GPA: 0x0000000090000000\n  Type: MemoryPerms(WRITE)\n  Size: 4 bytes\n  RIP: \
         0x0000000000001000\n  ❌ GPA not mapped to any region!\n"
    );
    assert!(report(0x3000, 2).unwrap().ends_with("  ❌ Execute access violation!\n"));
    assert_eq!(p.fault_report(&ExitContext { memory_gpa: 0x9000_0000, ..exit(EXIT_HALT) }), None);
}

#[test]
fn acknowledged_vectors_go_to_the_interrupt_controller() {
    let mut p = machine();
    let eoi = ExitContext { eoi_vector: 0x31, ..exit(EXIT_APIC_EOI) };
    assert!(matches!(p.handle_exit(&eoi, &CLOCK), Ok(ExitAction::Continue)));
    p.register_mmio_handler("pci_ecam".to_string());
    p.register_mmio_handler("ioapic".to_string());
    match p.handle_exit(&eoi, &CLOCK) {
        Ok(ExitAction::WriteHandler { handler, offset, data }) => {
            assert_eq!((handler, offset, data), (1, 0x40, vec![0x31, 0, 0, 0]));
        }
        other => panic!("{:?}", other),
    }
}

#[test]
fn other_exits() {
    let mut p = machine();
    let mut handle = |reason| p.handle_exit(&exit(reason), &CLOCK).unwrap();
    assert!(matches!(handle(EXIT_IO_PORT_ACCESS), ExitAction::EmulatePort));
    assert!(matches!(handle(EXIT_HALT), ExitAction::Continue));
    for reason in [EXIT_NONE, 4, 5, 6, EXIT_EXCEPTION, 0x2001, -1] {
        assert!(matches!(handle(reason), ExitAction::Stop));
    }
    assert!(after_mmio_emulation(Some(1)) && after_mmio_emulation(Some(0x81)));
    assert!(!after_mmio_emulation(Some(2)) && !after_mmio_emulation(None));
    assert!(after_port_emulation(3) && !after_port_emulation(4));
}

#[test]
fn the_machine_runs_until_it_is_told_to_stop() {
    let mut s = RunState::new();
    let start = RunEvent::Start { rip: Some(9), kernel_entry: 9 };
    assert_eq!(run(&mut s, start), RunAction::Check(RunNote::Nothing));
    assert_eq!(run(&mut s, RunEvent::Running(true)), RunAction::RunVp);
    assert_eq!(run(&mut s, RunEvent::Exited { rip: Some(9) }), RunAction::HandleExit(RunNote::Nothing));
    let handled = RunEvent::Handled { run_on: Some(true) };
    assert_eq!(run(&mut s, handled), RunAction::Check(RunNote::Nothing));
    assert_eq!(
        run(&mut s, RunEvent::Running(false)),
        RunAction::Stop { reason: StopReason::Interrupted, iteration: 1 }
    );
}

#[test]
fn the_machine_stops() {
    let mut s = RunState { iteration: 3, last_rip: 0, rip_repeat_count: 0 };
    let mut stop = |event| match run(&mut s, event) {
        RunAction::Stop { reason, iteration } => {
            assert_eq!(iteration, 3);
            reason
        }
        other => panic!("{:?}", other),
    };
    assert_eq!(stop(RunEvent::Exited { rip: None }), StopReason::RunFailed);
    assert_eq!(stop(RunEvent::Handled { run_on: Some(false) }), StopReason::Stopped);
    assert_eq!(stop(RunEvent::Handled { run_on: None }), StopReason::ExitFailed);
}

#[test]
fn the_first_instruction_is_looked_at() {
    let mut s = RunState::new();
    assert_eq!(
        run(&mut s, RunEvent::Start { rip: Some(8), kernel_entry: 9 }),
        RunAction::Check(RunNote::RipMismatch { rip: 8, expected: 9 })
    );
    assert_eq!(
        run(&mut s, RunEvent::Start { rip: None, kernel_entry: 9 }),
        RunAction::Check(RunNote::RipUnknown)
    );
}

#[test]
fn a_stuck_machine_is_noticed() {
    let mut s = RunState::new();
    let mut notes = Vec::new();
    for i in 0..3002u64 {
        if let RunAction::HandleExit(RunNote::Stuck { count, .. }) =
            run(&mut s, RunEvent::Exited { rip: Some(0x50) })
        {
            notes.push((i, count));
        }
    }
    assert_eq!(notes, vec![(2000, 2000), (3000, 3000)]);
    assert_eq!(s.rip_repeat_count, 3001);
    assert_eq!(
        run(&mut s, RunEvent::Exited { rip: Some(0x60) }),
        RunAction::HandleExit(RunNote::Resumed { from: 0x50, to: 0x60, after: 3001 })
    );
    assert_eq!(s.rip_repeat_count, 0);
}

#[test]
fn a_running_machine_is_noted_now_and_then() {
    let mut s = RunState { iteration: 200_000, last_rip: 7, rip_repeat_count: 0 };
    assert_eq!(
        run(&mut s, RunEvent::Handled { run_on: Some(true) }),
        RunAction::Check(RunNote::Heartbeat { iteration: 200_000, rip: 7 })
    );
}
