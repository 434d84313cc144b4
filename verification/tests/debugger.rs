use whp_vmm::memory::debugger::{
    MemoryAccessViolation, MemoryDebugger, MemoryProtection, MemoryRegion, MmioRegion,
};

fn debugger(protection: MemoryProtection) -> MemoryDebugger {
    let mut d = MemoryDebugger::default();
    d.register_region(MemoryRegion {
        gpa: 0x1000,
        size: 0x1000,
        protection,
        description: "low".to_string(),
    });
    d.register_mmio(MmioRegion {
        gpa: 0xF000,
        size: 0x10,
        name: "uart".to_string(),
        handler: None,
    });
    d
}

fn access(gpa: u64, info: u32) -> MemoryAccessViolation {
    MemoryAccessViolation::from_exit_context(true, info, gpa, 0x10).unwrap()
}

#[test]
fn protections_as_flags() {
    assert_eq!(MemoryProtection::ReadWriteExecute.to_flags(), 7);
    assert_eq!(MemoryProtection::ReadWrite.to_flags(), 3);
    assert_eq!(MemoryProtection::ReadExecute.to_flags(), 5);
    assert_eq!(MemoryProtection::ReadOnly.to_flags(), 1);
    assert_eq!(MemoryProtection::ExecuteOnly.to_flags(), 4);
}

#[test]
fn only_memory_exits_have_a_violation() {
    assert_eq!(MemoryAccessViolation::from_exit_context(false, 1, 0, 0), None);
    let v = access(0x1000, 0b1_0101);
    assert!(v.is_write && !v.is_execute);
    assert_eq!(v.access_size, 5);
}

#[test]
fn regions_end_before_their_end_address() {
    let d = debugger(MemoryProtection::ReadOnly);
    assert!(d.find_region(0x0FFF).is_none());
    assert_eq!(d.find_region(0x1FFF).unwrap().description, "low");
    assert!(d.find_region(0x2000).is_none());
    assert_eq!(d.find_mmio(0xF00F).unwrap().name, "uart");
    assert!(d.find_mmio(0xF010).is_none());
}

#[test]
fn protection_violations_are_named() {
    let tail = "  ❌ Access violates region protection!\n";
    for (protection, write, execute, read) in [
        (MemoryProtection::ReadWriteExecute, false, false, false),
        (MemoryProtection::ReadWrite, false, true, false),
        (MemoryProtection::ReadExecute, true, false, false),
        (MemoryProtection::ReadOnly, true, true, false),
        (MemoryProtection::ExecuteOnly, true, false, true),
    ] {
        let d = debugger(protection);
        assert_eq!(d.analyze_violation(&access(0x1800, 1)).ends_with(tail), write);
        assert_eq!(d.analyze_violation(&access(0x1800, 2)).ends_with(tail), execute);
        assert_eq!(d.analyze_violation(&access(0x1800, 0)).ends_with(tail), read);
    }
}

#[test]
fn a_write_that_is_also_a_fetch_needs_both() {
    let tail = "  ❌ Access violates region protection!\n";
    for (protection, both) in [
        (MemoryProtection::ReadWriteExecute, false),
        (MemoryProtection::ReadWrite, true),
        (MemoryProtection::ReadExecute, true),
        (MemoryProtection::ReadOnly, true),
        (MemoryProtection::ExecuteOnly, true),
    ] {
        assert_eq!(debugger(protection).analyze_violation(&access(0x1800, 3)).ends_with(tail), both);
    }
}

#[test]
fn an_explanation_names_everything() {
    let d = debugger(MemoryProtection::ReadOnly);
    assert_eq!(
        d.analyze_violation(&access(0x1800, 1)),
        "Memory Access Violation:\n  GPA: 0x0000000000001800\n  Type: WRITE\n  Size: 0 bytes\n  RIP: \
         0x0000000000000010\n  Region: low (0x0000000000001000 - 0x0000000000002000)\n  Protection: \
         ReadOnly\n  ❌ Access violates region protection!\n"
    );
    assert!(d
        .analyze_violation(&access(0xF000, 0))
        .ends_with("  MMIO Region: uart (0x000000000000F000 - 0x000000000000F010)\n"));
    assert!(d.analyze_violation(&access(0, 2)).ends_with("  ❌ GPA not mapped to any region!\n"));
}

#[test]
fn the_map_and_the_log_as_text() {
    let mut d = debugger(MemoryProtection::ReadExecute);
    assert_eq!(
        d.print_memory_map(),
        "\n=== Memory Map ===\nGPA: 0x0000000000001000 - 0x0000000000002000 (low) - ReadExecute\n\n\
         === MMIO Regions ===\nGPA: 0x000000000000F000 - 0x000000000000F010 (uart)\n"
    );
    d.log_access(1, true);
    d.log_access(2, false);
    assert_eq!(
        d.print_access_log(1),
        "\n=== Recent Memory Accesses (last 1) ===\nGPA: 0x0000000000000002 - READ\n"
    );
    assert_eq!(
        d.print_access_log(9),
        "\n=== Recent Memory Accesses (last 9) ===\nGPA: 0x0000000000000001 - WRITE\nGPA: \
         0x0000000000000002 - READ\n"
    );
    let empty = MemoryDebugger::new();
    assert_eq!(empty.print_memory_map(), "\n=== Memory Map ===\n");
}

#[test]
fn the_log_forgets_the_oldest() {
    let mut d = MemoryDebugger::new();
    for i in 0..1002u64 {
        d.log_access(i, false);
    }
    assert_eq!(d.access_log.len(), 1000);
    assert_eq!(d.access_log[0].0, 2);
}
