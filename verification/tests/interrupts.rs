use whp_vmm::devices::legacy::ioapic::{InterruptRequest, IoApic, IoApicEntryInfo};
use whp_vmm::devices::legacy::irqchip::{IoApicMmioAdapter, IrqChip};
use whp_vmm::devices::legacy::simple_irqchip::SimpleIrqChip;

fn select(apic: &mut IoApic, register: u8, value: u32) -> Vec<InterruptRequest> {
    assert!(apic.write(0, &(register as u32).to_le_bytes()).is_empty());
    apic.write(0x10, &value.to_le_bytes())
}

fn window(apic: &mut IoApic, register: u8) -> u32 {
    apic.write(0, &(register as u32).to_le_bytes());
    let mut data = [0u8; 4];
    apic.read(0x10, &mut data);
    u32::from_le_bytes(data)
}

fn fixed(vector: u32, level: bool) -> InterruptRequest {
    InterruptRequest { bitfield: (level as u64) << 12, destination: 0, vector }
}

#[test]
fn a_new_controller_is_masked() {
    let mut apic = IoApic::new(0xFEC0_0000, 0x20);
    assert_eq!((apic.get_mmio_addr(), apic.get_mmio_size()), (0xFEC0_0000, 0x20));
    assert_eq!(window(&mut apic, 0), 0);
    assert_eq!(window(&mut apic, 1), 0x17_0020);
    for register in 0x10..0x40 {
        assert_eq!(window(&mut apic, register), if register % 2 == 0 { 0x1_0000 } else { 0 });
    }
    assert_eq!(window(&mut apic, 0x40), 0);
    assert_eq!(apic.set_irq(Some(3)), vec![]);
    assert_eq!(apic.irr, 8);
}

#[test]
fn entries_are_parsed() {
    assert_eq!(
        IoApic::parse_entry(0xAB01_0000_0001_8F31),
        IoApicEntryInfo {
            masked: true,
            trig_mode: 1,
            dest_idx: 0xAB,
            dest_mode: 1,
            delivery_mode: 7,
            vector: 0x31,
        }
    );
}

#[test]
fn delivery_modes_become_interrupt_types() {
    let info = |delivery_mode| IoApicEntryInfo {
        masked: false,
        trig_mode: 1,
        dest_idx: 2,
        dest_mode: 1,
        delivery_mode,
        vector: 9,
    };
    for (mode, kind) in [(0u8, 0u64), (1, 1), (2, 0), (4, 4), (5, 5), (7, 0)] {
        let r = IoApic::inject_interrupt(&info(mode));
        assert_eq!(r, InterruptRequest { bitfield: 0x1100 | kind, destination: 2, vector: 9 });
    }
}

#[test]
fn edge_interrupts_are_delivered_once() {
    let mut apic = IoApic::new(0, 0);
    assert_eq!(select(&mut apic, 0x10 + 2 * 20, 0x30), vec![]);
    assert_eq!(apic.set_irq(Some(20)), vec![fixed(0x30, false)]);
    assert_eq!(apic.irr, 0);
    assert_eq!(apic.service(), vec![]);
    assert_eq!(apic.set_irq(Some(24)), vec![]);
    assert_eq!(apic.set_irq(None), vec![]);
}

#[test]
fn level_interrupts_wait_for_acknowledgement() {
    let mut apic = IoApic::new(0, 0);
    select(&mut apic, 0x10 + 2 * 21, 0x8031);
    assert_eq!(apic.set_irq(Some(21)), vec![fixed(0x31, true)]);
    assert_eq!(window(&mut apic, 0x10 + 2 * 21), 0xC031);
    assert_eq!(apic.set_irq(Some(21)), vec![]);
    assert_eq!(apic.write(0x40, &0x30u32.to_le_bytes()), vec![]);
    assert_eq!(apic.write(0x40, &0x31u32.to_le_bytes()), vec![fixed(0x31, true)]);
    apic.clear_irq(Some(21));
    assert_eq!(apic.write(0x40, &0x31u32.to_le_bytes()), vec![]);
    assert_eq!(window(&mut apic, 0x10 + 2 * 21), 0x8031);
}

#[test]
fn unmasking_delivers_what_waits() {
    let mut apic = IoApic::new(0, 0);
    apic.set_irq(Some(0));
    apic.set_irq(Some(1));
    assert_eq!(apic.irr, 3);
    apic.clear_irq(Some(0));
    apic.clear_irq(Some(40));
    assert_eq!(select(&mut apic, 0x10, 0x20), vec![]);
    assert_eq!(select(&mut apic, 0x13, 0x0500_0000), vec![]);
    assert_eq!(
        select(&mut apic, 0x12, 0x21),
        vec![InterruptRequest { bitfield: 0, destination: 5, vector: 0x21 }]
    );
}

#[test]
fn read_only_bits_stay() {
    let mut apic = IoApic::new(0, 0);
    apic.ioredtbl[2] = 0xD000;
    select(&mut apic, 0x14, 0x8000);
    assert_eq!(apic.ioredtbl[2], 0xD000);
    select(&mut apic, 0x14, 0x5000);
    assert_eq!(apic.ioredtbl[2], 0x1000);
}

#[test]
fn odd_accesses_are_ignored() {
    let mut apic = IoApic::new(0, 0);
    select(&mut apic, 0, 0xFF00_0000);
    assert_eq!(window(&mut apic, 2), 0x0F00_0000);
    select(&mut apic, 5, 1);
    select(&mut apic, 0x40, 1);
    assert_eq!(apic.write(0x10, &[1]), vec![]);
    assert_eq!(apic.write(0x20, &[1; 4]), vec![]);
    let mut short = [7u8; 2];
    apic.read(0x10, &mut short);
    assert_eq!(short, [7, 7]);
    apic.read(0, &mut short);
    assert_eq!(short, [0x40, 0]);
    let mut other = [7u8; 4];
    apic.read(0x30, &mut other);
    assert_eq!(other, [0; 4]);
}

#[test]
fn the_simple_controller_signals_events() {
    let mut chip = SimpleIrqChip::new(1, 2);
    assert_eq!((chip.get_mmio_addr(), chip.get_mmio_size()), (1, 2));
    assert!(!chip.set_irq(Some(5), false));
    assert!(chip.set_irq(Some(6), true));
    assert_eq!(chip.irq_line, Some(6));
    let mut any = IrqChip::Simple(chip);
    let effect = any.set_irq(None, true);
    assert!(effect.signal_event && effect.injected.is_empty());
    any.clear_irq(Some(6));
    assert_eq!((any.get_mmio_addr(), any.get_mmio_size()), (1, 2));
    let mut data = [9u8; 4];
    any.read(0, &mut data);
    assert_eq!(data, [9; 4]);
    assert!(any.write(0, &data).is_empty());
}

#[test]
fn the_adapter_passes_accesses_on() {
    let mut adapter = IoApicMmioAdapter::new(IrqChip::IoApic(IoApic::new(3, 4)));
    assert_eq!((adapter.irqchip.get_mmio_addr(), adapter.irqchip.get_mmio_size()), (3, 4));
    assert!(adapter.write(0, &[0x10, 0, 0, 0]).is_empty());
    assert!(adapter.write(0x10, &[0x22, 0, 0, 0]).is_empty());
    let effect = adapter.irqchip.set_irq(Some(0), true);
    assert_eq!(effect.injected, vec![fixed(0x22, false)]);
    assert!(!effect.signal_event);
    let mut data = [0u8; 4];
    adapter.read(0x10, &mut data);
    assert_eq!(data, [0x22, 0, 0, 0]);
}
