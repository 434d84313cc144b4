use whp_vmm::devices::legacy::ioapic::IoApic;
use whp_vmm::devices::legacy::irqchip::IrqChip;
use whp_vmm::devices::legacy::simple_irqchip::SimpleIrqChip;
use whp_vmm::devices::virtio::block::device::Block;
use whp_vmm::devices::virtio::console::device::Console;
use whp_vmm::devices::virtio::device::{ActivateError, VirtioDevice};
use whp_vmm::devices::virtio::mmio::{InterruptTransport, MmioTransport, TransportEvent};
use whp_vmm::devices::virtio::mmio_adapter::{AccessError, MmioTransportAdapter};
use whp_vmm::devices::virtio::net::device::Net;
use whp_vmm::devices::virtio::rng::device::Rng;
use whp_vmm::memory::memory::GuestAddress;

fn chip() -> IrqChip {
    IrqChip::Simple(SimpleIrqChip::new(0, 0))
}

fn read<D: VirtioDevice>(t: &MmioTransport<D>, offset: u64) -> u32 {
    let mut data = [0u8; 4];
    t.read(offset, &mut data);
    u32::from_le_bytes(data)
}

fn write<D: VirtioDevice>(t: &mut MmioTransport<D>, offset: u64, value: u32) -> TransportEvent {
    t.write(&mut chip(), offset, &value.to_le_bytes())
}

fn rng() -> MmioTransport<Rng> {
    MmioTransport::new(Rng::new(), "rng".to_string())
}

fn started() -> MmioTransport<Rng> {
    let mut t = rng();
    for status in [1, 3] {
        assert_eq!(write(&mut t, 0x70, status), TransportEvent::Nothing);
    }
    write(&mut t, 0x20, 1 << 29);
    write(&mut t, 0x24, 1);
    write(&mut t, 0x20, u32::MAX);
    assert_eq!(write(&mut t, 0x70, 11), TransportEvent::Nothing);
    write(&mut t, 0x38, 16);
    for (offset, value) in [(0x80, 0x1000), (0x84, 1), (0x90, 0x2000), (0x94, 2), (0xa0, 0x3000), (0xa4, 3)] {
        write(&mut t, offset, value);
    }
    write(&mut t, 0x44, 1);
    assert_eq!(read(&t, 0x44), 1);
    t
}

#[test]
fn identification() {
    let t = rng();
    assert_eq!(read(&t, 0x00), 0x7472_6976);
    assert_eq!(read(&t, 0x04), 2);
    assert_eq!(read(&t, 0x08), 4);
    assert_eq!(read(&t, 0x0c), 0);
    assert_eq!(read(&t, 0x34), t.queue_config[0].size as u32);
    assert_eq!(read(&t, 0x44), 0);
    assert_eq!(read(&t, 0xfc), 0);
    let net = MmioTransport::new(Net::new([1, 2, 3, 4, 5, 6]), "net".to_string());
    assert_eq!(read(&net, 0x08), 1);
    assert_eq!(read(&net, 0x100), 0x0403_0201);
    let mut two = [0u8; 2];
    net.read(0x104, &mut two);
    assert_eq!(two, [5, 6]);
}

#[test]
fn a_disk_has_a_size() {
    let mut t = MmioTransport::new(Block::new(0x100_0000_0000 + 511), "block".to_string());
    assert_eq!(read(&t, 0x08), 2);
    assert_eq!(read(&t, 0x34), 256);
    assert_eq!(read(&t, 0x10), 1 << 9);
    let mut size = [0u8; 8];
    t.read(0x100, &mut size);
    assert_eq!(u64::from_le_bytes(size), 0x8000_0000);
    assert_eq!(t.write(&mut chip(), 0x100, &[1]), TransportEvent::Nothing);
    assert_eq!(t.device.activate(vec![]), Err(ActivateError::BadActivate));
    assert!(!t.device.is_activated());
}

#[test]
fn features_come_in_pages() {
    let mut t = rng();
    assert_eq!(read(&t, 0x10), t.device.avail_features() as u32);
    write(&mut t, 0x14, 1);
    assert_eq!(read(&t, 0x10), 1);
    write(&mut t, 0x14, 2);
    assert_eq!(read(&t, 0x10), 0);
}

#[test]
fn only_offered_features_are_accepted() {
    let mut t = rng();
    write(&mut t, 0x20, u32::MAX);
    assert_eq!(t.device.acked_features(), 0);
    write(&mut t, 0x70, 1);
    write(&mut t, 0x70, 3);
    write(&mut t, 0x20, u32::MAX);
    write(&mut t, 0x24, 1);
    write(&mut t, 0x20, u32::MAX);
    assert_eq!(t.device.acked_features(), t.device.avail_features());
}

#[test]
fn the_set_up_is_in_order() {
    let mut t = rng();
    for status in [3, 11, 15] {
        write(&mut t, 0x70, status);
        assert_eq!(read(&t, 0x70), 0);
    }
    write(&mut t, 0x70, 1);
    write(&mut t, 0x70, 5);
    assert_eq!(read(&t, 0x70), 1);
    write(&mut t, 0x70, 0x80);
    assert_eq!(read(&t, 0x70), 0x81);
    write(&mut t, 0x70, 0);
    assert_eq!(read(&t, 0x70), 0x81);
}

#[test]
fn activation_hands_over_the_queues() {
    let mut t = started();
    t.set_irq_line(22);
    assert_eq!(write(&mut t, 0x70, 15), TransportEvent::Activated);
    assert!(t.device.is_activated() && t.queues.is_none());
    let q = t.device.queues.as_ref().unwrap()[0];
    assert_eq!((q.size, q.ready, q.event_idx_enabled), (16, true, t.device.acked_features() >> 29 & 1 == 1));
    assert_eq!(q.desc_table, GuestAddress(0x1_0000_1000));
    assert_eq!(q.avail_ring, GuestAddress(0x2_0000_2000));
    assert_eq!(q.used_ring, GuestAddress(0x3_0000_3000));
    t.set_irq_line(5);
    assert_eq!(t.interrupt.irq_line(), Some(22));
    assert_eq!(read(&t, 0x34), 0);
    write(&mut t, 0x38, 8);
    assert_eq!(write(&mut t, 0x50, 0), TransportEvent::Notify(0));
    assert_eq!(write(&mut t, 0x50, 1), TransportEvent::Nothing);
}

#[test]
fn queues_are_set_up_after_the_features() {
    let mut t = rng();
    write(&mut t, 0x44, 1);
    assert_eq!(read(&t, 0x44), 0);
    let mut t = started();
    write(&mut t, 0x30, 1);
    assert_eq!(read(&t, 0x34), 0);
    write(&mut t, 0x44, 0);
    write(&mut t, 0x30, 0);
    assert_eq!(read(&t, 0x44), 1);
}

#[test]
fn interrupts_are_acknowledged() {
    let mut t = started();
    write(&mut t, 0x70, 15);
    t.interrupt(3);
    assert_eq!(read(&t, 0x60), 3);
    write(&mut t, 0x64, 1);
    assert_eq!(read(&t, 0x60), 2);
    write(&mut t, 0x64, 2);
    assert_eq!(read(&t, 0x60), 0);
}

#[test]
fn the_last_acknowledgement_lowers_the_line() {
    let mut t = started();
    t.set_irq_line(4);
    write(&mut t, 0x70, 15);
    let mut intc = IrqChip::IoApic(IoApic::new(0, 0));
    t.interrupt.signal_used_queue(&mut intc);
    t.interrupt.signal_config_change(&mut intc);
    assert_eq!(t.interrupt.status(), 3);
    let irr = |intc: &IrqChip| match intc {
        IrqChip::IoApic(a) => a.irr,
        IrqChip::Simple(_) => 0,
    };
    assert_eq!(irr(&intc), 16);
    t.write(&mut intc, 0x64, &1u32.to_le_bytes());
    assert_eq!(irr(&intc), 16);
    t.write(&mut intc, 0x64, &2u32.to_le_bytes());
    assert_eq!(irr(&intc), 0);
}

#[test]
fn a_reset_starts_over_or_fails() {
    let mut t = started();
    write(&mut t, 0x14, 1);
    assert_eq!(write(&mut t, 0x70, 0), TransportEvent::Nothing);
    assert_eq!(read(&t, 0x70), 0);
    assert_eq!(read(&t, 0x44), 0);
    let mut t = started();
    write(&mut t, 0x70, 15);
    let event = write(&mut t, 0x70, 0);
    if event == TransportEvent::Stopped {
        assert_eq!(read(&t, 0x70), 0);
        assert!(!t.device.is_activated());
    } else {
        assert_eq!(read(&t, 0x70), 0x8F);
    }
}

#[test]
fn shared_memory_is_absent() {
    let mut t = rng();
    write(&mut t, 0xac, 1);
    assert_eq!(read(&t, 0xb0), u32::MAX);
    assert_eq!(read(&t, 0xb4), u32::MAX);
    assert_eq!(read(&t, 0xb8), 0);
    assert_eq!(read(&t, 0xbc), 0);
}

#[test]
fn a_console_prints_emergency_characters() {
    let mut t = MmioTransport::new(Console::new(80, 25), "console".to_string());
    assert_eq!(read(&t, 0x08), 3);
    assert_eq!(read(&t, 0x100), 25 << 16 | 80);
    assert_eq!(t.write(&mut chip(), 0x108, b"A"), TransportEvent::Nothing);
    write(&mut t, 0x70, 1);
    write(&mut t, 0x70, 3);
    assert_eq!(t.write(&mut chip(), 0x108, b"A"), TransportEvent::Print(b'A'));
    assert_eq!(t.write(&mut chip(), 0x100, b"A"), TransportEvent::Nothing);
}

#[test]
fn the_interrupt_side_alone() {
    let mut i = InterruptTransport::new("x".to_string());
    assert_eq!((i.status(), i.irq_line()), (0, None));
    i.set_irq_line(7);
    let mut intc = chip();
    assert!(i.try_signal(&mut intc, 4).signal_event);
    assert!(i.try_signal_used_queue(&mut intc).signal_event);
    assert!(i.try_signal_config_change(&mut intc).signal_event);
    i.try_clear_irq(&mut intc);
    assert_eq!(i.status(), 7);
    i.shared = true;
    i.set_irq_line(8);
    assert_eq!(i.irq_line(), Some(7));
}

#[test]
fn the_adapter_takes_ordinary_sizes() {
    let mut a = MmioTransportAdapter::new(MmioTransport::new(Net::new([1, 2, 3, 4, 5, 6]), "net".to_string()));
    assert_eq!(a.handle_read(0, 4), Ok(0x7472_6976));
    assert_eq!(a.handle_read(0, 2), Ok(0));
    assert_eq!(a.handle_read(0x100, 1), Ok(1));
    assert_eq!(a.handle_read(0x102, 2), Ok(0x0403));
    assert_eq!(a.handle_read(0, 3), Err(AccessError::UnsupportedReadSize(3)));
    assert_eq!(a.handle_write(&mut chip(), 0x70, 4, 1), Ok(TransportEvent::Nothing));
    assert_eq!(a.handle_read(0x70, 4), Ok(1));
    assert_eq!(a.handle_write(&mut chip(), 0, 16, 1), Err(AccessError::UnsupportedWriteSize(16)));
    assert_eq!(AccessError::UnsupportedReadSize(3).message(), "Unsupported read size: 3");
    assert_eq!(AccessError::UnsupportedWriteSize(16).message(), "Unsupported write size: 16");
}
