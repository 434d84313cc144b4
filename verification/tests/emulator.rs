use whp_vmm::devices::virtio::wake::{duplex_step, queue_step, DuplexStep, QueueStep};
use whp_vmm::emulator::{find_handler, Emulator, EmulatorError, MmioRoute, PortAction};
use whp_vmm::memory::memory::{GuestAddress, MemoryManager, MmioRegion};

fn value(a: PortAction) -> u32 {
    match a {
        PortAction::Value(v) => v,
        other => panic!("{:?}", other),
    }
}

#[test]
fn characters_are_printed() {
    let mut e = Emulator::new();
    for port in [0x3F8, 0x2F8, 0x3E8, 0x2E8, 0x652, 42] {
        let action = e.io_port_callback(port, 1, 2, 0x3433_3231);
        assert!(matches!(action, PortAction::Print(b) if b == b"12"));
    }
    assert_eq!(e, Emulator::new());
}

#[test]
fn port_registers_read_back() {
    let mut e = Emulator::new();
    assert!(matches!(e.io_port_callback(0x3F9, 1, 1, 0x1AB), PortAction::Done));
    assert_eq!(value(e.io_port_callback(0x3F9, 0, 1, 0)), 0xAB);
    assert!(matches!(e.io_port_callback(0xCF8, 1, 4, 0x8000_1000), PortAction::Done));
    assert_eq!(value(e.io_port_callback(0xCF8, 0, 4, 0)), 0x8000_1000);
    assert_eq!(value(e.io_port_callback(0xCFC, 0, 4, 0)), 0xFFFF_FFFF);
}

#[test]
fn fixed_ports() {
    let mut e = Emulator::new();
    for (port, v) in [(43, 99), (0x70, 0), (0x71, 0), (0x3FD, 0x60)] {
        assert_eq!(value(e.io_port_callback(port, 0, 1, 0)), v);
    }
}

#[test]
fn timer_ports_count_slowly() {
    let mut e = Emulator::new();
    for i in 1..=200u32 {
        assert_eq!(value(e.io_port_callback(0x40, 0, 1, 0)), i / 100);
    }
    assert_eq!(value(e.io_port_callback(0x43, 0, 1, 0)), 2);
    e.rtc_counter = u64::MAX;
    e.rtc_time = u64::MAX;
    assert_eq!(value(e.io_port_callback(0x40, 0, 1, 0)), 0);
    assert_eq!((e.rtc_counter, e.rtc_time), (0, 0));
}

#[test]
fn the_control_port_toggles() {
    let mut e = Emulator::new();
    for i in 1..=256u32 {
        let expected = ((i >> 7) & 1) << 4 | ((i >> 6) & 1) << 5;
        assert_eq!(value(e.io_port_callback(0x61, 0, 1, 0)), expected);
    }
}

#[test]
fn other_ports_go_to_the_bus() {
    let mut e = Emulator::new();
    let action = e.io_port_callback(0x608, 1, 3, 0x0403_0201);
    assert!(matches!(action, PortAction::BusWrite(b) if b == [1, 2, 3]));
    let action = e.io_port_callback(0x608, 1, 9, 0x0403_0201);
    assert!(matches!(action, PortAction::BusWrite(b) if b == [1, 2, 3, 4]));
    assert!(matches!(e.io_port_callback(0x608, 0, 2, 0), PortAction::BusRead(2)));
    assert!(matches!(e.io_port_callback(0x608, 0, 8, 0), PortAction::BusRead(4)));
    assert_eq!(Emulator::bus_value(&Some(vec![1, 2, 3])), 0x03_0201);
    assert_eq!(Emulator::bus_value(&None), 0);
}

fn memory() -> MemoryManager {
    let mut mem = MemoryManager::new();
    let region = |gpa, handler: Option<&str>| MmioRegion {
        gpa: GuestAddress(gpa),
        size: 0x1000,
        name: "device".to_string(),
        handler: handler.map(|h| h.to_string()),
    };
    mem.register_mmio(region(0xD000_0000, Some("block")));
    mem.register_mmio(region(0xD000_1000, None));
    mem.register_mmio(region(0xD000_2000, Some("missing")));
    mem
}

#[test]
fn accesses_reach_their_handler() {
    let mem = memory();
    let handlers = vec!["other".to_string(), "block".to_string()];
    let data = [1, 2, 3, 4, 5, 6, 7, 8];
    let route = |gpa, direction, size| Emulator::memory_callback(&mem, &handlers, gpa, direction, size, &data);
    assert_eq!(route(0xD000_0010, 0, 4), MmioRoute::Read { handler: 1, offset: 0x10, size: 4 });
    assert_eq!(route(0xD000_0FFF, 0, 3), MmioRoute::Read { handler: 1, offset: 0xFFF, size: 3 });
    for (size, value) in [(1, 1), (2, 0x0201), (4, 0x0403_0201), (8, 0x0807_0605_0403_0201)] {
        assert_eq!(
            route(0xD000_0000, 1, size),
            MmioRoute::Write { handler: 1, offset: 0, size, value }
        );
    }
    assert_eq!(route(0xD000_0000, 1, 3), MmioRoute::Fail(EmulatorError::InvalidParameter));
    assert_eq!(route(0xD000_0000, 2, 4), MmioRoute::Fail(EmulatorError::InvalidParameter));
    for gpa in [0xD000_1000, 0xD000_2000, 0xD000_3000] {
        assert_eq!(route(gpa, 0, 4), MmioRoute::Fail(EmulatorError::NotFound));
    }
    assert_eq!(find_handler(&handlers, &"none".to_string()), None);
}

#[test]
fn answers_reach_the_guest() {
    let mut data = vec![9u8; 8];
    assert_eq!(Emulator::read_answered(Some(0x0403_0201), 4, &mut data), None);
    assert_eq!(data, [1, 2, 3, 4, 9, 9, 9, 9]);
    assert_eq!(Emulator::read_answered(Some(7), 3, &mut data), Some(EmulatorError::InvalidParameter));
    assert_eq!(Emulator::read_answered(None, 4, &mut data), Some(EmulatorError::InternalError));
    assert_eq!(data[0], 1);
    assert_eq!(Emulator::write_answered(true), None);
    assert_eq!(Emulator::write_answered(false), Some(EmulatorError::InternalError));
    assert_eq!(EmulatorError::InvalidParameter.code(), 87);
    assert_eq!(EmulatorError::InternalError.code(), 1359);
    assert_eq!(EmulatorError::NotFound.code(), 1168);
}

#[test]
fn workers_wake_for_their_events() {
    assert_eq!(duplex_step(0), DuplexStep::Transmit);
    assert_eq!(duplex_step(1), DuplexStep::Receive);
    assert_eq!(duplex_step(2), DuplexStep::Stop);
    assert_eq!(duplex_step(u32::MAX), DuplexStep::Failed);
    assert_eq!(duplex_step(0x102), DuplexStep::Unexpected);
    assert_eq!(queue_step(0), QueueStep::Serve);
    assert_eq!(queue_step(1), QueueStep::Stop);
    assert_eq!(queue_step(u32::MAX), QueueStep::Failed);
    assert_eq!(queue_step(2), QueueStep::Unexpected);
}
