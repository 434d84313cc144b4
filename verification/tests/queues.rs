use whp_vmm::devices::virtio::block::worker::{
    BlockStep, BlockWorker, CacheType, DiskOp, DiskProperties, DiskReply,
};
use whp_vmm::devices::virtio::console::worker::ConsoleWorker;
use whp_vmm::devices::virtio::descriptor_utils::{Reader, Writer};
use whp_vmm::devices::virtio::net::worker::{
    default_rx_header, frame_length, rx_reader_step, FrameError, NetWorker, ReaderAction, ReaderEvent,
    ReaderState, RxReport,
};
use whp_vmm::devices::virtio::queue::{Descriptor, DescriptorChain, Error, Queue, VirtqUsedElem};
use whp_vmm::devices::virtio::rng::worker::{RngStep, RngWorker};
use whp_vmm::memory::memory::{GuestAddress, MemoryError, MemoryManager, MemoryPerms, MemoryRegion};

const SIZE: u64 = 0x1_0000;
const NEXT: u16 = 1;
const WRITE: u16 = 2;

fn memory() -> MemoryManager {
    let mut mem = MemoryManager::new();
    mem.register_region(MemoryRegion::new(
        GuestAddress(0),
        SIZE,
        MemoryPerms::rw(),
        Some(vec![0; SIZE as usize]),
    ));
    mem
}

fn queue_at(base: u64) -> Queue {
    let mut q = Queue::new(16);
    q.size = 8;
    q.ready = true;
    q.desc_table = GuestAddress(base);
    q.avail_ring = GuestAddress(base + 0x400);
    q.used_ring = GuestAddress(base + 0x800);
    q
}

fn queue() -> Queue {
    queue_at(0x1000)
}

fn put(mem: &mut MemoryManager, gpa: u64, bytes: &[u8]) {
    mem.write_guest_memory(bytes, GuestAddress(gpa)).unwrap();
}

fn get(mem: &MemoryManager, gpa: u64, n: usize) -> Vec<u8> {
    mem.read_guest_memory(GuestAddress(gpa), n).unwrap()
}

fn describe(mem: &mut MemoryManager, q: &Queue, index: u16, addr: u64, len: u32, flags: u16, next: u16) {
    let d = Descriptor { addr, len, flags, next };
    mem.write_obj(d, GuestAddress(q.desc_table.0 + 16 * index as u64)).unwrap();
}

fn offer(mem: &mut MemoryManager, q: &Queue, heads: &[u16]) {
    for (i, head) in heads.iter().enumerate() {
        mem.write_obj(*head, GuestAddress(q.avail_ring.0 + 4 + 2 * i as u64)).unwrap();
    }
    mem.write_obj(heads.len() as u16, GuestAddress(q.avail_ring.0 + 2)).unwrap();
}

fn used(mem: &MemoryManager, q: &Queue) -> Vec<(u32, u32)> {
    let count: u16 = mem.read_obj(GuestAddress(q.used_ring.0 + 2)).unwrap();
    (0..count as u64)
        .map(|i| {
            let e: VirtqUsedElem = mem.read_obj(GuestAddress(q.used_ring.0 + 4 + 8 * i)).unwrap();
            (e.id, e.len)
        })
        .collect()
}

#[test]
fn sound_queues() {
    let mem = memory();
    let q = queue();
    assert!(q.is_valid(&mem) && q.is_reachable(&mem));
    assert_eq!((q.get_max_size(), q.actual_size()), (16, 8));
    let bad = |f: fn(&mut Queue)| {
        let mut q = queue();
        f(&mut q);
        !q.is_valid(&mem)
    };
    assert!(bad(|q| q.ready = false));
    assert!(bad(|q| q.size = 0));
    assert!(bad(|q| q.size = 6));
    assert!(bad(|q| q.size = 32));
    assert!(bad(|q| q.desc_table = GuestAddress(0x1008)));
    assert!(bad(|q| q.avail_ring = GuestAddress(0x1401)));
    assert!(bad(|q| q.used_ring = GuestAddress(0x1802)));
    assert!(bad(|q| q.desc_table = GuestAddress(0xFF80)));
    assert!(bad(|q| q.avail_ring = GuestAddress(u64::MAX - 1)));
    assert!(bad(|q| q.used_ring = GuestAddress(SIZE)));
}

#[test]
fn rings_must_be_in_reach() {
    let mem = memory();
    let out = |f: fn(&mut Queue)| {
        let mut q = queue();
        f(&mut q);
        !q.is_reachable(&mem)
    };
    assert!(out(|q| q.avail_ring = GuestAddress(SIZE)));
    assert!(out(|q| q.avail_ring = GuestAddress(SIZE - 8)));
    assert!(out(|q| {
        q.max_size = 0x8000;
        q.size = 0x8000;
    }));
    assert!(out(|q| {
        q.avail_ring = GuestAddress(SIZE - 21);
        q.event_idx_enabled = true;
    }));
    assert!(!out(|q| q.event_idx_enabled = true));
    assert!(!out(|q| q.max_size = 0x7FFF));
    assert!(!out(|q| q.used_ring = GuestAddress(SIZE)));
    assert!(!out(|q| q.desc_table = GuestAddress(u64::MAX)));
}

#[test]
fn a_split_ring_field_is_refused() {
    let mut mem = memory();
    let mut q = queue();
    q.used_ring = GuestAddress(SIZE - 1);
    let refused = Err(Error::GuestMemory(MemoryError::WriteExceeds));
    assert_eq!(q.disable_notification(&mut mem), refused);
    assert_eq!(q.round(&mut mem, false).map(|_| ()), refused);
    q.used_ring = GuestAddress(SIZE - 3);
    assert_eq!(q.add_used(&mut mem, 0, 1), refused);
    assert_eq!((q.next_used, q.num_added), (1, 1));
    q.event_idx_enabled = true;
    q.avail_ring = GuestAddress(SIZE - 21);
    assert_eq!(q.needs_notification(&mem), Err(Error::GuestMemory(MemoryError::ReadExceeds)));
}

#[test]
fn chains_are_walked() {
    let mut mem = memory();
    let q = queue();
    describe(&mut mem, &q, 0, 0x4000, 4, NEXT, 3);
    describe(&mut mem, &q, 3, 0x5000, 8, NEXT | WRITE, 5);
    describe(&mut mem, &q, 5, 0x6000, 16, WRITE, 0);
    let head = DescriptorChain::checked_new(&mem, q.desc_table, 8, 0).unwrap();
    assert!(head.has_next() && head.is_read_only() && !head.is_write_only());
    assert_eq!(head.descriptor(), Descriptor { addr: 0x4000, len: 4, flags: NEXT, next: 3 });
    let all = head.into_iter().collect(&mem);
    assert_eq!(all.iter().map(|c| c.index).collect::<Vec<_>>(), vec![0, 3, 5]);
    assert_eq!(all.iter().map(|c| c.ttl).collect::<Vec<_>>(), vec![8, 7, 6]);
    assert_eq!(head.into_iter().readable(&mem).len(), 1);
    assert_eq!(head.into_iter().writable(&mem).len(), 2);
    assert_eq!(all[2].next_descriptor(&mem), None);
    assert_eq!(DescriptorChain::checked_new(&mem, q.desc_table, 8, 8), None);
    let mut it = head.into_iter();
    assert_eq!(it.next(&mem).unwrap().index, 0);
    assert_eq!(it.next(&mem).unwrap().index, 3);
}

#[test]
fn only_what_the_device_writes_is_writable() {
    let mut mem = memory();
    let q = queue();
    describe(&mut mem, &q, 0, 0x4000, 4, NEXT, 1);
    describe(&mut mem, &q, 1, 0x5000, 8, NEXT | WRITE, 2);
    describe(&mut mem, &q, 2, 0x6000, 16, NEXT, 3);
    describe(&mut mem, &q, 3, 0x7000, 2, WRITE, 0);
    let head = DescriptorChain::checked_new(&mem, q.desc_table, 8, 0).unwrap();
    let indices = |list: Vec<DescriptorChain>| list.iter().map(|c| c.index).collect::<Vec<_>>();
    assert_eq!(indices(head.into_iter().readable(&mem)), vec![0]);
    assert_eq!(indices(head.into_iter().writable(&mem)), vec![1, 3]);
    assert_eq!(Writer::new(&mem, head).unwrap().available_bytes(), 10);
}

#[test]
fn cycles_end() {
    let mut mem = memory();
    let q = queue();
    describe(&mut mem, &q, 0, 0x4000, 4, NEXT, 1);
    describe(&mut mem, &q, 1, 0x4000, 4, NEXT, 0);
    let head = DescriptorChain::checked_new(&mem, q.desc_table, 8, 0).unwrap();
    assert_eq!(head.into_iter().collect(&mem).len(), 8);
    let mut it = head.into_iter();
    for i in 0..8 {
        assert_eq!(it.next(&mem).unwrap().index, i % 2);
    }
    assert_eq!((it.next(&mem), it.next(&mem)), (None, None));
    let top = GuestAddress(u64::MAX - 15);
    assert_eq!(DescriptorChain::checked_new(&mem, top, 8, 0), None);
    describe(&mut mem, &q, 2, 0x4000, 4, NEXT, 8);
    assert_eq!(DescriptorChain::checked_new(&mem, q.desc_table, 8, 2), None);
    assert_eq!(Descriptor::default(), Descriptor { addr: 0, len: 0, flags: 0, next: 0 });
}

#[test]
fn popping_and_handing_back() {
    let mut mem = memory();
    let mut q = queue();
    describe(&mut mem, &q, 2, 0x4000, 4, 0, 0);
    assert!(q.is_empty(&mem));
    assert_eq!(q.pop(&mem), None);
    offer(&mut mem, &q, &[2, 2]);
    assert_eq!(q.len(&mem), 2);
    assert_eq!(q.pop(&mem).unwrap().index, 2);
    q.undo_pop();
    assert_eq!(q.len(&mem), 2);
    let mut wrapping = Queue { next_avail: 0xFFFF, ..queue() };
    mem.write_obj(2u16, GuestAddress(q.avail_ring.0 + 4 + 14)).unwrap();
    let before = wrapping;
    let chain = wrapping.pop(&mem);
    assert_eq!((chain.unwrap().index, wrapping.next_avail), (2, 0));
    wrapping.undo_pop();
    assert_eq!(wrapping, before);
    assert_eq!(wrapping.pop(&mem), chain);
    q.pop(&mem);
    q.go_to_previous_position();
    assert_eq!(q.len(&mem), 2);
    assert_eq!(q.add_used(&mut mem, 2, 77), Ok(()));
    assert_eq!(used(&mem, &q), vec![(2, 77)]);
    assert_eq!(q.add_used(&mut mem, 8, 77), Err(Error::InvalidDescriptorIndex));
}

#[test]
fn notifications_without_event_indices() {
    let mut mem = memory();
    let mut q = queue();
    assert_eq!(q.needs_notification(&mem), Ok(true));
    q.add_used(&mut mem, 0, 0).unwrap();
    assert_eq!(q.num_added, 1);
    assert_eq!(q.needs_notification(&mem), Ok(true));
    assert_eq!(q.num_added, 0);
    assert_eq!(q.disable_notification(&mut mem), Ok(()));
    assert_eq!(get(&mem, q.used_ring.0, 2), vec![1, 0]);
    assert_eq!(q.enable_notification(&mut mem), Ok(false));
    assert_eq!(get(&mem, q.used_ring.0, 2), vec![0, 0]);
    offer(&mut mem, &q, &[0]);
    assert_eq!(q.enable_notification(&mut mem), Ok(true));
}

#[test]
fn notifications_with_event_indices() {
    let mut mem = memory();
    let mut q = queue();
    q.set_event_idx(true);
    q.next_avail = 5;
    assert_eq!(q.disable_notification(&mut mem), Ok(()));
    offer(&mut mem, &q, &[0; 5]);
    assert_eq!(q.enable_notification(&mut mem), Ok(false));
    assert_eq!(get(&mem, q.used_ring.0 + 4 + 64, 2), vec![5, 0]);
    mem.write_obj(1u16, GuestAddress(q.avail_ring.0 + 4 + 16)).unwrap();
    q.add_used(&mut mem, 0, 0).unwrap();
    assert_eq!(q.needs_notification(&mem), Ok(false));
    q.add_used(&mut mem, 0, 0).unwrap();
    assert_eq!(q.needs_notification(&mem), Ok(true));
    assert_eq!(q.needs_notification(&mem), Ok(false));
    q.add_used(&mut mem, 0, 0).unwrap();
    q.avail_ring = GuestAddress(SIZE);
    assert!(q.needs_notification(&mem).is_err());
    assert_eq!(q.num_added, 0);
}

#[test]
fn errors_have_messages() {
    for e in [
        Error::AddressOverflow,
        Error::InvalidChain,
        Error::InvalidDescriptorIndex,
        Error::QueueNotReady,
        Error::SplitOutOfBounds(7),
    ] {
        assert!(!e.message().is_empty());
    }
    assert!(Error::SplitOutOfBounds(7).message().contains('7'));
}

#[test]
fn buffers_are_gathered_and_filled() {
    let mut mem = memory();
    let q = queue();
    describe(&mut mem, &q, 0, 0x4000, 3, NEXT, 1);
    describe(&mut mem, &q, 1, 0x5000, 2, NEXT, 2);
    describe(&mut mem, &q, 2, 0x6000, 2, NEXT | WRITE, 3);
    describe(&mut mem, &q, 3, 0x7000, 4, WRITE, 0);
    put(&mut mem, 0x4000, b"abc");
    put(&mut mem, 0x5000, b"de");
    let head = DescriptorChain::checked_new(&mem, q.desc_table, 8, 0).unwrap();
    let mut reader = Reader::new(&mem, head).unwrap();
    assert_eq!(reader.available_bytes(), 5);
    assert_eq!(reader.read(&mem, 2), b"ab");
    assert_eq!(reader.read_obj::<u16>(&mem), Some(u16::from_le_bytes(*b"cd")));
    assert_eq!(reader.read_obj::<u16>(&mem), None);
    assert_eq!(reader.available_bytes(), 0);
    let mut writer = Writer::new(&mem, head).unwrap();
    assert_eq!(writer.available_bytes(), 6);
    assert!(writer.write_all(&mut mem, b"123"));
    assert!(writer.write_obj(&mut mem, 0x3534u16));
    assert!(!writer.write_all(&mut mem, b"67"));
    assert_eq!(get(&mem, 0x6000, 2), b"12");
    assert_eq!(get(&mem, 0x7000, 3), b"345");
}

#[test]
fn buffers_outside_memory_are_refused() {
    let mut mem = memory();
    let q = queue();
    describe(&mut mem, &q, 0, SIZE - 1, 4, 0, 0);
    let head = DescriptorChain::checked_new(&mem, q.desc_table, 8, 0);
    if let Some(head) = head {
        assert!(Reader::new(&mem, head).is_err());
    }
}

#[test]
fn a_console_talks() {
    let mut mem = memory();
    let (rx, tx) = (queue_at(0x1000), queue_at(0x2000));
    put(&mut mem, 0x4000, b"hello");
    put(&mut mem, 0x5000, b" world");
    describe(&mut mem, &tx, 0, 0x4000, 5, 0, 0);
    describe(&mut mem, &tx, 1, 0x5000, 6, 0, 0);
    offer(&mut mem, &tx, &[0, 1]);
    let mut w = ConsoleWorker::new(rx, tx);
    let r = w.process_tx_queue(&mut mem, 1);
    assert_eq!((r.output.as_slice(), r.used_any, r.done), (&b"hello"[..], true, false));
    let r = w.process_tx_queue(&mut mem, 10);
    assert_eq!((r.output.as_slice(), r.used_any, r.done), (&b" world"[..], true, true));
    assert_eq!(used(&mem, &w.tx_queue), vec![(0, 0), (1, 0)]);
    let r = w.process_tx_queue(&mut mem, 10);
    assert!(r.output.is_empty() && !r.used_any && r.done);
}

#[test]
fn a_round_asks_for_notifications_again() {
    let mut mem = memory();
    let (rx, tx) = (queue_at(0x1000), queue_at(0x2000));
    put(&mut mem, 0x4000, b"hello");
    describe(&mut mem, &tx, 0, 0x4000, 5, 0, 0);
    offer(&mut mem, &tx, &[0, 0]);
    let mut w = ConsoleWorker::new(rx, tx);
    let r = w.process_tx_virtio_queue(&mut mem, 1);
    assert_eq!((r.output.as_slice(), r.used_any, r.again), (&b"hello"[..], true, Ok(true)));
    assert_eq!(get(&mem, tx.used_ring.0, 2), vec![1, 0]);
    let r = w.process_tx_virtio_queue(&mut mem, 9);
    assert_eq!((r.output.as_slice(), r.used_any, r.again), (&b"hello"[..], true, Ok(false)));
    assert_eq!(get(&mem, tx.used_ring.0, 2), vec![0, 0]);
    let mut w = NetWorker::new(rx, tx);
    offer(&mut mem, &tx, &[0]);
    let r = w.process_tx_virtio_queue(&mut mem, 9);
    assert!(r.frames.is_empty() && r.used_any);
    assert_eq!(r.again, Ok(false));
    w.tx_queue.used_ring = GuestAddress(SIZE);
    assert!(w.process_tx_virtio_queue(&mut mem, 9).again.is_err());
}

#[test]
fn a_console_listens() {
    let mut mem = memory();
    let (rx, tx) = (queue_at(0x1000), queue_at(0x2000));
    describe(&mut mem, &rx, 0, 0x4000, 3, WRITE, 0);
    describe(&mut mem, &rx, 1, 0x5000, 3, WRITE, 0);
    offer(&mut mem, &rx, &[0, 1]);
    let mut w = ConsoleWorker::new(rx, tx);
    let r = w.process_rx_input(&mut mem, b"abcd", 10);
    assert_eq!((r.consumed, r.notify, r.done), (4, true, true));
    assert_eq!(get(&mem, 0x4000, 3), b"abc");
    assert_eq!(get(&mem, 0x5000, 1), b"d");
    assert_eq!(used(&mem, &w.rx_queue), vec![(0, 3), (1, 1)]);
    let r = w.process_rx_input(&mut mem, b"xyz", 10);
    assert_eq!((r.consumed, r.notify, r.done), (0, false, true));
}

#[test]
fn frames_are_sent() {
    let mut mem = memory();
    let (rx, tx) = (queue_at(0x1000), queue_at(0x2000));
    put(&mut mem, 0x400C, b"frame");
    describe(&mut mem, &tx, 0, 0x4000, 17, 0, 0);
    describe(&mut mem, &tx, 1, 0x4000, 12, 0, 0);
    offer(&mut mem, &tx, &[0, 1]);
    let mut w = NetWorker::new(rx, tx);
    let r = w.process_tx_queue(&mut mem, 8);
    assert_eq!(r.frames, vec![b"\x05\x00frame".to_vec()]);
    assert!(r.used_any && r.done);
    assert_eq!(used(&mem, &w.tx_queue), vec![(0, 0), (1, 0)]);
}

#[test]
fn frames_are_delivered() {
    let mut mem = memory();
    let (rx, tx) = (queue_at(0x1000), queue_at(0x2000));
    describe(&mut mem, &rx, 0, 0x4000, 4, WRITE, 0);
    describe(&mut mem, &rx, 1, 0x5000, 100, WRITE, 0);
    offer(&mut mem, &rx, &[0, 1]);
    let mut w = NetWorker::new(rx, tx);
    let frames = vec![b"lost".to_vec(), vec![0; 1515], b"kept".to_vec(), b"waits".to_vec()];
    assert_eq!(w.process_rx_virtio_queue(&mut mem, &frames), RxReport { taken: 3, notify: true });
    assert_eq!(get(&mem, 0x5000, 16), [default_rx_header(), b"kept".to_vec()].concat());
    assert_eq!(used(&mem, &w.rx_queue), vec![(0, 0), (1, 16)]);
}

#[test]
fn frame_lengths() {
    assert_eq!(frame_length([0xEA, 5]), Ok(1514));
    assert_eq!(frame_length([0xEB, 5]), Err(FrameError::TooLarge));
    assert_eq!(frame_length([0, 0]), Err(FrameError::TooSmall));
    assert_eq!(FrameError::TooLarge.message(), "frame length too large");
    assert_eq!(FrameError::TooSmall.message(), "frame length too small");
}

#[test]
fn frames_are_read_in_batches() {
    let mut state = ReaderState::First;
    let mut step = |event| {
        let (next, action) = rx_reader_step(state, event);
        state = next;
        action
    };
    assert_eq!(step(ReaderEvent::BadFrame), ReaderAction::Read);
    assert_eq!(step(ReaderEvent::Frame), ReaderAction::Ask);
    for _ in 1..32 {
        assert_eq!(step(ReaderEvent::Available(2)), ReaderAction::Read);
        assert_eq!(step(ReaderEvent::Frame), ReaderAction::Ask);
    }
    assert_eq!(step(ReaderEvent::Available(2)), ReaderAction::AnnounceAndRead);
    assert_eq!(step(ReaderEvent::Frame), ReaderAction::Ask);
    assert_eq!(step(ReaderEvent::Available(0)), ReaderAction::AnnounceAndRead);
    assert_eq!(step(ReaderEvent::Frame), ReaderAction::Ask);
    assert_eq!(step(ReaderEvent::Available(9)), ReaderAction::Read);
    assert_eq!(step(ReaderEvent::BadFrame), ReaderAction::Ask);
    assert_eq!(step(ReaderEvent::Available(9)), ReaderAction::Read);
    assert_eq!(step(ReaderEvent::EndOfStream), ReaderAction::AnnounceAndRead);
    assert_eq!(step(ReaderEvent::EndOfStream), ReaderAction::Stop);
    assert_eq!(step(ReaderEvent::Frame), ReaderAction::Stop);
}

#[test]
fn entropy_is_delivered() {
    let mut mem = memory();
    let q = queue();
    describe(&mut mem, &q, 0, 0x4000, 4, WRITE, 0);
    describe(&mut mem, &q, 1, 0x4000, 4, 0, 0);
    describe(&mut mem, &q, 2, 0x6000, 4, WRITE, 0);
    offer(&mut mem, &q, &[0, 1, 2]);
    let mut w = RngWorker::new(q);
    match w.process_queue(&mut mem) {
        RngStep::Fill(p) => {
            assert_eq!(p.len, 4);
            assert!(w.complete(&mut mem, p, Some(vec![5, 6, 7, 8])));
        }
        other => panic!("{:?}", other),
    }
    assert_eq!(get(&mem, 0x4000, 4), vec![5, 6, 7, 8]);
    assert!(matches!(w.process_queue(&mut mem), RngStep::Empty));
    match w.process_queue(&mut mem) {
        RngStep::Fill(p) => assert!(w.complete(&mut mem, p, None)),
        other => panic!("{:?}", other),
    }
    assert!(matches!(w.process_queue(&mut mem), RngStep::Idle));
    assert_eq!(used(&mem, &w.queue), vec![(0, 4), (1, 0), (2, 0)]);
}

fn block_request(mem: &mut MemoryManager, request_type: u32, sector: u64, out: &[u8], room: u32) -> BlockWorker {
    let q = queue();
    let mut header = request_type.to_le_bytes().to_vec();
    header.extend_from_slice(&[0; 4]);
    header.extend_from_slice(&sector.to_le_bytes());
    header.extend_from_slice(out);
    put(mem, 0x4000, &header);
    if room > 0 {
        describe(mem, &q, 0, 0x4000, header.len() as u32, NEXT, 1);
        describe(mem, &q, 1, 0x6000, room, WRITE, 0);
    } else {
        describe(mem, &q, 0, 0x4000, header.len() as u32, 0, 0);
    }
    offer(mem, &q, &[0]);
    BlockWorker::new(q, DiskProperties { cache_type: CacheType::Writeback, image_id: b"disk-id".to_vec() })
}

#[test]
fn rounds_go_on_while_chains_wait() {
    let mut mem = memory();
    let q = queue();
    describe(&mut mem, &q, 0, 0x4000, 0, WRITE, 0);
    offer(&mut mem, &q, &[0]);
    let mut w = RngWorker::new(q);
    assert_eq!(w.round(&mut mem, false), Ok(true));
    assert_eq!(get(&mem, q.used_ring.0, 2), vec![1, 0]);
    assert!(matches!(w.process_queue(&mut mem), RngStep::Empty));
    offer(&mut mem, &q, &[0, 0]);
    assert_eq!(w.round(&mut mem, true), Ok(true));
    assert_eq!(get(&mem, q.used_ring.0, 2), vec![1, 0]);
    assert!(matches!(w.process_queue(&mut mem), RngStep::Empty));
    assert_eq!(w.round(&mut mem, true), Ok(false));
    assert_eq!(get(&mem, q.used_ring.0, 2), vec![0, 0]);
    let mut w = block_request(&mut mem, 8, 0, &[], 64);
    assert_eq!(w.round(&mut mem, false), Ok(true));
    assert!(matches!(w.process_queue(&mut mem), BlockStep::Settled(true)));
    assert_eq!(w.round(&mut mem, true), Ok(false));
    w.queue.used_ring = GuestAddress(SIZE);
    assert!(w.round(&mut mem, false).is_err() && w.round(&mut mem, true).is_err());
}

#[test]
fn a_disk_is_read() {
    let mut mem = memory();
    let mut w = block_request(&mut mem, 0, 3, &[], 513);
    match w.process_queue(&mut mem) {
        BlockStep::Disk(p) => {
            assert_eq!((p.command.op, p.command.offset, p.command.len), (DiskOp::Read, 1536, 512));
            assert!(w.complete(&mut mem, p, DiskReply::Data(vec![9; 512])));
        }
        other => panic!("{:?}", other),
    }
    assert_eq!(get(&mem, 0x6000, 512), vec![9; 512]);
    assert_eq!(get(&mem, 0x6200, 1), vec![0]);
    assert_eq!(used(&mem, &w.queue), vec![(0, 512)]);
    assert!(matches!(w.process_queue(&mut mem), BlockStep::Idle));
}

#[test]
fn a_disk_is_written() {
    let mut mem = memory();
    let mut w = block_request(&mut mem, 1, 1, &[4; 512], 1);
    match w.process_queue(&mut mem) {
        BlockStep::Disk(p) => {
            assert_eq!((p.command.op, p.command.offset, p.command.len), (DiskOp::Write, 512, 512));
            assert_eq!(p.command.data, vec![4; 512]);
            w.complete(&mut mem, p, DiskReply::Done(512));
        }
        other => panic!("{:?}", other),
    }
    assert_eq!(get(&mem, 0x6000, 1), vec![0]);
    assert_eq!(used(&mem, &w.queue), vec![(0, 512)]);
}

#[test]
fn a_failing_disk_is_reported() {
    for (request_type, op, out, room) in [
        (0, DiskOp::Read, vec![], 513),
        (1, DiskOp::Write, vec![4; 512], 1),
        (4, DiskOp::Flush, vec![], 1),
        (11, DiskOp::Discard, vec![0; 16], 1),
        (13, DiskOp::WriteZeroes, vec![0; 16], 1),
    ] {
        let mut mem = memory();
        let mut w = block_request(&mut mem, request_type, 0, &out, room);
        match w.process_queue(&mut mem) {
            BlockStep::Disk(p) => {
                assert_eq!(p.command.op, op);
                w.complete(&mut mem, p, DiskReply::Failed);
            }
            other => panic!("{:?}", other),
        }
        assert_eq!(get(&mem, 0x6000, 1), vec![1]);
        assert_eq!(used(&mem, &w.queue), vec![(0, 0)]);
    }
}

#[test]
fn ranges_of_a_disk() {
    let mut range = 7u64.to_le_bytes().to_vec();
    range.extend_from_slice(&3u32.to_le_bytes());
    range.extend_from_slice(&1u32.to_le_bytes());
    for (request_type, op) in [(11, DiskOp::Discard), (13, DiskOp::DiscardToZero)] {
        let mut mem = memory();
        let mut w = block_request(&mut mem, request_type, 0, &range, 1);
        match w.process_queue(&mut mem) {
            BlockStep::Disk(p) => {
                assert_eq!((p.command.op, p.command.offset, p.command.len), (op, 7 * 512, 3 * 512));
                w.complete(&mut mem, p, DiskReply::Done(9));
            }
            other => panic!("{:?}", other),
        }
        assert_eq!(get(&mem, 0x6000, 1), vec![0]);
        assert_eq!(used(&mem, &w.queue), vec![(0, 0)]);
    }
}

#[test]
fn requests_without_the_disk() {
    let settled = |request_type, out: &[u8], room| {
        let mut mem = memory();
        let mut w = block_request(&mut mem, request_type, 0, out, room);
        let step = w.process_queue(&mut mem);
        assert!(matches!(step, BlockStep::Settled(true)));
        (get(&mem, 0x6000, 8), used(&mem, &w.queue)[0].1)
    };
    assert_eq!(settled(8, &[], 8), (b"disk-id\0".to_vec(), 7));
    for (request_type, out, room) in [(8, 0, 6), (0, 0, 100), (1, 5, 1), (11, 8, 1), (13, 8, 1), (99, 0, 1)] {
        let (written, len) = settled(request_type, &vec![0; out], room);
        assert_eq!((written[0], len), (1, 0));
    }
    let mut mem = memory();
    let mut w = block_request(&mut mem, 4, 0, &[], 1);
    w.disk.cache_type = CacheType::Unsafe;
    assert!(matches!(w.process_queue(&mut mem), BlockStep::Settled(true)));
    assert_eq!(get(&mem, 0x6000, 1), vec![0]);
}

#[test]
fn impossible_requests() {
    let mut mem = memory();
    let mut w = block_request(&mut mem, 0, u64::MAX, &[], 513);
    assert!(matches!(w.process_queue(&mut mem), BlockStep::Fault));
    let mut mem = memory();
    let mut w = block_request(&mut mem, 0, 0, &[], 0);
    assert!(matches!(w.process_queue(&mut mem), BlockStep::Fault));
    let mut mem = memory();
    let q = queue();
    describe(&mut mem, &q, 0, 0x4000, 15, 0, 0);
    offer(&mut mem, &q, &[0]);
    w.queue = q;
    assert!(matches!(w.process_queue(&mut mem), BlockStep::Dropped));
}
