use whp_vmm::memory::memory::{
    GuestAddress, MemoryError, MemoryManager, MemoryPerms, MemoryRegion,
};
use whp_vmm::virtio::{BlockRequest, RequestError, VirtQueue, VirtioBlockDevice};

const DESC: u64 = 0x1000;
const AVAIL: u64 = 0x2000;
const USED: u64 = 0x3000;

fn memory() -> MemoryManager {
    let mut mem = MemoryManager::new();
    mem.register_region(MemoryRegion::new(
        GuestAddress(0),
        0x1_0000,
        MemoryPerms::rwx(),
        Some(vec![0; 0x1_0000]),
    ));
    mem
}

fn queue() -> VirtQueue {
    VirtQueue { desc_addr: DESC, avail_addr: AVAIL, used_addr: USED, size: 8, ready: true }
}

fn read(mem: &MemoryManager, gpa: u64, n: usize) -> Vec<u8> {
    mem.read_guest_memory(GuestAddress(gpa), n).unwrap()
}

fn set_up(d: &mut VirtioBlockDevice, mem: &mut MemoryManager) {
    for (offset, value) in [
        (0x038, 8),
        (0x080, DESC as u32),
        (0x084, 0),
        (0x090, AVAIL as u32),
        (0x0A0, USED as u32),
        (0x044, 1),
    ] {
        d.handle_mmio_write(offset, value, mem).unwrap();
    }
}

fn request(req_type: u32, sector: u64, data_len: u32) -> BlockRequest {
    BlockRequest { desc_idx: 5, req_type, sector, data_addr: 0x5000, data_len, status_addr: 0x6000 }
}

#[test]
fn identification_registers() {
    let mut d = VirtioBlockDevice::new(1 << 20);
    assert_eq!(d.handle_mmio_read(0x000), 0x7472_6976);
    assert_eq!(d.handle_mmio_read(0x004), 2);
    assert_eq!(d.handle_mmio_read(0x008), 2);
    assert_eq!(d.handle_mmio_read(0x00C), 0x554D_4551);
    assert_eq!(d.handle_mmio_read(0x010), 1 << 9 | 1 << 6);
    assert_eq!(d.handle_mmio_read(0x034), 256);
    assert_eq!(d.handle_mmio_read(0x100), 2048);
    assert_eq!(d.handle_mmio_read(0x1100), 0);
    assert_eq!(d.handle_mmio_read(0x104), 0);
    assert_eq!(d.handle_mmio_read(0x1104), 0);
    assert_eq!(d.handle_mmio_read(0xFFF), 0);
    d.handle_mmio_write(0x014, 1, &mut memory()).unwrap();
    assert_eq!(d.handle_mmio_read(0x010), 0);
    d.set_disk_image(vec![0; 1024]);
    assert_eq!(d.handle_mmio_read(0x100), 2);
}

#[test]
fn the_capacity_has_two_halves() {
    let d = VirtioBlockDevice::new(4 << 40);
    assert_eq!((d.handle_mmio_read(0x104), d.handle_mmio_read(0x100)), (2, 0));
    let d = VirtioBlockDevice::new(u64::MAX);
    assert_eq!((d.handle_mmio_read(0x104), d.handle_mmio_read(0x100)), (0x7F_FFFF, u32::MAX));
}

#[test]
fn status_and_ready_read_back() {
    let mut d = VirtioBlockDevice::new(0);
    let mut mem = memory();
    d.handle_mmio_write(0x070, 0x10F, &mut mem).unwrap();
    assert_eq!(d.handle_mmio_read(0x070), 0x0F);
    d.handle_mmio_write(0x044, 9, &mut mem).unwrap();
    assert_eq!(d.handle_mmio_read(0x044), 1);
    assert_eq!(d.handle_mmio_read(0x060), 0);
}

#[test]
fn addresses_come_in_halves() {
    let mut d = VirtioBlockDevice::new(0);
    let mut mem = memory();
    d.handle_mmio_write(0x084, 0x11, &mut mem).unwrap();
    d.handle_mmio_write(0x080, 0x2222, &mut mem).unwrap();
    assert_eq!(d.queue.desc_addr, 0x11_0000_2222);
    d.handle_mmio_write(0x090, 0x33, &mut mem).unwrap();
    d.handle_mmio_write(0x094, 0x44, &mut mem).unwrap();
    assert_eq!(d.queue.avail_addr, 0x44_0000_0033);
    d.handle_mmio_write(0x0A4, 0x55, &mut mem).unwrap();
    assert_eq!(d.queue.used_addr, 0x55_0000_0000);
    d.handle_mmio_write(0x024, 1, &mut mem).unwrap();
    d.handle_mmio_write(0x020, 0x66, &mut mem).unwrap();
    assert_eq!(d.driver_features, 0x66_0000_0000);
    d.handle_mmio_write(0x030, 0x1_0002, &mut mem).unwrap();
    assert_eq!(d.queue_sel, 2);
}

#[test]
fn notifications_need_a_queue_and_a_disk() {
    let mut d = VirtioBlockDevice::new(0);
    let mut mem = memory();
    assert_eq!(d.handle_mmio_write(0x050, 0, &mut mem), Ok(()));
    set_up(&mut d, &mut mem);
    assert_eq!(d.handle_mmio_write(0x050, 8, &mut mem), Ok(()));
    assert_eq!(d.handle_mmio_write(0x050, 0, &mut mem), Err(RequestError::NoDiskImage));
    d.set_disk_image(vec![0; 512]);
    mem.write_obj(0x4000u64, GuestAddress(DESC)).unwrap();
    assert_eq!(d.handle_mmio_write(0x050, 0, &mut mem), Ok(()));
    assert_eq!(read(&mem, USED + 2, 2), vec![1, 0]);
    d.handle_mmio_write(0x094, 1, &mut mem).unwrap();
    assert_eq!(
        d.handle_mmio_write(0x050, 0, &mut mem),
        Err(RequestError::Memory(MemoryError::NotAllocated))
    );
    d.handle_mmio_write(0x094, u32::MAX, &mut mem).unwrap();
    d.handle_mmio_write(0x090, u32::MAX, &mut mem).unwrap();
    assert_eq!(d.handle_mmio_write(0x050, 0, &mut mem), Err(RequestError::Overflow));
}

#[test]
fn a_notification_serves_the_request_in_the_queue() {
    let mut d = VirtioBlockDevice::new(0);
    let mut mem = memory();
    set_up(&mut d, &mut mem);
    d.set_disk_image((0..2048u32).map(|i| (i / 512) as u8 + 1).collect());
    for (i, (addr, len, next)) in [(0x4000u64, 16u32, 4u16), (0x5000, 512, 5), (0x6000, 1, 0)].iter().enumerate() {
        let at = DESC + 16 * (3 + i as u64);
        mem.write_obj(*addr, GuestAddress(at)).unwrap();
        mem.write_obj(*len, GuestAddress(at + 8)).unwrap();
        mem.write_obj(*next, GuestAddress(at + 14)).unwrap();
    }
    mem.write_obj(3u16, GuestAddress(AVAIL + 4)).unwrap();
    mem.write_obj(2u64, GuestAddress(0x4008)).unwrap();
    mem.write_guest_memory(&[0xFF], GuestAddress(0x6000)).unwrap();
    let request = VirtioBlockDevice::read_request(&mem, &queue(), 3).unwrap();
    assert_eq!((request.req_type, request.sector, request.data_len), (0, 2, 512));
    assert_eq!(d.handle_mmio_write(0x050, 0, &mut mem), Ok(()));
    assert_eq!(read(&mem, 0x5000, 512), vec![3; 512]);
    assert_eq!(read(&mem, 0x6000, 1), vec![0]);
    assert_eq!(read(&mem, USED + 4, 8), vec![3, 0, 0, 0, 1, 0, 0, 0]);
    mem.write_guest_memory(&[8, 1, 2, 0], GuestAddress(0x4000)).unwrap();
    assert_eq!(VirtioBlockDevice::read_request(&mem, &queue(), 3).unwrap().req_type, 0x0002_0108);
    assert_eq!(d.handle_mmio_write(0x050, 0, &mut mem), Ok(()));
    assert_eq!(read(&mem, 0x6000, 1), vec![2]);
}

#[test]
fn a_read_request_delivers_the_disk() {
    let mut mem = memory();
    let disk: Vec<u8> = (0..2048u32).map(|i| (i / 512) as u8 + 1).collect();
    assert_eq!(VirtioBlockDevice::serve_request(&mut mem, &queue(), &disk, &request(0, 2, 512)), Ok(()));
    assert_eq!(read(&mem, 0x5000, 512), vec![3; 512]);
    assert_eq!(read(&mem, 0x6000, 1), vec![0]);
    assert_eq!(read(&mem, USED + 2, 2), vec![1, 0]);
    assert_eq!(read(&mem, USED + 4, 8), vec![5, 0, 0, 0, 1, 0, 0, 0]);
}

#[test]
fn other_requests_leave_the_data() {
    let mut mem = memory();
    let disk = vec![9u8; 1024];
    mem.write_guest_memory(&[7; 4], GuestAddress(0x5000)).unwrap();
    for (req, status) in [
        (request(1, 0, 512), 0),
        (request(4, 0, 0), 0),
        (request(8, 0, 4), 2),
        (request(0, 1, 513), 1),
        (request(1, 2, 1), 1),
    ] {
        assert_eq!(VirtioBlockDevice::serve_request(&mut mem, &queue(), &disk, &req), Ok(()));
        assert_eq!(read(&mem, 0x6000, 1), vec![status]);
        assert_eq!(read(&mem, 0x5000, 4), vec![7; 4]);
    }
    assert_eq!(read(&mem, USED + 2, 2), vec![5, 0]);
}

#[test]
fn the_used_index_counts_to_twice_the_size() {
    let mut mem = memory();
    mem.write_obj(15u16, GuestAddress(USED + 2)).unwrap();
    VirtioBlockDevice::serve_request(&mut mem, &queue(), &vec![], &request(4, 0, 0)).unwrap();
    assert_eq!(read(&mem, USED + 2, 2), vec![0, 0]);
    assert_eq!(read(&mem, USED + 4 + 7 * 8, 1), vec![5]);
    mem.write_obj(u16::MAX, GuestAddress(USED + 2)).unwrap();
    let r = VirtioBlockDevice::serve_request(&mut mem, &queue(), &vec![], &request(4, 0, 0));
    assert_eq!(r, Err(RequestError::Overflow));
}

#[test]
fn a_request_that_cannot_be_counted_fails() {
    let mut mem = memory();
    let r = VirtioBlockDevice::serve_request(&mut mem, &queue(), &vec![], &request(0, u64::MAX, 1));
    assert_eq!(r, Err(RequestError::Overflow));
    let bad = BlockRequest { status_addr: 0x10_0000, ..request(4, 0, 0) };
    let r = VirtioBlockDevice::serve_request(&mut mem, &queue(), &vec![], &bad);
    assert_eq!(r, Err(RequestError::Memory(MemoryError::NotAllocated)));
    assert_eq!(
        VirtioBlockDevice::read_request(&mem, &VirtQueue { desc_addr: u64::MAX, ..queue() }, 1),
        Err(RequestError::Overflow)
    );
}
