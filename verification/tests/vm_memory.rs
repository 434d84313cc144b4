use whp_vmm::memory::memory::GuestAddress;
use whp_vmm::vm_memory::io::{
    write_volatile, Cursor, IoOutcome, SliceReader, SliceWriter, Transfer, TransferStep, VolatileMemoryError,
};
use whp_vmm::vm_memory::mmap::{
    FromRangesError, GuestMemoryMmap, GuestRegionCollectionError, GuestRegionMmap, MmapRegion, RegionAccessError,
};

/// Guest memory of ranges that the host maps.
fn ranges(ranges: &[(GuestAddress, usize)]) -> Result<GuestMemoryMmap, FromRangesError> {
    GuestMemoryMmap::from_ranges(ranges, ranges.iter().map(|r| Ok(MmapRegion::new(r.1))).collect())
}

#[test]
fn fresh_regions_are_zero() {
    let m = ranges(&[(GuestAddress(0), 4), (GuestAddress(4), 2)]).unwrap();
    assert_eq!(m.regions.len(), 2);
    assert_eq!(m.regions[0].len(), 4);
    assert_eq!(m.regions[1].start_addr(), GuestAddress(4));
    assert_eq!(m.regions[1].get_slice(0, 2), Ok(&[0u8, 0][..]));
    assert_eq!(m.regions[1].get_slice(1, 2), Err(RegionAccessError::OutOfBounds));
    assert_eq!(m.regions[0].get_host_address(3), Ok(3));
    assert_eq!(m.regions[0].get_host_address(4), Err(RegionAccessError::InvalidBackendAddress));
}

#[test]
fn regions_must_be_there_sorted_and_apart() {
    let collection = |r: &[(GuestAddress, usize)]| ranges(r).unwrap_err();
    assert_eq!(
        collection(&[]),
        FromRangesError::Collection(GuestRegionCollectionError::NoMemoryRegion)
    );
    assert_eq!(
        collection(&[(GuestAddress(0), 5), (GuestAddress(4), 2)]),
        FromRangesError::Collection(GuestRegionCollectionError::MemoryRegionOverlap)
    );
    assert_eq!(
        collection(&[(GuestAddress(8), 2), (GuestAddress(0), 2)]),
        FromRangesError::Collection(GuestRegionCollectionError::UnsortedMemoryRegions)
    );
    assert_eq!(collection(&[(GuestAddress(u64::MAX), 1)]), FromRangesError::InvalidGuestRegion);
}

#[test]
fn failed_mappings_are_reported() {
    let ok = || Ok(MmapRegion { bytes: vec![5; 2] });
    let r = GuestMemoryMmap::from_ranges_with_files(vec![(GuestAddress(0), ok()), (GuestAddress(9), Err(8))]);
    assert_eq!(r.unwrap_err(), FromRangesError::MmapRegion(8));
    let m = GuestMemoryMmap::from_ranges_with_files(vec![(GuestAddress(1), ok())]).unwrap();
    assert_eq!(m.regions[0].get_mmap().bytes, vec![5, 5]);
}

#[test]
fn ranges_are_mapped_without_files() {
    let refused = |size: usize| if size == 3 { Err(12) } else { Ok(MmapRegion::new(size)) };
    for ranges in [
        vec![(GuestAddress(0), 4), (GuestAddress(8), 2)],
        vec![(GuestAddress(0), 4), (GuestAddress(2), 2)],
        vec![(GuestAddress(0), 4), (GuestAddress(u64::MAX), 2), (GuestAddress(0), 3)],
        vec![(GuestAddress(8), 4), (GuestAddress(0), 3), (GuestAddress(u64::MAX), 2)],
        vec![],
    ] {
        let answers = ranges.iter().map(|r| refused(r.1)).collect();
        let pairs = ranges.iter().map(|r| (r.0, refused(r.1))).collect();
        let a = GuestMemoryMmap::from_ranges(&ranges, answers);
        let b = GuestMemoryMmap::from_ranges_with_files(pairs);
        let parts = |m: GuestMemoryMmap| {
            m.regions.iter().map(|r| (r.start_addr(), r.get_mmap().bytes.clone())).collect::<Vec<_>>()
        };
        assert_eq!(a.map(parts), b.map(parts));
    }
}

#[test]
fn the_first_failing_range_decides() {
    let far = (GuestAddress(u64::MAX), 2);
    let r = GuestMemoryMmap::from_ranges(&[(GuestAddress(0), 4), far], vec![Err(8), Ok(MmapRegion::new(2))]);
    assert_eq!(r.unwrap_err(), FromRangesError::MmapRegion(8));
    let r = GuestMemoryMmap::from_ranges(&[far, (GuestAddress(0), 4)], vec![Ok(MmapRegion::new(2)), Err(8)]);
    assert_eq!(r.unwrap_err(), FromRangesError::InvalidGuestRegion);
}

#[test]
fn a_region_needs_an_end() {
    assert!(GuestRegionMmap::new(MmapRegion::new(1), GuestAddress(u64::MAX)).is_none());
    let r = GuestRegionMmap::new(MmapRegion::new(1), GuestAddress(u64::MAX - 1)).unwrap();
    assert_eq!(r.start_addr(), GuestAddress(u64::MAX - 1));
    assert!(GuestRegionMmap::with_arc(r.get_mmap(), GuestAddress(u64::MAX)).is_none());
    let r = GuestRegionMmap::from_range(GuestAddress(u64::MAX), Ok(MmapRegion::new(1)));
    assert_eq!(r.unwrap_err(), FromRangesError::InvalidGuestRegion);
}

#[test]
fn transfers_go_on_until_they_are_whole() {
    let (mut t, step) = Transfer::read_exact_volatile(5);
    assert_eq!(step, TransferStep::Move { offset: 0 });
    assert_eq!(t.step(IoOutcome::Moved(2)), TransferStep::Move { offset: 2 });
    assert_eq!(t.step(IoOutcome::Interrupted), TransferStep::Move { offset: 2 });
    assert_eq!(t.step(IoOutcome::Moved(3)), TransferStep::Done);
    assert_eq!(Transfer::write_all_volatile(0).1, TransferStep::Done);
}

#[test]
fn transfers_fail() {
    let (mut t, _) = Transfer::read_exact_volatile(5);
    assert_eq!(t.step(IoOutcome::Moved(0)), TransferStep::Fail(VolatileMemoryError::UnexpectedEof));
    assert_eq!(t.step(IoOutcome::Failed), TransferStep::Fail(VolatileMemoryError::Failed));
    assert_eq!(t.step(IoOutcome::Moved(6)), TransferStep::Fail(VolatileMemoryError::OutOfBounds));
    let (mut t, _) = Transfer::write_all_volatile(5);
    assert_eq!(t.step(IoOutcome::Moved(0)), TransferStep::Fail(VolatileMemoryError::WriteZero));
    assert_eq!(VolatileMemoryError::UnexpectedEof.message(), "failed to fill whole buffer");
    assert_eq!(VolatileMemoryError::WriteZero.message(), "failed to write whole buffer");
}

#[test]
fn slices_read_like_streams() {
    let mut r = SliceReader { rest: &[1, 2, 3, 4, 5] };
    let mut buf = vec![0; 2];
    assert_eq!(r.read_volatile(&mut buf), 2);
    assert_eq!(buf, vec![1, 2]);
    let mut big = vec![9; 4];
    assert_eq!(r.read_exact_volatile(&mut big), Err(VolatileMemoryError::UnexpectedEof));
    assert_eq!(big, vec![9; 4]);
    assert_eq!(r.read_volatile(&mut big), 3);
    assert_eq!(big, vec![3, 4, 5, 9]);
    assert!(r.rest.is_empty());
    let mut none = Vec::new();
    assert_eq!(r.read_exact_volatile(&mut none), Ok(()));
}

#[test]
fn slices_write_like_streams() {
    let mut w = SliceWriter { target: vec![0; 4], written: 0 };
    assert_eq!(w.write_all_volatile(&[1, 2, 3]), Ok(()));
    assert_eq!(w.write_all_volatile(&[4, 5]), Err(VolatileMemoryError::WriteZero));
    assert_eq!(w.target, vec![1, 2, 3, 4]);
    assert_eq!(w.write_volatile(&[6]), 0);
    let mut v = vec![1];
    assert_eq!(write_volatile(&mut v, &[2, 3]), 2);
    assert_eq!(v, vec![1, 2, 3]);
}

#[test]
fn cursors_read_what_they_wrote() {
    let mut c = Cursor { inner: vec![0; 4], position: 1 };
    assert_eq!(c.write_volatile(&[7, 8]), 2);
    assert_eq!((c.inner.clone(), c.position), (vec![0, 7, 8, 0], 3));
    c.position = 1;
    let mut buf = vec![0; 2];
    assert_eq!(c.read_exact_volatile(&mut buf), Ok(()));
    assert_eq!((buf, c.position), (vec![7, 8], 3));
    let mut buf = vec![0; 2];
    assert_eq!(c.read_exact_volatile(&mut buf), Err(VolatileMemoryError::UnexpectedEof));
    assert_eq!(c.read_volatile(&mut buf), 1);
    c.position = 100;
    assert_eq!(c.read_volatile(&mut buf), 0);
    assert_eq!(c.write_volatile(&[1]), 0);
    assert_eq!(c.position, 100);
}
