use luafront::region::{MappedRegion, RegionError, PAGE_SIZE};

#[test]
fn a_new_region_is_zero_filled() {
    let region = MappedRegion::new(3).expect("three pages");
    assert_eq!(PAGE_SIZE, 4096);
    assert_eq!(region.pages(), 3);
    assert_eq!(region.capacity(), 3 * 4096);
    assert_eq!(region.offset(), 0);
    assert!(region.as_slice().iter().all(|b| *b == 0));
    assert_eq!(region.as_slice().len(), 3 * 4096);
    assert_eq!(region[0], 0);
    assert_eq!(region[3 * 4096 - 1], 0);
}

#[test]
fn regions_that_cannot_be_made() {
    assert_eq!(MappedRegion::new(0).err(), Some(RegionError::AllocationFailure));
    assert_eq!(MappedRegion::new(usize::MAX).err(), Some(RegionError::AllocationFailure));
    assert_eq!(
        MappedRegion::new(usize::MAX / 4096 + 1).err(),
        Some(RegionError::AllocationFailure)
    );
    assert_eq!(MappedRegion::new(usize::MAX / 4096).err(), Some(RegionError::AllocationFailure));
    assert_eq!(MappedRegion::with_storage(1, None).err(), Some(RegionError::AllocationFailure));
    assert_eq!(
        MappedRegion::with_storage(0, Some(Vec::new())).err(),
        Some(RegionError::AllocationFailure)
    );
    assert_eq!(
        MappedRegion::with_storage(usize::MAX, Some(Vec::new())).err(),
        Some(RegionError::AllocationFailure)
    );
}

#[test]
fn storage_is_cleared_for_the_region() {
    let region = MappedRegion::with_storage(2, Some(vec![0xcc; 10000])).expect("two pages");
    assert_eq!(region.capacity(), 8192);
    assert_eq!(region.pages(), 2);
    assert_eq!(region.offset(), 0);
    assert!(region.as_slice().iter().all(|b| *b == 0));
}

#[test]
fn one_page_takes_4096_bytes() {
    let mut region = MappedRegion::new(1).expect("one page");
    for i in 0..4096usize {
        assert_eq!(region.offset(), i);
        assert_eq!(region.push((i % 251) as u8 + 1), Ok(()));
    }
    assert_eq!(region.offset(), 4096);
    for i in 0..4096usize {
        assert_eq!(region[i], (i % 251) as u8 + 1, "index {}", i);
    }
    let before = region.as_slice().to_vec();
    assert_eq!(region.push(0xff), Err(RegionError::CapacityExceeded));
    assert_eq!(region.push(0xfe), Err(RegionError::CapacityExceeded));
    assert_eq!(region.offset(), 4096);
    assert_eq!(region.capacity(), 4096);
    assert_eq!(region.as_slice(), before.as_slice());
}

#[test]
fn push_writes_at_the_cursor() {
    let mut region = MappedRegion::new(1).expect("one page");
    assert_eq!(region.push(0x55), Ok(()));
    assert_eq!(region.push(0xc3), Ok(()));
    assert_eq!(region.offset(), 2);
    assert_eq!(&region.as_slice()[..3], &[0x55, 0xc3, 0]);
}

#[test]
fn from_bytes() {
    let code = [0x48u8, 0x89, 0xf8, 0xc3];
    let region = MappedRegion::from(&code).expect("a region");
    assert_eq!(region.offset(), 4);
    assert_eq!(region.pages(), 2);
    assert_eq!(region.capacity(), 8192);
    assert_eq!(&region.as_slice()[..4], &code);
    assert!(region.as_slice()[4..].iter().all(|b| *b == 0));
    for (i, b) in code.iter().enumerate() {
        assert_eq!(region[i], *b);
    }
}

#[test]
fn from_bytes_has_one_page_to_spare() {
    let sizes =
        [(0usize, 1usize), (1, 2), (4095, 2), (4096, 2), (4097, 3), (8192, 3), (8193, 4)];
    for (len, pages) in sizes {
        let ops: Vec<u8> = (0..len).map(|i| (i % 253) as u8).collect();
        let mut region = MappedRegion::from(&ops).expect("a region");
        assert_eq!(region.pages(), pages, "{} bytes", len);
        assert_eq!(region.capacity(), pages * 4096);
        assert_eq!(region.offset(), len);
        assert_eq!(&region.as_slice()[..len], ops.as_slice());
        assert!(region.as_slice()[len..].iter().all(|b| *b == 0));
        assert_eq!(region.push(0x90), Ok(()));
        assert_eq!(region[len], 0x90);
    }
}

#[test]
fn from_is_new_and_push() {
    let ops: Vec<u8> = (0..5000usize).map(|i| (i * 7 % 256) as u8).collect();
    let made = MappedRegion::from(&ops).expect("a region");
    let mut pushed = MappedRegion::new(3).expect("three pages");
    for op in &ops {
        assert_eq!(pushed.push(*op), Ok(()));
    }
    assert_eq!(made.as_slice(), pushed.as_slice());
    assert_eq!(made.offset(), pushed.offset());
    assert_eq!(made.pages(), pushed.pages());
}

#[test]
fn patching_in_place() {
    let mut region = MappedRegion::from(&[0xe9, 0, 0, 0, 0, 0xc3]).expect("a region");
    *region.index_mut(1) = 0x10;
    *region.index_mut(4) = 0x7f;
    assert_eq!(&region.as_slice()[..6], &[0xe9, 0x10, 0, 0, 0x7f, 0xc3]);
    assert_eq!(region.offset(), 6);
    *region.index_mut(8191) = 1;
    assert_eq!(region[8191], 1);
    assert_eq!(region.offset(), 6);
    assert_eq!(region.push(0x90), Ok(()));
    assert_eq!(region[6], 0x90);
    assert_eq!(region[1], 0x10);
    {
        let byte = region.index_mut(0);
        assert_eq!(*byte, 0xe9);
        *byte = 0xeb;
    }
    assert_eq!(region[0], 0xeb);
}

#[test]
fn push_all_appends_in_order() {
    let mut region = MappedRegion::new(1).expect("one page");
    assert_eq!(region.push(1), Ok(()));
    assert_eq!(region.push_all(&[2, 3, 4]), Ok(()));
    assert_eq!(region.push_all(&[]), Ok(()));
    assert_eq!(region.offset(), 4);
    assert_eq!(&region.as_slice()[..5], &[1, 2, 3, 4, 0]);
}

#[test]
fn push_all_is_all_or_nothing() {
    let mut region = MappedRegion::new(1).expect("one page");
    assert_eq!(region.push_all(&[7u8; 4090]), Ok(()));
    let before = region.as_slice().to_vec();
    assert_eq!(region.push_all(&[9u8; 7]), Err(RegionError::CapacityExceeded));
    assert_eq!(region.offset(), 4090);
    assert_eq!(region.as_slice(), before.as_slice());
    assert_eq!(region.push_all(&[9u8; 6]), Ok(()));
    assert_eq!(region.offset(), 4096);
    assert_eq!(&region.as_slice()[4088..], &[7, 7, 9, 9, 9, 9, 9, 9]);
    assert_eq!(region.push_all(&[]), Ok(()));
    assert_eq!(region.push_all(&[1]), Err(RegionError::CapacityExceeded));
    assert_eq!(region.push(1), Err(RegionError::CapacityExceeded));
}

#[test]
fn from_without_storage_is_refused() {
    assert_eq!(
        MappedRegion::from_storage(&[1, 2, 3], None).err(),
        Some(RegionError::AllocationFailure)
    );
    assert_eq!(MappedRegion::from_storage(&[], None).err(), Some(RegionError::AllocationFailure));
    let ops = vec![0x90u8; 5000];
    assert_eq!(MappedRegion::from_storage(&ops, None).err(), Some(RegionError::AllocationFailure));
    assert_eq!(ops, vec![0x90u8; 5000]);
}

#[test]
fn from_storage_holds_the_bytes() {
    let code = [0x48u8, 0x89, 0xf8, 0xc3];
    let region = MappedRegion::from_storage(&code, Some(Vec::new())).expect("a region");
    assert_eq!(region.offset(), 4);
    assert_eq!(region.pages(), 2);
    assert_eq!(region.capacity(), 8192);
    assert_eq!(&region.as_slice()[..4], &code);
    assert!(region.as_slice()[4..].iter().all(|b| *b == 0));
    let empty = MappedRegion::from_storage(&[], Some(Vec::new())).expect("a region");
    assert_eq!(empty.offset(), 0);
    assert_eq!(empty.pages(), 1);
    assert!(empty.as_slice().iter().all(|b| *b == 0));
}

#[test]
fn from_storage_clears_what_the_storage_held() {
    let ops: Vec<u8> = (0..4097usize).map(|i| (i % 255) as u8 + 1).collect();
    let region = MappedRegion::from_storage(&ops, Some(vec![0xcc; 20000])).expect("a region");
    assert_eq!(region.pages(), 3);
    assert_eq!(region.capacity(), 3 * 4096);
    assert_eq!(region.offset(), 4097);
    assert_eq!(&region.as_slice()[..4097], ops.as_slice());
    assert!(region.as_slice()[4097..].iter().all(|b| *b == 0));
}

#[test]
fn from_is_from_storage_after_the_reservation() {
    let ops: Vec<u8> = (0..9000usize).map(|i| (i * 3 % 256) as u8).collect();
    let made = MappedRegion::from(&ops).expect("a region");
    let stored = MappedRegion::from_storage(&ops, Some(Vec::new())).expect("a region");
    assert_eq!(made.as_slice(), stored.as_slice());
    assert_eq!(made.offset(), stored.offset());
    assert_eq!(made.pages(), stored.pages());
}
