use probe_rs::builder::check_completion;
use probe_rs::builder::FlashBuilder;
use probe_rs::builder::FlashError;
use probe_rs::builder::FlashOperation;
use probe_rs::builder::FlashPage;
use probe_rs::builder::FlashSector;
use probe_rs::builder::FlashWriteData;
use probe_rs::region::FlashRegion;
use probe_rs::region::PageInfo;
use probe_rs::region::SectorInfo;

fn test_region() -> FlashRegion {
    FlashRegion {
        range_start: 0x0800_0000,
        range_end: 0x0801_0000,
        sector_size: 1024,
        page_size: 256,
        erased_byte_value: 0xFF,
    }
}

#[test]
fn region_sector_and_page_lookup() {
    let region = test_region();
    let sector = region.sector_info(0x0800_0433).unwrap();
    assert_eq!(
        sector,
        SectorInfo {
            base_address: 0x0800_0400,
            size: 1024,
            page_size: 256,
        }
    );
    let page = region.page_info(0x0800_0433).unwrap();
    assert_eq!(
        page,
        PageInfo {
            base_address: 0x0800_0400,
            size: 256,
        }
    );
    assert!(region.sector_info(0x0700_0000).is_none());
    assert!(region.page_info(0x0801_0000).is_none());
    assert!(region.contains(0x0800_0000));
    assert!(!region.contains(0x0801_0000));
}

#[test]
fn add_data_keeps_writes_sorted_and_disjoint() {
    let mut builder = FlashBuilder::new();
    builder.add_data(0x200, &[9, 9, 9, 9]).unwrap();
    builder.add_data(0x100, &[1, 2, 3, 4]).unwrap();
    // Adjacency is allowed.
    builder.add_data(0x104, &[5, 6]).unwrap();
    assert_eq!(builder.buffered_data_size, 10);
    let writes = &builder.flash_write_data;
    assert_eq!(writes.len(), 3);
    for i in 0..writes.len() - 1 {
        let end = writes[i].address as u64 + writes[i].data.len() as u64;
        assert!(end <= writes[i + 1].address as u64);
        assert!(writes[i].address < writes[i + 1].address);
    }
    assert_eq!(writes[0].address, 0x100);
    assert_eq!(writes[1].address, 0x104);
    assert_eq!(writes[2].address, 0x200);
}

#[test]
fn add_data_rejects_duplicate_address() {
    let mut builder = FlashBuilder::new();
    builder.add_data(0x100, &[0; 16]).unwrap();
    let err = builder.add_data(0x100, &[1; 4]).unwrap_err();
    assert_eq!(err, FlashError::FlashBuilder);
    assert_eq!(builder.flash_write_data.len(), 1);
    assert_eq!(builder.buffered_data_size, 16);
}

#[test]
fn overlap_rejection_leaves_builder_unchanged() {
    // Writing 16 bytes at 0x100, then 4 bytes at 0x108: the second call
    // fails and the builder equals its state after the first call.
    let mut builder = FlashBuilder::new();
    builder.add_data(0x100, &[0; 16]).unwrap();
    let err = builder.add_data(0x108, &[0; 4]).unwrap_err();
    assert_eq!(err, FlashError::FlashBuilder);
    assert_eq!(builder.flash_write_data.len(), 1);
    assert_eq!(builder.flash_write_data[0].address, 0x100);
    assert_eq!(builder.flash_write_data[0].data, vec![0; 16]);
    assert_eq!(builder.buffered_data_size, 16);
    // An overlap from the other side is rejected too.
    let err = builder.add_data(0x0F0, &[0; 32]).unwrap_err();
    assert_eq!(err, FlashError::FlashBuilder);
    assert_eq!(builder.flash_write_data.len(), 1);
}

#[test]
fn single_short_page_layout() {
    // One 3-byte write: one sector, one page, filled with the erased value.
    let region = test_region();
    let mut builder = FlashBuilder::new();
    builder.add_data(0x0800_0000, &[0x01, 0x02, 0x03]).unwrap();
    let layout = builder.build_sectors_and_pages(&region, false).unwrap();
    assert_eq!(layout.sectors.len(), 1);
    assert_eq!(layout.read_requests.len(), 0);
    let sector = &layout.sectors[0];
    assert_eq!(sector.address, 0x0800_0000);
    assert_eq!(sector.size, 1024);
    assert_eq!(sector.pages.len(), 1);
    let page = &sector.pages[0];
    assert_eq!(page.address, 0x0800_0000);
    assert_eq!(page.size, 256);
    let mut expected = vec![0x01, 0x02, 0x03];
    expected.extend(vec![0xFF; 253]);
    assert_eq!(page.data, expected);

    // Erase the sector, then program the page.
    let plan = builder.program(&layout, true, false, false);
    assert_eq!(plan.len(), 2);
    assert_eq!(plan[0], FlashOperation::EraseSector { address: 0x0800_0000 });
    assert_eq!(
        plan[1],
        FlashOperation::ProgramPage {
            address: 0x0800_0000,
            data: expected,
        }
    );
}

#[test]
fn cross_sector_write_layout() {
    // A 32-byte write at 0x080003F0 spans the boundary between the sectors
    // at 0x08000000 and 0x08000400.
    let region = test_region();
    let mut builder = FlashBuilder::new();
    builder.add_data(0x0800_03F0, &[0xAA; 32]).unwrap();
    let layout = builder.build_sectors_and_pages(&region, false).unwrap();
    assert_eq!(layout.sectors.len(), 2);
    let first = &layout.sectors[0];
    assert_eq!(first.address, 0x0800_0000);
    assert_eq!(first.pages.len(), 1);
    assert_eq!(first.pages[0].address, 0x0800_0300);
    let mut expected_a = vec![0xFF; 240];
    expected_a.extend(vec![0xAA; 16]);
    assert_eq!(first.pages[0].data, expected_a);
    let second = &layout.sectors[1];
    assert_eq!(second.address, 0x0800_0400);
    assert_eq!(second.pages.len(), 1);
    assert_eq!(second.pages[0].address, 0x0800_0400);
    let mut expected_b = vec![0xAA; 16];
    expected_b.extend(vec![0xFF; 240]);
    assert_eq!(second.pages[0].data, expected_b);
}

#[test]
fn restore_unwritten_records_and_applies_device_reads() {
    // As the single-short-page case, but restoring unwritten bytes: the
    // layout asks for one read of the 253 trailing bytes, and applying the
    // read data makes it the tail of the page.
    let region = test_region();
    let mut builder = FlashBuilder::new();
    builder.add_data(0x0800_0000, &[0x01, 0x02, 0x03]).unwrap();
    let mut layout = builder.build_sectors_and_pages(&region, true).unwrap();
    assert_eq!(layout.read_requests.len(), 1);
    let request = layout.read_requests[0];
    assert_eq!(request.address, 0x0800_0003);
    assert_eq!(request.length, 253);
    assert_eq!(request.sector_index, 0);
    assert_eq!(request.page_index, 0);
    assert_eq!(request.data_offset, 3);

    let device_bytes: Vec<u8> = (0..253).map(|i| (i % 251) as u8).collect();
    layout.apply_read_data(&vec![device_bytes.clone()]);
    let page = &layout.sectors[0].pages[0];
    assert_eq!(page.data.len(), 256);
    assert_eq!(&page.data[0..3], &[0x01, 0x02, 0x03]);
    assert_eq!(&page.data[3..], device_bytes.as_slice());

    // The program step still programs the full 256-byte page.
    let plan = builder.program(&layout, true, false, false);
    match &plan[1] {
        FlashOperation::ProgramPage { address, data } => {
            assert_eq!(*address, 0x0800_0000);
            assert_eq!(data.len(), 256);
        }
        other => panic!("expected a page program, got {:?}", other),
    }
}

#[test]
fn chip_erase_downgrade_without_erase_all() {
    // The algorithm has no erase-all entry: chip erase is silently
    // downgraded to per-sector erases.
    let region = test_region();
    let mut builder = FlashBuilder::new();
    builder.add_data(0x0800_0000, &[0x01, 0x02, 0x03]).unwrap();
    let layout = builder.build_sectors_and_pages(&region, false).unwrap();
    let plan = builder.program(&layout, false, false, true);
    assert!(plan
        .iter()
        .all(|op| !matches!(op, FlashOperation::EraseAll)));
    assert_eq!(plan[0], FlashOperation::EraseSector { address: 0x0800_0000 });
}

#[test]
fn chip_erase_used_when_supported() {
    let region = test_region();
    let mut builder = FlashBuilder::new();
    builder.add_data(0x0800_0000, &[0x01]).unwrap();
    builder.add_data(0x0800_0400, &[0x02]).unwrap();
    let layout = builder.build_sectors_and_pages(&region, false).unwrap();
    let plan = builder.program(&layout, true, false, true);
    assert_eq!(plan[0], FlashOperation::EraseAll);
    // One erase, then one program per page.
    assert_eq!(plan.len(), 3);
}

#[test]
fn sector_erase_covers_exactly_the_touched_sectors() {
    let region = test_region();
    let mut builder = FlashBuilder::new();
    builder.add_data(0x0800_0000, &[0x01]).unwrap();
    builder.add_data(0x0800_0800, &[0x02]).unwrap();
    let layout = builder.build_sectors_and_pages(&region, false).unwrap();
    let plan = builder.program(&layout, true, false, false);
    assert_eq!(plan[0], FlashOperation::EraseSector { address: 0x0800_0000 });
    assert_eq!(plan[1], FlashOperation::EraseSector { address: 0x0800_0800 });
    assert!(matches!(plan[2], FlashOperation::ProgramPage { .. }));
    assert!(matches!(plan[3], FlashOperation::ProgramPage { .. }));
    assert_eq!(plan.len(), 4);
}

#[test]
fn double_buffered_plan_alternates_buffers() {
    let region = test_region();
    let mut builder = FlashBuilder::new();
    builder.set_double_buffering(true);
    builder.add_data(0x0800_0000, &[0x01]).unwrap();
    builder.add_data(0x0800_0400, &[0x02]).unwrap();
    let layout = builder.build_sectors_and_pages(&region, false).unwrap();
    let plan = builder.program(&layout, false, true, false);
    // Two sector erases, then three operations per page.
    assert_eq!(plan.len(), 2 + 6);
    match &plan[2] {
        FlashOperation::LoadPageBuffer {
            address,
            buffer_number,
            ..
        } => {
            assert_eq!(*address, 0x0800_0000);
            assert_eq!(*buffer_number, 0);
        }
        other => panic!("expected a buffer load, got {:?}", other),
    }
    assert_eq!(plan[3], FlashOperation::WaitForCompletion);
    assert_eq!(
        plan[4],
        FlashOperation::StartProgramPageWithBuffer {
            buffer_number: 0,
            address: 0x0800_0000,
        }
    );
    match &plan[5] {
        FlashOperation::LoadPageBuffer { buffer_number, .. } => assert_eq!(*buffer_number, 1),
        other => panic!("expected a buffer load, got {:?}", other),
    }
    assert_eq!(
        plan[7],
        FlashOperation::StartProgramPageWithBuffer {
            buffer_number: 1,
            address: 0x0800_0400,
        }
    );
}

#[test]
fn every_page_of_a_plan_is_full() {
    let region = test_region();
    let mut builder = FlashBuilder::new();
    builder.add_data(0x0800_0000, &[0x01, 0x02]).unwrap();
    builder.add_data(0x0800_0180, &[0x03; 16]).unwrap();
    let layout = builder.build_sectors_and_pages(&region, false).unwrap();
    for sector in &layout.sectors {
        assert!(sector.pages.len() as u32 <= sector.size / sector.page_size);
        for page in &sector.pages {
            assert_eq!(page.size, sector.page_size);
            assert_eq!(page.data.len() as u32, page.size);
        }
    }
    let plan = builder.program(&layout, true, false, false);
    for op in &plan {
        if let FlashOperation::ProgramPage { data, .. } = op {
            assert_eq!(data.len(), 256);
        }
    }
}

#[test]
fn gap_between_writes_in_one_page_is_filled() {
    let region = test_region();
    let mut builder = FlashBuilder::new();
    builder.add_data(0x0800_0000, &[0x11, 0x22]).unwrap();
    builder.add_data(0x0800_0010, &[0x33]).unwrap();
    let layout = builder.build_sectors_and_pages(&region, false).unwrap();
    let page = &layout.sectors[0].pages[0];
    assert_eq!(page.data[0], 0x11);
    assert_eq!(page.data[1], 0x22);
    for k in 2..16 {
        assert_eq!(page.data[k], 0xFF);
    }
    assert_eq!(page.data[16], 0x33);
    assert_eq!(page.data[17], 0xFF);
}

#[test]
fn address_outside_region_is_rejected() {
    let region = test_region();
    let mut builder = FlashBuilder::new();
    builder.add_data(0x0900_0000, &[0x01]).unwrap();
    let err = builder.build_sectors_and_pages(&region, false).unwrap_err();
    assert_eq!(
        err,
        FlashError::AddressNotInRegion {
            address: 0x0900_0000,
            region,
        }
    );
}

#[test]
fn empty_builder_builds_an_empty_plan() {
    let region = test_region();
    let builder = FlashBuilder::new();
    let layout = builder.build_sectors_and_pages(&region, false).unwrap();
    assert_eq!(layout.sectors.len(), 0);
    let plan = builder.program(&layout, true, true, true);
    assert!(plan.is_empty());
}

#[test]
fn add_page_rejects_mismatched_size_and_overflow() {
    let info = SectorInfo {
        base_address: 0x1000,
        size: 512,
        page_size: 256,
    };
    let mut sector = FlashSector::new(&info);
    let bad = FlashPage::new(&PageInfo {
        base_address: 0x1000,
        size: 128,
    });
    assert_eq!(sector.add_page(bad), Err(FlashError::FlashBuilder));
    let first = FlashPage::new(&PageInfo {
        base_address: 0x1000,
        size: 256,
    });
    let second = FlashPage::new(&PageInfo {
        base_address: 0x1100,
        size: 256,
    });
    sector.add_page(first).unwrap();
    sector.add_page(second).unwrap();
    // The sector holds size / page_size pages already.
    let third = FlashPage::new(&PageInfo {
        base_address: 0x1200,
        size: 256,
    });
    assert_eq!(sector.add_page(third), Err(FlashError::FlashBuilder));
}

#[test]
fn add_page_keeps_pages_sorted() {
    let info = SectorInfo {
        base_address: 0x1000,
        size: 1024,
        page_size: 256,
    };
    let mut sector = FlashSector::new(&info);
    sector
        .add_page(FlashPage::new(&PageInfo {
            base_address: 0x1200,
            size: 256,
        }))
        .unwrap();
    sector
        .add_page(FlashPage::new(&PageInfo {
            base_address: 0x1000,
            size: 256,
        }))
        .unwrap();
    assert_eq!(sector.pages[0].address, 0x1000);
    assert_eq!(sector.pages[1].address, 0x1200);
}

#[test]
fn pages_lists_all_pages_in_order() {
    let region = test_region();
    let mut builder = FlashBuilder::new();
    builder.add_data(0x0800_0000, &[0x01]).unwrap();
    builder.add_data(0x0800_0480, &[0x02]).unwrap();
    let layout = builder.build_sectors_and_pages(&region, false).unwrap();
    let pages = FlashBuilder::pages(&layout.sectors);
    assert_eq!(pages.len(), 2);
    assert_eq!(pages[0].address, 0x0800_0000);
    assert_eq!(pages[1].address, 0x0800_0400);
}

#[test]
fn completion_codes_are_checked() {
    assert_eq!(check_completion(Some(0)), Ok(()));
    assert_eq!(check_completion(Some(1)), Err(FlashError::FlashBuilder));
    assert_eq!(check_completion(None), Err(FlashError::FlashBuilder));
}

#[test]
fn write_data_holds_address_and_bytes() {
    let w = FlashWriteData::new(0x42, vec![1, 2, 3]);
    assert_eq!(w.address, 0x42);
    assert_eq!(w.data, vec![1, 2, 3]);
}
