use boot_memory_map::{
    E820MemoryRegion, MemoryMap, MemoryMapError, MemoryRegion, MemoryRegionType, PhysAddr,
    MAX_REGIONS, PHYS_ADDR_LIMIT,
};

fn region(start: u64, len: u64, region_type: MemoryRegionType) -> MemoryRegion {
    MemoryRegion { start_addr: PhysAddr::new(start), len, region_type }
}

fn e820(start: u64, len: u64, code: u32) -> E820MemoryRegion {
    E820MemoryRegion { start_addr: start, len, region_type: code, acpi_extended_attributes: 0 }
}

#[test]
fn new_map_has_empty_view() {
    let map = MemoryMap::new();
    assert_eq!(map.len(), 0);
}

#[test]
fn empty_region_is_sentinel() {
    let r = MemoryRegion::empty();
    assert_eq!(r.len, 0);
    assert_eq!(r.start_addr().as_u64(), 0);
    assert_eq!(r.region_type, MemoryRegionType::Reserved);
}

#[test]
fn appends_keep_insertion_order() {
    let mut map = MemoryMap::new();
    let regions = [
        region(300, 5, MemoryRegionType::Usable),
        region(100, 7, MemoryRegionType::Kernel),
        region(200, 0, MemoryRegionType::PageTable),
        region(0, 9, MemoryRegionType::Bootloader),
    ];
    for (i, r) in regions.iter().enumerate() {
        map.add_region(*r);
        assert_eq!(map.len(), i + 1);
    }
    assert_eq!(&map[..], &regions[..]);
}

#[test]
fn full_map_holds_every_append() {
    let mut map = MemoryMap::new();
    for i in 0..MAX_REGIONS as u64 {
        map.add_region(region(1000 - i, 1, MemoryRegionType::Usable));
    }
    assert_eq!(map.len(), 32);
    assert_eq!(map[31].start_addr().as_u64(), 969);
}

#[test]
fn sort_single_region_among_empty_slots() {
    let mut map = MemoryMap::new();
    map.add_region(region(100, 10, MemoryRegionType::Usable));
    map.sort();
    assert_eq!(&map[..], &[region(100, 10, MemoryRegionType::Usable)][..]);
}

#[test]
fn sort_orders_by_start_address() {
    let mut map = MemoryMap::new();
    map.add_region(region(50, 10, MemoryRegionType::Reserved));
    map.add_region(region(0, 20, MemoryRegionType::Usable));
    map.sort();
    assert_eq!(
        &map[..],
        &[region(0, 20, MemoryRegionType::Usable), region(50, 10, MemoryRegionType::Reserved)][..]
    );
}

#[test]
fn sort_drops_empty_regions_from_view() {
    let mut map = MemoryMap::new();
    map.add_region(region(500, 0, MemoryRegionType::Usable));
    map.add_region(region(400, 4, MemoryRegionType::AcpiNvs));
    map.add_region(region(0, 0, MemoryRegionType::Reserved));
    map.add_region(region(100, 1, MemoryRegionType::Kernel));
    map.sort();
    assert_eq!(
        &map[..],
        &[region(100, 1, MemoryRegionType::Kernel), region(400, 4, MemoryRegionType::AcpiNvs)][..]
    );
}

#[test]
fn sort_excludes_entries_emptied_through_view() {
    let mut map = MemoryMap::new();
    map.add_region(region(30, 3, MemoryRegionType::Usable));
    map.add_region(region(10, 1, MemoryRegionType::Usable));
    map.add_region(region(20, 2, MemoryRegionType::Usable));
    map[1].len = 0;
    map.sort();
    assert_eq!(
        &map[..],
        &[region(20, 2, MemoryRegionType::Usable), region(30, 3, MemoryRegionType::Usable)][..]
    );
}

#[test]
fn sort_twice_keeps_view() {
    let mut map = MemoryMap::new();
    map.add_region(region(70, 1, MemoryRegionType::Usable));
    map.add_region(region(10, 2, MemoryRegionType::Kernel));
    map.add_region(region(70, 3, MemoryRegionType::Reserved));
    map.add_region(region(40, 0, MemoryRegionType::Usable));
    map.sort();
    let first: Vec<MemoryRegion> = map.to_vec();
    assert_eq!(first.len(), 3);
    assert_eq!(first[0], region(10, 2, MemoryRegionType::Kernel));
    map.sort();
    assert_eq!(map.to_vec(), first);
}

#[test]
fn sort_full_map_counts_all_slots() {
    let mut map = MemoryMap::new();
    for i in 0..MAX_REGIONS as u64 {
        map.add_region(region(i * 10, 10, MemoryRegionType::Usable));
    }
    map.sort();
    assert_eq!(map.len(), 32);
    for i in 0..MAX_REGIONS {
        assert_eq!(map[i].start_addr().as_u64(), (i as u64) * 10);
    }
}

#[test]
fn sort_with_equal_start_addresses_keeps_both() {
    let mut map = MemoryMap::new();
    map.add_region(region(5, 1, MemoryRegionType::Usable));
    map.add_region(region(5, 2, MemoryRegionType::Reserved));
    map.add_region(region(1, 3, MemoryRegionType::Kernel));
    map.sort();
    assert_eq!(map.len(), 3);
    assert_eq!(map[0], region(1, 3, MemoryRegionType::Kernel));
    assert!(map[1..].contains(&region(5, 1, MemoryRegionType::Usable)));
    assert!(map[1..].contains(&region(5, 2, MemoryRegionType::Reserved)));
}

#[test]
fn view_allows_reclassification() {
    let mut map = MemoryMap::new();
    map.add_region(region(0x1000, 0x1000, MemoryRegionType::Bootloader));
    map[0].region_type = MemoryRegionType::Usable;
    assert_eq!(map[0], region(0x1000, 0x1000, MemoryRegionType::Usable));
    assert_eq!(map.len(), 1);
}

#[test]
fn try_add_region_on_full_map_fails() {
    let mut map = MemoryMap::new();
    for i in 0..MAX_REGIONS as u64 {
        assert_eq!(map.try_add_region(region(i, 1, MemoryRegionType::Usable)), Ok(()));
    }
    let before = map.to_vec();
    assert_eq!(
        map.try_add_region(region(99, 1, MemoryRegionType::Usable)),
        Err(MemoryMapError::CapacityExceeded)
    );
    assert_eq!(map.to_vec(), before);
}

#[test]
fn from_e820_known_codes() {
    let expected = [
        (1, MemoryRegionType::Usable),
        (2, MemoryRegionType::Reserved),
        (3, MemoryRegionType::AcpiReclaimable),
        (4, MemoryRegionType::AcpiNvs),
        (5, MemoryRegionType::BadMemory),
    ];
    for (code, t) in expected {
        let r = MemoryRegion::from_e820(e820(0x9_f000, 0x1000, code)).unwrap();
        assert_eq!(r, region(0x9_f000, 0x1000, t));
    }
}

#[test]
fn from_e820_code_zero_fails() {
    assert_eq!(
        MemoryRegion::from_e820(e820(0, 10, 0)),
        Err(MemoryMapError::UnknownRegionType(0))
    );
}

#[test]
fn from_e820_code_six_fails() {
    assert_eq!(
        MemoryRegion::from_e820(e820(0, 10, 6)),
        Err(MemoryMapError::UnknownRegionType(6))
    );
}

#[test]
fn from_e820_invalid_address_fails() {
    assert_eq!(
        MemoryRegion::from_e820(e820(PHYS_ADDR_LIMIT, 10, 1)),
        Err(MemoryMapError::InvalidAddress(PHYS_ADDR_LIMIT))
    );
    assert_eq!(
        MemoryRegion::from_e820(e820(u64::MAX, 10, 9)),
        Err(MemoryMapError::UnknownRegionType(9))
    );
}

#[test]
fn end_addr_adds_length() {
    let r = region(100, 10, MemoryRegionType::Usable);
    assert_eq!(r.end_addr().as_u64(), 110);
    assert_eq!(r.start_addr().as_u64(), 100);
}

#[test]
fn phys_addr_validation() {
    assert_eq!(PhysAddr::try_new(PHYS_ADDR_LIMIT - 1).map(|a| a.as_u64()), Some(PHYS_ADDR_LIMIT - 1));
    assert_eq!(PhysAddr::try_new(PHYS_ADDR_LIMIT), None);
    assert_eq!(PhysAddr::try_new(1 << 63), None);
    assert_eq!(PhysAddr::new(0x1234).add_len(0x10).as_u64(), 0x1244);
}

#[test]
fn from_valid_records() {
    assert_eq!(
        MemoryRegion::from(e820(0x1000, 0x9f000, 1)),
        region(0x1000, 0x9f000, MemoryRegionType::Usable)
    );
    assert_eq!(
        MemoryRegion::from(e820(0x9f000, 0x1000, 2)),
        region(0x9f000, 0x1000, MemoryRegionType::Reserved)
    );
    assert_eq!(
        MemoryRegion::from(e820(0x8000000, 0x4000, 4)),
        region(0x8000000, 0x4000, MemoryRegionType::AcpiNvs)
    );
    assert_eq!(
        MemoryRegion::from(e820(0x200000, 0x1000, 5)),
        region(0x200000, 0x1000, MemoryRegionType::BadMemory)
    );
}

#[test]
fn from_ignores_extended_attributes() {
    let mut rec = e820(0x7fe0000, 0x20000, 3);
    rec.acpi_extended_attributes = 1;
    assert_eq!(MemoryRegion::from(rec), MemoryRegion::from(e820(0x7fe0000, 0x20000, 3)));
    assert_eq!(MemoryRegion::from(rec), region(0x7fe0000, 0x20000, MemoryRegionType::AcpiReclaimable));
}
