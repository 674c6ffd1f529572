use vivanta::boot::boot_info::{MemoryMap, MemoryRegion, MemoryRegionKind};
use vivanta::boot::memory_discovery::{discover, KernelLayout};

fn region(start: u64, size: u64, kind: MemoryRegionKind) -> MemoryRegion {
    MemoryRegion { start, size, kind }
}

fn layout() -> KernelLayout {
    KernelLayout {
        start: 0x4020_0000,
        end: 0x4024_a000,
        dtb: 0x4000_0000,
        dtb_size: 0x10_0000,
        page_tables_start: 0x4024_a000,
        page_tables_size: 0x5000,
    }
}

#[test]
fn single_usable_region_subtracts_kernel_dtb_tables() {
    let mut map = MemoryMap::new();
    map.push(region(0x4000_0000, 0x2000_0000, MemoryRegionKind::Usable)); // 512 MiB

    let found = discover(&map, &layout());
    assert_eq!(found.count, 2, "expected two gaps around reserved areas");

    // Gap 1: [0x4010_0000, 0x4020_0000) — before kernel, after DTB.
    assert_eq!(found.regions[0].start, 0x4010_0000);
    assert_eq!(found.regions[0].end, 0x4020_0000);

    // Gap 2: [0x4024_f000, 0x6000_0000) — after page tables.
    assert_eq!(found.regions[1].start, 0x4024_f000);
    assert_eq!(found.regions[1].end, 0x6000_0000);
}

#[test]
fn non_usable_region_is_fully_reserved() {
    let mut map = MemoryMap::new();
    map.push(region(0x4000_0000, 0x2000_0000, MemoryRegionKind::Usable));
    map.push(region(0x5000_0000, 0x1000, MemoryRegionKind::Mmio));

    let found = discover(&map, &layout());
    // The Mmio region inside usable must be subtracted too.
    for r in found.iter() {
        assert!(
            !(r.start <= 0x5000_0000 && r.end > 0x5000_1000),
            "MMIO region leaked into available memory"
        );
    }
}

#[test]
fn empty_memory_map_yields_nothing() {
    let map = MemoryMap::new();
    let found = discover(&map, &layout());
    assert_eq!(found.count, 0);
}

#[test]
fn overlapping_reservations_merge_and_output_is_sorted() {
    let mut map = MemoryMap::new();
    map.push(region(0x8000_0000, 0x10_0000, MemoryRegionKind::Usable));
    map.push(region(0x4000_0000, 0x2000_0000, MemoryRegionKind::Usable));
    map.push(region(0x4030_0000, 0x1000, MemoryRegionKind::Reserved));
    map.push(region(0x4030_0800, 0x2000, MemoryRegionKind::Mmio));
    let found = discover(&map, &layout());
    let r = found.iter();
    assert_eq!(r.len(), 4);
    assert_eq!((r[0].start, r[0].end), (0x4010_0000, 0x4020_0000));
    assert_eq!((r[1].start, r[1].end), (0x4024_f000, 0x4030_0000));
    assert_eq!((r[2].start, r[2].end), (0x4030_2800, 0x6000_0000));
    assert_eq!((r[3].start, r[3].end), (0x8000_0000, 0x8010_0000));
}

#[test]
fn high_region_listed_first_comes_out_sorted() {
    let mut map = MemoryMap::new();
    map.push(region(0x8000_0000, 0x1000, MemoryRegionKind::Usable));
    map.push(region(0x1000_0000, 0x1000, MemoryRegionKind::Usable));
    let found = discover(&map, &layout());
    let r = found.iter();
    assert_eq!(r.len(), 2);
    assert_eq!((r[0].start, r[0].end), (0x1000_0000, 0x1000_1000));
    assert_eq!((r[1].start, r[1].end), (0x8000_0000, 0x8000_1000));
}

#[test]
fn overlapping_usable_regions_are_not_repeated() {
    let mut map = MemoryMap::new();
    map.push(region(0x1000_0000, 0x4000, MemoryRegionKind::Usable));
    map.push(region(0x1000_2000, 0x4000, MemoryRegionKind::Usable));
    let found = discover(&map, &layout());
    let r = found.iter();
    assert_eq!(r.len(), 1);
    assert_eq!((r[0].start, r[0].end), (0x1000_0000, 0x1000_6000));
}

#[test]
fn touching_usable_regions_give_one_range() {
    let mut map = MemoryMap::new();
    map.push(region(0x1000_1000, 0x1000, MemoryRegionKind::Usable));
    map.push(region(0x1000_0000, 0x1000, MemoryRegionKind::Usable));
    let r = discover(&map, &layout()).iter();
    assert_eq!(r.len(), 1);
    assert_eq!((r[0].start, r[0].end), (0x1000_0000, 0x1000_2000));
}

#[test]
fn mmio_inside_usable_splits_the_tail_exactly() {
    let mut map = MemoryMap::new();
    map.push(region(0x4000_0000, 0x2000_0000, MemoryRegionKind::Usable));
    map.push(region(0x5000_0000, 0x1000, MemoryRegionKind::Mmio));
    let found = discover(&map, &layout());
    assert_eq!(found.count, 3);
    let got: Vec<(u64, u64)> = found.iter().iter().map(|x| (x.start, x.end)).collect();
    assert_eq!(
        got,
        vec![
            (0x4010_0000, 0x4020_0000),
            (0x4024_f000, 0x5000_0000),
            (0x5000_1000, 0x6000_0000),
        ]
    );
}

#[test]
fn output_is_capped_at_eight_regions() {
    let mut map = MemoryMap::new();
    map.push(region(0x1000_0000, 0x10_0000, MemoryRegionKind::Usable));
    for k in 0..10u64 {
        map.push(region(0x1000_0000 + 0x2000 * k + 0x1000, 0x1000, MemoryRegionKind::Reserved));
    }
    let found = discover(&map, &layout());
    assert_eq!(found.count, 8);
    assert_eq!(found.regions[0].start, 0x1000_0000);
    assert_eq!(found.regions[0].end, 0x1000_1000);
    assert_eq!(found.regions[7].start, 0x1000_e000);
}

#[test]
fn every_non_usable_kind_is_reserved() {
    let mut map = MemoryMap::new();
    map.push(region(0x1000_0000, 0x10_0000, MemoryRegionKind::Usable));
    map.push(region(0x1000_0000, 0x1000, MemoryRegionKind::BootloaderReclaimable));
    map.push(region(0x1000_2000, 0x1000, MemoryRegionKind::KernelImage));
    map.push(region(0x1000_4000, 0x1000, MemoryRegionKind::DeviceMemory));
    map.push(region(0x1000_6000, 0x1000, MemoryRegionKind::Framebuffer));
    let r = discover(&map, &layout()).iter();
    let got: Vec<(u64, u64)> = r.iter().map(|x| (x.start, x.end)).collect();
    assert_eq!(
        got,
        vec![
            (0x1000_1000, 0x1000_2000),
            (0x1000_3000, 0x1000_4000),
            (0x1000_5000, 0x1000_6000),
            (0x1000_7000, 0x1010_0000),
        ]
    );
}
