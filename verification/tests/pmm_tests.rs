use vivanta::memory::manager::MemoryResourceManager;
use vivanta::boot::memory_discovery::AvailableRegion;
use vivanta::error::PmmError;
use vivanta::memory::pmm_backend::PmmBackend;
use vivanta::memory::resource::{AllocError, MemoryBackend};
use vivanta::pmm::{PhysFrame, PmmBitmap, FRAME_SIZE};
use vivanta::verify::{stress_test_pmm, verify_pmm};

const BASE: u64 = 0x4000_0000;

fn region(frames: u64) -> PmmBitmap {
    PmmBitmap::init(BASE, frames * FRAME_SIZE)
}

#[test]
fn init_counts_every_frame_free() {
    let p = region(16);
    assert_eq!(p.total_frames(), 16);
    assert_eq!(p.free_count(), 16);
    assert_eq!(p.allocated_count(), 0);
    assert_eq!(p.reserved_count(), 0);
    assert_eq!(p.region_start(), BASE);
}

#[test]
fn bitmap_size_rounds_up_to_bytes() {
    assert_eq!(PmmBitmap::bitmap_size(0), 0);
    assert_eq!(PmmBitmap::bitmap_size(8 * FRAME_SIZE), 1);
    assert_eq!(PmmBitmap::bitmap_size(9 * FRAME_SIZE), 2);
}

#[test]
fn new_reserves_the_bitmap_pages() {
    let r = AvailableRegion { start: BASE, end: BASE + 256 * FRAME_SIZE };
    let mut p = PmmBitmap::new(&r);
    assert_eq!(p.total_frames(), 256);
    assert!(p.is_allocated(BASE));
    assert_eq!(p.alloc_frame(), Some(PhysFrame { addr: BASE + FRAME_SIZE }));
}

#[test]
fn alloc_is_first_fit_and_free_undoes_it() {
    let mut p = region(4);
    let a = p.alloc_frame().unwrap();
    let b = p.alloc_frame().unwrap();
    assert_eq!(a.addr, BASE);
    assert_eq!(b.addr, BASE + FRAME_SIZE);
    assert_eq!(p.allocated_count(), 2);
    p.free_frame(a);
    assert_eq!(p.allocated_count(), 1);
    assert!(!p.is_allocated(BASE));
    assert_eq!(p.alloc_frame(), Some(a));
}

#[test]
fn alloc_exhaustion_gives_none() {
    let mut p = region(2);
    assert!(p.alloc_frame().is_some());
    assert!(p.alloc_frame().is_some());
    assert_eq!(p.alloc_frame(), None);
    assert_eq!(p.allocate_page(), Err(PmmError::OutOfMemory));
}

#[test]
fn free_page_outside_region_is_invalid() {
    let mut p = region(2);
    assert_eq!(p.free_page(BASE + 10 * FRAME_SIZE), Err(PmmError::InvalidAddress));
    assert_eq!(p.free_page(BASE - FRAME_SIZE), Err(PmmError::InvalidAddress));
}

#[test]
fn reserve_range_marks_frames() {
    let mut p = region(8);
    p.reserve_range(BASE + FRAME_SIZE, BASE + 3 * FRAME_SIZE);
    assert!(p.is_allocated(BASE + FRAME_SIZE));
    assert!(p.is_allocated(BASE + 2 * FRAME_SIZE));
    assert!(!p.is_allocated(BASE + 3 * FRAME_SIZE));
    assert_eq!(p.reserved_count(), 2);
    assert_eq!(p.free_count(), 6);
    assert_eq!(p.alloc_frame().unwrap().addr, BASE);
    assert_eq!(p.alloc_frame().unwrap().addr, BASE + 3 * FRAME_SIZE);
}

#[test]
fn alloc_contiguous_finds_first_run() {
    let mut p = region(8);
    p.reserve_page(BASE + FRAME_SIZE);
    assert_eq!(p.alloc_contiguous(3), Some(BASE + 2 * FRAME_SIZE));
    assert_eq!(p.alloc_contiguous(0), None);
    assert_eq!(p.alloc_contiguous(4), None);
    assert_eq!(p.alloc_contiguous(1), Some(BASE));
}

#[test]
fn self_test_leaves_counts_unchanged() {
    let mut p = region(8);
    let before = p.free_count();
    assert_eq!(p.run_self_test(), Ok(()));
    assert_eq!(p.free_count(), before);
    let mut tiny = region(1);
    assert_eq!(tiny.run_self_test(), Err(PmmError::OutOfMemory));
}

#[test]
fn verify_and_stress_keep_counters() {
    let mut p = region(64);
    assert!(verify_pmm(&p).is_ok());
    let before = p.free_count();
    assert!(stress_test_pmm(&mut p, 50).is_ok());
    assert_eq!(p.free_count(), before);
    assert!(verify_pmm(&p).is_ok());
}

#[test]
fn pmm_backend_allocates_runs() {
    let mut b = PmmBackend::new_dram(region(8));
    assert_eq!(b.allocate(2 * FRAME_SIZE, 4096), Ok(BASE));
    assert_eq!(b.allocate(FRAME_SIZE, 4096), Ok(BASE + 2 * FRAME_SIZE));
    assert_eq!(b.allocate(FRAME_SIZE, 8192), Err(AllocError::AlignmentNotSupported));
    assert_eq!(b.allocate(16 * FRAME_SIZE, 4096), Err(AllocError::OutOfCapacity));
    b.deallocate(BASE, 2 * FRAME_SIZE);
    assert_eq!(b.allocate(FRAME_SIZE + 1, 16), Ok(BASE));
    assert_eq!(b.pmm().allocated_count(), 3);
}

#[test]
fn manager_allocates_from_registered_backend() {
    let mut mrm: MemoryResourceManager<PmmBackend> = MemoryResourceManager::new();
    assert!(mrm.allocate(&vivanta::memory::policy::AllocationRequirements::new(4096), 3).is_none());
    assert_eq!(mrm.register(PmmBackend::new_dram(region(8))), Some(0));
    assert_eq!(mrm.backend_count(), 1);
    let o = mrm.allocate(&vivanta::memory::policy::AllocationRequirements::new(4096), 3).unwrap();
    assert_eq!(o.resource_id, 0);
    assert_eq!(o.phys_addr, Some(BASE));
    assert_eq!(o.size, 4096);
    assert_eq!(o.capability.owner, 3);
    assert_eq!(o.id, 1);
    let o2 = mrm.allocate(&vivanta::memory::policy::AllocationRequirements::new(8192), 3).unwrap();
    assert_eq!(o2.phys_addr, Some(BASE + FRAME_SIZE));
    assert_eq!(o2.id, 2);
}

#[test]
fn manager_lists_backends_in_registration_order() {
    let mut mrm: MemoryResourceManager<PmmBackend> = MemoryResourceManager::new();
    assert!(mrm.backend_at(0).is_none());
    assert_eq!(mrm.register(PmmBackend::new_dram(region(8))), Some(0));
    assert_eq!(mrm.register(PmmBackend::new_dram(region(4))), Some(1));
    let (rid, b) = mrm.backend_at(1).unwrap();
    assert_eq!(rid, 1);
    assert_eq!(b.pmm().total_frames(), 4);
    assert_eq!(mrm.backend_at(0).unwrap().0, 0);
    assert!(mrm.backend_at(2).is_none());
}

#[test]
fn self_test_failure_states() {
    let mut one = region(1);
    assert_eq!(one.run_self_test(), Err(PmmError::OutOfMemory));
    assert_eq!(one.allocated_count(), 1);
    assert!(one.is_allocated(BASE));
    let mut none = region(0);
    assert_eq!(none.run_self_test(), Err(PmmError::OutOfMemory));
    assert_eq!(none.allocated_count(), 0);
    assert_eq!(PmmBackend::new_dram(region(2)).name(), "DRAM (PMM)");
}

#[test]
fn verify_reports_inconsistent_counters() {
    let mut p = region(4);
    p.reserve(BASE, 4 * FRAME_SIZE);
    for k in 0..4u64 {
        p.free_frame(PhysFrame { addr: BASE + k * FRAME_SIZE });
    }
    p.reserve(BASE, 4 * FRAME_SIZE);
    assert_eq!(p.reserved_count(), 8);
    assert_eq!(
        verify_pmm(&p),
        Err(vivanta::error::KernelError::Pmm(PmmError::BitmapCorrupted))
    );
    assert_eq!(
        stress_test_pmm(&mut p, 10),
        Err(vivanta::error::KernelError::Pmm(PmmError::BitmapCorrupted))
    );
}

#[test]
fn manager_asks_only_the_best_backend() {
    let mut mrm: MemoryResourceManager<PmmBackend> = MemoryResourceManager::new();
    assert_eq!(mrm.register(PmmBackend::new_dram(region(8))), Some(0));
    assert_eq!(mrm.register(PmmBackend::new_dram(region(4))), Some(1));
    let req = vivanta::memory::policy::AllocationRequirements::new(4096);
    // Equal scores: the first registered wins.
    assert_eq!(mrm.best_backend_idx(&req), Some(0));
    assert_eq!(mrm.backend_allocate(1, 4096, 4096), Ok(BASE));
    assert_eq!(mrm.backend_at(1).unwrap().1.pmm().allocated_count(), 1);
    assert_eq!(mrm.backend_at(0).unwrap().1.pmm().allocated_count(), 0);
    assert_eq!(mrm.backend_allocate(0, 4096, 8192), Err(AllocError::AlignmentNotSupported));
    // A failing backend gives no object and takes no id.
    let big = vivanta::memory::policy::AllocationRequirements::new(64 * FRAME_SIZE);
    assert!(mrm.allocate(&big, 3).is_none());
    let o = mrm.allocate(&req, 3).unwrap();
    assert_eq!(o.id, 1);
    assert_eq!(o.resource_id, 0);
}
