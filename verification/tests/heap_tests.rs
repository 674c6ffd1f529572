use vivanta::memory::kernel_heap::{AllocPlan, FreeBlock, KernelHeap, Relink};

#[test]
fn uninitialized_heap_refuses() {
    let mut h = KernelHeap::uninitialized();
    assert!(!h.is_initialized());
    assert_eq!(h.alloc_locked(&[], 16, 16), None);
    assert_eq!(h.dealloc_locked(0x1000), None);
    assert_eq!(h.deallocs(), 0);
}

#[test]
fn first_allocation_splits_the_region() {
    let mut h = KernelHeap::uninitialized();
    let blk = h.init(0x10000, 0x1000);
    assert_eq!(blk, FreeBlock { header: 0x10000, size: 0xff0, next: 0 });
    assert!(h.is_initialized());
    assert_eq!(h.end(), 0x11000);
    let plan = h.alloc_locked(&[blk], 24, 8).unwrap();
    assert_eq!(
        plan,
        AllocPlan {
            header: 0x10000,
            payload: 0x10010,
            size: 32,
            relink: None,
            fragment: Some(FreeBlock { header: 0x10030, size: 0xfc0, next: 0 }),
        }
    );
    assert_eq!(h.free_head(), 0x10030);
    assert_eq!(h.allocs(), 1);
    assert_eq!(h.dealloc_locked(0x10010), Some((0x10000, 0x10030)));
    assert_eq!(h.free_head(), 0x10000);
    assert_eq!(h.deallocs(), 1);
    assert_eq!(h.dealloc_locked(0), None);
    assert_eq!(h.deallocs(), 2);
}

#[test]
fn over_aligned_payloads_skip_the_gap() {
    let mut h = KernelHeap::uninitialized();
    let blk = h.init(0x10030, 0xfd0);
    let plan = h.alloc_locked(&[blk], 16, 256).unwrap();
    assert_eq!(plan.payload, 0x10100);
    assert_eq!(plan.header, 0x100f0);
    assert_eq!(plan.size, 16);
    assert_eq!(plan.fragment, Some(FreeBlock { header: 0x10110, size: 0xee0, next: 0 }));
}

#[test]
fn later_block_is_unlinked_from_its_predecessor() {
    let mut h = KernelHeap::uninitialized();
    h.init(0x20000, 0x20000);
    let list = [
        FreeBlock { header: 0x20000, size: 16, next: 0x30000 },
        FreeBlock { header: 0x30000, size: 0x100, next: 0 },
    ];
    let plan = h.alloc_locked(&list, 32, 16).unwrap();
    assert_eq!(plan.payload, 0x30010);
    assert_eq!(plan.relink, Some(Relink { prev: 0x20000, next: 0 }));
    assert_eq!(plan.fragment, Some(FreeBlock { header: 0x30030, size: 0xd0, next: 0x20000 }));
    assert_eq!(h.free_head(), 0x30030);
}

#[test]
fn exact_fit_leaves_no_fragment() {
    let mut h = KernelHeap::uninitialized();
    let blk = h.init(0x40000, 0x30);
    let plan = h.alloc_locked(&[blk], 32, 16).unwrap();
    assert_eq!(plan.fragment, None);
    assert_eq!(h.free_head(), 0);
    assert_eq!(h.alloc_locked(&[], 16, 16), None);
    assert_eq!(h.allocs(), 1);
}

#[test]
fn freed_block_is_reused_first() {
    let mut h = KernelHeap::uninitialized();
    let blk = h.init(0x10000, 0x1000);
    let a = h.alloc_locked(&[blk], 48, 16).unwrap();
    let frag = a.fragment.unwrap();
    let (hdr, next) = h.dealloc_locked(a.payload).unwrap();
    let freed = FreeBlock { header: hdr, size: a.size, next };
    assert_eq!(next, frag.header);
    let again = h.alloc_locked(&[freed, frag], 40, 8).unwrap();
    assert_eq!(again.payload, a.payload);
    assert_eq!(again.relink, None);
}
