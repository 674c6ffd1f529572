use vivanta::vmm::address_space::{AddressSpace, AddressSpaceFlags, VmmError};
use vivanta::vmm::audit::{audit, PageExpect, Probe};
use vivanta::vmm::cow_refcount::CowRegistry;
use vivanta::vmm::faults::vm_try_resolve_data_abort;
use vivanta::vmm::mapping::{Backing, Mapping, MappingFlags, PhysOwnership, VirtRange};
use vivanta::vmm::registry::AddressSpaces;

const VA: u64 = 0x1000_0000;
const PAGE: u64 = 4096;

fn space() -> AddressSpace {
    AddressSpace::new(7, 0x8_0000, AddressSpaceFlags::User)
}

#[test]
fn partial_protect_splits_into_three_pieces() {
    let mut a = space();
    let mut cow = CowRegistry::new();
    assert_eq!(a.map_new_range(Ok(VA), 3 * PAGE, MappingFlags::read_write(), 777), Ok(VA));
    let plan = a.protect(VA + PAGE, PAGE, MappingFlags::empty(), &mut cow).ok().unwrap();
    assert_eq!(plan.runs, vec![(VA + PAGE, PAGE)]);
    let head = a.query(VA).unwrap();
    let mid = a.query(VA + PAGE).unwrap();
    let tail = a.query(VA + 2 * PAGE).unwrap();
    assert_eq!(head.virt_range.base, VA);
    assert_eq!(head.virt_range.size, PAGE);
    assert_eq!(mid.virt_range.base, VA + PAGE);
    assert_eq!(tail.virt_range.base, VA + 2 * PAGE);
    assert!(head.permissions.is_read_write());
    assert!(!mid.permissions.is_read_write());
    assert!(tail.permissions.is_read_write());
    assert_eq!(mid.object_id, 777);
    assert_eq!(a.mappings.len(), 3);
    a.protect(VA + PAGE, PAGE, MappingFlags::read_write(), &mut cow).ok().unwrap();
    assert!(a.query(VA + PAGE).unwrap().permissions.is_read_write());
}

#[test]
fn protect_refuses_bad_ranges() {
    let mut a = space();
    let mut cow = CowRegistry::new();
    a.map_new_range(Ok(VA), 2 * PAGE, MappingFlags::read_write(), 1).unwrap();
    assert!(matches!(a.protect(VA + 1, PAGE, MappingFlags::empty(), &mut cow), Err(VmmError::InvalidRange)));
    assert!(matches!(a.protect(VA, 0, MappingFlags::empty(), &mut cow), Err(VmmError::InvalidRange)));
    assert!(matches!(a.protect(VA, 3 * PAGE, MappingFlags::empty(), &mut cow), Err(VmmError::NotMapped)));
    assert!(matches!(a.protect(VA + 8 * PAGE, PAGE, MappingFlags::empty(), &mut cow), Err(VmmError::NotMapped)));
    assert!(a.query(VA).unwrap().permissions.is_read_write());
}

#[test]
fn map_new_range_without_va() {
    let mut a = space();
    assert_eq!(a.map_new_range(Err(()), PAGE, MappingFlags::read_write(), 1), Err(VmmError::OutOfVa));
    assert_eq!(a.mappings.len(), 0);
}

#[test]
fn unmap_middle_keeps_the_rest() {
    let mut a = space();
    let mut cow = CowRegistry::new();
    a.map_new_range(Ok(VA), 3 * PAGE, MappingFlags::read_write(), 1).unwrap();
    let plan = a.unmap_pages(VA + PAGE, PAGE, &mut cow).ok().unwrap();
    assert_eq!(plan.runs, vec![(VA + PAGE, PAGE)]);
    assert!(plan.anon_frames.is_empty());
    assert!(a.query(VA).is_some());
    assert!(a.query(VA + PAGE).is_none());
    assert!(a.query(VA + 2 * PAGE).is_some());
    assert!(matches!(a.unmap_pages(VA + PAGE, PAGE, &mut cow), Err(VmmError::NotMapped)));
}

#[test]
fn demand_fill_is_page_granular() {
    let mut a = space();
    let mut cow = CowRegistry::new();
    assert_eq!(a.reserve_lazy(Ok(VA), 16 * PAGE, MappingFlags::read_write(), 900), Ok(VA));
    assert_eq!(a.query(VA).unwrap().backing, Backing::LazyAnonymous);
    assert!(a.lazy_fault_piece(VA + PAGE + 8, false).is_some());
    assert!(a.resolve_lazy_fault(VA + PAGE + 8, false, 0x8000_0000, &mut cow));
    let filled = a.query(VA + PAGE).unwrap();
    assert_eq!(filled.backing, Backing::Present);
    assert_eq!(filled.pa, 0x8000_0000);
    assert_eq!(filled.phys, PhysOwnership::Anonymous);
    assert_eq!(filled.virt_range.base, VA + PAGE);
    assert_eq!(filled.virt_range.size, PAGE);
    assert_eq!(a.query(VA).unwrap().backing, Backing::LazyAnonymous);
    assert_eq!(a.query(VA + 2 * PAGE).unwrap().backing, Backing::LazyAnonymous);
    let plan = a.unmap_pages(VA, 16 * PAGE, &mut cow).ok().unwrap();
    assert_eq!(plan.anon_frames, vec![(0x8000_0000, PAGE)]);
    assert!(a.query(VA).is_none());
}

#[test]
fn fills_follow_current_permissions() {
    let mut a = space();
    let mut cow = CowRegistry::new();
    a.reserve_lazy(Ok(VA), 4 * PAGE, MappingFlags::read_write(), 900).unwrap();
    a.protect(VA, 4 * PAGE, MappingFlags::empty(), &mut cow).ok().unwrap();
    assert!(!a.resolve_lazy_fault(VA, true, 0x8000_0000, &mut cow));
    assert!(a.resolve_lazy_fault(VA, false, 0x8000_0000, &mut cow));
    assert!(!a.query(VA).unwrap().permissions.is_read_write());
}

#[test]
fn unresolvable_faults_change_nothing() {
    let mut a = space();
    let mut cow = CowRegistry::new();
    a.map_new_range(Ok(VA), PAGE, MappingFlags::read_write(), 1).unwrap();
    assert!(!a.resolve_lazy_fault(VA, false, 0x8000_0000, &mut cow));
    assert!(!a.resolve_lazy_fault(VA + 0x100_0000, false, 0x8000_0000, &mut cow));
    assert_eq!(a.query(VA).unwrap().backing, Backing::Present);
}

#[test]
fn materialize_and_reserve() {
    let mut a = space();
    let mut cow = CowRegistry::new();
    a.reserve_lazy(Ok(VA), 2 * PAGE, MappingFlags::read_write(), 5).unwrap();
    assert_eq!(a.materialize_with(VA, 0x9000_0000, MappingFlags::read_write(), &mut cow), Ok(()));
    assert_eq!(a.query(VA).unwrap().pa, 0x9000_0000);
    assert_eq!(
        a.materialize_with(VA, 0x9000_1000, MappingFlags::read_write(), &mut cow),
        Err(VmmError::InvalidRange)
    );
    assert_eq!(
        a.materialize_with(VA + 8 * PAGE, 0x9000_1000, MappingFlags::read_write(), &mut cow),
        Err(VmmError::NotMapped)
    );
    assert_eq!(a.reserve_at(VA + 4 * PAGE, PAGE, MappingFlags::empty(), 6, true), Ok(()));
    assert_eq!(a.query(VA + 4 * PAGE).unwrap().backing, Backing::LazyAnonymous);
    assert_eq!(a.reserve_at(VA + 8 * PAGE, PAGE, MappingFlags::empty(), 6, false), Err(VmmError::OutOfVa));
    assert_eq!(a.reserve_at(VA + 9 * PAGE + 1, PAGE, MappingFlags::empty(), 6, true), Err(VmmError::InvalidRange));
}

#[test]
fn unmap_all_clears_the_shadow() {
    let mut a = space();
    let mut cow = CowRegistry::new();
    a.map_new_range(Ok(VA), PAGE, MappingFlags::read_write(), 1).unwrap();
    a.reserve_lazy(Ok(VA + 4 * PAGE), 2 * PAGE, MappingFlags::read_write(), 2).unwrap();
    assert!(a.resolve_lazy_fault(VA + 4 * PAGE, true, 0x8000_0000, &mut cow));
    let plan = a.unmap_all(&mut cow);
    assert_eq!(plan.runs.len(), 3);
    assert_eq!(plan.anon_frames, vec![(0x8000_0000, PAGE)]);
    assert_eq!(a.mappings.len(), 0);
    assert!(a.query(VA).is_none());
}

#[test]
fn cow_refcounts() {
    let mut cow = CowRegistry::new();
    assert_eq!(cow.inc(0x5000, 2), Some(2));
    assert_eq!(cow.inc(0x5000, 1), Some(3));
    assert_eq!(cow.count_of(0x5000), 3);
    assert_eq!(cow.dec(0x5000), Some(2));
    assert_eq!(cow.dec(0x5000), Some(1));
    assert_eq!(cow.dec(0x5000), Some(0));
    assert_eq!(cow.count_of(0x5000), 0);
    assert_eq!(cow.dec(0x5000), None);
    assert_eq!(cow.total(), 0);
}

#[test]
fn registry_lifecycle_and_fault_path() {
    let mut spaces = AddressSpaces::new();
    spaces.init_kernel_address_space(0x1000);
    let id = spaces.register(0x2000, AddressSpaceFlags::User).unwrap();
    assert_eq!(id, 1);
    assert_eq!(spaces.count(), 2);
    assert_eq!(spaces.lookup_root(id), Some(0x2000));
    assert_eq!(spaces.lookup_root(0), Some(0x1000));
    assert!(spaces.kernel_address_space().unwrap().is_kernel());
    let k = spaces.find_by_root(0x2000).unwrap();
    let mut a = spaces.take(k).unwrap();
    a.reserve_lazy(Ok(VA), PAGE, MappingFlags::read_write(), 3).unwrap();
    spaces.put_back(k, a);
    let mut cow = CowRegistry::new();
    assert!(!vm_try_resolve_data_abort(&mut spaces, 0x3000, VA, false, Some(0x7000_0000), &mut cow));
    assert!(!vm_try_resolve_data_abort(&mut spaces, 0x2000, VA, false, None, &mut cow));
    assert!(vm_try_resolve_data_abort(&mut spaces, 0x2000, VA, false, Some(0x7000_0000), &mut cow));
    assert_eq!(spaces.get(k).unwrap().query(VA).unwrap().backing, Backing::Present);
    assert_eq!(spaces.unregister(id), Err(VmmError::AddressSpaceBusy));
    let mut a = spaces.take(k).unwrap();
    a.unmap_all(&mut cow);
    spaces.put_back(k, a);
    assert_eq!(spaces.unregister(id), Ok(()));
    assert_eq!(spaces.unregister(id), Err(VmmError::NotMapped));
    assert_eq!(spaces.count(), 1);
}

fn no_overlaps(a: &AddressSpace) -> bool {
    let ms = a.mappings.iter();
    for i in 0..ms.len() {
        for j in 0..ms.len() {
            if i != j {
                let (x, y) = (ms[i].virt_range, ms[j].virt_range);
                if x.base < y.base + y.size && y.base < x.base + x.size {
                    return false;
                }
            }
        }
    }
    true
}

#[test]
fn shadow_stays_free_of_overlaps() {
    let mut a = space();
    let mut cow = CowRegistry::new();
    a.map_new_range(Ok(VA), 4 * PAGE, MappingFlags::read_write(), 1).unwrap();
    a.reserve_lazy(Ok(VA + 8 * PAGE), 4 * PAGE, MappingFlags::read_write(), 2).unwrap();
    a.protect(VA + PAGE, 2 * PAGE, MappingFlags::empty(), &mut cow).ok().unwrap();
    assert!(no_overlaps(&a));
    a.unmap_pages(VA + 2 * PAGE, PAGE, &mut cow).ok().unwrap();
    assert!(no_overlaps(&a));
    assert!(a.resolve_lazy_fault(VA + 9 * PAGE, true, 0x8000_0000, &mut cow));
    assert!(no_overlaps(&a));
    assert_eq!(a.mappings.iter().len(), 6);
}

#[test]
fn audit_compares_probes_with_descriptors() {
    let mut a = space();
    let mut cow = CowRegistry::new();
    a.map_new_range(Ok(VA), 2 * PAGE, MappingFlags::read_write(), 1).unwrap();
    a.reserve_lazy(Ok(VA + 4 * PAGE), PAGE + 1, MappingFlags::read_write(), 2).unwrap();
    let probes = a.hardware_probes();
    assert_eq!(
        probes,
        vec![
            Probe { va: VA, expect: PageExpect::Leaf(MappingFlags::read_write()) },
            Probe { va: VA + PAGE, expect: PageExpect::Leaf(MappingFlags::read_write()) },
            Probe { va: VA + 4 * PAGE, expect: PageExpect::NoLeaf },
            Probe { va: VA + 5 * PAGE, expect: PageExpect::NoLeaf },
        ]
    );
    let bits = vec![0x40, 0x40, 0, 0];
    assert_eq!(audit(&probes, &[0x41, 0x41, 0, 0], &bits), Ok(()));
    assert_eq!(audit(&probes, &[0x41, 0x0, 0, 0], &bits), Err(VmmError::NotMapped));
    assert_eq!(audit(&probes, &[0x01, 0x41, 0, 0], &bits), Err(VmmError::InvalidRange));
    assert_eq!(audit(&probes, &[0x41, 0x41, 0, 1], &bits), Err(VmmError::InvalidRange));
    let _ = a.unmap_pages(VA, PAGE, &mut cow);
    let d = a.domain_probes(VA + 2 * PAGE);
    assert_eq!(d.len() as u64, (VA + 2 * PAGE - 0x0100_0000) / PAGE);
    assert_eq!(d[((VA - 0x0100_0000) / PAGE) as usize], Probe { va: VA, expect: PageExpect::NoLeaf });
    assert_eq!(d[((VA + PAGE - 0x0100_0000) / PAGE) as usize], Probe { va: VA + PAGE, expect: PageExpect::AnyLeaf });
}

#[test]
fn hardware_runs_are_sorted_and_merged() {
    let mut a = space();
    let mut cow = CowRegistry::new();
    a.map_new_range(Ok(VA + PAGE), PAGE, MappingFlags::read_write(), 1).unwrap();
    a.map_new_range(Ok(VA), PAGE, MappingFlags::read_write(), 2).unwrap();
    a.map_new_range(Ok(VA + 3 * PAGE), PAGE, MappingFlags::read_write(), 3).unwrap();
    a.reserve_lazy(Ok(VA + 2 * PAGE), PAGE, MappingFlags::read_write(), 4).unwrap();
    let plan = a.protect(VA, 4 * PAGE, MappingFlags::empty(), &mut cow).ok().unwrap();
    assert_eq!(plan.runs, vec![(VA, 2 * PAGE), (VA + 3 * PAGE, PAGE)]);
    let plan = a.unmap_pages(VA, 4 * PAGE, &mut cow).ok().unwrap();
    assert_eq!(plan.runs, vec![(VA, 2 * PAGE), (VA + 3 * PAGE, PAGE)]);
}

#[test]
fn coalescing_sorts_and_merges_touching_runs() {
    assert_eq!(
        vivanta::vmm::runs::coalesce_runs(&[(0x3000, 0x1000), (0x1000, 0x1000), (0x2000, 0x1000), (0x8000, 0x10)]),
        vec![(0x1000, 0x3000), (0x8000, 0x10)]
    );
    assert!(vivanta::vmm::runs::coalesce_runs(&[]).is_empty());
}

#[test]
fn registry_mutable_access() {
    let mut spaces = AddressSpaces::new();
    spaces.init_kernel_address_space(0x1000);
    let id = spaces.register(0x2000, AddressSpaceFlags::User).unwrap();
    spaces.address_space_mut_by(id).reserve_lazy(Ok(VA), PAGE, MappingFlags::read_write(), 3).unwrap();
    let k = spaces.find_by_root(0x2000).unwrap();
    assert_eq!(spaces.get(k).unwrap().query(VA).unwrap().backing, Backing::LazyAnonymous);
    assert_eq!(spaces.address_space_mut_by(id).id, id);
    let kas = spaces.kernel_address_space_mut();
    assert!(kas.is_kernel());
    kas.reserve_lazy(Ok(VA), PAGE, MappingFlags::empty(), 4).unwrap();
    assert!(spaces.kernel_address_space().unwrap().query(VA).is_some());
}

#[test]
fn unmap_right_after_map_restores_the_shadow() {
    let mut a = space();
    let mut cow = CowRegistry::new();
    a.map_pages(VA, 2 * PAGE, MappingFlags::read_write(), 1).unwrap();
    a.map_pages(VA + 8 * PAGE, PAGE, MappingFlags::empty(), 2).unwrap();
    let before = a.mappings.iter();
    a.map_pages(VA + 4 * PAGE, 3 * PAGE, MappingFlags::executable(), 3).unwrap();
    assert_eq!(a.mappings.len(), 3);
    let plan = a.unmap_pages(VA + 4 * PAGE, 3 * PAGE, &mut cow).ok().unwrap();
    assert_eq!(plan.runs, vec![(VA + 4 * PAGE, 3 * PAGE)]);
    assert!(plan.anon_frames.is_empty());
    assert!(plan.cow_frames.is_empty());
    let after = a.mappings.iter();
    assert_eq!(after.len(), before.len());
    for i in 0..before.len() {
        assert_eq!(after[i].virt_range, before[i].virt_range);
        assert_eq!(after[i].object_id, before[i].object_id);
    }
}

#[test]
fn mapping_set_update_in_place() {
    let mut a = space();
    a.map_pages(VA, PAGE, MappingFlags::empty(), 1).unwrap();
    a.map_pages(VA + PAGE, PAGE, MappingFlags::empty(), 2).unwrap();
    let m = a.mappings.get_mut(1).unwrap();
    assert_eq!(m.object_id, 2);
    m.permissions = MappingFlags::read_write();
    assert!(a.query(VA + PAGE).unwrap().permissions.is_read_write());
    assert!(!a.query(VA).unwrap().permissions.is_read_write());
    assert!(a.mappings.get_mut(2).is_none());
    assert!(a.mappings.get_mut(100).is_none());
}

#[test]
fn splitting_a_shared_mapping_takes_references() {
    let mut a = space();
    let mut cow = CowRegistry::new();
    let pa = 0x7000_0000;
    assert_eq!(cow.inc(pa, 2), Some(2));
    a.mappings
        .insert(Mapping::cow_shared(VirtRange::new(VA, 3 * PAGE), 9, MappingFlags::empty(), pa, 2))
        .unwrap();
    // Protecting the middle page splits one piece into three: two more owners.
    let plan = a.protect(VA + PAGE, PAGE, MappingFlags::executable(), &mut cow).ok().unwrap();
    assert!(plan.cow_frames.is_empty());
    assert_eq!(cow.count_of(pa), 4);
    assert_eq!(a.mappings.len(), 3);
    // Unmapping the middle piece drops one owner.
    let plan = a.unmap_pages(VA + PAGE, PAGE, &mut cow).ok().unwrap();
    assert!(plan.cow_frames.is_empty());
    assert_eq!(cow.count_of(pa), 3);
    // Unmapping the remaining pieces drops one owner each.
    let plan = a.unmap_pages(VA, PAGE, &mut cow).ok().unwrap();
    assert!(plan.cow_frames.is_empty());
    assert_eq!(cow.count_of(pa), 2);
    let plan = a.unmap_pages(VA + 2 * PAGE, PAGE, &mut cow).ok().unwrap();
    assert!(plan.cow_frames.is_empty());
    assert_eq!(cow.count_of(pa), 1);
}
