use vivanta::memory::capability::{MemRights, MemoryCapability};
use vivanta::memory::object::{MemoryObject, MemoryObjectState, ObjectError, MAX_MAPPINGS};
use vivanta::memory::object_vm::rights_to_flags;
use vivanta::vmm::address_space::{AddressSpace, AddressSpaceFlags};
use vivanta::vmm::cow_refcount::CowRegistry;
use vivanta::vmm::mapping::{Backing, MappingFlags};

fn cap(id: u64, object: u64) -> MemoryCapability {
    MemoryCapability {
        id,
        object,
        rights: MemRights::full(),
        owner: 1,
    }
}

fn obj(id: u64) -> MemoryObject {
    MemoryObject::new(id, 4096, 0, cap(id, id))
}

#[test]
fn lifecycle_created_allocated_mapped() {
    let mut o = obj(1);
    assert_eq!(o.state, MemoryObjectState::Created);
    assert!(
        o.map(0x1000, 4096).is_err(),
        "map before allocation must fail"
    );
    o.mark_allocated().unwrap();
    assert_eq!(o.map(0x1000, 4096).unwrap(), 0);
    assert_eq!(o.state, MemoryObjectState::Mapped);
    assert_eq!(o.mapping_count(), 1);
}

#[test]
fn mapping_slots_reusable() {
    let mut o = obj(2);
    o.mark_allocated().unwrap();
    let s0 = o.map(0x1000, 4096).unwrap();
    let s1 = o.map(0x2000, 4096).unwrap();
    assert_eq!(o.mapping_count(), 2);
    o.unmap(s0).unwrap();
    assert_eq!(o.mapping_count(), 1);
    // Slot 0 is reusable for a new mapping.
    let s2 = o.map(0x3000, 4096).unwrap();
    assert_eq!(s2, 0);
    o.unmap(s1).unwrap();
    o.unmap(s2).unwrap();
    assert_eq!(
        o.state,
        MemoryObjectState::Allocated,
        "no mappings -> downgrade"
    );
}

#[test]
fn mapping_limit_returns_error() {
    let mut o = obj(3);
    o.mark_allocated().unwrap();
    for i in 0..MAX_MAPPINGS {
        o.map(0x1000 + i as u64 * 4096, 4096).unwrap();
    }
    assert_eq!(o.map(0x9000, 4096), Err(ObjectError::MappingLimitReached));
}

#[test]
fn revoke_clears_mappings_and_blocks_ops() {
    let mut o = obj(4);
    o.mark_allocated().unwrap();
    o.map(0x1000, 4096).unwrap();
    o.revoke();
    assert!(o.is_revoked());
    assert_eq!(o.mapping_count(), 0);
    assert_eq!(o.map(0x2000, 4096), Err(ObjectError::Revoked));
    assert_eq!(o.unmap(0), Err(ObjectError::Revoked));
}

#[test]
fn clone_keeps_storage_but_no_mappings() {
    let mut o = obj(5);
    o.mark_allocated().unwrap();
    o.map(0x1000, 4096).unwrap();
    let c = o.clone(6, cap(6, 6));
    assert_eq!(c.resource_id, o.resource_id);
    assert_eq!(c.size, o.size);
    assert_eq!(c.mapping_count(), 0);
    assert_eq!(c.state, MemoryObjectState::Allocated);
}

#[test]
fn share_flags_shared_state() {
    let mut o = obj(7);
    o.mark_allocated().unwrap();
    let handle = o.share(cap(8, 7));
    assert_eq!(handle.object_id, 7);
    assert_eq!(o.state, MemoryObjectState::Shared);
}

#[test]
fn vaddr_returns_first_mapping() {
    let mut o = obj(9);
    o.mark_allocated().unwrap();
    assert_eq!(o.vaddr(), None);
    o.map(0xABCD, 4096).unwrap();
    assert_eq!(o.vaddr(), Some(0xABCD));
}


#[test]
fn rights_give_page_permissions() {
    assert_eq!(rights_to_flags(MemRights::read_only()), MappingFlags::empty());
    assert_eq!(rights_to_flags(MemRights::read_write()), MappingFlags::read_write());
    assert_eq!(rights_to_flags(MemRights::read_exec()), MappingFlags::executable());
    assert_eq!(
        rights_to_flags(MemRights::full()),
        MappingFlags { user: false, read_write: true, executable: true }
    );
    let write_only = MemRights { read: false, write: true, execute: false, map: false, share: false };
    assert_eq!(rights_to_flags(write_only), MappingFlags::empty());
}

#[test]
fn map_into_address_space_and_back() {
    let mut aspace = AddressSpace::new(3, 0x9000, AddressSpaceFlags::User);
    let mut cow = CowRegistry::new();
    let mut o = obj(5);
    assert_eq!(o.map_into(0x10_0000, 0x2000, &mut aspace).unwrap_err(), ObjectError::NoStorage);
    o.mark_allocated().unwrap();
    assert_eq!(o.map_into(0x10_0000, 0x2000, &mut aspace).unwrap_err(), ObjectError::NoStorage);
    assert_eq!(aspace.mappings.len(), 0);
    o.set_phys_addr(0x4000_0000);
    assert_eq!(o.map_into(0x10_0000, 0x2000, &mut aspace), Ok(0));
    assert_eq!(o.state, MemoryObjectState::Mapped);
    let m = aspace.query(0x10_1000).unwrap();
    assert_eq!(m.object_id, 5);
    assert_eq!(m.backing, Backing::Present);
    assert_eq!(m.permissions, MappingFlags { user: false, read_write: true, executable: true });
    let plan = o.unmap_from(0, &mut aspace, &mut cow).unwrap();
    assert_eq!(plan.runs, vec![(0x10_0000, 0x2000)]);
    assert_eq!(o.state, MemoryObjectState::Allocated);
    assert_eq!(o.mapping_count(), 0);
    assert!(aspace.query(0x10_1000).is_none());
    assert_eq!(o.unmap_from(0, &mut aspace, &mut cow).unwrap_err(), ObjectError::NotMapped);
    assert_eq!(o.unmap_from(MAX_MAPPINGS, &mut aspace, &mut cow).unwrap_err(), ObjectError::NotMapped);
    o.revoke();
    assert_eq!(o.map_into(0x20_0000, 0x1000, &mut aspace).unwrap_err(), ObjectError::Revoked);
    assert_eq!(o.unmap_from(0, &mut aspace, &mut cow).unwrap_err(), ObjectError::Revoked);
    assert_eq!(aspace.mappings.len(), 0);
}

#[test]
fn unmap_from_refuses_range_the_space_refuses() {
    let mut aspace = AddressSpace::new(3, 0x9000, AddressSpaceFlags::User);
    let mut cow = CowRegistry::new();
    let mut o = obj(6);
    o.mark_allocated().unwrap();
    o.set_phys_addr(0x4000_0000);
    // Recorded only in the object, so the address space holds nothing there.
    assert_eq!(o.map(0x30_0000, 0x1000), Ok(0));
    assert_eq!(o.unmap_from(0, &mut aspace, &mut cow).unwrap_err(), ObjectError::NotMapped);
    assert_eq!(o.mapping_count(), 1);
    assert_eq!(o.state, MemoryObjectState::Mapped);
}

#[test]
fn map_into_full_address_space_changes_nothing() {
    let mut aspace = AddressSpace::new(3, 0x9000, AddressSpaceFlags::User);
    let mut k: u64 = 0;
    while aspace.map_pages(0x100_0000 + k * 0x1000, 0x1000, MappingFlags::empty(), 99).is_ok() {
        k += 1;
    }
    let before = aspace.mappings.len();
    let mut o = obj(7);
    o.mark_allocated().unwrap();
    o.set_phys_addr(0x4000_0000);
    assert_eq!(o.map_into(0x10_0000, 0x1000, &mut aspace).unwrap_err(), ObjectError::MappingLimitReached);
    assert_eq!(aspace.mappings.len(), before);
    assert_eq!(o.mapping_count(), 0);
    assert_eq!(o.state, MemoryObjectState::Allocated);
}
