//! Memory objects mapped through an address space: the object's mapping
//! slot and the address space's shadow entry change together, and a
//! failure in either leaves both as they were.
use vstd::prelude::*;
use crate::memory::capability::MemRights;
use crate::memory::object::{map_model, unmap_model, MemoryObject, MemoryObjectState, ObjectError, VirtualMapping};
use crate::vmm::address_space::{affected_of, overlaps, present_runs, anon_frames, range_check, unmap_pieces, AddressSpace, UnmapPlan};
use crate::vmm::cow_refcount::CowRegistry;
use crate::vmm::mapping::{acquire_all, hole, keep, release_all, Mapping, MappingFlags, VirtRange, MAX_MAPPINGS};
use crate::vmm::runs::coalesced;

verus! {

/// The page permissions that an object's rights grant: writable only with
/// both read and write, executable with execute, never user-accessible.
pub open spec fn rights_flags(rights: MemRights) -> MappingFlags {
    MappingFlags { user: false, read_write: rights.read && rights.write, executable: rights.execute }
}

/// Page permissions for an object with `rights`.
pub fn rights_to_flags(rights: MemRights) -> (f: MappingFlags)
    ensures
        f == rights_flags(rights),
{
    let mut f = MappingFlags::empty();
    if rights.read && rights.write {
        f = MappingFlags::read_write();
    }
    if rights.execute {
        f = f.union(MappingFlags::executable());
    }
    f
}

impl MemoryObject {
    /// True when the object has storage that can be mapped: neither revoked
    /// nor still `Created`, and a physical base is known.
    pub open spec fn mappable(&self) -> bool {
        &&& self.state != MemoryObjectState::Revoked
        &&& self.state != MemoryObjectState::Created
        &&& self.phys_addr is Some
    }

    /// Map the object at `[vaddr, vaddr + size)` in `aspace`: the address
    /// space records a Present piece owned by this object with the
    /// permissions of its rights (the caller then programs the page tables
    /// with `phys_addr`), and the object records the mapping in its first
    /// free slot.
    ///
    /// A revoked object gives `Revoked`; one without storage `NoStorage`; a
    /// full address space `MappingLimitReached`, and then nothing changes.
    /// When the address space took the piece but the object has no free
    /// slot, the result is `MappingLimitReached` and the piece stays.
    pub fn map_into(&mut self, vaddr: u64, size: u64, aspace: &mut AddressSpace) -> (r: Result<usize, ObjectError>)
        requires
            old(aspace).wf(),
            vaddr + size <= u64::MAX,
            forall|i: int|
                0 <= i < old(aspace).mappings.live().len() ==> !overlaps(
                    #[trigger] old(aspace).mappings.live()[i],
                    vaddr as int,
                    vaddr + size,
                ),
        ensures
            final(aspace).wf(),
            final(aspace).id == old(aspace).id,
            final(aspace).root == old(aspace).root,
            final(aspace).flags == old(aspace).flags,
            final(self).id == old(self).id,
            final(self).size == old(self).size,
            final(self).resource_id == old(self).resource_id,
            final(self).phys_addr == old(self).phys_addr,
            final(self).capability == old(self).capability,
            old(self).state == MemoryObjectState::Revoked ==> r == Err::<usize, ObjectError>(ObjectError::Revoked),
            old(self).state != MemoryObjectState::Revoked && !old(self).mappable() ==> r == Err::<usize, ObjectError>(
                ObjectError::NoStorage,
            ),
            old(self).mappable() && hole(old(aspace).mappings.slots(), 0) >= MAX_MAPPINGS ==> r == Err::<
                usize,
                ObjectError,
            >(ObjectError::MappingLimitReached),
            !old(self).mappable() || hole(old(aspace).mappings.slots(), 0) >= MAX_MAPPINGS ==> {
                &&& final(self).state == old(self).state
                &&& final(self).slots() == old(self).slots()
                &&& final(aspace).mappings.slots() == old(aspace).mappings.slots()
            },
            old(self).mappable() && hole(old(aspace).mappings.slots(), 0) < MAX_MAPPINGS ==> {
                &&& final(aspace).mappings.slots() == old(aspace).mappings.slots().update(
                    hole(old(aspace).mappings.slots(), 0),
                    Some(
                        Mapping::new_spec(
                            VirtRange { base: vaddr, size },
                            old(self).id,
                            rights_flags(old(self).capability.rights),
                        ),
                    ),
                )
                &&& (final(self).state, final(self).slots(), r) == map_model(
                    old(self).state,
                    old(self).slots(),
                    vaddr,
                    size,
                )
            },
    {
        if self.is_revoked() {
            return Err(ObjectError::Revoked);
        }
        if self.state == MemoryObjectState::Created {
            return Err(ObjectError::NoStorage);
        }
        if self.phys_addr.is_none() {
            return Err(ObjectError::NoStorage);
        }
        let flags = rights_to_flags(self.capability.rights);
        match aspace.map_pages(vaddr, size, flags, self.id) {
            Ok(()) => {},
            Err(_) => {
                return Err(ObjectError::MappingLimitReached);
            },
        }
        self.map(vaddr, size)
    }

    /// Unmap the mapping in `slot` from `aspace` and free the slot; the
    /// object goes back to `Allocated` when no mapping remains. Returns what
    /// the address space's unmap returns for the caller to clear in the
    /// page tables and free.
    ///
    /// A revoked object gives `Revoked`; an empty or out-of-range slot
    /// `NotMapped`; a range that the address space refuses `NotMapped`, and
    /// then nothing changes.
    pub fn unmap_from(&mut self, slot: usize, aspace: &mut AddressSpace, cow: &mut CowRegistry) -> (r: Result<
        UnmapPlan,
        ObjectError,
    >)
        requires
            old(aspace).wf(),
        ensures
            final(aspace).wf(),
            final(aspace).id == old(aspace).id,
            final(aspace).root == old(aspace).root,
            final(aspace).flags == old(aspace).flags,
            final(self).id == old(self).id,
            final(self).size == old(self).size,
            final(self).resource_id == old(self).resource_id,
            final(self).phys_addr == old(self).phys_addr,
            final(self).capability == old(self).capability,
            ({
                let unchanged = {
                    &&& final(self).state == old(self).state
                    &&& final(self).slots() == old(self).slots()
                    &&& final(aspace).mappings.slots() == old(aspace).mappings.slots()
                    &&& final(aspace).mappings.spec_count() == old(aspace).mappings.spec_count()
                    &&& final(cow).entries() == old(cow).entries()
                    &&& final(cow).spec_count() == old(cow).spec_count()
                };
                if old(self).state == MemoryObjectState::Revoked {
                    r == Err::<UnmapPlan, ObjectError>(ObjectError::Revoked) && unchanged
                } else if slot >= crate::memory::object::MAX_MAPPINGS || old(self).slots()[slot as int] is None {
                    r == Err::<UnmapPlan, ObjectError>(ObjectError::NotMapped) && unchanged
                } else {
                    let m = old(self).slots()[slot as int]->Some_0;
                    let v = m.vaddr as int;
                    let e = m.vaddr + m.size;
                    if range_check(
                        old(aspace).mappings.live(),
                        old(aspace).mappings.spec_count() as int,
                        m.vaddr,
                        m.size,
                    ) is Some {
                        r == Err::<UnmapPlan, ObjectError>(ObjectError::NotMapped) && unchanged
                    } else {
                        let aff = affected_of(old(aspace).mappings.live(), v, e);
                        let (e1, c1) = acquire_all(old(cow).entries(), old(cow).spec_count(), unmap_pieces(aff, v, e));
                        let (e2, c2, fr) = release_all(e1, c1, aff);
                        &&& r matches Ok(p) && p.runs@ == coalesced(present_runs(aff, v, e))
                            && p.anon_frames@ == anon_frames(aff, v, e) && p.cow_frames@ == fr
                        &&& final(aspace).mappings.live() == keep(old(aspace).mappings.live(), aff)
                            + unmap_pieces(aff, v, e)
                        &&& final(cow).entries() == e2
                        &&& final(cow).spec_count() == c2
                        &&& (final(self).state, final(self).slots(), Ok::<(), ObjectError>(())) == unmap_model(
                            old(self).state,
                            old(self).slots(),
                            slot,
                        )
                    }
                }
            }),
    {
        if self.is_revoked() {
            return Err(ObjectError::Revoked);
        }
        if slot >= crate::memory::object::MAX_MAPPINGS {
            return Err(ObjectError::NotMapped);
        }
        let mapping: VirtualMapping = match self.mappings[slot] {
            Some(m) => m,
            None => {
                return Err(ObjectError::NotMapped);
            },
        };
        let plan = match aspace.unmap_pages(mapping.vaddr, mapping.size, cow) {
            Ok(p) => p,
            Err(_) => {
                return Err(ObjectError::NotMapped);
            },
        };
        match self.unmap(slot) {
            Ok(()) => Ok(plan),
            Err(e) => Err(e),
        }
    }
}

} // verus!
