//! MemoryObject: the architectural centre of the memory model.
//!
//! Lifecycle:
//!
//! ```text
//!   Created ──► Allocated ──► Mapped
//!                      │            │
//!                      ├── Shared   │
//!                      │            │
//!                      └── Revoked ◄┘
//! ```
use vstd::prelude::*;
use crate::memory::capability::{MemoryCapability, MemoryObjectId};
use crate::memory::resource::{PhysAddr, ResourceId};

verus! {

/// Maximum number of simultaneous virtual mappings per object.
pub const MAX_MAPPINGS: usize = 4;

/// A single virtual mapping of an object.
#[derive(Debug, Clone, Copy, PartialEq, Eq, Structural)]
pub struct VirtualMapping {
    pub vaddr: u64,
    pub size: u64,
}

/// Current stage in the object's lifecycle.
#[derive(Debug, Clone, Copy, PartialEq, Eq, Structural)]
pub enum MemoryObjectState {
    /// ID reserved but no physical allocation yet.
    Created,
    /// Backend has allocated physical storage.
    Allocated,
    /// At least one virtual mapping exists.
    Mapped,
    /// Object was shared with another owner.
    Shared,
    /// Object has been revoked; future access is denied.
    Revoked,
}

/// Error returned when an operation is invalid for the current state.
#[derive(Debug, Clone, Copy, PartialEq, Eq, Structural)]
pub enum ObjectError {
    InvalidTransition,
    NoStorage,
    MappingLimitReached,
    AlreadyMapped,
    NotMapped,
    Revoked,
}

/// A share-handle returned by `share()`.
#[derive(Debug, Clone, Copy, PartialEq, Eq, Structural)]
pub struct ShareHandle {
    pub object_id: MemoryObjectId,
    pub capability: MemoryCapability,
}

/// A logical region of memory: which backend provides the pages
/// (`resource_id`), up to [`MAX_MAPPINGS`] virtual mappings, and who has
/// access (`capability`). It is the unit of allocation, sharing, mapping and
/// revocation.
pub struct MemoryObject {
    pub id: MemoryObjectId,
    pub size: u64,
    pub resource_id: ResourceId,
    pub state: MemoryObjectState,
    /// Physical base once the backend has allocated storage.
    pub phys_addr: Option<PhysAddr>,
    /// Mapping slots; `None` marks a free slot.
    pub mappings: [Option<VirtualMapping>; 4],
    pub capability: MemoryCapability,
}

// ---------------------------------------------------------------------------
// Model
// ---------------------------------------------------------------------------

/// Mapping slots, all empty.
pub open spec fn empty_slots() -> Seq<Option<VirtualMapping>> {
    Seq::new(MAX_MAPPINGS as nat, |i: int| None::<VirtualMapping>)
}

/// Index of the first empty slot at or after `from`, or `s.len()`.
pub open spec fn first_free(s: Seq<Option<VirtualMapping>>, from: int) -> int
    decreases s.len() - from,
{
    if from >= s.len() {
        s.len() as int
    } else if s[from] is None {
        from
    } else {
        first_free(s, from + 1)
    }
}

/// Number of occupied slots in `s[from..]`.
pub open spec fn count_mapped(s: Seq<Option<VirtualMapping>>, from: int) -> nat
    decreases s.len() - from,
{
    if from >= s.len() {
        0
    } else {
        (if s[from] is Some { 1nat } else { 0nat }) + count_mapped(s, from + 1)
    }
}

/// The occupied slots of `s[from..]`, in slot order.
pub open spec fn mapped_list(s: Seq<Option<VirtualMapping>>, from: int) -> Seq<VirtualMapping>
    decreases s.len() - from,
{
    if from >= s.len() {
        Seq::empty()
    } else {
        match s[from] {
            Some(m) => seq![m] + mapped_list(s, from + 1),
            None => mapped_list(s, from + 1),
        }
    }
}

/// True when no slot is occupied.
pub open spec fn no_mappings(s: Seq<Option<VirtualMapping>>) -> bool {
    forall|k: int| 0 <= k < s.len() ==> #[trigger] s[k] is None
}

/// Effect of `map(vaddr, size)` on (state, slots): the new state, the new
/// slots and the result.
pub open spec fn map_model(
    state: MemoryObjectState,
    slots: Seq<Option<VirtualMapping>>,
    vaddr: u64,
    size: u64,
) -> (MemoryObjectState, Seq<Option<VirtualMapping>>, Result<usize, ObjectError>) {
    if state == MemoryObjectState::Revoked {
        (state, slots, Err(ObjectError::Revoked))
    } else if state == MemoryObjectState::Created {
        (state, slots, Err(ObjectError::NoStorage))
    } else if first_free(slots, 0) < slots.len() {
        let i = first_free(slots, 0);
        (
            MemoryObjectState::Mapped,
            slots.update(i, Some(VirtualMapping { vaddr, size })),
            Ok(i as usize),
        )
    } else {
        (state, slots, Err(ObjectError::MappingLimitReached))
    }
}

/// Effect of `unmap(slot)` on (state, slots).
pub open spec fn unmap_model(
    state: MemoryObjectState,
    slots: Seq<Option<VirtualMapping>>,
    slot: usize,
) -> (MemoryObjectState, Seq<Option<VirtualMapping>>, Result<(), ObjectError>) {
    if state == MemoryObjectState::Revoked {
        (state, slots, Err(ObjectError::Revoked))
    } else if slot >= slots.len() || slots[slot as int] is None {
        (state, slots, Err(ObjectError::NotMapped))
    } else {
        let s2 = slots.update(slot as int, None);
        (if no_mappings(s2) { MemoryObjectState::Allocated } else { state }, s2, Ok(()))
    }
}

impl MemoryObject {
    /// The mapping slots.
    pub open spec fn slots(&self) -> Seq<Option<VirtualMapping>> {
        self.mappings@
    }

    /// Create a new object in `Created` state. No physical storage yet.
    pub fn new(
        id: MemoryObjectId,
        size: u64,
        resource_id: ResourceId,
        capability: MemoryCapability,
    ) -> (r: Self)
        ensures
            r.id == id,
            r.size == size,
            r.resource_id == resource_id,
            r.state == MemoryObjectState::Created,
            r.phys_addr is None,
            r.slots() == empty_slots(),
            r.capability == capability,
    {
        let r = MemoryObject {
            id,
            size,
            resource_id,
            state: MemoryObjectState::Created,
            phys_addr: None,
            mappings: [None; 4],
            capability,
        };
        assert(r.slots() =~= empty_slots());
        r
    }

    /// Record the physical address after backend allocation succeeds.
    pub fn set_phys_addr(&mut self, addr: PhysAddr)
        ensures
            final(self).phys_addr == Some(addr),
            final(self).id == old(self).id,
            final(self).size == old(self).size,
            final(self).resource_id == old(self).resource_id,
            final(self).state == old(self).state,
            final(self).slots() == old(self).slots(),
            final(self).capability == old(self).capability,
    {
        self.phys_addr = Some(addr);
    }

    /// Transition from Created to Allocated: storage is ready.
    pub fn mark_allocated(&mut self) -> (r: Result<(), ObjectError>)
        ensures
            old(self).state == MemoryObjectState::Created ==> r is Ok && final(self).state
                == MemoryObjectState::Allocated,
            old(self).state != MemoryObjectState::Created ==> r == Err::<(), ObjectError>(
                ObjectError::InvalidTransition,
            ) && final(self).state == old(self).state,
            final(self).id == old(self).id,
            final(self).size == old(self).size,
            final(self).resource_id == old(self).resource_id,
            final(self).phys_addr == old(self).phys_addr,
            final(self).slots() == old(self).slots(),
            final(self).capability == old(self).capability,
    {
        match self.state {
            MemoryObjectState::Created => {
                self.state = MemoryObjectState::Allocated;
                Ok(())
            },
            _ => Err(ObjectError::InvalidTransition),
        }
    }

    /// True if the object has been revoked.
    pub fn is_revoked(&self) -> (r: bool)
        ensures
            r == (self.state == MemoryObjectState::Revoked),
    {
        self.state == MemoryObjectState::Revoked
    }

    /// Add a virtual mapping in the first free slot. Returns the slot index.
    pub fn map(&mut self, vaddr: u64, size: u64) -> (r: Result<usize, ObjectError>)
        ensures
            (final(self).state, final(self).slots(), r) == map_model(
                old(self).state,
                old(self).slots(),
                vaddr,
                size,
            ),
            final(self).id == old(self).id,
            final(self).size == old(self).size,
            final(self).resource_id == old(self).resource_id,
            final(self).phys_addr == old(self).phys_addr,
            final(self).capability == old(self).capability,
    {
        if self.is_revoked() {
            return Err(ObjectError::Revoked);
        }
        if self.state == MemoryObjectState::Created {
            return Err(ObjectError::NoStorage);
        }
        let ghost s0 = self.mappings@;
        let mut i: usize = 0;
        while i < MAX_MAPPINGS
            invariant
                self.mappings@ == s0,
                s0 == old(self).mappings@,
                old(self).state != MemoryObjectState::Revoked,
                old(self).state != MemoryObjectState::Created,
                self.state == old(self).state,
                self.id == old(self).id,
                self.size == old(self).size,
                self.resource_id == old(self).resource_id,
                self.phys_addr == old(self).phys_addr,
                self.capability == old(self).capability,
                s0.len() == MAX_MAPPINGS,
                0 <= i <= MAX_MAPPINGS,
                first_free(s0, 0) == first_free(s0, i as int),
            decreases MAX_MAPPINGS - i,
        {
            if self.mappings[i].is_none() {
                assert(first_free(s0, i as int) == i);
                self.mappings[i] = Some(VirtualMapping { vaddr, size });
                self.state = MemoryObjectState::Mapped;
                assert(map_model(old(self).state, old(self).slots(), vaddr, size) == (
                    MemoryObjectState::Mapped,
                    self.mappings@,
                    Ok::<usize, ObjectError>(i),
                ));
                return Ok(i);
            }
            i = i + 1;
        }
        Err(ObjectError::MappingLimitReached)
    }

    /// Remove a virtual mapping by slot index; the object goes back to
    /// `Allocated` when no mapping remains.
    pub fn unmap(&mut self, slot: usize) -> (r: Result<(), ObjectError>)
        ensures
            (final(self).state, final(self).slots(), r) == unmap_model(
                old(self).state,
                old(self).slots(),
                slot,
            ),
            final(self).id == old(self).id,
            final(self).size == old(self).size,
            final(self).resource_id == old(self).resource_id,
            final(self).phys_addr == old(self).phys_addr,
            final(self).capability == old(self).capability,
    {
        if self.is_revoked() {
            return Err(ObjectError::Revoked);
        }
        if slot >= MAX_MAPPINGS {
            return Err(ObjectError::NotMapped);
        }
        if self.mappings[slot].is_none() {
            return Err(ObjectError::NotMapped);
        }
        self.mappings[slot] = None;
        // Downgrade state if no mappings remain.
        let mut all_none = true;
        let mut k: usize = 0;
        while k < MAX_MAPPINGS
            invariant
                self.mappings@.len() == MAX_MAPPINGS,
                self.mappings@ == old(self).mappings@.update(slot as int, None),
                self.state == old(self).state,
                self.id == old(self).id,
                self.size == old(self).size,
                self.resource_id == old(self).resource_id,
                self.phys_addr == old(self).phys_addr,
                self.capability == old(self).capability,
                0 <= k <= MAX_MAPPINGS,
                all_none <==> forall|j: int| 0 <= j < k ==> #[trigger] self.mappings@[j] is None,
            decreases MAX_MAPPINGS - k,
        {
            if self.mappings[k].is_some() {
                all_none = false;
            }
            k = k + 1;
        }
        if all_none {
            self.state = MemoryObjectState::Allocated;
        }
        Ok(())
    }

    /// Number of active virtual mappings.
    pub fn mapping_count(&self) -> (r: usize)
        ensures
            r == count_mapped(self.slots(), 0),
    {
        let mut n: usize = 0;
        let mut i: usize = MAX_MAPPINGS;
        while i > 0
            invariant
                self.mappings@.len() == MAX_MAPPINGS,
                0 <= i <= MAX_MAPPINGS,
                n == count_mapped(self.mappings@, i as int),
                n <= MAX_MAPPINGS - i,
            decreases i,
        {
            i = i - 1;
            if self.mappings[i].is_some() {
                n = n + 1;
            }
        }
        n
    }

    /// The active mappings, in slot order.
    pub fn all_mappings(&self) -> (r: Vec<VirtualMapping>)
        ensures
            r@ == mapped_list(self.slots(), 0),
    {
        let mut out: Vec<VirtualMapping> = Vec::new();
        let mut i: usize = 0;
        while i < MAX_MAPPINGS
            invariant
                self.mappings@.len() == MAX_MAPPINGS,
                0 <= i <= MAX_MAPPINGS,
                out@ + mapped_list(self.mappings@, i as int) == mapped_list(self.mappings@, 0),
            decreases MAX_MAPPINGS - i,
        {
            match self.mappings[i] {
                Some(m) => {
                    out.push(m);
                    assert(out@ + mapped_list(self.mappings@, i + 1) =~= mapped_list(
                        self.mappings@,
                        0,
                    ));
                },
                None => {},
            }
            i = i + 1;
        }
        assert(out@ =~= mapped_list(self.mappings@, 0));
        out
    }

    /// Clone this object: the clone shares the same backend storage (same
    /// resource and physical base), starts `Allocated` with no mappings and
    /// carries the new id and capability. Not copy-on-write.
    pub fn clone(&self, new_id: MemoryObjectId, new_cap: MemoryCapability) -> (r: Self)
        ensures
            r.id == new_id,
            r.size == self.size,
            r.resource_id == self.resource_id,
            r.state == MemoryObjectState::Allocated,
            r.phys_addr == self.phys_addr,
            r.slots() == empty_slots(),
            r.capability == new_cap,
    {
        let r = MemoryObject {
            id: new_id,
            size: self.size,
            resource_id: self.resource_id,
            state: MemoryObjectState::Allocated,
            phys_addr: self.phys_addr,
            mappings: [None; 4],
            capability: new_cap,
        };
        assert(r.slots() =~= empty_slots());
        r
    }

    /// Create a share-handle with a new capability for another owner; the
    /// object becomes `Shared`.
    pub fn share(&mut self, new_cap: MemoryCapability) -> (r: ShareHandle)
        ensures
            r == (ShareHandle { object_id: old(self).id, capability: new_cap }),
            final(self).state == MemoryObjectState::Shared,
            final(self).id == old(self).id,
            final(self).size == old(self).size,
            final(self).resource_id == old(self).resource_id,
            final(self).phys_addr == old(self).phys_addr,
            final(self).slots() == old(self).slots(),
            final(self).capability == old(self).capability,
    {
        self.state = MemoryObjectState::Shared;
        ShareHandle { object_id: self.id, capability: new_cap }
    }

    /// Revoke the object: every mapping is cleared and future operations are
    /// denied.
    pub fn revoke(&mut self)
        ensures
            final(self).state == MemoryObjectState::Revoked,
            final(self).slots() == empty_slots(),
            final(self).id == old(self).id,
            final(self).size == old(self).size,
            final(self).resource_id == old(self).resource_id,
            final(self).phys_addr == old(self).phys_addr,
            final(self).capability == old(self).capability,
    {
        self.state = MemoryObjectState::Revoked;
        let mut i: usize = 0;
        while i < MAX_MAPPINGS
            invariant
                self.mappings@.len() == MAX_MAPPINGS,
                0 <= i <= MAX_MAPPINGS,
                forall|j: int| 0 <= j < i ==> #[trigger] self.mappings@[j] is None,
                self.state == MemoryObjectState::Revoked,
                self.id == old(self).id,
                self.size == old(self).size,
                self.resource_id == old(self).resource_id,
                self.phys_addr == old(self).phys_addr,
                self.capability == old(self).capability,
            decreases MAX_MAPPINGS - i,
        {
            self.mappings[i] = None;
            i = i + 1;
        }
        assert(self.slots() =~= empty_slots());
    }

    /// Virtual address of the first occupied slot, if any.
    pub fn vaddr(&self) -> (r: Option<u64>)
        ensures
            mapped_list(self.slots(), 0).len() == 0 ==> r is None,
            mapped_list(self.slots(), 0).len() > 0 ==> r == Some(
                mapped_list(self.slots(), 0)[0].vaddr,
            ),
    {
        let mut i: usize = 0;
        while i < MAX_MAPPINGS
            invariant
                self.mappings@.len() == MAX_MAPPINGS,
                0 <= i <= MAX_MAPPINGS,
                mapped_list(self.mappings@, 0) == mapped_list(self.mappings@, i as int),
            decreases MAX_MAPPINGS - i,
        {
            match self.mappings[i] {
                Some(m) => {
                    return Some(m.vaddr);
                },
                None => {},
            }
            i = i + 1;
        }
        None
    }
}

// ---------------------------------------------------------------------------
// Laws
// ---------------------------------------------------------------------------

proof fn lemma_update_count(s: Seq<Option<VirtualMapping>>, i: int, v: Option<VirtualMapping>, from: int)
    requires
        0 <= i < s.len(),
        0 <= from,
    ensures
        from <= i ==> count_mapped(s.update(i, v), from) + (if s[i] is Some { 1int } else { 0 })
            == count_mapped(s, from) + (if v is Some { 1int } else { 0 }),
        from > i ==> count_mapped(s.update(i, v), from) == count_mapped(s, from),
    decreases s.len() - from,
{
    if from < s.len() {
        lemma_update_count(s, i, v, from + 1);
    }
}

proof fn lemma_first_free(s: Seq<Option<VirtualMapping>>, from: int)
    requires
        0 <= from <= s.len(),
    ensures
        from <= first_free(s, from) <= s.len(),
        first_free(s, from) < s.len() ==> s[first_free(s, from)] is None,
        forall|k: int| from <= k < first_free(s, from) ==> #[trigger] s[k] is Some,
    decreases s.len() - from,
{
    if from < s.len() && s[from] is Some {
        lemma_first_free(s, from + 1);
    }
}

/// Unmapping the slot that a successful `map` returned restores the slots
/// that the object had before the `map`.
pub proof fn law_unmap_undoes_map(
    state: MemoryObjectState,
    slots: Seq<Option<VirtualMapping>>,
    vaddr: u64,
    size: u64,
)
    requires
        slots.len() == MAX_MAPPINGS,
        map_model(state, slots, vaddr, size).2 is Ok,
    ensures
        ({
            let (st2, s2, r) = map_model(state, slots, vaddr, size);
            let (st3, s3, r3) = unmap_model(st2, s2, r->Ok_0);
            &&& r3 is Ok
            &&& s3 == slots
            &&& (no_mappings(slots) ==> st3 == MemoryObjectState::Allocated)
            &&& (!no_mappings(slots) ==> st3 == MemoryObjectState::Mapped)
        }),
{
    lemma_first_free(slots, 0);
    let i = first_free(slots, 0);
    let s2 = slots.update(i, Some(VirtualMapping { vaddr, size }));
    assert(i < slots.len());
    assert(s2[i] is Some);
    assert(!no_mappings(s2));
    assert(s2.update(i, None) =~= slots);
    assert(map_model(state, slots, vaddr, size) == (
        MemoryObjectState::Mapped,
        s2,
        Ok::<usize, ObjectError>(i as usize),
    ));
    assert(unmap_model(MemoryObjectState::Mapped, s2, i as usize).1 == slots);
}

/// A revoked object refuses `map` and `unmap` and stays unchanged.
pub proof fn law_revoked_is_final(
    slots: Seq<Option<VirtualMapping>>,
    vaddr: u64,
    size: u64,
    slot: usize,
)
    ensures
        map_model(MemoryObjectState::Revoked, slots, vaddr, size) == (
            MemoryObjectState::Revoked,
            slots,
            Err::<usize, ObjectError>(ObjectError::Revoked),
        ),
        unmap_model(MemoryObjectState::Revoked, slots, slot) == (
            MemoryObjectState::Revoked,
            slots,
            Err::<(), ObjectError>(ObjectError::Revoked),
        ),
{
}

/// An object without storage cannot be mapped.
pub proof fn law_map_needs_storage(slots: Seq<Option<VirtualMapping>>, vaddr: u64, size: u64)
    ensures
        map_model(MemoryObjectState::Created, slots, vaddr, size).2 == Err::<usize, ObjectError>(
            ObjectError::NoStorage,
        ),
{
}

/// A successful `map` fills the lowest free slot, raises the mapping count
/// by one and leaves the object `Mapped`; it fails with
/// `MappingLimitReached` exactly when every slot is taken.
pub proof fn law_map_counts(
    state: MemoryObjectState,
    slots: Seq<Option<VirtualMapping>>,
    vaddr: u64,
    size: u64,
)
    requires
        state != MemoryObjectState::Revoked,
        state != MemoryObjectState::Created,
        slots.len() == MAX_MAPPINGS,
    ensures
        ({
            let (st2, s2, r) = map_model(state, slots, vaddr, size);
            &&& (r is Ok <==> count_mapped(slots, 0) < MAX_MAPPINGS)
            &&& (r matches Ok(i) ==> {
                &&& count_mapped(s2, 0) == count_mapped(slots, 0) + 1
                &&& st2 == MemoryObjectState::Mapped
                &&& slots[i as int] is None
                &&& forall|k: int| 0 <= k < i ==> #[trigger] slots[k] is Some
            })
            &&& (r is Err ==> r == Err::<usize, ObjectError>(ObjectError::MappingLimitReached))
        }),
{
    lemma_first_free(slots, 0);
    lemma_count_bound(slots, 0);
    let i = first_free(slots, 0);
    if i < slots.len() {
        lemma_update_count(slots, i, Some(VirtualMapping { vaddr, size }), 0);
        lemma_count_lt_when_free(slots, 0, i);
    } else {
        lemma_count_full(slots, 0);
    }
}

proof fn lemma_count_bound(s: Seq<Option<VirtualMapping>>, from: int)
    requires
        0 <= from <= s.len(),
    ensures
        count_mapped(s, from) <= s.len() - from,
    decreases s.len() - from,
{
    if from < s.len() {
        lemma_count_bound(s, from + 1);
    }
}

proof fn lemma_count_lt_when_free(s: Seq<Option<VirtualMapping>>, from: int, i: int)
    requires
        0 <= from <= i < s.len(),
        s[i] is None,
    ensures
        count_mapped(s, from) < s.len() - from,
    decreases s.len() - from,
{
    if from < i {
        lemma_count_lt_when_free(s, from + 1, i);
    } else {
        lemma_count_bound(s, from + 1);
    }
}

proof fn lemma_count_full(s: Seq<Option<VirtualMapping>>, from: int)
    requires
        0 <= from <= s.len(),
        forall|k: int| from <= k < s.len() ==> #[trigger] s[k] is Some,
    ensures
        count_mapped(s, from) == s.len() - from,
    decreases s.len() - from,
{
    if from < s.len() {
        lemma_count_full(s, from + 1);
    }
}

/// Revoking leaves no mapping behind.
pub proof fn law_revoke_clears_mappings()
    ensures
        count_mapped(empty_slots(), 0) == 0,
        mapped_list(empty_slots(), 0) == Seq::<VirtualMapping>::empty(),
        no_mappings(empty_slots()),
{
    lemma_empty_counts(0);
}

proof fn lemma_empty_counts(from: int)
    requires
        0 <= from <= MAX_MAPPINGS,
    ensures
        count_mapped(empty_slots(), from) == 0,
        mapped_list(empty_slots(), from) == Seq::<VirtualMapping>::empty(),
    decreases MAX_MAPPINGS - from,
{
    if from < MAX_MAPPINGS {
        lemma_empty_counts(from + 1);
    }
}

} // verus!
