//! MemoryResourceManager: registry of memory backends and policy-driven
//! allocation of memory objects.
use vstd::prelude::*;
use crate::memory::capability::{MemRights, MemoryCapability, MemoryObjectId, OwnerId};
use crate::memory::object::{empty_slots, MemoryObject, MemoryObjectState};
use crate::memory::policy::{is_best_choice, select_best, spec_evaluate, AllocationRequirements};
use crate::memory::resource::{AllocError, MemoryBackend, MemoryProperties, PhysAddr, ResourceId};

verus! {

/// Maximum number of memory backends that can be registered.
pub const MAX_BACKENDS: usize = 8;

/// The central registry of memory backends.
pub struct MemoryResourceManager<B> {
    backends: Vec<(ResourceId, B)>,
    next_resource_id: ResourceId,
    next_object_id: MemoryObjectId,
    next_cap_id: u64,
}

impl<B: MemoryBackend> MemoryResourceManager<B> {
    /// Registry bookkeeping: never more than [`MAX_BACKENDS`] entries, and
    /// the resource ids ascend in registration order, all below the next one.
    pub closed spec fn wf(&self) -> bool {
        &&& self.backends@.len() <= MAX_BACKENDS
        &&& forall|i: int, j: int| 0 <= i < j < self.backends@.len() ==> (#[trigger] self.backends@[i]).0 < (
            #[trigger] self.backends@[j]).0
        &&& forall|i: int| 0 <= i < self.backends@.len() ==> (#[trigger] self.backends@[i]).0 < self.next_resource_id
    }

    /// Resource ids of the registered backends, in registration order.
    pub closed spec fn resource_ids(&self) -> Seq<ResourceId> {
        self.backends@.map_values(|e: (ResourceId, B)| e.0)
    }

    /// The properties the registered backends report, in registration
    /// order.
    pub closed spec fn backend_props(&self) -> Seq<MemoryProperties> {
        self.backends@.map_values(|e: (ResourceId, B)| e.1.backend_properties())
    }

    /// The registered backends, in registration order.
    pub closed spec fn backends(&self) -> Seq<B> {
        self.backends@.map_values(|e: (ResourceId, B)| e.1)
    }

    /// Id that the next registration receives.
    pub closed spec fn spec_next_resource_id(&self) -> ResourceId {
        self.next_resource_id
    }

    /// Id that the next allocated object receives.
    pub closed spec fn spec_next_object_id(&self) -> MemoryObjectId {
        self.next_object_id
    }

    /// Id that the next allocated object's capability receives.
    pub closed spec fn spec_next_cap_id(&self) -> u64 {
        self.next_cap_id
    }

    pub fn new() -> (r: Self)
        ensures
            r.wf(),
            r.resource_ids() == Seq::<ResourceId>::empty(),
            r.spec_next_resource_id() == 0,
            r.spec_next_object_id() == 1,
            r.spec_next_cap_id() == 1,
    {
        let r = MemoryResourceManager {
            backends: Vec::new(),
            next_resource_id: 0,
            next_object_id: 1,
            next_cap_id: 1,
        };
        assert(r.resource_ids() =~= Seq::<ResourceId>::empty());
        r
    }

    /// Register a memory backend. Returns the assigned id, or `None` (and
    /// drops the backend) when [`MAX_BACKENDS`] are already registered.
    pub fn register(&mut self, backend: B) -> (r: Option<ResourceId>)
        requires
            old(self).wf(),
            old(self).spec_next_resource_id() < u64::MAX,
        ensures
            final(self).wf(),
            old(self).resource_ids().len() >= MAX_BACKENDS ==> r is None && final(self).resource_ids()
                == old(self).resource_ids() && final(self).spec_next_resource_id() == old(
                self,
            ).spec_next_resource_id(),
            r matches Some(id) ==> !old(self).resource_ids().contains(id),
            old(self).resource_ids().len() < MAX_BACKENDS ==> r == Some(
                old(self).spec_next_resource_id(),
            ) && final(self).resource_ids() == old(self).resource_ids().push(
                old(self).spec_next_resource_id(),
            ) && final(self).spec_next_resource_id() == old(self).spec_next_resource_id() + 1,
            final(self).spec_next_object_id() == old(self).spec_next_object_id(),
            final(self).spec_next_cap_id() == old(self).spec_next_cap_id(),
    {
        if self.backends.len() >= MAX_BACKENDS {
            return None;
        }
        let id = self.next_resource_id;
        self.next_resource_id = self.next_resource_id + 1;
        self.backends.push((id, backend));
        assert(self.resource_ids() =~= old(self).resource_ids().push(id));
        Some(id)
    }

    /// Number of registered backends.
    pub fn backend_count(&self) -> (r: usize)
        ensures
            r == self.resource_ids().len(),
    {
        self.backends.len()
    }

    /// The `i`-th registered backend (registration order) and its resource
    /// id, for diagnostics.
    pub fn backend_at(&self, i: usize) -> (r: Option<(ResourceId, &B)>)
        ensures
            r is Some <==> i < self.resource_ids().len(),
            r matches Some(e) ==> e.0 == self.resource_ids()[i as int] && e.1.backend_properties()
                == self.backend_props()[i as int],
    {
        if i < self.backends.len() {
            let e = &self.backends[i];
            Some((e.0, &e.1))
        } else {
            None
        }
    }

    /// Ask every backend for its properties, in registration order.
    fn collect_properties(&self) -> (r: Vec<MemoryProperties>)
        ensures
            r@ == self.backend_props(),
    {
        let mut out: Vec<MemoryProperties> = Vec::new();
        let mut i: usize = 0;
        while i < self.backends.len()
            invariant
                0 <= i <= self.backends@.len(),
                out@ == self.backend_props().take(i as int),
            decreases self.backends@.len() - i,
        {
            out.push(self.backends[i].1.properties());
            i = i + 1;
            assert(out@ =~= self.backend_props().take(i as int));
        }
        assert(self.backend_props().take(i as int) =~= self.backend_props());
        out
    }

    /// Index of the backend with the highest policy-engine score, given the
    /// properties each backend reports now: the first with the highest
    /// score, `None` when every backend scores 0.
    pub fn best_backend_idx(&self, req: &AllocationRequirements) -> (r: Option<usize>)
        ensures
            r matches Some(i) ==> i < self.resource_ids().len() && is_best_choice(self.backend_props(), *req, i as int),
            r is None <==> forall|k: int|
                0 <= k < self.backend_props().len() ==> spec_evaluate(#[trigger] self.backend_props()[k], *req) == 0,
    {
        let props = self.collect_properties();
        select_best(&props, req)
    }

    /// Allocate a memory object from the backend that best matches `req`.
    ///
    /// The backend asked is the first with the best policy score over the
    /// properties the backends report, with `req.size` and `req.align`;
    /// none is asked, and nothing changes, when every backend scores 0.
    /// Whether its allocation succeeds is the backend's answer: on success
    /// the object is `Allocated` on that backend's resource at the address
    /// it gave, of `req.size` bytes, with the next object id and a
    /// full-rights capability for `owner`.
    pub fn allocate(&mut self, req: &AllocationRequirements, owner: OwnerId) -> (r: Option<
        MemoryObject,
    >)
        requires
            old(self).wf(),
            old(self).spec_next_object_id() < u64::MAX,
            old(self).spec_next_cap_id() < u64::MAX,
        ensures
            final(self).wf(),
            final(self).resource_ids() == old(self).resource_ids(),
            final(self).spec_next_resource_id() == old(self).spec_next_resource_id(),
            final(self).backend_props() == old(self).backend_props(),
            (forall|k: int|
                0 <= k < old(self).backend_props().len() ==> spec_evaluate(#[trigger] old(self).backend_props()[k], *req)
                    == 0) ==> {
                &&& r is None
                &&& final(self).backends() == old(self).backends()
                &&& final(self).spec_next_object_id() == old(self).spec_next_object_id()
                &&& final(self).spec_next_cap_id() == old(self).spec_next_cap_id()
            },
            forall|i: int|
                #[trigger] is_best_choice(old(self).backend_props(), *req, i) ==> exists|
                    ans: Result<PhysAddr, AllocError>,
                    after: B,
                |
                    #[trigger] old(self).backends()[i].allocate_outcome(req.size, req.align, ans, after)
                        && final(self).backends() == old(self).backends().update(i, after) && finished(
                        *old(self),
                        *final(self),
                        r,
                        old(self).resource_ids()[i],
                        ans,
                        *req,
                        owner,
                    ),
    {
        let ghost props = self.backend_props();
        let idx = match self.best_backend_idx(req) {
            Some(i) => i,
            None => return None,
        };
        let rid = self.backends[idx].0;
        let ghost ids = self.resource_ids();
        let ghost before = *self;
        assert(ids[idx as int] == rid);
        let phys = self.backend_allocate(idx, req.size, req.align);
        assert(self.resource_ids() == ids);
        let ghost mid = *self;
        let r = self.finish_allocation(rid, phys, req, owner);
        proof {
            assert forall|i: int| #[trigger] is_best_choice(props, *req, i) implies i == idx by {
                if i < idx {
                    assert(spec_evaluate(props[i], *req) < spec_evaluate(props[idx as int], *req));
                } else if i > idx {
                    assert(spec_evaluate(props[idx as int], *req) < spec_evaluate(props[i], *req));
                }
            }
            assert(before.backends()[idx as int].allocate_outcome(req.size, req.align, phys, mid.backends()[idx as int]));
            assert(self.backends() == before.backends().update(idx as int, mid.backends()[idx as int]));
            assert(finished(before, *self, r, ids[idx as int], phys, *req, owner));
        }
        r
    }

    /// Ask backend `idx` to allocate `size` bytes aligned to `align`. The
    /// answer is the backend's; the others stay as they were.
    pub fn backend_allocate(&mut self, idx: usize, size: u64, align: u64) -> (r: Result<PhysAddr, AllocError>)
        requires
            idx < old(self).resource_ids().len(),
            old(self).wf(),
        ensures
            final(self).wf(),
            final(self).resource_ids() == old(self).resource_ids(),
            final(self).spec_next_resource_id() == old(self).spec_next_resource_id(),
            final(self).spec_next_object_id() == old(self).spec_next_object_id(),
            final(self).spec_next_cap_id() == old(self).spec_next_cap_id(),
            final(self).backend_props() == old(self).backend_props(),
            old(self).backends()[idx as int].allocate_outcome(size, align, r, final(self).backends()[idx as int]),
            final(self).backends() == old(self).backends().update(idx as int, final(self).backends()[idx as int]),
    {
        let (rid, mut b) = self.backends.remove(idx);
        let r = b.allocate(size, align);
        self.backends.insert(idx, (rid, b));
        assert(self.resource_ids() =~= old(self).resource_ids());
        assert forall|i: int| 0 <= i < self.backends@.len() implies (#[trigger] self.backends@[i]).0 == old(
            self,
        ).backends@[i].0 by {
            assert(self.resource_ids()[i] == old(self).resource_ids()[i]);
        }
        assert(self.backends@[idx as int].1 == b);
        assert(self.backends() =~= old(self).backends().update(idx as int, b));
        assert(self.backend_props() =~= old(self).backend_props());
        r
    }

    /// Turn a backend's answer into an object: `None` when the backend
    /// failed, else a new `Allocated` object on resource `rid` at `phys`.
    pub fn finish_allocation(
        &mut self,
        rid: ResourceId,
        phys: Result<PhysAddr, AllocError>,
        req: &AllocationRequirements,
        owner: OwnerId,
    ) -> (r: Option<MemoryObject>)
        requires
            old(self).wf(),
            old(self).spec_next_object_id() < u64::MAX,
            old(self).spec_next_cap_id() < u64::MAX,
        ensures
            final(self).wf(),
            final(self).resource_ids() == old(self).resource_ids(),
            final(self).spec_next_resource_id() == old(self).spec_next_resource_id(),
            final(self).backends() == old(self).backends(),
            final(self).backend_props() == old(self).backend_props(),
            finished(*old(self), *final(self), r, rid, phys, *req, owner),
            phys is Err ==> r is None && final(self).spec_next_object_id() == old(
                self,
            ).spec_next_object_id() && final(self).spec_next_cap_id() == old(self).spec_next_cap_id(),
            phys matches Ok(pa) ==> r matches Some(o) && o.resource_id == rid && o.phys_addr == Some(
                pa,
            ) && allocated_object(
                o,
                *req,
                owner,
                old(self).spec_next_object_id(),
                old(self).spec_next_cap_id(),
            ) && final(self).spec_next_object_id() == old(self).spec_next_object_id() + 1
                && final(self).spec_next_cap_id() == old(self).spec_next_cap_id() + 1,
    {
        let phys_addr = match phys {
            Ok(pa) => pa,
            Err(_) => return None,
        };
        let obj_id = self.next_object_id;
        self.next_object_id = self.next_object_id + 1;
        let cap_id = self.next_cap_id;
        self.next_cap_id = self.next_cap_id + 1;
        let cap = MemoryCapability::new(cap_id, obj_id, MemRights::full(), owner);
        let mut obj = MemoryObject::new(obj_id, req.size, rid, cap);
        obj.set_phys_addr(phys_addr);
        let _ = obj.mark_allocated();
        Some(obj)
    }
}

/// What `allocate` makes of backend answer `ans` from resource `rid`: no
/// object and no id taken on an error; else an `Allocated` object at the
/// answered address, taking the next object and capability ids.
pub open spec fn finished<B: MemoryBackend>(
    before: MemoryResourceManager<B>,
    after: MemoryResourceManager<B>,
    r: Option<MemoryObject>,
    rid: ResourceId,
    ans: Result<PhysAddr, AllocError>,
    req: AllocationRequirements,
    owner: OwnerId,
) -> bool {
    match ans {
        Err(_) => {
            &&& r is None
            &&& after.spec_next_object_id() == before.spec_next_object_id()
            &&& after.spec_next_cap_id() == before.spec_next_cap_id()
        },
        Ok(pa) => {
            &&& r matches Some(o) && o.resource_id == rid && o.phys_addr == Some(pa) && allocated_object(
                o,
                req,
                owner,
                before.spec_next_object_id(),
                before.spec_next_cap_id(),
            )
            &&& after.spec_next_object_id() == before.spec_next_object_id() + 1
            &&& after.spec_next_cap_id() == before.spec_next_cap_id() + 1
        },
    }
}

/// What a freshly allocated object looks like.
pub open spec fn allocated_object(
    o: MemoryObject,
    req: AllocationRequirements,
    owner: OwnerId,
    obj_id: MemoryObjectId,
    cap_id: u64,
) -> bool {
    &&& o.id == obj_id
    &&& o.size == req.size
    &&& o.state == MemoryObjectState::Allocated
    &&& o.phys_addr is Some
    &&& o.slots() == empty_slots()
    &&& o.capability == (MemoryCapability {
        id: cap_id,
        object: obj_id,
        rights: MemRights { read: true, write: true, execute: true, map: true, share: true },
        owner,
    })
}

} // verus!
