//! The registry of address spaces: a fixed number of slots, slot 0 for the
//! kernel's. Address spaces are found by id or by the physical address of
//! their root table (the fault path identifies the active space from the
//! translation base register, so no "current space" state exists).
use vstd::prelude::*;
use crate::vmm::address_space::{AddressSpace, AddressSpaceFlags, AddressSpaceId, VmmError};

verus! {

pub const MAX_ADDRESS_SPACES: usize = 8;

/// The space in a slot has id `id`.
pub open spec fn has_id(o: Option<AddressSpace>, id: AddressSpaceId) -> bool {
    o is Some && o->0.id == id
}

/// The space in a slot has root `root`.
pub open spec fn has_root(o: Option<AddressSpace>, root: u64) -> bool {
    o is Some && o->0.root == root
}

/// First slot at or after `i` with id `id`; `s.len()` when none.
pub open spec fn id_slot(s: Seq<Option<AddressSpace>>, id: AddressSpaceId, i: int) -> int
    decreases s.len() - i,
{
    if 0 <= i < s.len() {
        if has_id(s[i], id) {
            i
        } else {
            id_slot(s, id, i + 1)
        }
    } else {
        s.len() as int
    }
}

/// First slot at or after `i` with root `root`; `s.len()` when none.
pub open spec fn root_slot(s: Seq<Option<AddressSpace>>, root: u64, i: int) -> int
    decreases s.len() - i,
{
    if 0 <= i < s.len() {
        if has_root(s[i], root) {
            i
        } else {
            root_slot(s, root, i + 1)
        }
    } else {
        s.len() as int
    }
}

/// First empty slot at or after `i`; `s.len()` when none.
pub open spec fn empty_slot(s: Seq<Option<AddressSpace>>, i: int) -> int
    decreases s.len() - i,
{
    if 0 <= i < s.len() {
        if s[i] is None {
            i
        } else {
            empty_slot(s, i + 1)
        }
    } else {
        s.len() as int
    }
}

/// Number of occupied slots.
pub open spec fn occupied(s: Seq<Option<AddressSpace>>) -> nat
    decreases s.len(),
{
    if s.len() == 0 {
        0
    } else {
        occupied(s.drop_last()) + (if s.last() is Some {
            1nat
        } else {
            0nat
        })
    }
}

/// All registered address spaces.
pub struct AddressSpaces {
    spaces: Vec<Option<AddressSpace>>,
    next_id: AddressSpaceId,
}

impl AddressSpaces {
    pub closed spec fn slots(&self) -> Seq<Option<AddressSpace>> {
        self.spaces@
    }

    pub closed spec fn spec_next_id(&self) -> AddressSpaceId {
        self.next_id
    }

    /// Every slot holds a well-formed space.
    pub open spec fn wf(&self) -> bool {
        &&& self.slots().len() == MAX_ADDRESS_SPACES
        &&& forall|i: int| 0 <= i < MAX_ADDRESS_SPACES && (#[trigger] self.slots()[i]) is Some ==> self.slots()[i]->0.wf()
    }

    /// An empty registry; user spaces get ids from 1 on.
    pub fn new() -> (r: Self)
        ensures
            r.wf(),
            r.spec_next_id() == 1,
            forall|i: int| 0 <= i < MAX_ADDRESS_SPACES ==> (#[trigger] r.slots()[i]) is None,
    {
        let mut spaces: Vec<Option<AddressSpace>> = Vec::new();
        let mut i: usize = 0;
        while i < MAX_ADDRESS_SPACES
            invariant
                0 <= i <= MAX_ADDRESS_SPACES,
                spaces@.len() == i,
                forall|k: int| 0 <= k < i ==> (#[trigger] spaces@[k]) is None,
            decreases MAX_ADDRESS_SPACES - i,
        {
            spaces.push(None);
            i = i + 1;
        }
        AddressSpaces { spaces, next_id: 1 }
    }

    /// Install the kernel address space (id 0) in slot 0.
    pub fn init_kernel_address_space(&mut self, root: u64)
        requires
            old(self).wf(),
        ensures
            final(self).wf(),
            final(self).spec_next_id() == old(self).spec_next_id(),
            final(self).slots()[0] matches Some(a) && a.id == 0 && a.root == root && a.flags
                == AddressSpaceFlags::Kernel && a.mappings.live().len() == 0,
            forall|i: int| 0 < i < MAX_ADDRESS_SPACES ==> #[trigger] final(self).slots()[i] == old(self).slots()[i],
    {
        self.spaces.set(0, Some(AddressSpace::new(0, root, AddressSpaceFlags::Kernel)));
    }

    /// Register a new address space under the next id, in the first empty
    /// slot; `None` when the registry is full.
    pub fn register(&mut self, root: u64, flags: AddressSpaceFlags) -> (r: Option<AddressSpaceId>)
        requires
            old(self).wf(),
            old(self).spec_next_id() < u64::MAX,
        ensures
            final(self).wf(),
            final(self).spec_next_id() == old(self).spec_next_id() + 1,
            ({
                let k = empty_slot(old(self).slots(), 0);
                if k < MAX_ADDRESS_SPACES {
                    &&& r == Some(old(self).spec_next_id())
                    &&& final(self).slots()[k] matches Some(a) && a.id == old(self).spec_next_id() && a.root == root
                        && a.flags == flags && a.mappings.live().len() == 0
                    &&& forall|i: int| 0 <= i < MAX_ADDRESS_SPACES && i != k ==> #[trigger] final(self).slots()[i]
                        == old(self).slots()[i]
                } else {
                    r is None && final(self).slots() == old(self).slots()
                }
            }),
    {
        let id = self.next_id;
        self.next_id = self.next_id + 1;
        let mut i: usize = 0;
        while i < MAX_ADDRESS_SPACES
            invariant
                0 <= i <= MAX_ADDRESS_SPACES,
                old(self).wf(),
                self.spaces@ == old(self).spaces@,
                self.spaces@.len() == MAX_ADDRESS_SPACES,
                self.next_id == id + 1,
                id == old(self).next_id,
                empty_slot(self.spaces@, 0) == empty_slot(self.spaces@, i as int),
            decreases MAX_ADDRESS_SPACES - i,
        {
            if self.spaces[i].is_none() {
                self.spaces.set(i, Some(AddressSpace::new(id, root, flags)));
                return Some(id);
            }
            i = i + 1;
        }
        None
    }

    fn index_of_id(&self, id: AddressSpaceId) -> (k: usize)
        requires
            self.slots().len() == MAX_ADDRESS_SPACES,
        ensures
            k == id_slot(self.slots(), id, 0),
    {
        let mut i: usize = 0;
        while i < MAX_ADDRESS_SPACES
            invariant
                0 <= i <= MAX_ADDRESS_SPACES,
                self.spaces@.len() == MAX_ADDRESS_SPACES,
                id_slot(self.spaces@, id, 0) == id_slot(self.spaces@, id, i as int),
            decreases MAX_ADDRESS_SPACES - i,
        {
            match &self.spaces[i] {
                Some(a) => {
                    if a.id == id {
                        return i;
                    }
                },
                None => {},
            }
            i = i + 1;
        }
        i
    }

    /// Index of the slot whose space has root `root`, if any.
    pub fn find_by_root(&self, root: u64) -> (r: Option<usize>)
        requires
            self.wf(),
        ensures
            root_slot(self.slots(), root, 0) < MAX_ADDRESS_SPACES ==> r == Some(root_slot(self.slots(), root, 0) as usize),
            root_slot(self.slots(), root, 0) >= MAX_ADDRESS_SPACES ==> r is None,
    {
        let mut i: usize = 0;
        while i < MAX_ADDRESS_SPACES
            invariant
                0 <= i <= MAX_ADDRESS_SPACES,
                self.spaces@.len() == MAX_ADDRESS_SPACES,
                root_slot(self.spaces@, root, 0) == root_slot(self.spaces@, root, i as int),
            decreases MAX_ADDRESS_SPACES - i,
        {
            match &self.spaces[i] {
                Some(a) => {
                    if a.root == root {
                        return Some(i);
                    }
                },
                None => {},
            }
            i = i + 1;
        }
        None
    }

    /// Remove the space `as_id`; it must have no mappings left.
    /// `AddressSpaceBusy` when it has, `NotMapped` when it is unknown.
    pub fn unregister(&mut self, as_id: AddressSpaceId) -> (r: Result<(), VmmError>)
        requires
            old(self).wf(),
        ensures
            final(self).wf(),
            final(self).spec_next_id() == old(self).spec_next_id(),
            ({
                let k = id_slot(old(self).slots(), as_id, 0);
                if k >= MAX_ADDRESS_SPACES {
                    r == Err::<(), VmmError>(VmmError::NotMapped) && final(self).slots() == old(self).slots()
                } else if old(self).slots()[k]->0.mappings.spec_count() != 0 {
                    r == Err::<(), VmmError>(VmmError::AddressSpaceBusy) && final(self).slots() == old(self).slots()
                } else {
                    r is Ok && final(self).slots() == old(self).slots().update(k, None)
                }
            }),
    {
        let k = self.index_of_id(as_id);
        proof {
            lemma_id_slot(self.spaces@, as_id, 0);
        }
        if k >= MAX_ADDRESS_SPACES {
            return Err(VmmError::NotMapped);
        }
        let busy = match &self.spaces[k] {
            Some(a) => a.mappings.len() != 0,
            None => false,
        };
        if busy {
            return Err(VmmError::AddressSpaceBusy);
        }
        self.spaces.set(k, None);
        Ok(())
    }

    /// Root table of the space `as_id`, if registered.
    pub fn lookup_root(&self, as_id: AddressSpaceId) -> (r: Option<u64>)
        requires
            self.wf(),
        ensures
            ({
                let k = id_slot(self.slots(), as_id, 0);
                if k < MAX_ADDRESS_SPACES {
                    r == Some(self.slots()[k]->0.root)
                } else {
                    r is None
                }
            }),
    {
        let k = self.index_of_id(as_id);
        proof {
            lemma_id_slot(self.spaces@, as_id, 0);
        }
        if k < MAX_ADDRESS_SPACES {
            match &self.spaces[k] {
                Some(a) => Some(a.root),
                None => None,
            }
        } else {
            None
        }
    }

    /// The kernel address space (slot 0), if installed.
    pub fn kernel_address_space(&self) -> (r: Option<&AddressSpace>)
        requires
            self.wf(),
        ensures
            r.is_some() == self.slots()[0].is_some(),
            r.is_some() ==> *r.unwrap() == self.slots()[0]->0,
    {
        self.spaces[0].as_ref()
    }

    /// The kernel address space, for update in place; it must be installed.
    /// The slot takes whatever the caller leaves in it.
    pub fn kernel_address_space_mut(&mut self) -> (r: &mut AddressSpace)
        requires
            old(self).wf(),
            old(self).slots()[0] is Some,
        ensures
            *r == old(self).slots()[0]->0,
            final(self).slots() == old(self).slots().update(0, Some(*final(r))),
            final(self).spec_next_id() == old(self).spec_next_id(),
    {
        match self.spaces[0].as_mut() {
            Some(a) => a,
            None => vstd::pervasive::unreached(),
        }
    }

    /// The space `as_id`, for update in place; it must be registered. The
    /// slot takes whatever the caller leaves in it.
    pub fn address_space_mut_by(&mut self, as_id: AddressSpaceId) -> (r: &mut AddressSpace)
        requires
            old(self).wf(),
            id_slot(old(self).slots(), as_id, 0) < MAX_ADDRESS_SPACES,
        ensures
            ({
                let k = id_slot(old(self).slots(), as_id, 0);
                &&& *r == old(self).slots()[k]->0
                &&& r.id == as_id
                &&& final(self).slots() == old(self).slots().update(k, Some(*final(r)))
            }),
            final(self).spec_next_id() == old(self).spec_next_id(),
    {
        let k = self.index_of_id(as_id);
        proof {
            lemma_id_slot(self.spaces@, as_id, 0);
        }
        match self.spaces[k].as_mut() {
            Some(a) => a,
            None => vstd::pervasive::unreached(),
        }
    }

    /// The space in slot `k`.
    pub fn get(&self, k: usize) -> (r: Option<&AddressSpace>)
        requires
            self.wf(),
        ensures
            k < MAX_ADDRESS_SPACES ==> r.is_some() == self.slots()[k as int].is_some(),
            k >= MAX_ADDRESS_SPACES ==> r is None,
            r.is_some() ==> *r.unwrap() == self.slots()[k as int]->0,
    {
        if k < MAX_ADDRESS_SPACES {
            self.spaces[k].as_ref()
        } else {
            None
        }
    }

    /// Take the space out of slot `k` (the slot is empty until `put_back`).
    pub fn take(&mut self, k: usize) -> (r: Option<AddressSpace>)
        requires
            old(self).wf(),
            k < MAX_ADDRESS_SPACES,
        ensures
            final(self).wf(),
            r == old(self).slots()[k as int],
            final(self).slots() == old(self).slots().update(k as int, None),
            final(self).spec_next_id() == old(self).spec_next_id(),
    {
        let mut slot: Option<AddressSpace> = None;
        self.spaces.set_and_swap(k, &mut slot);
        slot
    }

    /// Put a space into slot `k`.
    pub fn put_back(&mut self, k: usize, a: AddressSpace)
        requires
            old(self).wf(),
            k < MAX_ADDRESS_SPACES,
            a.wf(),
        ensures
            final(self).wf(),
            final(self).slots() == old(self).slots().update(k as int, Some(a)),
            final(self).spec_next_id() == old(self).spec_next_id(),
    {
        self.spaces.set(k, Some(a));
    }

    /// Number of registered spaces.
    pub fn count(&self) -> (n: usize)
        requires
            self.wf(),
        ensures
            n == occupied(self.slots()),
    {
        let mut n: usize = 0;
        let mut i: usize = 0;
        while i < MAX_ADDRESS_SPACES
            invariant
                0 <= i <= MAX_ADDRESS_SPACES,
                self.spaces@.len() == MAX_ADDRESS_SPACES,
                n == occupied(self.spaces@.take(i as int)),
                n <= i,
            decreases MAX_ADDRESS_SPACES - i,
        {
            assert(self.spaces@.take(i + 1).drop_last() =~= self.spaces@.take(i as int));
            if self.spaces[i].is_some() {
                n = n + 1;
            }
            i = i + 1;
        }
        assert(self.spaces@.take(i as int) =~= self.spaces@);
        n
    }
}

pub proof fn lemma_id_slot(s: Seq<Option<AddressSpace>>, id: AddressSpaceId, i: int)
    requires
        0 <= i <= s.len(),
    ensures
        i <= id_slot(s, id, i) <= s.len(),
        id_slot(s, id, i) < s.len() ==> has_id(s[id_slot(s, id, i)], id),
    decreases s.len() - i,
{
    if i < s.len() {
        lemma_id_slot(s, id, i + 1);
    }
}

pub proof fn lemma_root_slot(s: Seq<Option<AddressSpace>>, root: u64, i: int)
    requires
        0 <= i <= s.len(),
    ensures
        i <= root_slot(s, root, i) <= s.len(),
        root_slot(s, root, i) < s.len() ==> has_root(s[root_slot(s, root, i)], root),
    decreases s.len() - i,
{
    if i < s.len() {
        lemma_root_slot(s, root, i + 1);
    }
}

} // verus!
