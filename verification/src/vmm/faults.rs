//! Fault resolution: the exception path asks this module whether a
//! translation fault is a demand fill of a lazy anonymous mapping, and
//! commits the fill. The page tables are programmed by the caller.
use vstd::prelude::*;
use crate::vmm::address_space::{fill_result, lazy_target, page_of, AddressSpace};
use crate::vmm::cow_refcount::CowRegistry;
use crate::vmm::registry::{root_slot, AddressSpaces, MAX_ADDRESS_SPACES};

verus! {

/// Slot `k` of `s2` holds `a` with the same id, root, flags and mapping
/// slots, and every other slot is as in `s1`.
pub open spec fn only_slot_is(s1: Seq<Option<AddressSpace>>, s2: Seq<Option<AddressSpace>>, k: int, a: AddressSpace) -> bool {
    &&& s2[k] matches Some(b) && b.id == a.id && b.root == a.root && b.flags == a.flags
        && b.mappings.slots() == a.mappings.slots()
    &&& forall|i: int| 0 <= i < MAX_ADDRESS_SPACES && i != k ==> #[trigger] s2[i] == s1[i]
}

/// Resolve a data-abort translation fault at `vaddr` in the address space
/// whose root table is `root_pa`, as a demand fill with `frame`: the zeroed
/// frame the backing context allocated (`None` when there is no backing
/// context or it is out of memory). True when the fill was committed;
/// false, changing nothing, when no space has that root, no frame was
/// given, or the fault is not a resolvable lazy fill (the caller then frees
/// `frame`).
pub fn vm_try_resolve_data_abort(
    spaces: &mut AddressSpaces,
    root_pa: u64,
    vaddr: u64,
    write: bool,
    frame: Option<u64>,
    cow: &mut CowRegistry,
) -> (ok: bool)
    requires
        old(spaces).wf(),
    ensures
        final(spaces).wf(),
        final(spaces).spec_next_id() == old(spaces).spec_next_id(),
        final(cow).entries() == old(cow).entries(),
        ({
            let k = root_slot(old(spaces).slots(), root_pa, 0);
            if k >= MAX_ADDRESS_SPACES || frame is None {
                !ok && final(spaces).slots() == old(spaces).slots()
            } else {
                let a = old(spaces).slots()[k]->0;
                match lazy_target(a.mappings.live(), vaddr, write) {
                    None => !ok && only_slot_is(old(spaces).slots(), final(spaces).slots(), k, a),
                    Some(m) => match fill_result(a.mappings.live(), m, page_of(vaddr) as int, frame->0, m.permissions) {
                        None => !ok && only_slot_is(old(spaces).slots(), final(spaces).slots(), k, a),
                        Some(l) => {
                            &&& ok
                            &&& final(spaces).slots()[k] matches Some(b) && b.id == a.id && b.root == a.root
                                && b.flags == a.flags && b.mappings.live() == l
                            &&& forall|i: int|
                                0 <= i < MAX_ADDRESS_SPACES && i != k ==> #[trigger] final(spaces).slots()[i]
                                    == old(spaces).slots()[i]
                        },
                    },
                }
            }
        }),
{
    let k = match spaces.find_by_root(root_pa) {
        Some(k) => k,
        None => {
            return false;
        },
    };
    let f = match frame {
        Some(f) => f,
        None => {
            return false;
        },
    };
    proof {
        crate::vmm::registry::lemma_root_slot(spaces.slots(), root_pa, 0);
    }
    let mut a = match spaces.take(k) {
        Some(a) => a,
        None => {
            return false;
        },
    };
    let ghost a0 = a;
    let ok = a.resolve_lazy_fault(vaddr, write, f, cow);
    spaces.put_back(k, a);
    ok
}

} // verus!
