//! Auditing the hardware image of an address space against its shadow: a
//! Present piece needs a valid leaf with its permission bits on every page,
//! a copy-on-write piece a valid leaf, a Lazy or Reserved piece no leaf;
//! below the VA allocator's high-water mark, a leaf may exist only under a
//! Present piece. The caller reads the descriptors at the pages these
//! functions list and hands them back for the verdict.
use vstd::prelude::*;
use crate::vmm::address_space::{end_of, ends_ok, AddressSpace, VmmError, USER_VA_BASE};
use crate::vmm::mapping::{Backing, Mapping, MappingFlags};

verus! {

/// What the hardware must show at a page.
#[derive(Debug, Clone, Copy, PartialEq, Eq, Structural)]
pub enum PageExpect {
    /// A valid leaf carrying the permission bits of these flags.
    Leaf(MappingFlags),
    /// A valid leaf, whatever its permissions.
    AnyLeaf,
    /// No valid leaf.
    NoLeaf,
}

/// A page to read and what its descriptor must show.
#[derive(Debug, Clone, Copy, PartialEq, Eq, Structural)]
pub struct Probe {
    pub va: u64,
    pub expect: PageExpect,
}

/// What every page of piece `m` must show.
pub open spec fn expect_of(m: Mapping) -> PageExpect {
    match m.backing {
        Backing::Present => PageExpect::Leaf(m.permissions),
        Backing::CoW => PageExpect::AnyLeaf,
        Backing::LazyAnonymous => PageExpect::NoLeaf,
        Backing::Reserved => PageExpect::NoLeaf,
    }
}

/// Number of pages the check reads in a range of `size` bytes: one per
/// started page.
pub open spec fn pages_in(size: u64) -> int {
    (size + 4095) / 4096
}

/// The probes of piece `m`: each page from its base, in order.
pub open spec fn piece_probes(m: Mapping) -> Seq<Probe> {
    Seq::new(pages_in(m.virt_range.size) as nat, |j: int| Probe { va: (m.virt_range.base + j * 4096) as u64, expect: expect_of(m) })
}

/// The probes of the pieces `ms`, piece by piece in order.
pub open spec fn shadow_probes(ms: Seq<Mapping>) -> Seq<Probe>
    decreases ms.len(),
{
    if ms.len() == 0 {
        Seq::empty()
    } else {
        shadow_probes(ms.drop_last()) + piece_probes(ms.last())
    }
}

/// A Present piece of `ms` contains `va`.
pub open spec fn covered_present(ms: Seq<Mapping>, va: int) -> bool {
    exists|i: int| 0 <= i < ms.len() && (#[trigger] ms[i]).backing == Backing::Present && ms[i].virt_range.base <= va < end_of(ms[i])
}

/// The probes of the reverse check: every page from the base of the user
/// domain up to `hi`, needing a leaf exactly under a Present piece.
pub open spec fn domain_probes(ms: Seq<Mapping>, hi: u64) -> Seq<Probe> {
    let n: int = if hi > USER_VA_BASE { pages_in((hi - USER_VA_BASE) as u64) } else { 0 };
    Seq::new(n as nat, |j: int| {
        let va = USER_VA_BASE + j * 4096;
        Probe { va: va as u64, expect: if covered_present(ms, va) { PageExpect::AnyLeaf } else { PageExpect::NoLeaf } }
    })
}

/// The mismatch, if any, of descriptor `d` against probe `p`, when the
/// architecture encodes the probe's permissions as `bits`: a missing leaf
/// is `NotMapped`; a leaf where none may be, or one lacking permission
/// bits, is `InvalidRange`.
pub open spec fn probe_error(p: Probe, d: u64, bits: u64) -> Option<VmmError> {
    match p.expect {
        PageExpect::Leaf(_) => if d & 1 == 0 {
            Some(VmmError::NotMapped)
        } else if d & bits != bits {
            Some(VmmError::InvalidRange)
        } else {
            None
        },
        PageExpect::AnyLeaf => if d & 1 == 0 {
            Some(VmmError::NotMapped)
        } else {
            None
        },
        PageExpect::NoLeaf => if d & 1 != 0 {
            Some(VmmError::InvalidRange)
        } else {
            None
        },
    }
}

/// The verdict on probes `ps` from `i` on: the first mismatch, else `Ok`.
pub open spec fn audit_verdict(ps: Seq<Probe>, ds: Seq<u64>, bs: Seq<u64>, i: int) -> Result<(), VmmError>
    decreases ps.len() - i,
{
    if 0 <= i < ps.len() {
        match probe_error(ps[i], ds[i], bs[i]) {
            Some(e) => Err(e),
            None => audit_verdict(ps, ds, bs, i + 1),
        }
    } else {
        Ok(())
    }
}

/// The verdict of an audit: `desc[k]` is the descriptor read at
/// `probes[k].va`, `perm_bits[k]` the architecture's permission bits for
/// the flags that probe names (ignored for the others).
pub fn audit(probes: &[Probe], desc: &[u64], perm_bits: &[u64]) -> (r: Result<(), VmmError>)
    requires
        desc@.len() == probes@.len(),
        perm_bits@.len() == probes@.len(),
    ensures
        r == audit_verdict(probes@, desc@, perm_bits@, 0),
{
    let mut i: usize = 0;
    while i < probes.len()
        invariant
            0 <= i <= probes@.len(),
            desc@.len() == probes@.len(),
            perm_bits@.len() == probes@.len(),
            audit_verdict(probes@, desc@, perm_bits@, 0) == audit_verdict(probes@, desc@, perm_bits@, i as int),
        decreases probes@.len() - i,
    {
        let p = probes[i];
        let d = desc[i];
        let bits = perm_bits[i];
        let err = match p.expect {
            PageExpect::Leaf(_) => if d & 1 == 0 {
                Some(VmmError::NotMapped)
            } else if d & bits != bits {
                Some(VmmError::InvalidRange)
            } else {
                None
            },
            PageExpect::AnyLeaf => if d & 1 == 0 {
                Some(VmmError::NotMapped)
            } else {
                None
            },
            PageExpect::NoLeaf => if d & 1 != 0 {
                Some(VmmError::InvalidRange)
            } else {
                None
            },
        };
        match err {
            Some(e) => {
                return Err(e);
            },
            None => {},
        }
        i = i + 1;
    }
    Ok(())
}

/// A Present piece of `ms` contains `va`.
fn is_covered_present(ms: &Vec<Mapping>, va: u64) -> (r: bool)
    ensures
        r == covered_present(ms@, va as int),
{
    let mut i: usize = 0;
    while i < ms.len()
        invariant
            0 <= i <= ms@.len(),
            forall|k: int|
                0 <= k < i ==> !((#[trigger] ms@[k]).backing == Backing::Present && ms@[k].virt_range.base <= va
                    < end_of(ms@[k])),
        decreases ms@.len() - i,
    {
        let m = ms[i];
        if m.backing == Backing::Present && m.virt_range.base <= va && (va as u128) < m.virt_range.base as u128
            + m.virt_range.size as u128 {
            return true;
        }
        i = i + 1;
    }
    false
}

impl AddressSpace {
    /// The pages to read for the forward check, with what each must show:
    /// every page of every piece, piece by piece in slot order.
    pub fn hardware_probes(&self) -> (r: Vec<Probe>)
        requires
            self.wf(),
        ensures
            r@ == shadow_probes(self.mappings.live()),
    {
        let live = self.mappings.iter();
        let mut out: Vec<Probe> = Vec::new();
        let mut i: usize = 0;
        while i < live.len()
            invariant
                live@ == self.mappings.live(),
                ends_ok(live@),
                0 <= i <= live@.len(),
                out@ == shadow_probes(live@.take(i as int)),
            decreases live@.len() - i,
        {
            let m = live[i];
            assert(end_of(live@[i as int]) <= u64::MAX);
            let e = match m.backing {
                Backing::Present => PageExpect::Leaf(m.permissions),
                Backing::CoW => PageExpect::AnyLeaf,
                Backing::LazyAnonymous => PageExpect::NoLeaf,
                Backing::Reserved => PageExpect::NoLeaf,
            };
            let n: u64 = ((m.virt_range.size as u128 + 4095) / 4096) as u64;
            let ghost before = out@;
            let mut k: u64 = 0;
            while k < n
                invariant
                    n == pages_in(m.virt_range.size),
                    m.virt_range.base + m.virt_range.size <= u64::MAX,
                    e == expect_of(m),
                    0 <= k <= n,
                    out@ == before + piece_probes(m).take(k as int),
                decreases n - k,
            {
                assert(k * 4096 < m.virt_range.size) by (nonlinear_arith)
                    requires k < n, n == (m.virt_range.size + 4095) / 4096;
                let va = m.virt_range.base + k * 4096;
                out.push(Probe { va, expect: e });
                assert(piece_probes(m).take(k + 1) =~= piece_probes(m).take(k as int).push(Probe { va, expect: e }));
                k = k + 1;
            }
            assert(piece_probes(m).take(n as int) =~= piece_probes(m));
            assert(live@.take(i + 1).drop_last() =~= live@.take(i as int));
            i = i + 1;
        }
        assert(live@.take(i as int) =~= live@);
        out
    }

    /// The pages to read for the reverse check, up to the VA allocator's
    /// high-water mark `hi`: a leaf must exist exactly under the Present
    /// pieces.
    pub fn domain_probes(&self, hi: u64) -> (r: Vec<Probe>)
        requires
            self.mappings.wf(),
        ensures
            r@ == domain_probes(self.mappings.live(), hi),
    {
        let live = self.mappings.iter();
        let n: u64 = if hi > USER_VA_BASE { ((hi - USER_VA_BASE) as u128 + 4095) as u64 / 4096 } else { 0 };
        proof {
            if hi > USER_VA_BASE {
                assert(n == pages_in((hi - USER_VA_BASE) as u64));
            }
        }
        let mut out: Vec<Probe> = Vec::new();
        let mut k: u64 = 0;
        while k < n
            invariant
                live@ == self.mappings.live(),
                n == (if hi > USER_VA_BASE { pages_in((hi - USER_VA_BASE) as u64) } else { 0 }),
                0 <= k <= n,
                out@ == domain_probes(live@, hi).take(k as int),
            decreases n - k,
        {
            assert(k * 4096 < hi - USER_VA_BASE) by (nonlinear_arith)
                requires k < n, n == (hi - USER_VA_BASE + 4095) / 4096, hi > USER_VA_BASE;
            let va = USER_VA_BASE + k * 4096;
            let e = if is_covered_present(&live, va) { PageExpect::AnyLeaf } else { PageExpect::NoLeaf };
            out.push(Probe { va, expect: e });
            assert(domain_probes(live@, hi).take(k + 1) =~= domain_probes(live@, hi).take(k as int).push(Probe { va, expect: e }));
            k = k + 1;
        }
        assert(domain_probes(live@, hi).take(n as int) =~= domain_probes(live@, hi));
        out
    }
}

} // verus!
