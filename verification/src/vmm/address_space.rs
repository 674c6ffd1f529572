//! Address spaces: the mapping shadow of one translation root, and the
//! shadow transitions of protect, unmap, demand fill and teardown.
//!
//! Every operation validates first and changes nothing on failure; on
//! success it commits the new shadow and returns what the caller must do
//! to the hardware tables (the Present runs to reprogram or clear) and the
//! frames it must give back.
use vstd::prelude::*;
use crate::vmm::cow_refcount::CowRegistry;
use crate::vmm::runs::{coalesce_runs, coalesced};
use crate::vmm::mapping::{
    acquire_all, hit, keep, lemma_acquire_none, lemma_live_len, live_of, release_all, Backing, Mapping, MappingFlags, MappingSet, PhysOwnership,
    VirtRange, MAX_MAPPINGS,
};

verus! {

pub type AddressSpaceId = u64;

pub const KERNEL_ADDRESS_SPACE_ID: AddressSpaceId = 0;

/// First address of the user VA domain (the page-0 guard region below it
/// is never allocated).
pub const USER_VA_BASE: u64 = 0x0100_0000;

/// End of the user VA domain.
pub const USER_VA_END: u64 = 0x4000_0000;

pub const PAGE_SIZE: u64 = 4096;

#[derive(Debug, Clone, Copy, PartialEq, Eq, Structural)]
pub enum AddressSpaceFlags {
    Kernel,
    User,
}

#[derive(Debug, Clone, Copy, PartialEq, Eq, Structural)]
pub enum VmmError {
    MappingTableFull,
    NotMapped,
    OutOfVa,
    InvalidRange,
    AddressSpaceBusy,
}

/// End of a mapping's range.
pub open spec fn end_of(m: Mapping) -> int {
    m.virt_range.base + m.virt_range.size
}

/// `m` overlaps `[v, e)`.
pub open spec fn overlaps(m: Mapping, v: int, e: int) -> bool {
    m.virt_range.base < e && v < end_of(m)
}

/// No live mapping runs past the end of the address space.
pub open spec fn ends_ok(ms: Seq<Mapping>) -> bool {
    forall|i: int| 0 <= i < ms.len() ==> end_of(#[trigger] ms[i]) <= u64::MAX
}

/// No two live mappings overlap.
pub open spec fn disjoint(ms: Seq<Mapping>) -> bool {
    forall|i: int, j: int|
        0 <= i < ms.len() && 0 <= j < ms.len() && i != j ==> !overlaps(#[trigger] ms[i], (#[trigger] ms[j]).virt_range.base as int, end_of(ms[j]))
}

/// A range the shadow operations accept: page aligned, non-empty, and not
/// wrapping.
pub open spec fn range_ok(vaddr: u64, size: u64) -> bool {
    &&& size > 0
    &&& vaddr % 4096 == 0
    &&& size % 4096 == 0
    &&& vaddr + size <= u64::MAX
}

/// The live mappings overlapping `[v, e)`, in slot order.
pub open spec fn affected_of(ms: Seq<Mapping>, v: int, e: int) -> Seq<Mapping>
    decreases ms.len(),
{
    if ms.len() == 0 {
        Seq::empty()
    } else {
        let rest = affected_of(ms.drop_last(), v, e);
        if overlaps(ms.last(), v, e) {
            rest.push(ms.last())
        } else {
            rest
        }
    }
}

/// Total length of the parts of `aff` inside `[v, e)`.
pub open spec fn covered_len(aff: Seq<Mapping>, v: int, e: int) -> int
    decreases aff.len(),
{
    if aff.len() == 0 {
        0
    } else {
        let m = aff.last();
        let lo = if m.virt_range.base < v {
            v
        } else {
            m.virt_range.base as int
        };
        let hi = if end_of(m) > e {
            e
        } else {
            end_of(m)
        };
        covered_len(aff.drop_last(), v, e) + (hi - lo)
    }
}

/// Number of pieces left over outside `[v, e)` (a head and/or a tail per
/// affected mapping).
pub open spec fn leftovers(aff: Seq<Mapping>, v: int, e: int) -> int
    decreases aff.len(),
{
    if aff.len() == 0 {
        0
    } else {
        let m = aff.last();
        leftovers(aff.drop_last(), v, e) + (if m.virt_range.base < v {
            1int
        } else {
            0int
        }) + (if end_of(m) > e {
            1int
        } else {
            0int
        })
    }
}

/// `m` restricted to `[lo, hi)` with permissions `f`.
pub open spec fn cut(m: Mapping, lo: int, hi: int, f: MappingFlags) -> Mapping {
    Mapping { virt_range: VirtRange { base: lo as u64, size: (hi - lo) as u64 }, permissions: f, ..m }
}

/// The pieces `protect` leaves for the affected mappings: the parts
/// outside the range keep their permissions, the part inside gets `f`; all
/// keep their backing.
pub open spec fn protect_pieces(aff: Seq<Mapping>, v: int, e: int, f: MappingFlags) -> Seq<Mapping>
    decreases aff.len(),
{
    if aff.len() == 0 {
        Seq::empty()
    } else {
        let m = aff.last();
        let b = m.virt_range.base as int;
        let en = end_of(m);
        let lo = if b < v {
            v
        } else {
            b
        };
        let hi = if en > e {
            e
        } else {
            en
        };
        let head = if b < v {
            seq![cut(m, b, v, m.permissions)]
        } else {
            Seq::empty()
        };
        let tail = if en > e {
            seq![cut(m, e, en, m.permissions)]
        } else {
            Seq::empty()
        };
        protect_pieces(aff.drop_last(), v, e, f) + head + seq![cut(m, lo, hi, f)] + tail
    }
}

/// The pieces `unmap` leaves for the affected mappings: the parts outside
/// the range.
pub open spec fn unmap_pieces(aff: Seq<Mapping>, v: int, e: int) -> Seq<Mapping>
    decreases aff.len(),
{
    if aff.len() == 0 {
        Seq::empty()
    } else {
        let m = aff.last();
        let b = m.virt_range.base as int;
        let en = end_of(m);
        let head = if b < v {
            seq![cut(m, b, v, m.permissions)]
        } else {
            Seq::empty()
        };
        let tail = if en > e {
            seq![cut(m, e, en, m.permissions)]
        } else {
            Seq::empty()
        };
        unmap_pieces(aff.drop_last(), v, e) + head + tail
    }
}

/// The Present parts of `aff` inside `[v, e)`, as `(start, length)`: the
/// hardware runs an operation on that range touches.
pub open spec fn present_runs(aff: Seq<Mapping>, v: int, e: int) -> Seq<(u64, u64)>
    decreases aff.len(),
{
    if aff.len() == 0 {
        Seq::empty()
    } else {
        let m = aff.last();
        let rest = present_runs(aff.drop_last(), v, e);
        if m.backing == Backing::Present {
            let lo = if (m.virt_range.base as int) < v {
                v
            } else {
                m.virt_range.base as int
            };
            let hi = if end_of(m) > e {
                e
            } else {
                end_of(m)
            };
            rest.push((lo as u64, (hi - lo) as u64))
        } else {
            rest
        }
    }
}

/// The anonymous frames `(pa, size)` of the Present pieces wholly inside
/// `[v, e)`: unmapping them ends their owner.
pub open spec fn anon_frames(aff: Seq<Mapping>, v: int, e: int) -> Seq<(u64, u64)>
    decreases aff.len(),
{
    if aff.len() == 0 {
        Seq::empty()
    } else {
        let m = aff.last();
        let rest = anon_frames(aff.drop_last(), v, e);
        if m.backing == Backing::Present && m.phys == PhysOwnership::Anonymous && m.virt_range.base >= v
            && end_of(m) <= e {
            rest.push((m.pa, m.virt_range.size))
        } else {
            rest
        }
    }
}

/// Why a range operation on `[vaddr, vaddr + size)` is refused, if it is.
pub open spec fn range_check(ms: Seq<Mapping>, count: int, vaddr: u64, size: u64) -> Option<VmmError> {
    if !range_ok(vaddr, size) {
        Some(VmmError::InvalidRange)
    } else {
        let aff = affected_of(ms, vaddr as int, vaddr + size);
        if aff.len() == 0 || covered_len(aff, vaddr as int, vaddr + size) != size {
            Some(VmmError::NotMapped)
        } else if count + leftovers(aff, vaddr as int, vaddr + size) > MAX_MAPPINGS {
            Some(VmmError::MappingTableFull)
        } else {
            None
        }
    }
}

/// Page containing `va`.
pub open spec fn page_of(va: u64) -> u64 {
    (va - va % 4096) as u64
}

/// The first live mapping containing `va`.
pub open spec fn query_model(ms: Seq<Mapping>, va: int) -> Option<Mapping>
    decreases ms.len(),
{
    if ms.len() == 0 {
        None
    } else if ms[0].virt_range.base <= va < end_of(ms[0]) {
        Some(ms[0])
    } else {
        query_model(ms.drop_first(), va)
    }
}

/// The pieces a demand fill leaves for the Lazy piece `m` at `page`: the
/// Lazy head, the Present page on `frame` with permissions `f`, the Lazy
/// tail.
pub open spec fn fill_pieces(m: Mapping, page: int, frame: u64, f: MappingFlags) -> Seq<Mapping> {
    let b = m.virt_range.base as int;
    let en = end_of(m);
    let head = if b < page {
        seq![
            Mapping {
                virt_range: VirtRange { base: b as u64, size: (page - b) as u64 },
                backing: Backing::LazyAnonymous,
                pa: 0,
                phys: PhysOwnership::Anonymous,
                ..m
            },
        ]
    } else {
        Seq::empty()
    };
    let tail = if en > page + 4096 {
        seq![
            Mapping {
                virt_range: VirtRange { base: (page + 4096) as u64, size: (en - page - 4096) as u64 },
                backing: Backing::LazyAnonymous,
                pa: 0,
                phys: PhysOwnership::Anonymous,
                ..m
            },
        ]
    } else {
        Seq::empty()
    };
    head + seq![
        Mapping {
            virt_range: VirtRange { base: page as u64, size: 4096 },
            permissions: f,
            backing: Backing::Present,
            pa: frame,
            phys: PhysOwnership::Anonymous,
            ..m
        },
    ] + tail
}

/// What an unmap hands back: the Present runs to clear in the hardware
/// (sorted, touching runs merged), the anonymous frames `(pa, size)` to
/// free, and the copy-on-write frames that lost their last owner.
#[derive(Debug)]
pub struct UnmapPlan {
    pub runs: Vec<(u64, u64)>,
    pub anon_frames: Vec<(u64, u64)>,
    pub cow_frames: Vec<u64>,
}

/// One address space: its translation root and its mapping shadow.
pub struct AddressSpace {
    pub id: AddressSpaceId,
    /// Physical address of the root translation table.
    pub root: u64,
    pub mappings: MappingSet,
    pub flags: AddressSpaceFlags,
}

impl AddressSpace {
    pub open spec fn wf(&self) -> bool {
        self.mappings.wf() && ends_ok(self.mappings.live())
    }

    pub fn new(id: AddressSpaceId, root: u64, flags: AddressSpaceFlags) -> (r: Self)
        ensures
            r.id == id,
            r.root == root,
            r.flags == flags,
            r.mappings.live() == Seq::<Mapping>::empty(),
            r.mappings.spec_count() == 0,
            r.wf(),
    {
        AddressSpace { id, root, mappings: MappingSet::new(), flags }
    }

    pub fn is_kernel(&self) -> (r: bool)
        ensures
            r == (self.flags == AddressSpaceFlags::Kernel),
    {
        self.flags == AddressSpaceFlags::Kernel
    }

    /// The first live mapping containing `vaddr`.
    pub fn query(&self, vaddr: u64) -> (r: Option<Mapping>)
        requires
            self.mappings.wf(),
        ensures
            r == query_model(self.mappings.live(), vaddr as int),
    {
        let live = self.mappings.iter();
        assert(live@.skip(0) =~= live@);
        let mut i: usize = 0;
        while i < live.len()
            invariant
                0 <= i <= live@.len(),
                live@ == self.mappings.live(),
                query_model(live@, vaddr as int) == query_model(live@.skip(i as int), vaddr as int),
            decreases live@.len() - i,
        {
            let m = live[i];
            assert(live@.skip(i as int)[0] == m);
            assert(live@.skip(i as int).drop_first() =~= live@.skip(i + 1));
            if m.virt_range.base <= vaddr && vaddr - m.virt_range.base < m.virt_range.size {
                return Some(m);
            }
            i = i + 1;
        }
        assert(live@.skip(i as int) =~= Seq::<Mapping>::empty());
        None
    }

    /// Record a new Present mapping of `[vaddr, vaddr + size)`, externally
    /// owned; the caller then maps the pages in the hardware. The slot is
    /// reserved first, so a full table changes nothing.
    pub fn map_pages(&mut self, vaddr: u64, size: u64, flags: MappingFlags, object_id: u64) -> (r: Result<(), VmmError>)
        requires
            old(self).wf(),
            vaddr + size <= u64::MAX,
            forall|i: int| 0 <= i < old(self).mappings.live().len() ==> !overlaps(#[trigger] old(self).mappings.live()[i], vaddr as int, vaddr + size),
        ensures
            final(self).wf(),
            final(self).id == old(self).id,
            final(self).root == old(self).root,
            final(self).flags == old(self).flags,
            r is Ok <==> crate::vmm::mapping::hole(old(self).mappings.slots(), 0) < MAX_MAPPINGS,
            r is Err ==> r == Err::<(), VmmError>(VmmError::MappingTableFull) && final(self).mappings.slots() == old(self).mappings.slots(),
            r is Ok ==> final(self).mappings.slots() == old(self).mappings.slots().update(
                crate::vmm::mapping::hole(old(self).mappings.slots(), 0),
                Some(Mapping::new_spec(VirtRange { base: vaddr, size }, object_id, flags)),
            ),
    {
        let m = Mapping::new(VirtRange::new(vaddr, size), object_id, flags);
        let ghost s0 = self.mappings.slots();
        match self.mappings.insert(m) {
            Some(h) => {
                proof {
                    crate::vmm::mapping::lemma_hole(s0, 0);
                    law_insert_keeps_shadow(s0, h as int, m);
                }
                Ok(())
            },
            None => Err(VmmError::MappingTableFull),
        }
    }
}

impl Mapping {
    /// The mapping `Mapping::new` builds.
    pub open spec fn new_spec(virt_range: VirtRange, object_id: u64, permissions: MappingFlags) -> Mapping {
        Mapping { virt_range, object_id, permissions, backing: Backing::Present, pa: 0, phys: PhysOwnership::External }
    }
}

/// Mapping keeps the shadow an image of a page table: writing a mapping
/// that overlaps none of the live ones into an empty slot keeps every piece
/// within the address space and, when no two live pieces overlapped, keeps
/// it so.
pub proof fn law_insert_keeps_shadow(s: Seq<Option<Mapping>>, h: int, m: Mapping)
    requires
        0 <= h < s.len(),
        s[h] is None,
        ends_ok(live_of(s)),
        end_of(m) <= u64::MAX,
        forall|i: int| 0 <= i < live_of(s).len() ==> !overlaps(#[trigger] live_of(s)[i], m.virt_range.base as int, end_of(m)),
    ensures
        ends_ok(live_of(s.update(h, Some(m)))),
        disjoint(live_of(s)) ==> disjoint(live_of(s.update(h, Some(m)))),
{
    let u = s.update(h, Some(m));
    lemma_live_insert(s, h, m);
    lemma_live_prefix_le(s, h);
    let l = live_of(s);
    let lu = live_of(u);
    let k = live_index(s, h);
    assert(0 <= k <= l.len());
    assert(lu.len() == l.len() + 1);
    assert forall|i: int| 0 <= i < lu.len() implies end_of(#[trigger] lu[i]) <= u64::MAX by {
        if i < k {
            assert(lu[i] == l[i]);
        } else if i > k {
            assert(lu[i] == l[i - 1]);
        }
    }
    if disjoint(l) {
    assert forall|i: int, j: int|
        0 <= i < lu.len() && 0 <= j < lu.len() && i != j implies !overlaps(#[trigger] lu[i], (#[trigger] lu[j]).virt_range.base as int, end_of(lu[j])) by {
        if i != k && j != k {
            let ii = if i < k { i } else { i - 1 };
            let jj = if j < k { j } else { j - 1 };
            assert(lu[i] == l[ii] && lu[j] == l[jj]);
        } else if i == k {
            let jj = if j < k { j } else { j - 1 };
            assert(lu[j] == l[jj]);
        } else {
            let ii = if i < k { i } else { i - 1 };
            assert(lu[i] == l[ii]);
        }
    }
    }
}

/// Number of occupied slots before `h`: where a mapping written into the
/// empty slot `h` lands among the live ones.
pub open spec fn live_index(s: Seq<Option<Mapping>>, h: int) -> int {
    live_of(s.take(h)).len() as int
}

/// Filling the empty slot `h` inserts its mapping into the live sequence
/// at `live_index(s, h)`.
proof fn lemma_live_insert(s: Seq<Option<Mapping>>, h: int, m: Mapping)
    requires
        0 <= h < s.len(),
        s[h] is None,
    ensures
        live_of(s.update(h, Some(m))) == live_of(s).insert(live_index(s, h), m),
    decreases s.len(),
{
    let u = s.update(h, Some(m));
    if h == s.len() - 1 {
        assert(u.drop_last() =~= s.drop_last());
        assert(s.take(h) =~= s.drop_last());
        assert(live_of(s) == live_of(s.drop_last()));
        assert(live_of(s).insert(live_of(s).len() as int, m) =~= live_of(s).push(m));
    } else {
        assert(u.drop_last() =~= s.drop_last().update(h, Some(m)));
        lemma_live_insert(s.drop_last(), h, m);
        assert(s.drop_last().take(h) =~= s.take(h));
        let l = live_of(s.drop_last());
        let k = live_index(s, h);
        lemma_live_len(s.take(h));
        crate::vmm::mapping::lemma_live_len(s.drop_last());
        lemma_live_prefix_le(s.drop_last(), h);
        match s.last() {
            Some(x) => {
                assert(l.insert(k, m).push(x) =~= l.push(x).insert(k, m));
            },
            None => {},
        }
    }
}

/// A prefix has no more live mappings than the whole.
proof fn lemma_live_prefix_le(s: Seq<Option<Mapping>>, h: int)
    requires
        0 <= h <= s.len(),
    ensures
        live_of(s.take(h)).len() <= live_of(s).len(),
    decreases s.len() - h,
{
    if h < s.len() {
        lemma_live_prefix_le(s, h + 1);
        assert(s.take(h + 1).drop_last() =~= s.take(h));
    } else {
        assert(s.take(h) =~= s);
    }
}

/// Every affected mapping overlaps the range and is a live one; every
/// live mapping overlapping the range is affected.
pub proof fn lemma_affected(ms: Seq<Mapping>, v: int, e: int)
    ensures
        affected_of(ms, v, e).len() <= ms.len(),
        forall|k: int| 0 <= k < affected_of(ms, v, e).len() ==> overlaps(#[trigger] affected_of(ms, v, e)[k], v, e),
        forall|k: int| 0 <= k < affected_of(ms, v, e).len() ==> ms.contains(#[trigger] affected_of(ms, v, e)[k]),
        forall|i: int| 0 <= i < ms.len() && overlaps(#[trigger] ms[i], v, e) ==> affected_of(ms, v, e).contains(ms[i]),
    decreases ms.len(),
{
    if ms.len() > 0 {
        let d = ms.drop_last();
        lemma_affected(d, v, e);
        let a = affected_of(ms, v, e);
        let ad = affected_of(d, v, e);
        assert forall|k: int| 0 <= k < a.len() implies ms.contains(#[trigger] a[k]) by {
            if k < ad.len() {
                assert(a[k] == ad[k]);
                let j = choose|j: int| 0 <= j < d.len() && d[j] == ad[k];
                assert(ms[j] == d[j]);
            } else {
                assert(a[k] == ms[ms.len() - 1]);
            }
        }
        assert forall|k: int| 0 <= k < a.len() implies overlaps(#[trigger] a[k], v, e) by {
            if k < ad.len() {
                assert(a[k] == ad[k]);
            }
        }
        assert forall|i: int| 0 <= i < ms.len() && overlaps(#[trigger] ms[i], v, e) implies a.contains(ms[i]) by {
            if i < ms.len() - 1 {
                assert(ms[i] == d[i]);
                let k = choose|k: int| 0 <= k < ad.len() && ad[k] == d[i];
                assert(a[k] == ad[k]);
            } else {
                assert(a[a.len() - 1] == ms[i]);
            }
        }
    }
}

/// With the affected mappings of a range, `keep` drops exactly the
/// mappings overlapping it.
proof fn lemma_keep_affected(ms: Seq<Mapping>, aff: Seq<Mapping>, v: int, e: int)
    requires
        forall|i: int| 0 <= i < ms.len() ==> (hit(aff, #[trigger] ms[i]) <==> overlaps(ms[i], v, e)),
    ensures
        keep(ms, aff).len() + affected_of(ms, v, e).len() == ms.len(),
    decreases ms.len(),
{
    if ms.len() > 0 {
        let d = ms.drop_last();
        assert forall|i: int| 0 <= i < d.len() implies (hit(aff, #[trigger] d[i]) <==> overlaps(d[i], v, e)) by {
            assert(d[i] == ms[i]);
        }
        lemma_keep_affected(d, aff, v, e);
        assert(hit(aff, ms[ms.len() - 1]) <==> overlaps(ms[ms.len() - 1], v, e));
    }
}

/// For live mappings, being identified by an affected mapping is the same
/// as overlapping the range.
pub proof fn lemma_hit_iff_overlaps(ms: Seq<Mapping>, v: int, e: int)
    ensures
        forall|i: int| 0 <= i < ms.len() ==> (hit(affected_of(ms, v, e), #[trigger] ms[i]) <==> overlaps(ms[i], v, e)),
{
    lemma_affected(ms, v, e);
    let aff = affected_of(ms, v, e);
    assert forall|i: int| 0 <= i < ms.len() implies (hit(aff, #[trigger] ms[i]) <==> overlaps(ms[i], v, e)) by {
        if overlaps(ms[i], v, e) {
            let k = choose|k: int| 0 <= k < aff.len() && aff[k] == ms[i];
            assert(aff[k].virt_range == ms[i].virt_range);
        }
        if hit(aff, ms[i]) {
            let k = choose|k: int| 0 <= k < aff.len() && (#[trigger] aff[k]).virt_range == ms[i].virt_range;
            assert(overlaps(aff[k], v, e));
        }
    }
}

pub proof fn lemma_protect_pieces_len(aff: Seq<Mapping>, v: int, e: int, f: MappingFlags)
    ensures
        protect_pieces(aff, v, e, f).len() == aff.len() + leftovers(aff, v, e),
        unmap_pieces(aff, v, e).len() == leftovers(aff, v, e),
        leftovers(aff, v, e) >= 0,
    decreases aff.len(),
{
    if aff.len() > 0 {
        lemma_protect_pieces_len(aff.drop_last(), v, e, f);
    }
}

/// The live mappings are at most the used slots.
proof fn lemma_live_le_count(s: Seq<Option<Mapping>>, count: usize)
    requires
        crate::vmm::mapping::set_wf(s, count),
    ensures
        live_of(s).len() <= count,
{
    lemma_live_prefix_count(s, count, s.len() as int);
    assert(s.take(s.len() as int) =~= s);
}

proof fn lemma_live_prefix_count(s: Seq<Option<Mapping>>, count: usize, n: int)
    requires
        crate::vmm::mapping::set_wf(s, count),
        0 <= n <= s.len(),
    ensures
        live_of(s.take(n)).len() <= (if n < count { n } else { count as int }),
    decreases n,
{
    if n > 0 {
        lemma_live_prefix_count(s, count, n - 1);
        assert(s.take(n).drop_last() =~= s.take(n - 1));
        if n > count {
            assert(s[n - 1] is None);
        }
    } else {
        assert(s.take(0) =~= Seq::<Option<Mapping>>::empty());
    }
    if n == s.len() {
        assert(s.take(n) =~= s);
    }
}

impl AddressSpace {
    /// The mappings overlapping `[vaddr, vaddr + size)` after validating the
    /// range: see `range_check`.
    fn check_range(&self, vaddr: u64, size: u64) -> (r: Result<Vec<Mapping>, VmmError>)
        requires
            self.wf(),
        ensures
            match range_check(self.mappings.live(), self.mappings.spec_count() as int, vaddr, size) {
                Some(err) => r == Err::<Vec<Mapping>, VmmError>(err),
                None => r matches Ok(a) && a@ == affected_of(self.mappings.live(), vaddr as int, vaddr + size),
            },
    {
        if size == 0 || vaddr % 4096 != 0 || size % 4096 != 0 || vaddr > u64::MAX - size {
            return Err(VmmError::InvalidRange);
        }
        let re = vaddr + size;
        let live = self.mappings.iter();
        let mut aff: Vec<Mapping> = Vec::new();
        let mut covered: u128 = 0;
        let mut extra: usize = 0;
        let mut i: usize = 0;
        proof {
            lemma_live_len(self.mappings.slots());
        }
        while i < live.len()
            invariant
                0 <= i <= live@.len(),
                live@ == self.mappings.live(),
                live@.len() <= MAX_MAPPINGS,
                ends_ok(live@),
                re == vaddr + size,
                aff@ == affected_of(live@.take(i as int), vaddr as int, re as int),
                aff@.len() <= i,
                covered == covered_len(aff@, vaddr as int, re as int),
                covered <= i * 0x1_0000_0000_0000_0000,
                extra == leftovers(aff@, vaddr as int, re as int),
                extra <= 2 * i,
            decreases live@.len() - i,
        {
            assert(live@.take(i + 1).drop_last() =~= live@.take(i as int));
            let m = live[i];
            assert(end_of(m) <= u64::MAX);
            let base = m.virt_range.base;
            let end = base + m.virt_range.size;
            if base < re && vaddr < end {
                let lo = if base < vaddr { vaddr } else { base };
                let hi = if end > re { re } else { end };
                aff.push(m);
                covered = covered + (hi - lo) as u128;
                if base < vaddr {
                    extra = extra + 1;
                }
                if end > re {
                    extra = extra + 1;
                }
                assert(aff@.drop_last() =~= affected_of(live@.take(i as int), vaddr as int, re as int));
            }
            i = i + 1;
        }
        assert(live@.take(i as int) =~= live@);
        if aff.len() == 0 || covered != size as u128 {
            return Err(VmmError::NotMapped);
        }
        if self.mappings.len() + extra > MappingSet::capacity() {
            return Err(VmmError::MappingTableFull);
        }
        Ok(aff)
    }
}

/// What a permission change hands back: the Present runs to reprogram in
/// the hardware (sorted, touching runs merged), and the copy-on-write
/// frames that lost their last owner.
#[derive(Debug)]
pub struct ProtectPlan {
    pub runs: Vec<(u64, u64)>,
    pub cow_frames: Vec<u64>,
}

impl AddressSpace {
    /// Room check for a range operation: the rebuilt set fits.
    proof fn lemma_room(&self, vaddr: u64, size: u64, npieces: int)
        requires
            self.wf(),
            range_check(self.mappings.live(), self.mappings.spec_count() as int, vaddr, size) is None,
            npieces <= affected_of(self.mappings.live(), vaddr as int, vaddr + size).len() + leftovers(
                affected_of(self.mappings.live(), vaddr as int, vaddr + size),
                vaddr as int,
                vaddr + size,
            ),
        ensures
            keep(self.mappings.live(), affected_of(self.mappings.live(), vaddr as int, vaddr + size)).len()
                + npieces <= MAX_MAPPINGS,
    {
        let live = self.mappings.live();
        let v = vaddr as int;
        let e = vaddr + size;
        lemma_hit_iff_overlaps(live, v, e);
        lemma_keep_affected(live, affected_of(live, v, e), v, e);
        lemma_live_le_count(self.mappings.slots(), self.mappings.spec_count());
    }

    /// Change the permissions of `[vaddr, vaddr + size)`, which live
    /// mappings must cover: the parts of the affected mappings inside the
    /// range get `new_flags`, the parts outside keep theirs, every piece
    /// keeps its backing. Each copy-on-write piece left in place takes a
    /// reference to its frame before the affected mappings release theirs,
    /// so splitting a shared mapping into `k` pieces adds `k - 1` owners.
    /// Refused without any change when the range is not page aligned or
    /// wraps, is not fully covered, or the split would not fit. Returns the
    /// Present runs to reprogram.
    pub fn protect(&mut self, vaddr: u64, size: u64, new_flags: MappingFlags, cow: &mut CowRegistry) -> (r: Result<ProtectPlan, VmmError>)
        requires
            old(self).wf(),
        ensures
            final(self).wf(),
            final(self).id == old(self).id,
            final(self).root == old(self).root,
            final(self).flags == old(self).flags,
            match range_check(old(self).mappings.live(), old(self).mappings.spec_count() as int, vaddr, size) {
                Some(err) => {
                    &&& r matches Err(x) && x == err
                    &&& final(self).mappings.slots() == old(self).mappings.slots()
                    &&& final(self).mappings.spec_count() == old(self).mappings.spec_count()
                    &&& final(cow).entries() == old(cow).entries()
                    &&& final(cow).spec_count() == old(cow).spec_count()
                },
                None => {
                    let aff = affected_of(old(self).mappings.live(), vaddr as int, vaddr + size);
                    let (e1, c1) = acquire_all(
                        old(cow).entries(),
                        old(cow).spec_count(),
                        protect_pieces(aff, vaddr as int, vaddr + size, new_flags),
                    );
                    let (e2, c2, fr) = release_all(e1, c1, aff);
                    &&& r matches Ok(p) && p.runs@ == coalesced(present_runs(aff, vaddr as int, vaddr + size)) && p.cow_frames@ == fr
                    &&& final(self).mappings.live() == keep(old(self).mappings.live(), aff) + protect_pieces(
                        aff,
                        vaddr as int,
                        vaddr + size,
                        new_flags,
                    )
                    &&& final(cow).entries() == e2
                    &&& final(cow).spec_count() == c2
                },
            },
    {
        let aff = match self.check_range(vaddr, size) {
            Ok(a) => a,
            Err(err) => {
                return Err(err);
            },
        };
        let re = vaddr + size;
        let ghost live = self.mappings.live();
        proof {
            lemma_affected(live, vaddr as int, re as int);
            assert forall|k: int| 0 <= k < aff@.len() implies end_of(#[trigger] aff@[k]) <= u64::MAX by {
                let j = choose|j: int| 0 <= j < live.len() && live[j] == aff@[k];
            }
        }
        let mut pieces: Vec<Mapping> = Vec::new();
        let mut runs: Vec<(u64, u64)> = Vec::new();
        let mut k: usize = 0;
        while k < aff.len()
            invariant
                0 <= k <= aff@.len(),
                re == vaddr + size,
                forall|j: int| 0 <= j < aff@.len() ==> end_of(#[trigger] aff@[j]) <= u64::MAX,
                forall|j: int| 0 <= j < aff@.len() ==> overlaps(#[trigger] aff@[j], vaddr as int, re as int),
                pieces@ == protect_pieces(aff@.take(k as int), vaddr as int, re as int, new_flags),
                runs@ == present_runs(aff@.take(k as int), vaddr as int, re as int),
                crate::vmm::runs::runs_bounded(runs@),
            decreases aff@.len() - k,
        {
            assert(aff@.take(k + 1).drop_last() =~= aff@.take(k as int));
            let m = aff[k];
            let b = m.virt_range.base;
            let en = b + m.virt_range.size;
            let lo = if b < vaddr { vaddr } else { b };
            let hi = if en > re { re } else { en };
            let ghost before = pieces@;
            if b < vaddr {
                pieces.push(Mapping { virt_range: VirtRange { base: b, size: vaddr - b }, ..m });
            }
            pieces.push(Mapping { virt_range: VirtRange { base: lo, size: hi - lo }, permissions: new_flags, ..m });
            if en > re {
                pieces.push(Mapping { virt_range: VirtRange { base: re, size: en - re }, ..m });
            }
            proof {
                let head = if (b as int) < vaddr {
                    seq![cut(m, b as int, vaddr as int, m.permissions)]
                } else {
                    Seq::empty()
                };
                let tail = if en > re {
                    seq![cut(m, re as int, en as int, m.permissions)]
                } else {
                    Seq::empty()
                };
                assert(pieces@ =~= before + head + seq![cut(m, lo as int, hi as int, new_flags)] + tail);
            }
            if m.backing == Backing::Present {
                runs.push((lo, hi - lo));
            }
            k = k + 1;
        }
        assert(aff@.take(k as int) =~= aff@);
        proof {
            lemma_protect_pieces_len(aff@, vaddr as int, re as int, new_flags);
            self.lemma_room(vaddr, size, pieces@.len() as int);
            lemma_ends_pieces(aff@, vaddr as int, re as int, new_flags);
            lemma_ends_keep(live, aff@);
            lemma_ends_concat(keep(live, aff@), pieces@);
        }
        match self.mappings.replace_slots(aff.as_slice(), pieces.as_slice(), cow) {
            Ok(freed) => Ok(ProtectPlan { runs: coalesce_runs(runs.as_slice()), cow_frames: freed }),
            Err(_) => Err(VmmError::MappingTableFull),
        }
    }

    /// Unmap `[vaddr, vaddr + size)`, which live mappings must cover: the
    /// parts of the affected mappings outside the range stay, with their
    /// permissions and backing; each copy-on-write piece that stays takes a
    /// reference to its frame before the affected mappings release theirs.
    /// Refused without any change as `protect` is.
    /// Returns the Present runs to clear, the anonymous frames of the
    /// Present pieces wholly inside the range (to free), and the
    /// copy-on-write frames that lost their last owner. Afterwards no
    /// address of the range is mapped.
    pub fn unmap_pages(&mut self, vaddr: u64, size: u64, cow: &mut CowRegistry) -> (r: Result<UnmapPlan, VmmError>)
        requires
            old(self).wf(),
        ensures
            final(self).wf(),
            final(self).id == old(self).id,
            final(self).root == old(self).root,
            final(self).flags == old(self).flags,
            match range_check(old(self).mappings.live(), old(self).mappings.spec_count() as int, vaddr, size) {
                Some(err) => {
                    &&& r matches Err(x) && x == err
                    &&& final(self).mappings.slots() == old(self).mappings.slots()
                    &&& final(self).mappings.spec_count() == old(self).mappings.spec_count()
                    &&& final(cow).entries() == old(cow).entries()
                    &&& final(cow).spec_count() == old(cow).spec_count()
                },
                None => {
                    let aff = affected_of(old(self).mappings.live(), vaddr as int, vaddr + size);
                    let (e1, c1) = acquire_all(
                        old(cow).entries(),
                        old(cow).spec_count(),
                        unmap_pieces(aff, vaddr as int, vaddr + size),
                    );
                    let (e2, c2, fr) = release_all(e1, c1, aff);
                    &&& r matches Ok(p) && p.runs@ == coalesced(present_runs(aff, vaddr as int, vaddr + size))
                        && p.anon_frames@ == anon_frames(aff, vaddr as int, vaddr + size) && p.cow_frames@ == fr
                    &&& final(self).mappings.live() == keep(old(self).mappings.live(), aff) + unmap_pieces(
                        aff,
                        vaddr as int,
                        vaddr + size,
                    )
                    &&& final(cow).entries() == e2
                    &&& final(cow).spec_count() == c2
                },
            },
            r is Ok ==> forall|x: int|
                vaddr <= x < vaddr + size ==> query_model(final(self).mappings.live(), x) is None,
    {
        proof {
            if range_ok(vaddr, size) {
                let live = self.mappings.live();
                let aff = affected_of(live, vaddr as int, vaddr + size);
                let l2 = keep(live, aff) + unmap_pieces(aff, vaddr as int, vaddr + size);
                crate::vmm::laws::law_unmap_exact(live, vaddr, size);
                assert forall|x: int| vaddr <= x < vaddr + size implies query_model(l2, x) is None by {
                    lemma_query(l2, x);
                    if let Some(m) = query_model(l2, x) {
                        let k = choose|k: int| 0 <= k < l2.len() && l2[k] == m;
                        assert(!overlaps(l2[k], vaddr as int, vaddr + size));
                    }
                }
            }
        }
        let aff = match self.check_range(vaddr, size) {
            Ok(a) => a,
            Err(err) => {
                return Err(err);
            },
        };
        let re = vaddr + size;
        let ghost live = self.mappings.live();
        proof {
            lemma_affected(live, vaddr as int, re as int);
            assert forall|k: int| 0 <= k < aff@.len() implies end_of(#[trigger] aff@[k]) <= u64::MAX by {
                let j = choose|j: int| 0 <= j < live.len() && live[j] == aff@[k];
            }
        }
        let mut pieces: Vec<Mapping> = Vec::new();
        let mut runs: Vec<(u64, u64)> = Vec::new();
        let mut frames: Vec<(u64, u64)> = Vec::new();
        let mut k: usize = 0;
        while k < aff.len()
            invariant
                0 <= k <= aff@.len(),
                re == vaddr + size,
                forall|j: int| 0 <= j < aff@.len() ==> end_of(#[trigger] aff@[j]) <= u64::MAX,
                forall|j: int| 0 <= j < aff@.len() ==> overlaps(#[trigger] aff@[j], vaddr as int, re as int),
                pieces@ == unmap_pieces(aff@.take(k as int), vaddr as int, re as int),
                runs@ == present_runs(aff@.take(k as int), vaddr as int, re as int),
                crate::vmm::runs::runs_bounded(runs@),
                frames@ == anon_frames(aff@.take(k as int), vaddr as int, re as int),
            decreases aff@.len() - k,
        {
            assert(aff@.take(k + 1).drop_last() =~= aff@.take(k as int));
            let m = aff[k];
            let b = m.virt_range.base;
            let en = b + m.virt_range.size;
            let lo = if b < vaddr { vaddr } else { b };
            let hi = if en > re { re } else { en };
            let ghost before = pieces@;
            if b < vaddr {
                pieces.push(Mapping { virt_range: VirtRange { base: b, size: vaddr - b }, ..m });
            }
            if en > re {
                pieces.push(Mapping { virt_range: VirtRange { base: re, size: en - re }, ..m });
            }
            proof {
                let head = if (b as int) < vaddr {
                    seq![cut(m, b as int, vaddr as int, m.permissions)]
                } else {
                    Seq::empty()
                };
                let tail = if en > re {
                    seq![cut(m, re as int, en as int, m.permissions)]
                } else {
                    Seq::empty()
                };
                assert(pieces@ =~= before + head + tail);
            }
            if m.backing == Backing::Present {
                runs.push((lo, hi - lo));
            }
            if m.backing == Backing::Present && m.phys == PhysOwnership::Anonymous && b >= vaddr && en <= re {
                frames.push((m.pa, m.virt_range.size));
            }
            k = k + 1;
        }
        assert(aff@.take(k as int) =~= aff@);
        proof {
            lemma_protect_pieces_len(aff@, vaddr as int, re as int, MappingFlags::empty_spec());
            self.lemma_room(vaddr, size, pieces@.len() as int);
            lemma_ends_pieces(aff@, vaddr as int, re as int, MappingFlags::empty_spec());
            lemma_ends_keep(live, aff@);
            lemma_ends_concat(keep(live, aff@), pieces@);
        }
        match self.mappings.replace_slots(aff.as_slice(), pieces.as_slice(), cow) {
            Ok(freed) => Ok(UnmapPlan { runs: coalesce_runs(runs.as_slice()), anon_frames: frames, cow_frames: freed }),
            Err(_) => Err(VmmError::MappingTableFull),
        }
    }
}

/// The Lazy piece a fault at `va` (a write when `write`) can fill: the
/// piece containing the page must be LazyAnonymous and, for a write,
/// writable; the page must not be the last one of the address space.
pub open spec fn lazy_target(ms: Seq<Mapping>, va: u64, write: bool) -> Option<Mapping> {
    match query_model(ms, page_of(va) as int) {
        Some(m) => if m.backing == Backing::LazyAnonymous && (!write || m.permissions.read_write) && page_of(va)
            + 4096 <= u64::MAX {
            Some(m)
        } else {
            None
        },
        None => None,
    }
}

/// The value that identifies the Lazy piece `m` for replacement.
pub open spec fn lazy_value(m: Mapping) -> Mapping {
    Mapping { backing: Backing::LazyAnonymous, pa: 0, phys: PhysOwnership::Anonymous, ..m }
}

/// The shadow after filling `page` of the Lazy piece `m` with `frame`
/// (permissions `f`), if the split fits.
pub open spec fn fill_result(ms: Seq<Mapping>, m: Mapping, page: int, frame: u64, f: MappingFlags) -> Option<Seq<Mapping>> {
    let sv = keep(ms, seq![lazy_value(m)]);
    let p = fill_pieces(m, page, frame, f);
    if sv.len() + p.len() > MAX_MAPPINGS {
        None
    } else {
        Some(sv + p)
    }
}

/// A query finds a live mapping containing the address.
pub proof fn lemma_query(ms: Seq<Mapping>, va: int)
    ensures
        query_model(ms, va) matches Some(m) ==> ms.contains(m) && m.virt_range.base <= va < end_of(m),
    decreases ms.len(),
{
    if ms.len() > 0 && !(ms[0].virt_range.base <= va < end_of(ms[0])) {
        lemma_query(ms.drop_first(), va);
        if let Some(m) = query_model(ms.drop_first(), va) {
            let k = choose|k: int| 0 <= k < ms.drop_first().len() && ms.drop_first()[k] == m;
            assert(ms[k + 1] == m);
        }
    }
}

impl AddressSpace {
    /// The Lazy piece a fault at `va` can fill (see `lazy_target`); the
    /// caller allocates and zeroes a frame, maps it, then commits with
    /// `resolve_lazy_fault`.
    pub fn lazy_fault_piece(&self, va: u64, write: bool) -> (r: Option<Mapping>)
        requires
            self.wf(),
        ensures
            r == lazy_target(self.mappings.live(), va, write),
    {
        let page = va - va % 4096;
        let m = match self.query(page) {
            Some(m) => m,
            None => {
                return None;
            },
        };
        if m.backing != Backing::LazyAnonymous {
            return None;
        }
        if write && !m.permissions.is_read_write() {
            return None;
        }
        if page > u64::MAX - 4096 {
            return None;
        }
        Some(m)
    }

    /// Split `m` around `page` into Lazy head, Present page on `frame`
    /// (permissions `f`) and Lazy tail, replacing `m` in the shadow.
    fn split_lazy(&mut self, m: Mapping, page: u64, frame: u64, f: MappingFlags, cow: &mut CowRegistry) -> (ok: bool)
        requires
            old(self).wf(),
            old(self).mappings.live().contains(m),
            m.virt_range.base <= page < end_of(m),
            page + 4096 <= u64::MAX,
        ensures
            final(self).wf(),
            final(self).id == old(self).id,
            final(self).root == old(self).root,
            final(self).flags == old(self).flags,
            match fill_result(old(self).mappings.live(), m, page as int, frame, f) {
                None => !ok && final(self).mappings.slots() == old(self).mappings.slots()
                    && final(self).mappings.spec_count() == old(self).mappings.spec_count(),
                Some(l) => ok && final(self).mappings.live() == l,
            },
            final(cow).entries() == old(cow).entries(),
            final(cow).spec_count() == old(cow).spec_count(),
    {
        let b = m.virt_range.base;
        let ghost live = self.mappings.live();
        proof {
            let k = choose|k: int| 0 <= k < live.len() && live[k] == m;
        }
        let en = b + m.virt_range.size;
        let mut pieces: Vec<Mapping> = Vec::new();
        if b < page {
            pieces.push(
                Mapping {
                    virt_range: VirtRange { base: b, size: page - b },
                    backing: Backing::LazyAnonymous,
                    pa: 0,
                    phys: PhysOwnership::Anonymous,
                    ..m
                },
            );
        }
        pieces.push(
            Mapping {
                virt_range: VirtRange { base: page, size: 4096 },
                permissions: f,
                backing: Backing::Present,
                pa: frame,
                phys: PhysOwnership::Anonymous,
                ..m
            },
        );
        if en > page + 4096 {
            pieces.push(
                Mapping {
                    virt_range: VirtRange { base: page + 4096, size: en - page - 4096 },
                    backing: Backing::LazyAnonymous,
                    pa: 0,
                    phys: PhysOwnership::Anonymous,
                    ..m
                },
            );
        }
        assert(pieces@ =~= fill_pieces(m, page as int, frame, f));
        proof {
            let k = choose|k: int| 0 <= k < live.len() && live[k] == m;
            assert(end_of(m) <= u64::MAX);
            let p = fill_pieces(m, page as int, frame, f);
            assert forall|i: int| 0 <= i < p.len() implies end_of(#[trigger] p[i]) <= u64::MAX by {}
            lemma_ends_keep(live, seq![lazy_value(m)]);
            lemma_ends_concat(keep(live, seq![lazy_value(m)]), p);
        }
        let mut affected: Vec<Mapping> = Vec::new();
        affected.push(Mapping { backing: Backing::LazyAnonymous, pa: 0, phys: PhysOwnership::Anonymous, ..m });
        assert(affected@ =~= seq![lazy_value(m)]);
        proof {
            let a = seq![lazy_value(m)];
            assert(a.drop_last() =~= Seq::<Mapping>::empty());
            assert(a.last() == lazy_value(m));
            assert(release_all(cow.entries(), cow.spec_count(), a.drop_last()) == (
                cow.entries(),
                cow.spec_count(),
                Seq::<u64>::empty(),
            ));
            assert(release_all(cow.entries(), cow.spec_count(), a) == (
                cow.entries(),
                cow.spec_count(),
                Seq::<u64>::empty(),
            ));
        }
        proof {
            assert forall|k: int| 0 <= k < pieces@.len() implies !((#[trigger] pieces@[k]).phys is CoWShared) by {}
            lemma_acquire_none(cow.entries(), cow.spec_count(), pieces@);
        }
        match self.mappings.replace_slots(affected.as_slice(), pieces.as_slice(), cow) {
            Ok(_) => true,
            Err(_) => false,
        }
    }

    /// Commit the demand fill of the page containing `va` with the zeroed
    /// `frame` the caller mapped there: the Lazy piece is split into Lazy
    /// head, Present page (current permissions, anonymous frame) and Lazy
    /// tail. False, changing nothing, when the fault is not resolvable (see
    /// `lazy_target`) or the split does not fit.
    pub fn resolve_lazy_fault(&mut self, va: u64, write: bool, frame: u64, cow: &mut CowRegistry) -> (ok: bool)
        requires
            old(self).wf(),
        ensures
            final(self).wf(),
            final(self).id == old(self).id,
            final(self).root == old(self).root,
            final(self).flags == old(self).flags,
            match lazy_target(old(self).mappings.live(), va, write) {
                None => !ok && final(self).mappings.slots() == old(self).mappings.slots(),
                Some(m) => match fill_result(old(self).mappings.live(), m, page_of(va) as int, frame, m.permissions) {
                    None => !ok && final(self).mappings.slots() == old(self).mappings.slots(),
                    Some(l) => ok && final(self).mappings.live() == l,
                },
            },
            final(cow).entries() == old(cow).entries(),
            final(cow).spec_count() == old(cow).spec_count(),
    {
        let m = match self.lazy_fault_piece(va, write) {
            Some(m) => m,
            None => {
                return false;
            },
        };
        let page = va - va % 4096;
        proof {
            lemma_query(self.mappings.live(), page as int);
        }
        self.split_lazy(m, page, frame, m.permissions, cow)
    }

    /// Materialize the page containing `va` of a Lazy piece with a frame
    /// the caller filled (ownership moves to the mapping), mapped with
    /// `flags`; the split is as for a demand fill. `NotMapped` when no
    /// piece contains the page, `InvalidRange` when it is not Lazy or is
    /// the last page of the address space, `MappingTableFull` when the split
    /// does not fit; nothing changes then.
    pub fn materialize_with(&mut self, va: u64, frame: u64, flags: MappingFlags, cow: &mut CowRegistry) -> (r: Result<(), VmmError>)
        requires
            old(self).wf(),
        ensures
            final(self).wf(),
            final(self).id == old(self).id,
            final(self).root == old(self).root,
            final(self).flags == old(self).flags,
            match query_model(old(self).mappings.live(), page_of(va) as int) {
                None => r == Err::<(), VmmError>(VmmError::NotMapped) && final(self).mappings.slots() == old(self).mappings.slots(),
                Some(m) => if m.backing != Backing::LazyAnonymous || page_of(va) + 4096 > u64::MAX {
                    r == Err::<(), VmmError>(VmmError::InvalidRange) && final(self).mappings.slots() == old(self).mappings.slots()
                } else {
                    match fill_result(old(self).mappings.live(), m, page_of(va) as int, frame, flags) {
                        None => r == Err::<(), VmmError>(VmmError::MappingTableFull) && final(self).mappings.slots()
                            == old(self).mappings.slots(),
                        Some(l) => r is Ok && final(self).mappings.live() == l,
                    }
                },
            },
            final(cow).entries() == old(cow).entries(),
            final(cow).spec_count() == old(cow).spec_count(),
    {
        let page = va - va % 4096;
        let m = match self.query(page) {
            Some(m) => m,
            None => {
                return Err(VmmError::NotMapped);
            },
        };
        if m.backing != Backing::LazyAnonymous || page > u64::MAX - 4096 {
            return Err(VmmError::InvalidRange);
        }
        proof {
            lemma_query(self.mappings.live(), page as int);
        }
        if self.split_lazy(m, page, frame, flags, cow) {
            Ok(())
        } else {
            Err(VmmError::MappingTableFull)
        }
    }
}

impl AddressSpace {
    /// Record a lazy anonymous reservation of `[vaddr, vaddr + size)`: the
    /// range is occupied, nothing is mapped, first access fills a page.
    fn insert_lazy(&mut self, vaddr: u64, size: u64, permissions: MappingFlags, object_id: u64) -> (r: Result<(), VmmError>)
        requires
            old(self).wf(),
            vaddr + size <= u64::MAX,
            forall|i: int| 0 <= i < old(self).mappings.live().len() ==> !overlaps(#[trigger] old(self).mappings.live()[i], vaddr as int, vaddr + size),
        ensures
            final(self).wf(),
            final(self).id == old(self).id,
            final(self).root == old(self).root,
            final(self).flags == old(self).flags,
            r is Ok <==> crate::vmm::mapping::hole(old(self).mappings.slots(), 0) < MAX_MAPPINGS,
            r is Err ==> r == Err::<(), VmmError>(VmmError::MappingTableFull) && final(self).mappings.slots() == old(self).mappings.slots(),
            r is Ok ==> final(self).mappings.slots() == old(self).mappings.slots().update(
                crate::vmm::mapping::hole(old(self).mappings.slots(), 0),
                Some(lazy_value(Mapping::new_spec(VirtRange { base: vaddr, size }, object_id, permissions))),
            ),
    {
        let m = Mapping::lazy_anonymous(VirtRange::new(vaddr, size), object_id, permissions);
        let ghost s0 = self.mappings.slots();
        match self.mappings.insert(m) {
            Some(h) => {
                proof {
                    crate::vmm::mapping::lemma_hole(s0, 0);
                    law_insert_keeps_shadow(s0, h as int, m);
                }
                Ok(())
            },
            None => Err(VmmError::MappingTableFull),
        }
    }

    /// Reserve `[vaddr, vaddr + size)` at a fixed address as a lazy
    /// anonymous mapping; `reserved` is whether the VA allocator accepted
    /// the range. `InvalidRange` for an empty or unaligned range, `OutOfVa`
    /// when the allocator refused it, `MappingTableFull` when no slot is
    /// left (the caller then gives the range back to the allocator).
    pub fn reserve_at(&mut self, vaddr: u64, size: u64, permissions: MappingFlags, object_id: u64, reserved: bool) -> (r: Result<(), VmmError>)
        requires
            old(self).wf(),
            reserved ==> vaddr + size <= u64::MAX,
            reserved ==> forall|i: int| 0 <= i < old(self).mappings.live().len() ==> !overlaps(#[trigger] old(self).mappings.live()[i], vaddr as int, vaddr + size),
        ensures
            final(self).wf(),
            final(self).id == old(self).id,
            final(self).root == old(self).root,
            final(self).flags == old(self).flags,
            (size == 0 || vaddr % 4096 != 0) ==> r == Err::<(), VmmError>(VmmError::InvalidRange) && final(self).mappings.slots() == old(self).mappings.slots(),
            !(size == 0 || vaddr % 4096 != 0) && !reserved ==> r == Err::<(), VmmError>(VmmError::OutOfVa) && final(self).mappings.slots() == old(self).mappings.slots(),
            !(size == 0 || vaddr % 4096 != 0) && reserved ==> {
                let h = crate::vmm::mapping::hole(old(self).mappings.slots(), 0);
                if h < MAX_MAPPINGS {
                    r is Ok && final(self).mappings.slots() == old(self).mappings.slots().update(
                        h,
                        Some(lazy_value(Mapping::new_spec(VirtRange { base: vaddr, size }, object_id, permissions))),
                    )
                } else {
                    r == Err::<(), VmmError>(VmmError::MappingTableFull) && final(self).mappings.slots() == old(self).mappings.slots()
                }
            },
    {
        if size == 0 || vaddr % 4096 != 0 {
            return Err(VmmError::InvalidRange);
        }
        if !reserved {
            return Err(VmmError::OutOfVa);
        }
        self.insert_lazy(vaddr, size, permissions, object_id)
    }

    /// Reserve a lazy anonymous mapping of `size` bytes at the address the
    /// VA allocator handed out (`Err` when it had none): returns the address.
    /// `OutOfVa` without an address, `MappingTableFull` when no slot is left
    /// (the caller then gives the range back to the allocator).
    pub fn reserve_lazy(&mut self, va: Result<u64, ()>, size: u64, permissions: MappingFlags, object_id: u64) -> (r: Result<u64, VmmError>)
        requires
            old(self).wf(),
            va matches Ok(v) ==> v + size <= u64::MAX && forall|i: int| 0 <= i < old(self).mappings.live().len() ==> !overlaps(#[trigger] old(self).mappings.live()[i], v as int, v + size),
        ensures
            final(self).wf(),
            final(self).id == old(self).id,
            final(self).root == old(self).root,
            final(self).flags == old(self).flags,
            va is Err ==> r == Err::<u64, VmmError>(VmmError::OutOfVa) && final(self).mappings.slots() == old(self).mappings.slots(),
            va matches Ok(v) ==> {
                let h = crate::vmm::mapping::hole(old(self).mappings.slots(), 0);
                if h < MAX_MAPPINGS {
                    r == Ok::<u64, VmmError>(v) && final(self).mappings.slots() == old(self).mappings.slots().update(
                        h,
                        Some(lazy_value(Mapping::new_spec(VirtRange { base: v, size }, object_id, permissions))),
                    )
                } else {
                    r == Err::<u64, VmmError>(VmmError::MappingTableFull) && final(self).mappings.slots() == old(self).mappings.slots()
                }
            },
    {
        let v = match va {
            Ok(v) => v,
            Err(_) => {
                return Err(VmmError::OutOfVa);
            },
        };
        match self.insert_lazy(v, size, permissions, object_id) {
            Ok(()) => Ok(v),
            Err(e) => Err(e),
        }
    }
}

pub proof fn lemma_ends_concat(a: Seq<Mapping>, b: Seq<Mapping>)
    requires
        ends_ok(a),
        ends_ok(b),
    ensures
        ends_ok(a + b),
{
    assert forall|i: int| 0 <= i < (a + b).len() implies end_of(#[trigger] (a + b)[i]) <= u64::MAX by {
        if i < a.len() {
            assert((a + b)[i] == a[i]);
        } else {
            assert((a + b)[i] == b[i - a.len()]);
        }
    }
}

pub proof fn lemma_ends_keep(ms: Seq<Mapping>, aff: Seq<Mapping>)
    requires
        ends_ok(ms),
    ensures
        ends_ok(keep(ms, aff)),
    decreases ms.len(),
{
    if ms.len() > 0 {
        let d = ms.drop_last();
        assert(ends_ok(d)) by {
            assert forall|i: int| 0 <= i < d.len() implies end_of(#[trigger] d[i]) <= u64::MAX by {
                assert(d[i] == ms[i]);
            }
        }
        lemma_ends_keep(d, aff);
        assert(end_of(ms.last()) <= u64::MAX) by {
            assert(ms.last() == ms[ms.len() - 1]);
        }
        let k = keep(d, aff);
        assert forall|i: int| 0 <= i < k.push(ms.last()).len() implies end_of(#[trigger] k.push(ms.last())[i]) <= u64::MAX by {
            if i < k.len() {
                assert(k.push(ms.last())[i] == k[i]);
            }
        }
    }
}

/// The pieces of a range operation end inside the address space.
pub proof fn lemma_ends_pieces(aff: Seq<Mapping>, v: int, e: int, f: MappingFlags)
    requires
        ends_ok(aff),
        0 <= v <= e <= u64::MAX,
        forall|k: int| 0 <= k < aff.len() ==> overlaps(#[trigger] aff[k], v, e),
    ensures
        ends_ok(protect_pieces(aff, v, e, f)),
        ends_ok(unmap_pieces(aff, v, e)),
    decreases aff.len(),
{
    if aff.len() > 0 {
        let d = aff.drop_last();
        assert forall|k: int| 0 <= k < d.len() implies overlaps(#[trigger] d[k], v, e) by {
            assert(d[k] == aff[k]);
        }
        assert(ends_ok(d)) by {
            assert forall|i: int| 0 <= i < d.len() implies end_of(#[trigger] d[i]) <= u64::MAX by {
                assert(d[i] == aff[i]);
            }
        }
        lemma_ends_pieces(d, v, e, f);
        let m = aff.last();
        assert(m == aff[aff.len() - 1]);
        assert(overlaps(m, v, e));
        assert(end_of(m) <= u64::MAX);
        let b = m.virt_range.base as int;
        let en = end_of(m);
        let lo = if b < v { v } else { b };
        let hi = if en > e { e } else { en };
        let head = if b < v { seq![cut(m, b, v, m.permissions)] } else { Seq::empty() };
        let tail = if en > e { seq![cut(m, e, en, m.permissions)] } else { Seq::empty() };
        assert(ends_ok(head));
        assert(ends_ok(tail));
        assert(ends_ok(seq![cut(m, lo, hi, f)]));
        lemma_ends_concat(protect_pieces(d, v, e, f), head);
        lemma_ends_concat(protect_pieces(d, v, e, f) + head, seq![cut(m, lo, hi, f)]);
        lemma_ends_concat(protect_pieces(d, v, e, f) + head + seq![cut(m, lo, hi, f)], tail);
        lemma_ends_concat(unmap_pieces(d, v, e), head);
        lemma_ends_concat(unmap_pieces(d, v, e) + head, tail);
    }
}

impl MappingFlags {
    pub open spec fn empty_spec() -> MappingFlags {
        MappingFlags { user: false, read_write: false, executable: false }
    }
}

} // verus!

verus! {

/// The ranges `(base, size)` of the pieces of `ms`, in order.
pub open spec fn ranges_of(ms: Seq<Mapping>) -> Seq<(u64, u64)>
    decreases ms.len(),
{
    if ms.len() == 0 {
        Seq::empty()
    } else {
        ranges_of(ms.drop_last()).push((ms.last().virt_range.base, ms.last().virt_range.size))
    }
}

/// The anonymous frames `(pa, size)` of the Present anonymous pieces of
/// `ms`, in order.
pub open spec fn anon_of(ms: Seq<Mapping>) -> Seq<(u64, u64)>
    decreases ms.len(),
{
    if ms.len() == 0 {
        Seq::empty()
    } else {
        let rest = anon_of(ms.drop_last());
        let m = ms.last();
        if m.backing == Backing::Present && m.phys == PhysOwnership::Anonymous {
            rest.push((m.pa, m.virt_range.size))
        } else {
            rest
        }
    }
}

/// The live pieces of the first `n + 1` slots are those of the first `n`
/// and the piece in slot `n`, if any.
proof fn lemma_live_step(s: Seq<Option<Mapping>>, n: int)
    requires
        0 <= n < s.len(),
    ensures
        live_of(s.take(n + 1)) == match s[n] {
            Some(m) => live_of(s.take(n)).push(m),
            None => live_of(s.take(n)),
        },
{
    assert(s.take(n + 1).drop_last() =~= s.take(n));
}

/// Slots that are all empty hold no live piece.
proof fn lemma_live_none(s: Seq<Option<Mapping>>)
    requires
        forall|j: int| 0 <= j < s.len() ==> (#[trigger] s[j]) is None,
    ensures
        live_of(s) == Seq::<Mapping>::empty(),
    decreases s.len(),
{
    if s.len() > 0 {
        lemma_live_none(s.drop_last());
    }
}

impl AddressSpace {
    /// Remove every piece of the shadow, as at process teardown. Returns the
    /// ranges of all pieces (to clear in the hardware), the anonymous frames
    /// of the Present anonymous pieces (to free) and the copy-on-write
    /// frames that lost their last owner.
    pub fn unmap_all(&mut self, cow: &mut CowRegistry) -> (r: UnmapPlan)
        requires
            old(self).wf(),
        ensures
            final(self).wf(),
            final(self).id == old(self).id,
            final(self).root == old(self).root,
            final(self).flags == old(self).flags,
            final(self).mappings.live() == Seq::<Mapping>::empty(),
            r.runs@ == ranges_of(old(self).mappings.live()),
            r.anon_frames@ == anon_of(old(self).mappings.live()),
            ({
                let (e2, c2, fr) = release_all(old(cow).entries(), old(cow).spec_count(), old(self).mappings.live());
                &&& final(cow).entries() == e2
                &&& final(cow).spec_count() == c2
                &&& r.cow_frames@ == fr
            }),
    {
        let ghost s0 = self.mappings.slots();
        let mut runs: Vec<(u64, u64)> = Vec::new();
        let mut frames: Vec<(u64, u64)> = Vec::new();
        let mut freed: Vec<u64> = Vec::new();
        let mut i: usize = 0;
        while i < MAX_MAPPINGS
            invariant
                self.mappings.wf(),
                self.id == old(self).id,
                self.root == old(self).root,
                self.flags == old(self).flags,
                s0.len() == MAX_MAPPINGS,
                i <= MAX_MAPPINGS,
                forall|j: int| 0 <= j < i ==> (#[trigger] self.mappings.slots()[j]) is None,
                forall|j: int| i <= j < MAX_MAPPINGS ==> #[trigger] self.mappings.slots()[j] == s0[j],
                runs@ == ranges_of(live_of(s0.take(i as int))),
                frames@ == anon_of(live_of(s0.take(i as int))),
                ({
                    let (e2, c2, fr) = release_all(old(cow).entries(), old(cow).spec_count(), live_of(s0.take(i as int)));
                    &&& cow.entries() == e2
                    &&& cow.spec_count() == c2
                    &&& freed@ == fr
                }),
            decreases MAX_MAPPINGS - i,
        {
            proof {
                lemma_live_step(s0, i as int);
            }
            match self.mappings.get(i) {
                Some(m) => {
                    let m = *m;
                    runs.push((m.virt_range.base, m.virt_range.size));
                    if m.backing == Backing::Present && m.phys == PhysOwnership::Anonymous {
                        frames.push((m.pa, m.virt_range.size));
                    }
                    proof {
                        let l = live_of(s0.take(i as int));
                        assert(l.push(m).drop_last() =~= l);
                        assert(seq![m].drop_last() =~= Seq::<Mapping>::empty());
                    }
                },
                None => {},
            }
            let ghost fr0 = freed@;
            if let Some(f) = self.mappings.remove(i, cow) {
                freed.push(f);
            }
            proof {
                let l = live_of(s0.take(i as int));
                let (e1, c1, f1) = release_all(old(cow).entries(), old(cow).spec_count(), l);
                assert(f1 == fr0);
                match s0[i as int] {
                    Some(m) => {
                        assert(l.push(m).drop_last() =~= l);
                        assert(l.push(m).last() == m);
                        assert(seq![m].drop_last() =~= Seq::<Mapping>::empty());
                        assert(seq![m].last() == m);
                        let (e2, c2, f2) = release_all(e1, c1, seq![m]);
                        assert(release_all(e1, c1, Seq::<Mapping>::empty()) == (e1, c1, Seq::<u64>::empty()));
                        if m.phys is CoWShared {
                            let (e3, c3, r3) = crate::vmm::cow_refcount::dec_model(e1, c1, m.pa);
                            if r3 == Some(0u32) {
                                assert(f2 =~= seq![m.pa]);
                                assert(freed@ =~= f1.push(m.pa));
                            } else {
                                assert(f2 =~= Seq::<u64>::empty());
                            }
                        } else {
                            assert(f2 =~= Seq::<u64>::empty());
                        }
                    },
                    None => {
                        assert(release_all(e1, c1, Seq::<Mapping>::empty()) == (e1, c1, Seq::<u64>::empty()));
                    },
                }
            }
            i = i + 1;
        }
        proof {
            assert(s0.take(MAX_MAPPINGS as int) =~= s0);
            lemma_live_none(self.mappings.slots());
        }
        UnmapPlan { runs, anon_frames: frames, cow_frames: freed }
    }
}

} // verus!

verus! {

impl AddressSpace {
    /// Map `size` bytes of externally owned memory at the address the VA
    /// allocator handed out (`Err` when it had none): returns the address.
    /// `OutOfVa` without an address, `MappingTableFull` when no slot is left
    /// (the caller then gives the range back to the allocator).
    pub fn map_new_range(&mut self, va: Result<u64, ()>, size: u64, flags: MappingFlags, object_id: u64) -> (r: Result<u64, VmmError>)
        requires
            old(self).wf(),
            va matches Ok(v) ==> v + size <= u64::MAX && forall|i: int| 0 <= i < old(self).mappings.live().len() ==> !overlaps(#[trigger] old(self).mappings.live()[i], v as int, v + size),
        ensures
            final(self).wf(),
            final(self).id == old(self).id,
            final(self).root == old(self).root,
            final(self).flags == old(self).flags,
            va is Err ==> r == Err::<u64, VmmError>(VmmError::OutOfVa) && final(self).mappings.slots() == old(self).mappings.slots(),
            va matches Ok(v) ==> {
                let h = crate::vmm::mapping::hole(old(self).mappings.slots(), 0);
                if h < MAX_MAPPINGS {
                    r == Ok::<u64, VmmError>(v) && final(self).mappings.slots() == old(self).mappings.slots().update(
                        h,
                        Some(Mapping::new_spec(VirtRange { base: v, size }, object_id, flags)),
                    )
                } else {
                    r == Err::<u64, VmmError>(VmmError::MappingTableFull) && final(self).mappings.slots() == old(self).mappings.slots()
                }
            },
    {
        let v = match va {
            Ok(v) => v,
            Err(_) => {
                return Err(VmmError::OutOfVa);
            },
        };
        match self.map_pages(v, size, flags, object_id) {
            Ok(()) => Ok(v),
            Err(e) => Err(e),
        }
    }
}

} // verus!
