//! The software shadow of an address space: mapping pieces with their
//! backing state, held in a fixed-capacity slot set.
use vstd::prelude::*;
use crate::vmm::cow_refcount::{dec_model, CowRegistry};

verus! {

pub type MemoryObjectId = u64;

/// Access permissions of a mapping.
#[derive(Debug, Clone, Copy, PartialEq, Eq, Structural)]
pub struct MappingFlags {
    /// Accessible from user mode.
    pub user: bool,
    /// Writable (always readable).
    pub read_write: bool,
    pub executable: bool,
}

impl MappingFlags {
    /// Read-only, kernel-only, not executable.
    pub fn empty() -> (r: Self)
        ensures
            r == (MappingFlags { user: false, read_write: false, executable: false }),
    {
        MappingFlags { user: false, read_write: false, executable: false }
    }

    pub fn user() -> (r: Self)
        ensures
            r == (MappingFlags { user: true, read_write: false, executable: false }),
    {
        MappingFlags { user: true, read_write: false, executable: false }
    }

    pub fn read_write() -> (r: Self)
        ensures
            r == (MappingFlags { user: false, read_write: true, executable: false }),
    {
        MappingFlags { user: false, read_write: true, executable: false }
    }

    pub fn executable() -> (r: Self)
        ensures
            r == (MappingFlags { user: false, read_write: false, executable: true }),
    {
        MappingFlags { user: false, read_write: false, executable: true }
    }

    /// The flags of either.
    pub fn union(self, other: Self) -> (r: Self)
        ensures
            r == (MappingFlags {
                user: self.user || other.user,
                read_write: self.read_write || other.read_write,
                executable: self.executable || other.executable,
            }),
    {
        MappingFlags {
            user: self.user || other.user,
            read_write: self.read_write || other.read_write,
            executable: self.executable || other.executable,
        }
    }

    pub fn is_read_write(&self) -> (r: bool)
        ensures
            r == self.read_write,
    {
        self.read_write
    }

    pub fn is_executable(&self) -> (r: bool)
        ensures
            r == self.executable,
    {
        self.executable
    }

    pub fn is_user(&self) -> (r: bool)
        ensures
            r == self.user,
    {
        self.user
    }
}

/// A virtual range `[base, base + size)`.
#[derive(Debug, Clone, Copy, PartialEq, Eq, Structural)]
pub struct VirtRange {
    pub base: u64,
    pub size: u64,
}

impl VirtRange {
    pub fn new(base: u64, size: u64) -> (r: Self)
        ensures
            r == (VirtRange { base, size }),
    {
        VirtRange { base, size }
    }

    /// Exclusive end.
    pub fn end(&self) -> (r: u64)
        requires
            self.base + self.size <= u64::MAX,
        ensures
            r == self.base + self.size,
    {
        self.base + self.size
    }
}

/// Backing state of a mapping piece.
#[derive(Debug, Clone, Copy, PartialEq, Eq, Structural)]
pub enum Backing {
    /// A hardware mapping exists for the whole piece.
    Present,
    /// Mapped readable and write-suppressed; a write fault breaks the
    /// sharing.
    CoW,
    /// No hardware mapping; the first access fills one zeroed page.
    LazyAnonymous,
    /// Reservation only; access faults fatally.
    Reserved,
}

/// Who owns the physical frame of a Present piece.
#[derive(Debug, Clone, Copy, PartialEq, Eq, Structural)]
pub enum PhysOwnership {
    /// Provided by the caller or a memory object; never freed here.
    External,
    /// Allocated for this piece; released when the piece is unmapped.
    Anonymous,
    /// Shared copy-on-write by `refcount` pieces.
    CoWShared { refcount: u32 },
}

#[derive(Debug, Clone, Copy, PartialEq, Eq, Structural)]
pub struct Mapping {
    pub virt_range: VirtRange,
    pub object_id: MemoryObjectId,
    pub permissions: MappingFlags,
    pub backing: Backing,
    /// Physical base for Present pieces; 0 otherwise.
    pub pa: u64,
    pub phys: PhysOwnership,
}

impl Mapping {
    /// A fully materialized, externally owned mapping.
    pub fn new(virt_range: VirtRange, object_id: MemoryObjectId, permissions: MappingFlags) -> (r: Self)
        ensures
            r == (Mapping {
                virt_range,
                object_id,
                permissions,
                backing: Backing::Present,
                pa: 0,
                phys: PhysOwnership::External,
            }),
    {
        Mapping { virt_range, object_id, permissions, backing: Backing::Present, pa: 0, phys: PhysOwnership::External }
    }

    /// A Present piece with its physical base and ownership.
    pub fn present(
        virt_range: VirtRange,
        object_id: MemoryObjectId,
        permissions: MappingFlags,
        pa: u64,
        phys: PhysOwnership,
    ) -> (r: Self)
        ensures
            r == (Mapping { virt_range, object_id, permissions, backing: Backing::Present, pa, phys }),
    {
        Mapping { virt_range, object_id, permissions, backing: Backing::Present, pa, phys }
    }

    /// A Present piece shared copy-on-write by `refcount` pieces.
    pub fn cow_shared(
        virt_range: VirtRange,
        object_id: MemoryObjectId,
        permissions: MappingFlags,
        pa: u64,
        refcount: u32,
    ) -> (r: Self)
        ensures
            r == (Mapping {
                virt_range,
                object_id,
                permissions,
                backing: Backing::CoW,
                pa,
                phys: PhysOwnership::CoWShared { refcount },
            }),
    {
        Mapping {
            virt_range,
            object_id,
            permissions,
            backing: Backing::CoW,
            pa,
            phys: PhysOwnership::CoWShared { refcount },
        }
    }

    /// A lazy anonymous reservation, filled on first access.
    pub fn lazy_anonymous(virt_range: VirtRange, object_id: MemoryObjectId, permissions: MappingFlags) -> (r: Self)
        ensures
            r == (Mapping {
                virt_range,
                object_id,
                permissions,
                backing: Backing::LazyAnonymous,
                pa: 0,
                phys: PhysOwnership::Anonymous,
            }),
    {
        Mapping {
            virt_range,
            object_id,
            permissions,
            backing: Backing::LazyAnonymous,
            pa: 0,
            phys: PhysOwnership::Anonymous,
        }
    }

    /// A pure reservation.
    pub fn reserved(virt_range: VirtRange, object_id: MemoryObjectId, permissions: MappingFlags) -> (r: Self)
        ensures
            r == (Mapping {
                virt_range,
                object_id,
                permissions,
                backing: Backing::Reserved,
                pa: 0,
                phys: PhysOwnership::External,
            }),
    {
        Mapping {
            virt_range,
            object_id,
            permissions,
            backing: Backing::Reserved,
            pa: 0,
            phys: PhysOwnership::External,
        }
    }
}

pub const MAX_MAPPINGS: usize = 64;

/// The mappings present in the slots, in slot order.
pub open spec fn live_of(s: Seq<Option<Mapping>>) -> Seq<Mapping>
    decreases s.len(),
{
    if s.len() == 0 {
        Seq::empty()
    } else {
        let rest = live_of(s.drop_last());
        match s.last() {
            Some(m) => rest.push(m),
            None => rest,
        }
    }
}

/// `m` covers the same range as one of `aff` (ranges identify pieces).
pub open spec fn hit(aff: Seq<Mapping>, m: Mapping) -> bool {
    exists|i: int| 0 <= i < aff.len() && (#[trigger] aff[i]).virt_range == m.virt_range
}

/// The mappings of `ms` that none of `aff` identifies.
pub open spec fn keep(ms: Seq<Mapping>, aff: Seq<Mapping>) -> Seq<Mapping>
    decreases ms.len(),
{
    if ms.len() == 0 {
        Seq::empty()
    } else {
        let rest = keep(ms.drop_last(), aff);
        if hit(aff, ms.last()) {
            rest
        } else {
            rest.push(ms.last())
        }
    }
}

/// Slots holding `ms` from slot 0 on, the rest empty.
pub open spec fn packed(ms: Seq<Mapping>) -> Seq<Option<Mapping>> {
    Seq::new(MAX_MAPPINGS as nat, |i: int| if i < ms.len() { Some(ms[i]) } else { None })
}

/// Registry after releasing the copy-on-write frames of `ms`, in order; and
/// the frames that lost their last owner.
pub open spec fn release_all(
    e: Seq<crate::vmm::cow_refcount::FrameRefcount>,
    cnt: usize,
    ms: Seq<Mapping>,
) -> (Seq<crate::vmm::cow_refcount::FrameRefcount>, usize, Seq<u64>)
    decreases ms.len(),
{
    if ms.len() == 0 {
        (e, cnt, Seq::empty())
    } else {
        let (e1, c1, fr) = release_all(e, cnt, ms.drop_last());
        let m = ms.last();
        if m.phys is CoWShared {
            let (e2, c2, r) = dec_model(e1, c1, m.pa);
            (e2, c2, if r == Some(0u32) { fr.push(m.pa) } else { fr })
        } else {
            (e1, c1, fr)
        }
    }
}

/// Registry after each copy-on-write piece of `ms` takes one reference to
/// its frame, in order.
pub open spec fn acquire_all(
    e: Seq<crate::vmm::cow_refcount::FrameRefcount>,
    cnt: usize,
    ms: Seq<Mapping>,
) -> (Seq<crate::vmm::cow_refcount::FrameRefcount>, usize)
    decreases ms.len(),
{
    if ms.len() == 0 {
        (e, cnt)
    } else {
        let (e1, c1) = acquire_all(e, cnt, ms.drop_last());
        let m = ms.last();
        if m.phys is CoWShared {
            let (e2, c2, _) = crate::vmm::cow_refcount::inc_model(e1, c1, m.pa, 1);
            (e2, c2)
        } else {
            (e1, c1)
        }
    }
}

/// Pieces none of which is copy-on-write take no reference.
pub proof fn lemma_acquire_none(e: Seq<crate::vmm::cow_refcount::FrameRefcount>, cnt: usize, ms: Seq<Mapping>)
    requires
        forall|k: int| 0 <= k < ms.len() ==> !((#[trigger] ms[k]).phys is CoWShared),
    ensures
        acquire_all(e, cnt, ms) == (e, cnt),
    decreases ms.len(),
{
    if ms.len() > 0 {
        lemma_acquire_none(e, cnt, ms.drop_last());
        assert(!(ms[ms.len() - 1].phys is CoWShared));
    }
}

/// The slot set's invariant: `count` bounds the used slots and the last
/// used slot is occupied.
pub open spec fn set_wf(s: Seq<Option<Mapping>>, count: usize) -> bool {
    &&& s.len() == MAX_MAPPINGS
    &&& count <= MAX_MAPPINGS
    &&& forall|j: int| count <= j < MAX_MAPPINGS ==> (#[trigger] s[j]) is None
    &&& count > 0 ==> s[count - 1] is Some
}

/// Index of the first empty slot at or after `i`; `s.len()` when none.
pub open spec fn hole(s: Seq<Option<Mapping>>, i: int) -> int
    decreases s.len() - i,
{
    if 0 <= i < s.len() {
        if s[i] is None {
            i
        } else {
            hole(s, i + 1)
        }
    } else {
        s.len() as int
    }
}

pub proof fn lemma_hole(s: Seq<Option<Mapping>>, i: int)
    requires
        0 <= i <= s.len(),
    ensures
        i <= hole(s, i) <= s.len(),
        hole(s, i) < s.len() ==> s[hole(s, i)] is None,
        forall|j: int| i <= j < hole(s, i) ==> (#[trigger] s[j]) is Some,
    decreases s.len() - i,
{
    if i < s.len() {
        lemma_hole(s, i + 1);
    }
}

/// `live_of` of a packed set is what was packed.
pub proof fn lemma_live_packed(ms: Seq<Mapping>)
    requires
        ms.len() <= MAX_MAPPINGS,
    ensures
        live_of(packed(ms)) == ms,
{
    lemma_live_prefix(packed(ms), ms, MAX_MAPPINGS as int);
    assert(packed(ms).take(MAX_MAPPINGS as int) =~= packed(ms));
    assert(ms.take(ms.len() as int) =~= ms);
}

pub proof fn lemma_live_len(s: Seq<Option<Mapping>>)
    ensures
        live_of(s).len() <= s.len(),
    decreases s.len(),
{
    if s.len() > 0 {
        lemma_live_len(s.drop_last());
    }
}

proof fn lemma_live_prefix(s: Seq<Option<Mapping>>, ms: Seq<Mapping>, n: int)
    requires
        ms.len() <= MAX_MAPPINGS,
        s == packed(ms),
        0 <= n <= MAX_MAPPINGS,
    ensures
        live_of(s.take(n)) == ms.take(if n < ms.len() { n } else { ms.len() as int }),
    decreases n,
{
    if n > 0 {
        lemma_live_prefix(s, ms, n - 1);
        assert(s.take(n).drop_last() =~= s.take(n - 1));
        if n - 1 < ms.len() {
            assert(ms.take(n) =~= ms.take(n - 1).push(ms[n - 1]));
        }
    } else {
        assert(s.take(0) =~= Seq::<Option<Mapping>>::empty());
    }
}

/// A fixed-capacity set of mapping pieces in slots; removed slots are
/// reused by later inserts.
pub struct MappingSet {
    mappings: [Option<Mapping>; 64],
    count: usize,
}

impl MappingSet {
    pub closed spec fn slots(&self) -> Seq<Option<Mapping>> {
        self.mappings@
    }

    pub closed spec fn spec_count(&self) -> usize {
        self.count
    }

    /// The live mappings, in slot order.
    pub open spec fn live(&self) -> Seq<Mapping> {
        live_of(self.slots())
    }

    pub open spec fn wf(&self) -> bool {
        set_wf(self.slots(), self.spec_count())
    }

    pub fn new() -> (r: Self)
        ensures
            r.wf(),
            r.slots() == packed(Seq::empty()),
            r.spec_count() == 0,
            r.live() == Seq::<Mapping>::empty(),
    {
        let r = MappingSet { mappings: [None; 64], count: 0 };
        assert(r.mappings@ =~= packed(Seq::empty()));
        proof {
            lemma_live_packed(Seq::empty());
        }
        r
    }

    /// Put `mapping` into the first empty slot and return its index; `None`
    /// when all slots are taken.
    pub fn insert(&mut self, mapping: Mapping) -> (r: Option<usize>)
        requires
            old(self).wf(),
        ensures
            final(self).wf(),
            ({
                let s = old(self).slots();
                let h = hole(s, 0);
                if h < MAX_MAPPINGS {
                    &&& r == Some(h as usize)
                    &&& final(self).slots() == s.update(h, Some(mapping))
                    &&& final(self).spec_count() == (if h >= old(self).spec_count() {
                        (h + 1) as usize
                    } else {
                        old(self).spec_count()
                    })
                } else {
                    r is None && final(self).slots() == s && final(self).spec_count() == old(self).spec_count()
                }
            }),
    {
        proof {
            lemma_hole(self.mappings@, 0);
        }
        let mut i: usize = 0;
        while i < MAX_MAPPINGS
            invariant
                0 <= i <= MAX_MAPPINGS,
                set_wf(old(self).mappings@, old(self).count),
                self.mappings@ == old(self).mappings@,
                self.count == old(self).count,
                hole(self.mappings@, 0) == hole(self.mappings@, i as int),
            decreases MAX_MAPPINGS - i,
        {
            if self.mappings[i].is_none() {
                self.mappings[i] = Some(mapping);
                if i >= self.count {
                    self.count = i + 1;
                }
                return Some(i);
            }
            i = i + 1;
        }
        None
    }

    pub fn len(&self) -> (r: usize)
        ensures
            r == self.spec_count(),
    {
        self.count
    }

    pub fn capacity() -> (r: usize)
        ensures
            r == MAX_MAPPINGS,
    {
        MAX_MAPPINGS
    }

    /// The mapping in `slot`, if it is in use.
    pub fn get(&self, slot: usize) -> (r: Option<&Mapping>)
        requires
            self.wf(),
        ensures
            r.is_some() == (slot < self.spec_count() && self.slots()[slot as int] is Some),
            r.is_some() ==> *r.unwrap() == self.slots()[slot as int]->0,
    {
        if slot < self.count {
            self.mappings[slot].as_ref()
        } else {
            None
        }
    }

    /// The mapping in `slot`, if it is in use, for update in place; the slot
    /// takes whatever the caller leaves in it.
    pub fn get_mut(&mut self, slot: usize) -> (r: Option<&mut Mapping>)
        requires
            old(self).wf(),
        ensures
            r.is_some() == (slot < old(self).spec_count() && old(self).slots()[slot as int] is Some),
            r is None ==> final(self).slots() == old(self).slots(),
            r matches Some(m) ==> *m == old(self).slots()[slot as int]->0 && final(self).slots() == old(
                self,
            ).slots().update(slot as int, Some(*final(m))),
            final(self).spec_count() == old(self).spec_count(),
            final(self).wf(),
    {
        if slot < self.count {
            self.mappings[slot].as_mut()
        } else {
            None
        }
    }

    /// The live mappings, in slot order.
    pub fn iter(&self) -> (r: Vec<Mapping>)
        requires
            self.wf(),
        ensures
            r@ == self.live(),
    {
        let mut out: Vec<Mapping> = Vec::new();
        let mut i: usize = 0;
        while i < MAX_MAPPINGS
            invariant
                0 <= i <= MAX_MAPPINGS,
                self.mappings@.len() == MAX_MAPPINGS,
                out@ == live_of(self.mappings@.take(i as int)),
            decreases MAX_MAPPINGS - i,
        {
            assert(self.mappings@.take(i + 1).drop_last() =~= self.mappings@.take(i as int));
            match self.mappings[i] {
                Some(m) => {
                    out.push(m);
                },
                None => {},
            }
            i = i + 1;
        }
        assert(self.mappings@.take(i as int) =~= self.mappings@);
        out
    }

    /// The live mappings with their slot indices, in slot order.
    pub fn iter_with_slots(&self) -> (r: Vec<(usize, Mapping)>)
        requires
            self.wf(),
        ensures
            r@.len() == self.live().len(),
            forall|k: int| 0 <= k < r@.len() ==> (#[trigger] r@[k]).1 == self.live()[k],
            forall|k: int| 0 <= k < r@.len() ==> (#[trigger] r@[k]).0 < MAX_MAPPINGS && self.slots()[r@[k].0 as int] == Some(r@[k].1),
    {
        let mut out: Vec<(usize, Mapping)> = Vec::new();
        let mut i: usize = 0;
        while i < MAX_MAPPINGS
            invariant
                0 <= i <= MAX_MAPPINGS,
                self.mappings@.len() == MAX_MAPPINGS,
                out@.len() == live_of(self.mappings@.take(i as int)).len(),
                forall|k: int| 0 <= k < out@.len() ==> (#[trigger] out@[k]).1 == live_of(self.mappings@.take(i as int))[k],
                forall|k: int| 0 <= k < out@.len() ==> (#[trigger] out@[k]).0 < i && self.mappings@[out@[k].0 as int] == Some(out@[k].1),
            decreases MAX_MAPPINGS - i,
        {
            assert(self.mappings@.take(i + 1).drop_last() =~= self.mappings@.take(i as int));
            match self.mappings[i] {
                Some(m) => {
                    out.push((i, m));
                },
                None => {},
            }
            i = i + 1;
        }
        assert(self.mappings@.take(i as int) =~= self.mappings@);
        out
    }

    /// Whether `m` covers the same range as one of `aff`.
    fn is_hit(aff: &[Mapping], m: &Mapping) -> (r: bool)
        ensures
            r == hit(aff@, *m),
    {
        let mut i: usize = 0;
        while i < aff.len()
            invariant
                0 <= i <= aff@.len(),
                forall|k: int| 0 <= k < i ==> (#[trigger] aff@[k]).virt_range != m.virt_range,
            decreases aff@.len() - i,
        {
            if aff[i].virt_range.base == m.virt_range.base && aff[i].virt_range.size == m.virt_range.size {
                return true;
            }
            i = i + 1;
        }
        false
    }

    /// Number of live mappings none of `affected` identifies.
    pub fn count_minus_affected(&self, affected: &[Mapping]) -> (n: usize)
        requires
            self.wf(),
        ensures
            n == keep(self.live(), affected@).len(),
    {
        let live = self.iter();
        let mut n: usize = 0;
        let mut i: usize = 0;
        while i < live.len()
            invariant
                0 <= i <= live@.len(),
                live@ == self.live(),
                n == keep(live@.take(i as int), affected@).len(),
                n <= i,
            decreases live@.len() - i,
        {
            assert(live@.take(i + 1).drop_last() =~= live@.take(i as int));
            if !Self::is_hit(affected, &live[i]) {
                n = n + 1;
            }
            i = i + 1;
        }
        assert(live@.take(i as int) =~= live@);
        n
    }

    /// Replace every live mapping that one of `affected_values` identifies
    /// (by range) with `pieces`: the set is rebuilt from the survivors, in
    /// order, followed by the pieces. Each copy-on-write piece first takes a
    /// reference to its frame, then the affected values release theirs; the
    /// frames that lost their last owner are returned. Fails, changing
    /// nothing, when the result would not fit.
    pub fn replace_slots(&mut self, affected_values: &[Mapping], pieces: &[Mapping], cow: &mut CowRegistry) -> (r:
        Result<Vec<u64>, ()>)
        requires
            old(self).wf(),
        ensures
            final(self).wf(),
            ({
                let sv = keep(old(self).live(), affected_values@);
                if sv.len() + pieces@.len() > MAX_MAPPINGS {
                    &&& r is Err
                    &&& final(self).slots() == old(self).slots()
                    &&& final(self).spec_count() == old(self).spec_count()
                    &&& final(cow).entries() == old(cow).entries()
                    &&& final(cow).spec_count() == old(cow).spec_count()
                } else {
                    let (e1, c1) = acquire_all(old(cow).entries(), old(cow).spec_count(), pieces@);
                    let (e2, c2, freed) = release_all(e1, c1, affected_values@);
                    &&& r matches Ok(f) && f@ == freed
                    &&& final(self).slots() == packed(sv + pieces@)
                    &&& final(self).spec_count() == sv.len() + pieces@.len()
                    &&& final(self).live() == sv + pieces@
                    &&& final(cow).entries() == e2
                    &&& final(cow).spec_count() == c2
                }
            }),
    {
        let survivors = self.count_minus_affected(affected_values);
        if survivors > MAX_MAPPINGS || pieces.len() > MAX_MAPPINGS - survivors {
            return Err(());
        }
        let mut p: usize = 0;
        while p < pieces.len()
            invariant
                0 <= p <= pieces@.len(),
                (cow.entries(), cow.spec_count()) == acquire_all(old(cow).entries(), old(cow).spec_count(), pieces@.take(p as int)),
            decreases pieces@.len() - p,
        {
            assert(pieces@.take(p + 1).drop_last() =~= pieces@.take(p as int));
            let m = pieces[p];
            match m.phys {
                PhysOwnership::CoWShared { .. } => {
                    let _ = cow.inc(m.pa, 1);
                },
                _ => {},
            }
            p = p + 1;
        }
        assert(pieces@.take(p as int) =~= pieces@);
        let ghost ea = cow.entries();
        let ghost ca = cow.spec_count();
        let mut freed: Vec<u64> = Vec::new();
        let mut a: usize = 0;
        while a < affected_values.len()
            invariant
                0 <= a <= affected_values@.len(),
                (ea, ca) == acquire_all(old(cow).entries(), old(cow).spec_count(), pieces@),
                ({
                    let (e1, c1, f1) = release_all(
                        ea,
                        ca,
                        affected_values@.take(a as int),
                    );
                    cow.entries() == e1 && cow.spec_count() == c1 && freed@ == f1
                }),
            decreases affected_values@.len() - a,
        {
            assert(affected_values@.take(a + 1).drop_last() =~= affected_values@.take(a as int));
            let m = affected_values[a];
            match m.phys {
                PhysOwnership::CoWShared { .. } => {
                    let r = cow.dec(m.pa);
                    if r == Some(0u32) {
                        freed.push(m.pa);
                    }
                },
                _ => {},
            }
            a = a + 1;
        }
        assert(affected_values@.take(a as int) =~= affected_values@);
        let live = self.iter();
        proof {
            lemma_live_len(self.mappings@);
        }
        let ghost sv = keep(live@, affected_values@);
        let mut next: [Option<Mapping>; 64] = [None; 64];
        let mut n: usize = 0;
        let mut i: usize = 0;
        while i < live.len()
            invariant
                0 <= i <= live@.len(),
                n <= i,
                live@.len() <= MAX_MAPPINGS,
                n == keep(live@.take(i as int), affected_values@).len(),
                keep(live@, affected_values@).len() + pieces@.len() <= MAX_MAPPINGS,
                next@ == packed(keep(live@.take(i as int), affected_values@)),
            decreases live@.len() - i,
        {
            assert(live@.take(i + 1).drop_last() =~= live@.take(i as int));
            let m = live[i];
            if !Self::is_hit(affected_values, &m) {
                proof {
                    lemma_keep_prefix_len(live@, affected_values@, i as int + 1);
                }
                next[n] = Some(m);
                assert(next@ =~= packed(keep(live@.take(i + 1), affected_values@)));
                n = n + 1;
            } else {
                assert(keep(live@.take(i + 1), affected_values@) == keep(live@.take(i as int), affected_values@));
            }
            i = i + 1;
        }
        assert(live@.take(i as int) =~= live@);
        let mut j: usize = 0;
        while j < pieces.len()
            invariant
                0 <= j <= pieces@.len(),
                n == sv.len() + j,
                sv.len() + pieces@.len() <= MAX_MAPPINGS,
                next@ == packed(sv + pieces@.take(j as int)),
            decreases pieces@.len() - j,
        {
            next[n] = Some(pieces[j]);
            assert(next@ =~= packed(sv + pieces@.take(j + 1)));
            n = n + 1;
            j = j + 1;
        }
        assert(pieces@.take(j as int) =~= pieces@);
        self.mappings = next;
        self.count = n;
        proof {
            lemma_live_packed(sv + pieces@);
        }
        Ok(freed)
    }

    /// Empty `slot`, releasing its copy-on-write frame; the used range
    /// shrinks over trailing empty slots. Returns the frame that lost its
    /// last owner, if any. Out-of-range slots are ignored.
    pub fn remove(&mut self, slot: usize, cow: &mut CowRegistry) -> (freed: Option<u64>)
        requires
            old(self).wf(),
        ensures
            final(self).wf(),
            slot >= old(self).spec_count() ==> final(self).slots() == old(self).slots() && final(self).spec_count()
                == old(self).spec_count() && freed is None && final(cow).entries() == old(cow).entries()
                && final(cow).spec_count() == old(cow).spec_count(),
            slot < old(self).spec_count() ==> {
                let released = match old(self).slots()[slot as int] {
                    Some(m) => seq![m],
                    None => Seq::empty(),
                };
                let (e2, c2, fr) = release_all(old(cow).entries(), old(cow).spec_count(), released);
                &&& final(self).slots() == old(self).slots().update(slot as int, None)
                &&& final(cow).entries() == e2
                &&& final(cow).spec_count() == c2
                &&& freed == (if fr.len() > 0 { Some(fr[0]) } else { None })
            },
    {
        if slot >= self.count {
            return None;
        }
        let mut freed: Option<u64> = None;
        match self.mappings[slot] {
            Some(m) => {
                proof {
                    assert(seq![m].drop_last() =~= Seq::<Mapping>::empty());
                    assert(seq![m].last() == m);
                    assert(release_all(old(cow).entries(), old(cow).spec_count(), Seq::<Mapping>::empty()).2
                        =~= Seq::<u64>::empty());
                }
                match m.phys {
                    PhysOwnership::CoWShared { .. } => {
                        let r = cow.dec(m.pa);
                        if r == Some(0u32) {
                            freed = Some(m.pa);
                        }
                    },
                    _ => {},
                }
            },
            None => {},
        }
        self.mappings[slot] = None;
        while self.count > 0 && self.mappings[self.count - 1].is_none()
            invariant
                self.mappings@.len() == MAX_MAPPINGS,
                self.count <= MAX_MAPPINGS,
                forall|j: int| self.count <= j < MAX_MAPPINGS ==> (#[trigger] self.mappings@[j]) is None,
                self.mappings@ == old(self).mappings@.update(slot as int, None),
            decreases self.count,
        {
            self.count = self.count - 1;
        }
        freed
    }

    /// Remove the first live mapping whose range starts at `base`; returns
    /// it and any frame that lost its last owner.
    pub fn remove_by_base(&mut self, base: u64, cow: &mut CowRegistry) -> (r: Option<(Mapping, Option<u64>)>)
        requires
            old(self).wf(),
        ensures
            final(self).wf(),
            r is None ==> forall|k: int| 0 <= k < old(self).spec_count() ==> !((#[trigger] old(self).slots()[k]) matches Some(m) && m.virt_range.base == base),
            r is None ==> final(self).slots() == old(self).slots(),
            r matches Some((m, _)) ==> m.virt_range.base == base && old(self).live().contains(m),
    {
        let mut i: usize = 0;
        while i < self.count
            invariant
                set_wf(self.mappings@, self.count),
                self.mappings@.len() == MAX_MAPPINGS,
                self.count <= MAX_MAPPINGS,
                0 <= i <= self.count,
                forall|k: int| 0 <= k < i ==> !((#[trigger] self.mappings@[k]) matches Some(m) && m.virt_range.base == base),
                self.mappings@ == old(self).mappings@,
                self.count == old(self).count,
            decreases self.count - i,
        {
            match self.mappings[i] {
                Some(m) => {
                    if m.virt_range.base == base {
                        proof {
                            lemma_live_contains(self.mappings@, i as int);
                        }
                        let freed = self.remove(i, cow);
                        return Some((m, freed));
                    }
                },
                None => {},
            }
            i = i + 1;
        }
        None
    }
}

/// The length of `keep` grows by one exactly when the added mapping is
/// kept.
proof fn lemma_keep_prefix_len(ms: Seq<Mapping>, aff: Seq<Mapping>, n: int)
    requires
        1 <= n <= ms.len(),
    ensures
        keep(ms.take(n), aff) == (if hit(aff, ms[n - 1]) {
            keep(ms.take(n - 1), aff)
        } else {
            keep(ms.take(n - 1), aff).push(ms[n - 1])
        }),
{
    assert(ms.take(n).drop_last() =~= ms.take(n - 1));
}

/// A mapping in a slot is among the live mappings.
pub proof fn lemma_live_contains(s: Seq<Option<Mapping>>, k: int)
    requires
        0 <= k < s.len(),
        s[k] is Some,
    ensures
        live_of(s).contains(s[k]->0),
    decreases s.len(),
{
    if k == s.len() - 1 {
        assert(live_of(s).last() == s[k]->0);
    } else {
        lemma_live_contains(s.drop_last(), k);
        let l = live_of(s.drop_last());
        let i = choose|i: int| 0 <= i < l.len() && l[i] == s[k]->0;
        assert(live_of(s)[i] == l[i]);
    }
}

} // verus!
