//! Page-table frame ownership registry.
//!
//! Every page-table frame installed at run time is recorded here with its
//! parent descriptor location and the memory backend that owns its
//! storage. A frame leaves the registry only through [`TableRegistry::take`],
//! which the caller may invoke once the table is empty, its parent
//! descriptor is cleared and its translations are invalidated. Frames never
//! recorded (boot-time tables) are never reclaimed; a full registry degrades
//! to the same model.
use vstd::prelude::*;
use crate::memory::resource::ResourceId;

verus! {

/// One recorded page-table frame.
#[derive(Debug, Clone, Copy, PartialEq, Eq, Structural)]
pub struct TableEntry {
    /// Physical address of the table frame.
    pub frame: u64,
    /// Owning address space id.
    pub as_id: u64,
    /// 2 = table of blocks / level-3 pointers, 3 = table of 4 KiB pages.
    pub level: u8,
    /// Parent table physical address.
    pub parent_table: u64,
    /// Index of this table's descriptor in the parent.
    pub parent_index: usize,
    /// Backend owning the physical storage, for deallocation on reclaim.
    pub backend: ResourceId,
}

pub const MAX_TABLES: usize = 256;

/// Number of occupied slots.
pub open spec fn occupied(s: Seq<Option<TableEntry>>) -> nat
    decreases s.len(),
{
    if s.len() == 0 {
        0
    } else {
        occupied(s.drop_last()) + (if s.last() is Some { 1nat } else { 0nat })
    }
}

/// Number of slots holding an entry of address space `as_id`.
pub open spec fn occupied_by(s: Seq<Option<TableEntry>>, as_id: u64) -> nat
    decreases s.len(),
{
    if s.len() == 0 {
        0
    } else {
        occupied_by(s.drop_last(), as_id) + (if s.last() matches Some(e) && e.as_id == as_id {
            1nat
        } else {
            0nat
        })
    }
}

/// Index of the first slot at or after `i` that satisfies `p`; `s.len()`
/// when none does.
pub open spec fn first_where(s: Seq<Option<TableEntry>>, p: spec_fn(Option<TableEntry>) -> bool, i: int) -> int
    decreases s.len() - i,
{
    if 0 <= i < s.len() {
        if p(s[i]) {
            i
        } else {
            first_where(s, p, i + 1)
        }
    } else {
        s.len() as int
    }
}

/// The slot holds the entry of `frame` in address space `as_id`.
pub open spec fn is_frame(frame: u64, as_id: u64) -> spec_fn(Option<TableEntry>) -> bool {
    |o: Option<TableEntry>| o matches Some(e) && e.frame == frame && e.as_id == as_id
}

/// The slot is empty.
pub open spec fn is_free() -> spec_fn(Option<TableEntry>) -> bool {
    |o: Option<TableEntry>| o is None
}

proof fn lemma_first_where(s: Seq<Option<TableEntry>>, p: spec_fn(Option<TableEntry>) -> bool, i: int)
    requires
        0 <= i <= s.len(),
    ensures
        i <= first_where(s, p, i) <= s.len(),
        first_where(s, p, i) < s.len() ==> p(s[first_where(s, p, i)]),
        forall|j: int| i <= j < first_where(s, p, i) ==> !p(#[trigger] s[j]),
    decreases s.len() - i,
{
    if i < s.len() && !p(s[i]) {
        lemma_first_where(s, p, i + 1);
    }
}

/// The first index that satisfies `p`, found by a scan from 0.
proof fn lemma_first_where_at(s: Seq<Option<TableEntry>>, p: spec_fn(Option<TableEntry>) -> bool, k: int, i: int)
    requires
        0 <= k <= i < s.len(),
        p(s[i]),
        forall|j: int| 0 <= j < i ==> !p(#[trigger] s[j]),
    ensures
        first_where(s, p, k) == i,
    decreases i - k,
{
    if k < i {
        lemma_first_where_at(s, p, k + 1, i);
    }
}

proof fn lemma_occupied_update(s: Seq<Option<TableEntry>>, i: int, v: Option<TableEntry>)
    requires
        0 <= i < s.len(),
    ensures
        occupied(s.update(i, v)) + (if s[i] is Some { 1int } else { 0int }) == occupied(s) + (if v is Some {
            1int
        } else {
            0int
        }),
    decreases s.len(),
{
    if i == s.len() - 1 {
        assert(s.update(i, v).drop_last() =~= s.drop_last());
    } else {
        lemma_occupied_update(s.drop_last(), i, v);
        assert(s.update(i, v).drop_last() =~= s.drop_last().update(i, v));
    }
}

proof fn lemma_occupied_le(s: Seq<Option<TableEntry>>)
    ensures
        occupied(s) <= s.len(),
    decreases s.len(),
{
    if s.len() > 0 {
        lemma_occupied_le(s.drop_last());
    }
}

/// A registry whose slots are all taken holds `s.len()` entries.
proof fn lemma_occupied_full(s: Seq<Option<TableEntry>>)
    requires
        forall|j: int| 0 <= j < s.len() ==> (#[trigger] s[j]) is Some,
    ensures
        occupied(s) == s.len(),
    decreases s.len(),
{
    if s.len() > 0 {
        lemma_occupied_full(s.drop_last());
    }
}

/// The registry of page-table frames: fixed slots, reused after removal.
pub struct TableRegistry {
    slots: Vec<Option<TableEntry>>,
    count: usize,
}

impl TableRegistry {
    /// The slots.
    pub closed spec fn spec_slots(&self) -> Seq<Option<TableEntry>> {
        self.slots@
    }

    /// `MAX_TABLES` slots, and a count of the occupied ones.
    pub closed spec fn wf(&self) -> bool {
        &&& self.slots@.len() == MAX_TABLES
        &&& self.count == occupied(self.slots@)
    }

    pub fn new() -> (r: Self)
        ensures
            r.wf(),
            r.spec_slots() == Seq::new(MAX_TABLES as nat, |i: int| None::<TableEntry>),
    {
        let mut slots: Vec<Option<TableEntry>> = Vec::new();
        let mut i: usize = 0;
        while i < MAX_TABLES
            invariant
                i <= MAX_TABLES,
                slots@ == Seq::new(i as nat, |k: int| None::<TableEntry>),
                occupied(slots@) == 0,
            decreases MAX_TABLES - i,
        {
            let ghost before = slots@;
            slots.push(None);
            proof {
                assert(slots@.drop_last() =~= before);
                assert(slots@ =~= Seq::new((i + 1) as nat, |k: int| None::<TableEntry>));
            }
            i = i + 1;
        }
        TableRegistry { slots, count: 0 }
    }

    /// Record a freshly installed table frame in the first free slot.
    /// Returns false, changing nothing, when every slot is taken (the frame
    /// then stays installed and is never reclaimed).
    pub fn record(&mut self, entry: TableEntry) -> (r: bool)
        requires
            old(self).wf(),
        ensures
            final(self).wf(),
            ({
                let h = first_where(old(self).spec_slots(), is_free(), 0);
                &&& r == (h < MAX_TABLES)
                &&& r ==> final(self).spec_slots() == old(self).spec_slots().update(h, Some(entry))
                &&& !r ==> final(self).spec_slots() == old(self).spec_slots()
            }),
    {
        proof {
            lemma_first_where(self.slots@, is_free(), 0);
            lemma_occupied_le(self.slots@);
        }
        if self.count >= MAX_TABLES {
            proof {
                let h = first_where(self.slots@, is_free(), 0);
                if h < MAX_TABLES {
                    lemma_occupied_update(self.slots@, h, Some(entry));
                    lemma_occupied_le(self.slots@.update(h, Some(entry)));
                }
            }
            return false;
        }
        let mut i: usize = 0;
        while i < MAX_TABLES
            invariant
                self.slots@ == old(self).slots@,
                self.count == old(self).count,
                self.wf(),
                self.count < MAX_TABLES,
                0 <= i <= MAX_TABLES,
                forall|j: int| 0 <= j < i ==> (#[trigger] self.slots@[j]) is Some,
            decreases MAX_TABLES - i,
        {
            if self.slots[i].is_none() {
                proof {
                    lemma_occupied_update(self.slots@, i as int, Some(entry));
                    lemma_first_where_at(self.slots@, is_free(), 0, i as int);
                }
                self.slots.set(i, Some(entry));
                self.count = self.count + 1;
                return true;
            }
            i = i + 1;
        }
        proof {
            lemma_occupied_full(self.slots@);
        }
        false
    }

    /// Index of the slot holding `frame` of address space `as_id`.
    fn find_index(&self, frame: u64, as_id: u64) -> (r: Option<usize>)
        requires
            self.wf(),
        ensures
            ({
                let h = first_where(self.spec_slots(), is_frame(frame, as_id), 0);
                &&& h < MAX_TABLES ==> r == Some(h as usize)
                &&& h >= MAX_TABLES ==> r is None
            }),
    {
        proof {
            lemma_first_where(self.slots@, is_frame(frame, as_id), 0);
        }
        let mut i: usize = 0;
        while i < MAX_TABLES
            invariant
                self.wf(),
                0 <= i <= MAX_TABLES,
                forall|j: int| 0 <= j < i ==> !is_frame(frame, as_id)(#[trigger] self.slots@[j]),
            decreases MAX_TABLES - i,
        {
            match self.slots[i] {
                Some(e) => {
                    if e.frame == frame && e.as_id == as_id {
                        proof {
                            lemma_first_where_at(self.slots@, is_frame(frame, as_id), 0, i as int);
                        }
                        return Some(i);
                    }
                },
                None => {},
            }
            i = i + 1;
        }
        None
    }

    /// Take the entry of `frame` in address space `as_id` out of the
    /// registry; `None`, changing nothing, when it is not recorded.
    pub fn take(&mut self, frame: u64, as_id: u64) -> (r: Option<TableEntry>)
        requires
            old(self).wf(),
        ensures
            final(self).wf(),
            ({
                let h = first_where(old(self).spec_slots(), is_frame(frame, as_id), 0);
                &&& h < MAX_TABLES ==> r == old(self).spec_slots()[h] && final(self).spec_slots()
                    == old(self).spec_slots().update(h, None)
                &&& h >= MAX_TABLES ==> r is None && final(self).spec_slots() == old(self).spec_slots()
            }),
    {
        proof {
            lemma_first_where(self.slots@, is_frame(frame, as_id), 0);
        }
        let idx = match self.find_index(frame, as_id) {
            Some(i) => i,
            None => {
                return None;
            },
        };
        let e = self.slots[idx];
        proof {
            lemma_occupied_update(self.slots@, idx as int, None);
        }
        self.slots.set(idx, None);
        self.count = self.count - 1;
        e
    }

    /// The entry of `frame` in address space `as_id`, if recorded.
    pub fn lookup(&self, frame: u64, as_id: u64) -> (r: Option<TableEntry>)
        requires
            self.wf(),
        ensures
            ({
                let h = first_where(self.spec_slots(), is_frame(frame, as_id), 0);
                &&& h < MAX_TABLES ==> r == self.spec_slots()[h]
                &&& h >= MAX_TABLES ==> r is None
            }),
    {
        proof {
            lemma_first_where(self.slots@, is_frame(frame, as_id), 0);
        }
        match self.find_index(frame, as_id) {
            Some(i) => self.slots[i],
            None => None,
        }
    }

    /// The first recorded table of `as_id` whose hardware content is fully
    /// invalid. `valid_leaves[i]` is the number of valid descriptors in the
    /// table of slot `i`, read from the table itself (the shadow cannot
    /// tell, since tables split from blocks inherit entries it never saw).
    pub fn find_empty(&self, as_id: u64, valid_leaves: &[u64]) -> (r: Option<TableEntry>)
        requires
            self.wf(),
            valid_leaves@.len() == MAX_TABLES,
        ensures
            ({
                let p = |o: Option<TableEntry>| o matches Some(e) && e.as_id == as_id;
                let h = first_where(
                    Seq::new(MAX_TABLES as nat, |i: int| if valid_leaves@[i] == 0 { self.spec_slots()[i] } else { None }),
                    p,
                    0,
                );
                &&& h < MAX_TABLES ==> r == self.spec_slots()[h] && valid_leaves@[h] == 0
                &&& h >= MAX_TABLES ==> r is None
            }),
    {
        let ghost p = |o: Option<TableEntry>| o matches Some(e) && e.as_id == as_id;
        let ghost s = Seq::new(MAX_TABLES as nat, |i: int| if valid_leaves@[i] == 0 { self.slots@[i] } else { None });
        proof {
            lemma_first_where(s, p, 0);
        }
        let mut i: usize = 0;
        while i < MAX_TABLES
            invariant
                self.wf(),
                valid_leaves@.len() == MAX_TABLES,
                s == Seq::new(MAX_TABLES as nat, |i: int| if valid_leaves@[i] == 0 { self.slots@[i] } else { None }),
                p == (|o: Option<TableEntry>| o matches Some(e) && e.as_id == as_id),
                0 <= i <= MAX_TABLES,
                forall|j: int| 0 <= j < i ==> !p(#[trigger] s[j]),
            decreases MAX_TABLES - i,
        {
            match self.slots[i] {
                Some(e) => {
                    if e.as_id == as_id && valid_leaves[i] == 0 {
                        assert(p(s[i as int]));
                        proof {
                            lemma_first_where_at(s, p, 0, i as int);
                        }
                        return Some(e);
                    }
                },
                None => {},
            }
            assert(!p(s[i as int]));
            i = i + 1;
        }
        None
    }

    /// Number of recorded tables of address space `as_id`.
    pub fn count_for_as(&self, as_id: u64) -> (r: usize)
        requires
            self.wf(),
        ensures
            r == occupied_by(self.spec_slots(), as_id),
    {
        let mut n: usize = 0;
        let mut i: usize = 0;
        while i < MAX_TABLES
            invariant
                self.wf(),
                0 <= i <= MAX_TABLES,
                n == occupied_by(self.slots@.take(i as int), as_id),
                n <= i,
            decreases MAX_TABLES - i,
        {
            proof {
                assert(self.slots@.take(i + 1).drop_last() =~= self.slots@.take(i as int));
            }
            match self.slots[i] {
                Some(e) => {
                    if e.as_id == as_id {
                        n = n + 1;
                    }
                },
                None => {},
            }
            i = i + 1;
        }
        proof {
            assert(self.slots@.take(MAX_TABLES as int) =~= self.slots@);
        }
        n
    }

    /// Number of recorded tables.
    pub fn total(&self) -> (r: usize)
        requires
            self.wf(),
        ensures
            r == occupied(self.spec_slots()),
    {
        self.count
    }

    /// The entry in slot `i`, if any.
    pub fn entry(&self, i: usize) -> (r: Option<TableEntry>)
        requires
            self.wf(),
        ensures
            i < MAX_TABLES ==> r == self.spec_slots()[i as int],
            i >= MAX_TABLES ==> r is None,
    {
        if i < MAX_TABLES {
            self.slots[i]
        } else {
            None
        }
    }
}

} // verus!

verus! {

/// A frame recorded into a registry where it was not recorded before is
/// what a later lookup or take of it finds: the slot `record` filled.
pub proof fn law_record_then_take(s: Seq<Option<TableEntry>>, e: TableEntry)
    requires
        s.len() == MAX_TABLES,
        first_where(s, is_free(), 0) < MAX_TABLES,
        first_where(s, is_frame(e.frame, e.as_id), 0) >= MAX_TABLES,
    ensures
        ({
            let h = first_where(s, is_free(), 0);
            let s2 = s.update(h, Some(e));
            &&& first_where(s2, is_frame(e.frame, e.as_id), 0) == h
            &&& s2[h] == Some(e)
            &&& first_where(s2.update(h, None), is_frame(e.frame, e.as_id), 0) >= MAX_TABLES
        }),
{
    let h = first_where(s, is_free(), 0);
    let p = is_frame(e.frame, e.as_id);
    lemma_first_where(s, is_free(), 0);
    lemma_first_where(s, p, 0);
    let s2 = s.update(h, Some(e));
    assert forall|j: int| 0 <= j < h implies !p(#[trigger] s2[j]) by {
        assert(s2[j] == s[j]);
    }
    assert(p(s2[h]));
    lemma_first_where_at(s2, p, 0, h);
    let s3 = s2.update(h, None);
    assert(s3 =~= s);
}

} // verus!
