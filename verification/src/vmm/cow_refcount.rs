//! Frame-keyed refcount registry for copy-on-write shared frames.
//!
//! When a Present piece is duplicated by `fork`, parent and child point at
//! the same physical frame; the registry counts the owners across all
//! address spaces. When the count reaches zero the frame goes back to the
//! frame allocator (the caller does that with the address handed back).
//! Registry exhaustion degrades to a deterministic leak: the frame stays
//! mapped and untracked. A slot whose address is 0 is free.
use vstd::prelude::*;

verus! {

pub const MAX_COW_FRAMES: usize = 256;

#[derive(Debug, Clone, Copy, PartialEq, Eq, Structural)]
pub struct FrameRefcount {
    /// 0: the slot is free.
    pub pa: u64,
    /// Number of copy-on-write pieces pointing at `pa`.
    pub refcount: u32,
}

/// First slot at or after `i` whose address is `pa`; `e.len()` when none.
pub open spec fn frame_slot(e: Seq<FrameRefcount>, pa: u64, i: int) -> int
    decreases e.len() - i,
{
    if 0 <= i < e.len() {
        if e[i].pa == pa {
            i
        } else {
            frame_slot(e, pa, i + 1)
        }
    } else {
        e.len() as int
    }
}

/// `a + b`, saturating at `u32::MAX`.
pub open spec fn sat_add(a: u32, b: u32) -> u32 {
    if a + b > u32::MAX {
        u32::MAX
    } else {
        (a + b) as u32
    }
}

/// `inc(pa, delta)`: add `delta` to a tracked frame's count (saturating);
/// else, below capacity, track it in the first free slot with count
/// `delta`. The result is the new count, `None` when it could not be
/// tracked.
pub open spec fn inc_model(e: Seq<FrameRefcount>, cnt: usize, pa: u64, delta: u32) -> (
    Seq<FrameRefcount>,
    usize,
    Option<u32>,
) {
    let k = frame_slot(e, pa, 0);
    if k < e.len() {
        let n = sat_add(e[k].refcount, delta);
        (e.update(k, FrameRefcount { pa, refcount: n }), cnt, Some(n))
    } else if cnt >= MAX_COW_FRAMES {
        (e, cnt, None)
    } else {
        let z = frame_slot(e, 0, 0);
        if z < e.len() {
            (e.update(z, FrameRefcount { pa, refcount: delta }), (cnt + 1) as usize, Some(delta))
        } else {
            (e, cnt, None)
        }
    }
}

/// `dec(pa)`: take one owner off a tracked frame; at the last owner the
/// slot is freed and the result is 0 (the frame is to be released).
/// `None` when the frame is not tracked.
pub open spec fn dec_model(e: Seq<FrameRefcount>, cnt: usize, pa: u64) -> (Seq<FrameRefcount>, usize, Option<u32>) {
    let k = frame_slot(e, pa, 0);
    if k < e.len() {
        if e[k].refcount <= 1 {
            (
                e.update(k, FrameRefcount { pa: 0, refcount: 0 }),
                if cnt == 0 {
                    usize::MAX
                } else {
                    (cnt - 1) as usize
                },
                Some(0),
            )
        } else {
            (e.update(k, FrameRefcount { pa, refcount: (e[k].refcount - 1) as u32 }), cnt, Some((e[k].refcount - 1) as u32))
        }
    } else {
        (e, cnt, None)
    }
}

/// The count of `pa`, 0 when untracked.
pub open spec fn count_model(e: Seq<FrameRefcount>, pa: u64) -> u32 {
    let k = frame_slot(e, pa, 0);
    if k < e.len() {
        e[k].refcount
    } else {
        0
    }
}

pub proof fn lemma_frame_slot(e: Seq<FrameRefcount>, pa: u64, i: int)
    requires
        0 <= i <= e.len(),
    ensures
        i <= frame_slot(e, pa, i) <= e.len(),
        frame_slot(e, pa, i) < e.len() ==> e[frame_slot(e, pa, i)].pa == pa,
        forall|j: int| i <= j < frame_slot(e, pa, i) ==> (#[trigger] e[j]).pa != pa,
    decreases e.len() - i,
{
    if i < e.len() {
        lemma_frame_slot(e, pa, i + 1);
    }
}

/// One more owner and one owner less leave a frame's count as it was (for
/// a real frame, untracked or with owners, whose count is not saturated,
/// when it could be tracked).
pub proof fn law_inc_then_dec_restores_count(e: Seq<FrameRefcount>, cnt: usize, pa: u64)
    requires
        pa != 0,
        count_model(e, pa) < u32::MAX,
        count_model(e, pa) > 0 || frame_slot(e, pa, 0) == e.len(),
        inc_model(e, cnt, pa, 1).2 is Some,
    ensures
        ({
            let (e1, c1, _) = inc_model(e, cnt, pa, 1);
            count_model(dec_model(e1, c1, pa).0, pa) == count_model(e, pa)
        }),
{
    let (e1, c1, _) = inc_model(e, cnt, pa, 1);
    lemma_frame_slot(e, pa, 0);
    lemma_frame_slot(e, 0, 0);
    let k = frame_slot(e, pa, 0);
    if k < e.len() {
        lemma_frame_slot(e1, pa, 0);
        assert(frame_slot(e1, pa, 0) == k) by {
            let f = frame_slot(e1, pa, 0);
            assert(e1[k].pa == pa);
            if f < k {
                assert(e1[f] == e[f]);
            }
        }
        let e2 = dec_model(e1, c1, pa).0;
        lemma_frame_slot(e2, pa, 0);
        if e2[k].pa == pa {
            assert(frame_slot(e2, pa, 0) == k) by {
                let f = frame_slot(e2, pa, 0);
                if f < k {
                    assert(e2[f] == e[f]);
                }
            }
        }
    } else {
        let z = frame_slot(e, 0, 0);
        lemma_frame_slot(e1, pa, 0);
        assert(frame_slot(e1, pa, 0) == z) by {
            let f = frame_slot(e1, pa, 0);
            assert(e1[z].pa == pa);
            if f < z {
                assert(e1[f] == e[f]);
            }
        }
        let e2 = dec_model(e1, c1, pa).0;
        lemma_frame_slot(e2, pa, 0);
        assert forall|j: int| 0 <= j < e2.len() implies (#[trigger] e2[j]).pa != pa by {
            if j != z {
                assert(e2[j] == e[j]);
            }
        }
        assert(frame_slot(e2, pa, 0) == e2.len());
    }
}

pub struct CowRegistry {
    slots: [FrameRefcount; 256],
    count: usize,
}

impl CowRegistry {
    pub closed spec fn entries(&self) -> Seq<FrameRefcount> {
        self.slots@
    }

    pub closed spec fn spec_count(&self) -> usize {
        self.count
    }

    pub fn new() -> (r: Self)
        ensures
            r.entries() == Seq::new(MAX_COW_FRAMES as nat, |i: int| FrameRefcount { pa: 0, refcount: 0 }),
            r.spec_count() == 0,
    {
        let r = CowRegistry { slots: [FrameRefcount { pa: 0, refcount: 0 }; 256], count: 0 };
        assert(r.slots@ =~= Seq::new(MAX_COW_FRAMES as nat, |i: int| FrameRefcount { pa: 0, refcount: 0 }));
        r
    }

    fn find(&self, pa: u64) -> (k: usize)
        ensures
            k == frame_slot(self.entries(), pa, 0),
    {
        let mut i: usize = 0;
        while i < MAX_COW_FRAMES
            invariant
                0 <= i <= MAX_COW_FRAMES,
                self.slots@.len() == MAX_COW_FRAMES,
                frame_slot(self.slots@, pa, 0) == frame_slot(self.slots@, pa, i as int),
            decreases MAX_COW_FRAMES - i,
        {
            if self.slots[i].pa == pa {
                return i;
            }
            i = i + 1;
        }
        i
    }

    /// Add `delta` owners to `pa`; see `inc_model`.
    pub fn inc(&mut self, pa: u64, delta: u32) -> (r: Option<u32>)
        ensures
            (final(self).entries(), final(self).spec_count(), r) == inc_model(
                old(self).entries(),
                old(self).spec_count(),
                pa,
                delta,
            ),
    {
        let k = self.find(pa);
        if k < MAX_COW_FRAMES {
            let n = self.slots[k].refcount.saturating_add(delta);
            self.slots[k] = FrameRefcount { pa, refcount: n };
            return Some(n);
        }
        if self.count >= MAX_COW_FRAMES {
            return None;
        }
        let z = self.find(0);
        if z < MAX_COW_FRAMES {
            self.slots[z] = FrameRefcount { pa, refcount: delta };
            self.count = self.count + 1;
            return Some(delta);
        }
        None
    }

    /// Take one owner off `pa`; see `dec_model`. A result of `Some(0)`
    /// means the frame lost its last owner and is to be released.
    pub fn dec(&mut self, pa: u64) -> (r: Option<u32>)
        ensures
            (final(self).entries(), final(self).spec_count(), r) == dec_model(
                old(self).entries(),
                old(self).spec_count(),
                pa,
            ),
    {
        let k = self.find(pa);
        if k < MAX_COW_FRAMES {
            let rc = self.slots[k].refcount;
            if rc <= 1 {
                self.slots[k] = FrameRefcount { pa: 0, refcount: 0 };
                self.count = self.count.wrapping_sub(1);
                return Some(0);
            }
            self.slots[k] = FrameRefcount { pa, refcount: rc - 1 };
            return Some(rc - 1);
        }
        None
    }

    /// The count of `pa`, 0 when untracked.
    pub fn count_of(&self, pa: u64) -> (r: u32)
        ensures
            r == count_model(self.entries(), pa),
    {
        let k = self.find(pa);
        if k < MAX_COW_FRAMES {
            self.slots[k].refcount
        } else {
            0
        }
    }

    /// Number of tracked frames.
    pub fn total(&self) -> (r: usize)
        ensures
            r == self.spec_count(),
    {
        self.count
    }
}

} // verus!
