//! Memory discovery: usable physical memory minus the kernel image, the DTB,
//! early page tables and every non-usable region of the memory map.
//!
//! The output is a sorted, non-overlapping list of free ranges, suitable for
//! initializing the PMM.
use vstd::prelude::*;
use crate::boot::boot_info::{MemoryMap, MemoryRegion, MemoryRegionKind};

verus! {

/// A contiguous range of available physical memory.
#[derive(Debug, Clone, Copy, PartialEq, Eq, Structural)]
pub struct AvailableRegion {
    pub start: u64,
    /// Exclusive end.
    pub end: u64,
}

/// Maximum number of available regions after splitting/reserving.
pub const MAX_AVAILABLE: usize = 8;

/// Maximum number of reserved intervals taken into account.
pub const MAX_RESERVED: usize = 32;

/// Result of memory discovery: free ranges usable by the PMM.
pub struct MemoryRegions {
    pub regions: [AvailableRegion; 8],
    pub count: usize,
}

impl MemoryRegions {
    /// The first `count` regions.
    pub open spec fn found(&self) -> Seq<AvailableRegion> {
        self.regions@.take(self.count as int)
    }

    /// The discovered regions, in order.
    pub fn iter(&self) -> (r: Vec<AvailableRegion>)
        requires
            self.count <= MAX_AVAILABLE,
        ensures
            r@ == self.found(),
    {
        let mut out: Vec<AvailableRegion> = Vec::new();
        let mut i: usize = 0;
        while i < self.count
            invariant
                self.count <= MAX_AVAILABLE,
                0 <= i <= self.count,
                out@ == self.regions@.take(i as int),
            decreases self.count - i,
        {
            out.push(self.regions[i]);
            assert(out@ =~= self.regions@.take(i + 1));
            i = i + 1;
        }
        out
    }
}

/// Placement of the kernel image and of what the boot path put next to it.
#[derive(Debug, Clone, Copy, PartialEq, Eq, Structural)]
pub struct KernelLayout {
    /// Inclusive start.
    pub start: u64,
    /// Exclusive end.
    pub end: u64,
    /// 0 if no DTB.
    pub dtb: u64,
    pub dtb_size: u64,
    pub page_tables_start: u64,
    pub page_tables_size: u64,
}

// ---------------------------------------------------------------------------
// Specification
// ---------------------------------------------------------------------------

/// Intervals `[start, end)` that the map and the layout reserve, before
/// dropping empty ones: every non-usable region, the kernel image, the DTB
/// (when present) and the early page tables (when present).
pub open spec fn reserved_candidates(regions: Seq<MemoryRegion>, layout: KernelLayout) -> Seq<
    (u64, u64),
> {
    let from_map = regions.filter(|r: MemoryRegion| r.kind != MemoryRegionKind::Usable).map_values(
        |r: MemoryRegion| (r.start, (r.start + r.size) as u64),
    );
    let kernel = seq![(layout.start, layout.end)];
    let dtb = if layout.dtb != 0 && layout.dtb_size > 0 {
        seq![(layout.dtb, (layout.dtb + layout.dtb_size) as u64)]
    } else {
        Seq::empty()
    };
    let tables = if layout.page_tables_size > 0 {
        seq![
            (layout.page_tables_start, (layout.page_tables_start + layout.page_tables_size) as u64),
        ]
    } else {
        Seq::empty()
    };
    from_map + kernel + dtb + tables
}

/// The reserved intervals taken into account: the nonempty candidates, at
/// most [`MAX_RESERVED`] of them, in order.
pub open spec fn reserved_list(regions: Seq<MemoryRegion>, layout: KernelLayout) -> Seq<(u64, u64)> {
    let ne = reserved_candidates(regions, layout).filter(|iv: (u64, u64)| iv.0 < iv.1);
    if ne.len() > MAX_RESERVED {
        ne.take(MAX_RESERVED as int)
    } else {
        ne
    }
}

/// Address `x` lies in one of the reserved intervals.
pub open spec fn covered(rs: Seq<(u64, u64)>, x: int) -> bool {
    exists|i: int| 0 <= i < rs.len() && #[trigger] rs[i].0 <= x < rs[i].1
}

/// Address `x` lies in a usable region of the map.
pub open spec fn in_region(r: MemoryRegion, x: int) -> bool {
    r.kind == MemoryRegionKind::Usable && r.start <= x < r.start + r.size
}

/// Address `x` lies in some usable region of the map.
pub open spec fn usable_at(regions: Seq<MemoryRegion>, x: int) -> bool {
    exists|u: int| 0 <= u < regions.len() && #[trigger] in_region(regions[u], x)
}

/// Address `x` is usable and not reserved.
pub open spec fn free_at(us: Seq<(u64, u64)>, rs: Seq<(u64, u64)>, x: int) -> bool {
    covered(us, x) && !covered(rs, x)
}

/// Address `x` lies in one of the listed ranges.
pub open spec fn listed(out: Seq<AvailableRegion>, x: int) -> bool {
    exists|k: int| 0 <= k < out.len() && #[trigger] out[k].start <= x < out[k].end
}

/// The listed ranges are nonempty, sorted by start and pairwise disjoint,
/// and every address in them is free.
pub open spec fn sorted_free(us: Seq<(u64, u64)>, rs: Seq<(u64, u64)>, out: Seq<AvailableRegion>) -> bool {
    &&& forall|k: int| 0 <= k < out.len() ==> (#[trigger] out[k]).start < out[k].end
    &&& forall|k: int|
        0 <= k < out.len() ==> forall|x: int| (#[trigger] out[k]).start <= x < out[k].end ==> #[trigger] free_at(us, rs, x)
    &&& forall|k: int| 0 <= k < out.len() - 1 ==> (#[trigger] out[k]).end < out[k + 1].start
}

/// Each listed range is a whole run of free addresses: the address before
/// its start (if any) and its end are not free.
pub open spec fn maximal_runs(us: Seq<(u64, u64)>, rs: Seq<(u64, u64)>, out: Seq<AvailableRegion>) -> bool {
    &&& forall|k: int|
        0 <= k < out.len() ==> (#[trigger] out[k]).start == 0 || !free_at(us, rs, out[k].start - 1)
    &&& forall|k: int| 0 <= k < out.len() ==> !free_at(us, rs, (#[trigger] out[k]).end as int)
}

/// The listed ranges hold every free address, all of them when fewer than
/// [`MAX_AVAILABLE`] were listed, else every one below the last range's end.
pub open spec fn lists_free(us: Seq<(u64, u64)>, rs: Seq<(u64, u64)>, out: Seq<AvailableRegion>) -> bool {
    forall|x: int|
        #[trigger] free_at(us, rs, x) && (out.len() < MAX_AVAILABLE || x < out[out.len() - 1].end) ==> listed(out, x)
}

// ---------------------------------------------------------------------------
// Implementation
// ---------------------------------------------------------------------------

/// Build the list of reserved intervals.
fn collect_reserved(memory_map: &MemoryMap, layout: &KernelLayout) -> (r: Vec<(u64, u64)>)
    requires
        forall|i: int|
            0 <= i < memory_map.spec_regions().len() ==> #[trigger] memory_map.spec_regions()[i].start
                + memory_map.spec_regions()[i].size <= u64::MAX,
        layout.dtb != 0 && layout.dtb_size > 0 ==> layout.dtb + layout.dtb_size <= u64::MAX,
        layout.page_tables_size > 0 ==> layout.page_tables_start + layout.page_tables_size
            <= u64::MAX,
    ensures
        r@ == reserved_list(memory_map.spec_regions(), *layout),
{
    let regions = memory_map.regions();
    let ghost regs = memory_map.spec_regions();
    let ghost cands = reserved_candidates(regs, *layout);
    let mut cand: Vec<(u64, u64)> = Vec::new();
    let mut i: usize = 0;
    while i < regions.len()
        invariant
            regions@ == regs,
            0 <= i <= regions@.len(),
            forall|k: int| 0 <= k < regs.len() ==> #[trigger] regs[k].start + regs[k].size <= u64::MAX,
            cand@ == regs.take(i as int).filter(|r: MemoryRegion| r.kind != MemoryRegionKind::Usable).map_values(
                |r: MemoryRegion| (r.start, (r.start + r.size) as u64),
            ),
        decreases regions@.len() - i,
    {
        let r = regions[i];
        proof {
            assert(regs.take(i + 1).drop_last() =~= regs.take(i as int));
            reveal_with_fuel(Seq::filter, 1);
        }
        if r.kind != MemoryRegionKind::Usable {
            cand.push((r.start, r.start + r.size));
        }
        proof {
            let f = |r: MemoryRegion| r.kind != MemoryRegionKind::Usable;
            let m = |r: MemoryRegion| (r.start, (r.start + r.size) as u64);
            assert(regs.take(i + 1).filter(f) == if f(r) {
                regs.take(i as int).filter(f).push(r)
            } else {
                regs.take(i as int).filter(f)
            });
            assert(cand@ =~= regs.take(i + 1).filter(f).map_values(m));
        }
        i = i + 1;
    }
    assert(regs.take(regions@.len() as int) =~= regs);
    cand.push((layout.start, layout.end));
    if layout.dtb != 0 && layout.dtb_size > 0 {
        cand.push((layout.dtb, layout.dtb + layout.dtb_size));
    }
    if layout.page_tables_size > 0 {
        cand.push((layout.page_tables_start, layout.page_tables_start + layout.page_tables_size));
    }
    assert(cand@ =~= cands);
    // Keep the nonempty ones, at most MAX_RESERVED.
    let mut out: Vec<(u64, u64)> = Vec::new();
    let mut j: usize = 0;
    let ghost ne_all = cands.filter(|iv: (u64, u64)| iv.0 < iv.1);
    while j < cand.len()
        invariant
            cand@ == cands,
            0 <= j <= cand@.len(),
            ne_all == cands.filter(|iv: (u64, u64)| iv.0 < iv.1),
            out@ == {
                let ne = cands.take(j as int).filter(|iv: (u64, u64)| iv.0 < iv.1);
                if ne.len() > MAX_RESERVED {
                    ne.take(MAX_RESERVED as int)
                } else {
                    ne
                }
            },
        decreases cand@.len() - j,
    {
        let iv = cand[j];
        let ghost f = |iv: (u64, u64)| iv.0 < iv.1;
        proof {
            assert(cands.take(j + 1).drop_last() =~= cands.take(j as int));
            reveal_with_fuel(Seq::filter, 1);
            assert(cands.take(j + 1).filter(f) == if f(iv) {
                cands.take(j as int).filter(f).push(iv)
            } else {
                cands.take(j as int).filter(f)
            });
        }
        if iv.0 < iv.1 && out.len() < MAX_RESERVED {
            out.push(iv);
        }
        proof {
            let ne0 = cands.take(j as int).filter(f);
            let ne1 = cands.take(j + 1).filter(f);
            if f(iv) && ne0.len() < MAX_RESERVED {
                assert(out@ =~= ne1);
            } else if f(iv) {
                assert(ne1.take(MAX_RESERVED as int) =~= ne0.take(MAX_RESERVED as int));
            }
        }
        j = j + 1;
    }
    assert(cands.take(cand@.len() as int) =~= cands);
    out
}

/// The usable regions of the map as intervals `[start, start + size)`.
fn collect_usable(memory_map: &MemoryMap) -> (r: Vec<(u64, u64)>)
    requires
        forall|i: int|
            0 <= i < memory_map.spec_regions().len() ==> #[trigger] memory_map.spec_regions()[i].start
                + memory_map.spec_regions()[i].size <= u64::MAX,
    ensures
        forall|x: int| covered(r@, x) <==> usable_at(memory_map.spec_regions(), x),
{
    let regions = memory_map.regions();
    let ghost regs = memory_map.spec_regions();
    let mut out: Vec<(u64, u64)> = Vec::new();
    let mut i: usize = 0;
    while i < regions.len()
        invariant
            regions@ == regs,
            0 <= i <= regs.len(),
            forall|k: int| 0 <= k < regs.len() ==> #[trigger] regs[k].start + regs[k].size <= u64::MAX,
            forall|x: int|
                covered(out@, x) <==> exists|u: int| 0 <= u < i && #[trigger] in_region(regs[u], x),
        decreases regs.len() - i,
    {
        let r = regions[i];
        let ghost before = out@;
        if r.kind == MemoryRegionKind::Usable {
            out.push((r.start, r.start + r.size));
        }
        proof {
            assert forall|x: int| covered(out@, x) <==> exists|u: int| 0 <= u < i + 1 && #[trigger] in_region(regs[u], x) by {
                if covered(out@, x) {
                    let k = choose|k: int| 0 <= k < out@.len() && #[trigger] out@[k].0 <= x < out@[k].1;
                    if k < before.len() {
                        assert(before[k] == out@[k]);
                        assert(covered(before, x));
                    } else {
                        assert(in_region(regs[i as int], x));
                    }
                }
                if exists|u: int| 0 <= u < i + 1 && #[trigger] in_region(regs[u], x) {
                    let u = choose|u: int| 0 <= u < i + 1 && #[trigger] in_region(regs[u], x);
                    if u < i {
                        assert(covered(before, x));
                        let k = choose|k: int| 0 <= k < before.len() && #[trigger] before[k].0 <= x < before[k].1;
                        assert(out@[k] == before[k]);
                    } else {
                        assert(out@[out@.len() - 1].0 <= x < out@[out@.len() - 1].1);
                    }
                }
            }
        }
        i = i + 1;
    }
    proof {
        assert forall|x: int| covered(out@, x) <==> usable_at(regs, x) by {
            if usable_at(regs, x) {
                let u = choose|u: int| 0 <= u < regs.len() && #[trigger] in_region(regs[u], x);
                assert(exists|u: int| 0 <= u < regs.len() && #[trigger] in_region(regs[u], x));
            }
        }
    }
    out
}

/// The farthest end of the intervals that contain `cur`; `cur` when none
/// does.
fn reach(ivs: &Vec<(u64, u64)>, cur: u64) -> (e: u64)
    ensures
        cur <= e,
        e == cur ==> !covered(ivs@, cur as int),
        e > cur ==> forall|x: int| cur <= x < e ==> covered(ivs@, x),
{
    let mut e = cur;
    let mut i: usize = 0;
    while i < ivs.len()
        invariant
            0 <= i <= ivs@.len(),
            cur <= e,
            e > cur ==> exists|k: int| 0 <= k < ivs@.len() && #[trigger] ivs@[k].0 <= cur < ivs@[k].1 && ivs@[k].1 == e,
            e == cur ==> forall|k: int| 0 <= k < i ==> !(#[trigger] ivs@[k].0 <= cur < ivs@[k].1),
        decreases ivs@.len() - i,
    {
        let (s, t) = ivs[i];
        if s <= cur && cur < t && t > e {
            e = t;
        }
        i = i + 1;
    }
    proof {
        if e > cur {
            let k = choose|k: int| 0 <= k < ivs@.len() && #[trigger] ivs@[k].0 <= cur < ivs@[k].1 && ivs@[k].1 == e;
            assert forall|x: int| cur <= x < e implies covered(ivs@, x) by {
                assert(ivs@[k].0 <= x < ivs@[k].1);
            }
        }
    }
    e
}

/// The lowest interval start above `cur`, capped at `bound`.
fn next_start(ivs: &Vec<(u64, u64)>, cur: u64, bound: u64) -> (n: u64)
    requires
        cur < bound,
    ensures
        cur < n <= bound,
        n < bound ==> exists|k: int| 0 <= k < ivs@.len() && #[trigger] ivs@[k].0 == n,
        forall|k: int| 0 <= k < ivs@.len() && cur < #[trigger] ivs@[k].0 ==> n <= ivs@[k].0,
{
    let mut n = bound;
    let mut j: usize = 0;
    while j < ivs.len()
        invariant
            0 <= j <= ivs@.len(),
            cur < n <= bound,
            n < bound ==> exists|k: int| 0 <= k < ivs@.len() && #[trigger] ivs@[k].0 == n,
            forall|k: int| 0 <= k < j && cur < #[trigger] ivs@[k].0 ==> n <= ivs@[k].0,
        decreases ivs@.len() - j,
    {
        let (s, _) = ivs[j];
        if s > cur && s < n {
            n = s;
        }
        j = j + 1;
    }
    n
}

/// The end of the run of free addresses that starts at `cur`: every address
/// in `[cur, e)` is free and `e` is not.
fn run_end(us: &Vec<(u64, u64)>, rs: &Vec<(u64, u64)>, cur: u64) -> (e: u64)
    requires
        free_at(us@, rs@, cur as int),
    ensures
        cur < e,
        forall|x: int| cur <= x < e ==> #[trigger] free_at(us@, rs@, x),
        !free_at(us@, rs@, e as int),
{
    let mut e = cur;
    loop
        invariant
            cur <= e,
            free_at(us@, rs@, cur as int),
            forall|x: int| cur <= x < e ==> #[trigger] free_at(us@, rs@, x),
        ensures
            cur < e,
            forall|x: int| cur <= x < e ==> #[trigger] free_at(us@, rs@, x),
            !free_at(us@, rs@, e as int),
        decreases u64::MAX - e,
    {
        let r2 = reach(rs, e);
        if r2 > e {
            assert(covered(rs@, e as int));
            assert(e != cur);
            break;
        }
        let u2 = reach(us, e);
        if u2 == e {
            assert(e != cur);
            break;
        }
        let n2 = next_start(rs, e, u2);
        assert forall|x: int| e <= x < n2 implies #[trigger] free_at(us@, rs@, x) by {
            assert(covered(us@, x));
            if covered(rs@, x) {
                let k = choose|k: int| 0 <= k < rs@.len() && #[trigger] rs@[k].0 <= x < rs@[k].1;
                if rs@[k].0 <= e {
                    assert(rs@[k].0 <= e < rs@[k].1);
                    assert(covered(rs@, e as int));
                } else {
                    assert(n2 <= rs@[k].0);
                }
            }
        }
        e = n2;
    }
    e
}

/// The free addresses (in `us`, not in `rs`) as whole free runs, ascending
/// from address 0, at most [`MAX_AVAILABLE`] of them.
fn free_runs(us: &Vec<(u64, u64)>, rs: &Vec<(u64, u64)>) -> (out: Vec<AvailableRegion>)
    ensures
        out@.len() <= MAX_AVAILABLE,
        sorted_free(us@, rs@, out@),
        maximal_runs(us@, rs@, out@),
        lists_free(us@, rs@, out@),
{
    let mut out: Vec<AvailableRegion> = Vec::new();
    let mut cur: u64 = 0;
    while out.len() < MAX_AVAILABLE
        invariant
            out@.len() <= MAX_AVAILABLE,
            sorted_free(us@, rs@, out@),
            maximal_runs(us@, rs@, out@),
            cur == 0 || !free_at(us@, rs@, cur - 1) || !free_at(us@, rs@, cur as int),
            forall|k: int| 0 <= k < out@.len() ==> (#[trigger] out@[k]).end <= cur,
            forall|x: int| x < cur && #[trigger] free_at(us@, rs@, x) ==> listed(out@, x),
        ensures
            out@.len() <= MAX_AVAILABLE,
            sorted_free(us@, rs@, out@),
            maximal_runs(us@, rs@, out@),
            forall|k: int| 0 <= k < out@.len() ==> (#[trigger] out@[k]).end <= cur,
            forall|x: int| x < cur && #[trigger] free_at(us@, rs@, x) ==> listed(out@, x),
            out@.len() < MAX_AVAILABLE ==> forall|x: int| #[trigger] free_at(us@, rs@, x) ==> listed(out@, x),
        decreases u64::MAX - cur,
    {
        if cur == u64::MAX {
            proof {
                assert forall|x: int| #[trigger] free_at(us@, rs@, x) implies listed(out@, x) by {
                    let k = choose|k: int| 0 <= k < us@.len() && #[trigger] us@[k].0 <= x < us@[k].1;
                    assert(x < cur);
                }
            }
            break;
        }
        let re = reach(rs, cur);
        if re > cur {
            // Reserved: skip past the reservation.
            proof {
                assert forall|x: int| x < re && #[trigger] free_at(us@, rs@, x) implies listed(out@, x) by {
                    if x >= cur {
                        assert(covered(rs@, x));
                    }
                }
                assert(covered(rs@, re - 1));
            }
            cur = re;
        } else {
            let ue = reach(us, cur);
            if ue > cur {
                // Free: the run goes on up to the first address that is not.
                assert(covered(us@, cur as int));
                let e = run_end(us, rs, cur);
                let ghost prev = out@;
                out.push(AvailableRegion { start: cur, end: e });
                proof {
                    let n = out@.len();
                    assert(free_at(us@, rs@, cur as int));
                    assert forall|k: int| 0 <= k < n - 1 implies (#[trigger] out@[k]).end < out@[k + 1].start by {
                        if k + 1 < n - 1 {
                            assert(out@[k] == prev[k] && out@[k + 1] == prev[k + 1]);
                        } else {
                            assert(out@[k] == prev[k]);
                            assert(!free_at(us@, rs@, prev[k].end as int));
                        }
                    }
                    assert forall|k: int| 0 <= k < n implies forall|x: int| (#[trigger] out@[k]).start <= x < out@[k].end ==> #[trigger] free_at(us@, rs@, x) by {
                        if k < n - 1 {
                            assert(out@[k] == prev[k]);
                        }
                    }
                    assert forall|k: int| 0 <= k < n implies (#[trigger] out@[k]).start < out@[k].end by {
                        if k < n - 1 {
                            assert(out@[k] == prev[k]);
                        }
                    }
                    assert forall|k: int| 0 <= k < n implies (#[trigger] out@[k]).start == 0 || !free_at(us@, rs@, out@[k].start - 1) by {
                        if k < n - 1 {
                            assert(out@[k] == prev[k]);
                        }
                    }
                    assert forall|k: int| 0 <= k < n implies !free_at(us@, rs@, (#[trigger] out@[k]).end as int) by {
                        if k < n - 1 {
                            assert(out@[k] == prev[k]);
                        }
                    }
                    assert forall|k: int| 0 <= k < n implies (#[trigger] out@[k]).end <= e by {
                        if k < n - 1 {
                            assert(out@[k] == prev[k]);
                        }
                    }
                    assert forall|x: int| x < e && #[trigger] free_at(us@, rs@, x) implies listed(out@, x) by {
                        if x >= cur {
                            assert(out@[n - 1].start <= x < out@[n - 1].end);
                        } else {
                            let k = choose|k: int| 0 <= k < prev.len() && #[trigger] prev[k].start <= x < prev[k].end;
                            assert(out@[k] == prev[k]);
                        }
                    }
                }
                cur = e;
            } else {
                // Neither: jump to the next usable start, if any.
                let nu = next_start(us, cur, u64::MAX);
                assert forall|x: int| cur <= x < nu implies !covered(us@, x) by {
                    if covered(us@, x) {
                        let k = choose|k: int| 0 <= k < us@.len() && #[trigger] us@[k].0 <= x < us@[k].1;
                        if us@[k].0 <= cur {
                            assert(us@[k].0 <= cur < us@[k].1);
                            assert(covered(us@, cur as int));
                        } else {
                            assert(nu <= us@[k].0);
                        }
                    }
                }
                if nu == u64::MAX {
                    proof {
                        assert forall|x: int| #[trigger] free_at(us@, rs@, x) implies listed(out@, x) by {
                            let k = choose|k: int| 0 <= k < us@.len() && #[trigger] us@[k].0 <= x < us@[k].1;
                            if x >= cur {
                                assert(!covered(us@, x));
                            }
                        }
                    }
                    break;
                }
                proof {
                    assert forall|x: int| x < nu && #[trigger] free_at(us@, rs@, x) implies listed(out@, x) by {
                        if x >= cur {
                            assert(!covered(us@, x));
                        }
                    }
                    assert(!covered(us@, nu - 1));
                }
                cur = nu;
            }
        }
    }
    proof {
        assert forall|x: int|
            #[trigger] free_at(us@, rs@, x) && (out@.len() < MAX_AVAILABLE || x < out@[out@.len() - 1].end) implies listed(out@, x) by {
            if out@.len() >= MAX_AVAILABLE {
                assert(out@[out@.len() - 1].end <= cur);
            }
        }
    }
    out
}

/// Discover the available physical memory regions: the usable regions of
/// the map minus the reserved intervals (non-usable regions, kernel image,
/// DTB, early page tables), as a sorted, non-overlapping list of free
/// ranges, at most [`MAX_AVAILABLE`] of them (the lowest ones when there are
/// more). Each range is a whole run of free memory: the address before it
/// and its end are reserved or outside every usable region, so usable
/// regions that touch give one range.
pub fn discover(memory_map: &MemoryMap, layout: &KernelLayout) -> (r: MemoryRegions)
    requires
        forall|i: int|
            0 <= i < memory_map.spec_regions().len() ==> #[trigger] memory_map.spec_regions()[i].start
                + memory_map.spec_regions()[i].size <= u64::MAX,
        layout.dtb != 0 && layout.dtb_size > 0 ==> layout.dtb + layout.dtb_size <= u64::MAX,
        layout.page_tables_size > 0 ==> layout.page_tables_start + layout.page_tables_size
            <= u64::MAX,
    ensures
        ({
            let regs = memory_map.spec_regions();
            let rs = reserved_list(regs, *layout);
            let out = r.found();
            &&& r.count <= MAX_AVAILABLE
            &&& forall|k: int| 0 <= k < out.len() ==> (#[trigger] out[k]).start < out[k].end
            &&& forall|k: int| 0 <= k < out.len() - 1 ==> (#[trigger] out[k]).end < out[k + 1].start
            &&& forall|k: int|
                0 <= k < out.len() ==> forall|x: int|
                    (#[trigger] out[k]).start <= x < out[k].end ==> #[trigger] usable_at(regs, x) && !covered(rs, x)
            &&& forall|k: int|
                0 <= k < out.len() ==> (#[trigger] out[k]).start == 0 || !usable_at(regs, out[k].start - 1)
                    || covered(rs, out[k].start - 1)
            &&& forall|k: int|
                0 <= k < out.len() ==> !usable_at(regs, (#[trigger] out[k]).end as int) || covered(rs, out[k].end as int)
            &&& forall|x: int|
                #[trigger] usable_at(regs, x) && !covered(rs, x) && (out.len() < MAX_AVAILABLE || x < out[out.len()
                    - 1].end) ==> listed(out, x)
        }),
{
    let rs = collect_reserved(memory_map, layout);
    let us = collect_usable(memory_map);
    let out = free_runs(&us, &rs);
    let ghost regs = memory_map.spec_regions();
    let mut result = MemoryRegions {
        regions: [AvailableRegion { start: 0, end: 0 }; 8],
        count: 0,
    };
    let mut k: usize = 0;
    while k < out.len()
        invariant
            out@.len() <= MAX_AVAILABLE,
            0 <= k <= out@.len(),
            result.count == k,
            forall|m: int| 0 <= m < k ==> #[trigger] result.regions@[m] == out@[m],
        decreases out@.len() - k,
    {
        result.regions[k] = out[k];
        result.count = k + 1;
        k = k + 1;
    }
    assert(result.found() =~= out@);
    proof {
        assert forall|x: int| #[trigger] usable_at(regs, x) && !covered(rs@, x) && (out@.len() < MAX_AVAILABLE || x < out@[out@.len()
            - 1].end) implies listed(out@, x) by {
            assert(free_at(us@, rs@, x));
        }
        assert forall|k: int| 0 <= k < out@.len() implies (#[trigger] out@[k]).start == 0 || !usable_at(regs, out@[k].start - 1)
            || covered(rs@, out@[k].start - 1) by {
            if out@[k].start != 0 && usable_at(regs, out@[k].start - 1) {
                assert(!free_at(us@, rs@, out@[k].start - 1));
            }
        }
        assert forall|k: int| 0 <= k < out@.len() implies !usable_at(regs, (#[trigger] out@[k]).end as int) || covered(rs@, out@[k].end as int) by {
            assert(!free_at(us@, rs@, out@[k].end as int));
        }
        assert forall|k: int| 0 <= k < out@.len() implies forall|x: int|
            (#[trigger] out@[k]).start <= x < out@[k].end ==> #[trigger] usable_at(regs, x) && !covered(rs@, x) by {
            assert forall|x: int| (#[trigger] out@[k]).start <= x < out@[k].end implies usable_at(regs, x) && !covered(rs@, x) by {
                assert(free_at(us@, rs@, x));
            }
        }
    }
    result
}

} // verus!
