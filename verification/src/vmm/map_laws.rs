//! What unmapping does to a range that was just mapped, and what splitting
//! a shared mapping does to its frame's count.
use vstd::prelude::*;
use crate::vmm::address_space::{
    affected_of, anon_frames, covered_len, leftovers, overlaps, present_runs, range_check, range_ok, unmap_pieces,
};
use crate::vmm::cow_refcount::{count_model, dec_model, frame_slot, inc_model, lemma_frame_slot, FrameRefcount};
use crate::vmm::mapping::{acquire_all, hit, hole, keep, lemma_hole, live_of, release_all, Mapping, MappingFlags, VirtRange, MAX_MAPPINGS};
use crate::vmm::runs::{coalesced, insert_run, merge_runs, sort_runs};

verus! {

proof fn lemma_live_concat(x: Seq<Option<Mapping>>, y: Seq<Option<Mapping>>)
    ensures
        live_of(x + y) == live_of(x) + live_of(y),
    decreases y.len(),
{
    if y.len() == 0 {
        assert(x + y =~= x);
        assert(live_of(x) + live_of(y) =~= live_of(x));
    } else {
        lemma_live_concat(x, y.drop_last());
        assert((x + y).drop_last() =~= x + y.drop_last());
        assert((x + y).last() == y.last());
        match y.last() {
            Some(m) => {
                assert(live_of(x) + live_of(y) =~= (live_of(x) + live_of(y.drop_last())).push(m));
            },
            None => {},
        }
    }
}

proof fn lemma_affected_concat(a: Seq<Mapping>, b: Seq<Mapping>, v: int, e: int)
    ensures
        affected_of(a + b, v, e) == affected_of(a, v, e) + affected_of(b, v, e),
    decreases b.len(),
{
    if b.len() == 0 {
        assert(a + b =~= a);
        assert(affected_of(a, v, e) + affected_of(b, v, e) =~= affected_of(a, v, e));
    } else {
        lemma_affected_concat(a, b.drop_last(), v, e);
        assert((a + b).drop_last() =~= a + b.drop_last());
        assert((a + b).last() == b.last());
        if overlaps(b.last(), v, e) {
            assert(affected_of(a, v, e) + affected_of(b, v, e) =~= (affected_of(a, v, e) + affected_of(
                b.drop_last(),
                v,
                e,
            )).push(b.last()));
        }
    }
}

proof fn lemma_keep_concat(a: Seq<Mapping>, b: Seq<Mapping>, aff: Seq<Mapping>)
    ensures
        keep(a + b, aff) == keep(a, aff) + keep(b, aff),
    decreases b.len(),
{
    if b.len() == 0 {
        assert(a + b =~= a);
        assert(keep(a, aff) + keep(b, aff) =~= keep(a, aff));
    } else {
        lemma_keep_concat(a, b.drop_last(), aff);
        assert((a + b).drop_last() =~= a + b.drop_last());
        assert((a + b).last() == b.last());
        if !hit(aff, b.last()) {
            assert(keep(a, aff) + keep(b, aff) =~= (keep(a, aff) + keep(b.drop_last(), aff)).push(b.last()));
        }
    }
}

/// Pieces none of which overlaps `[v, e)` have nothing affected.
proof fn lemma_affected_none(a: Seq<Mapping>, v: int, e: int)
    requires
        forall|i: int| 0 <= i < a.len() ==> !overlaps(#[trigger] a[i], v, e),
    ensures
        affected_of(a, v, e) == Seq::<Mapping>::empty(),
    decreases a.len(),
{
    if a.len() > 0 {
        lemma_affected_none(a.drop_last(), v, e);
        assert(!overlaps(a[a.len() - 1], v, e));
    }
}

/// Pieces that none of `aff` identifies are all kept.
proof fn lemma_keep_all(a: Seq<Mapping>, aff: Seq<Mapping>)
    requires
        forall|i: int| 0 <= i < a.len() ==> !hit(aff, #[trigger] a[i]),
    ensures
        keep(a, aff) == a,
    decreases a.len(),
{
    if a.len() > 0 {
        lemma_keep_all(a.drop_last(), aff);
        assert(!hit(aff, a[a.len() - 1]));
        assert(a.drop_last().push(a.last()) =~= a);
    }
}

/// Unmapping undoes mapping: after a page-aligned, non-empty range that
/// overlaps no mapping is mapped into the first free slot, unmapping that
/// same range is accepted (whatever the slot bound `count` of the set),
/// leaves exactly the mappings that were there before, hands back just that
/// range as the one run to clear in the page tables, frees no frame and
/// leaves the copy-on-write registry as it was.
pub proof fn law_unmap_undoes_map(
    s: Seq<Option<Mapping>>,
    count: int,
    vaddr: u64,
    size: u64,
    object_id: u64,
    flags: MappingFlags,
    entries: Seq<FrameRefcount>,
    cnt: usize,
)
    requires
        s.len() == MAX_MAPPINGS,
        hole(s, 0) < MAX_MAPPINGS,
        0 <= count <= MAX_MAPPINGS,
        range_ok(vaddr, size),
        forall|i: int|
            0 <= i < live_of(s).len() ==> !overlaps(#[trigger] live_of(s)[i], vaddr as int, vaddr + size),
    ensures
        ({
            let m = Mapping::new_spec(VirtRange { base: vaddr, size }, object_id, flags);
            let ms1 = live_of(s.update(hole(s, 0), Some(m)));
            let v = vaddr as int;
            let e = vaddr + size;
            let aff = affected_of(ms1, v, e);
            &&& range_check(ms1, count, vaddr, size) is None
            &&& keep(ms1, aff) + unmap_pieces(aff, v, e) == live_of(s)
            &&& coalesced(present_runs(aff, v, e)) == seq![(vaddr, size)]
            &&& anon_frames(aff, v, e) == Seq::<(u64, u64)>::empty()
            &&& acquire_all(entries, cnt, unmap_pieces(aff, v, e)) == (entries, cnt)
            &&& release_all(entries, cnt, aff) == (entries, cnt, Seq::<u64>::empty())
        }),
{
    let m = Mapping::new_spec(VirtRange { base: vaddr, size }, object_id, flags);
    let h = hole(s, 0);
    lemma_hole(s, 0);
    let v = vaddr as int;
    let e = vaddr + size;
    let s1 = s.update(h, Some(m));
    let pre = s.take(h);
    let post = s.skip(h + 1);
    let none: Seq<Option<Mapping>> = seq![None];
    let one: Seq<Option<Mapping>> = seq![Some(m)];
    assert(s =~= pre + none + post);
    assert(s1 =~= pre + one + post);
    lemma_live_concat(pre + none, post);
    lemma_live_concat(pre, none);
    lemma_live_concat(pre + one, post);
    lemma_live_concat(pre, one);
    assert(none.drop_last() =~= Seq::<Option<Mapping>>::empty());
    assert(one.drop_last() =~= Seq::<Option<Mapping>>::empty());
    assert(live_of(Seq::<Option<Mapping>>::empty()) =~= Seq::<Mapping>::empty());
    assert(live_of(none) =~= Seq::<Mapping>::empty());
    assert(live_of(one) =~= seq![m]);
    let a = live_of(pre);
    let b = live_of(post);
    let ms0 = live_of(s);
    let ms1 = live_of(s1);
    assert(ms0 =~= a + b);
    assert(ms1 =~= a + seq![m] + b);
    assert forall|i: int| 0 <= i < a.len() implies !overlaps(#[trigger] a[i], v, e) by {
        assert(ms0[i] == a[i]);
    }
    assert forall|j: int| 0 <= j < b.len() implies !overlaps(#[trigger] b[j], v, e) by {
        assert(ms0[a.len() + j] == b[j]);
    }
    // Only the new piece is affected.
    lemma_affected_concat(a + seq![m], b, v, e);
    lemma_affected_concat(a, seq![m], v, e);
    lemma_affected_none(a, v, e);
    lemma_affected_none(b, v, e);
    assert(seq![m].drop_last() =~= Seq::<Mapping>::empty());
    assert(overlaps(m, v, e));
    assert(affected_of(Seq::<Mapping>::empty(), v, e) =~= Seq::<Mapping>::empty());
    assert(affected_of(seq![m], v, e) =~= seq![m]);
    let aff = affected_of(ms1, v, e);
    assert(aff =~= seq![m]);
    // Only the new piece is removed.
    let one_m: Seq<Mapping> = seq![m];
    assert forall|i: int| 0 <= i < a.len() implies !hit(one_m, #[trigger] a[i]) by {
        if hit(one_m, a[i]) {
            assert(one_m[0].virt_range == a[i].virt_range);
            assert(overlaps(a[i], v, e));
        }
    }
    assert forall|j: int| 0 <= j < b.len() implies !hit(one_m, #[trigger] b[j]) by {
        if hit(one_m, b[j]) {
            assert(one_m[0].virt_range == b[j].virt_range);
            assert(overlaps(b[j], v, e));
        }
    }
    lemma_keep_concat(a + one_m, b, one_m);
    lemma_keep_concat(a, one_m, one_m);
    lemma_keep_all(a, one_m);
    lemma_keep_all(b, one_m);
    assert(hit(one_m, m));
    assert(one_m.drop_last() =~= Seq::<Mapping>::empty());
    assert(keep(Seq::<Mapping>::empty(), one_m) =~= Seq::<Mapping>::empty());
    assert(keep(one_m, one_m) =~= Seq::<Mapping>::empty());
    assert(keep(ms1, aff) =~= a + b);
    assert(unmap_pieces(Seq::<Mapping>::empty(), v, e) =~= Seq::<Mapping>::empty());
    assert(unmap_pieces(one_m, v, e) =~= Seq::<Mapping>::empty());
    assert(unmap_pieces(aff, v, e) =~= Seq::<Mapping>::empty());
    assert(keep(ms1, aff) + unmap_pieces(aff, v, e) =~= ms0);
    // The range is accepted.
    assert(covered_len(Seq::<Mapping>::empty(), v, e) == 0);
    assert(covered_len(one_m, v, e) == size);
    assert(covered_len(aff, v, e) == size);
    assert(leftovers(Seq::<Mapping>::empty(), v, e) == 0);
    assert(leftovers(one_m, v, e) == 0);
    assert(leftovers(aff, v, e) == 0);
    assert(range_check(ms1, count, vaddr, size) is None);
    // The run to clear, and nothing to free.
    assert(present_runs(Seq::<Mapping>::empty(), v, e) =~= Seq::<(u64, u64)>::empty());
    assert(present_runs(one_m, v, e) =~= seq![(vaddr, size)]);
    assert(present_runs(aff, v, e) =~= seq![(vaddr, size)]);
    let r: Seq<(u64, u64)> = seq![(vaddr, size)];
    assert(r.drop_last() =~= Seq::<(u64, u64)>::empty());
    assert(sort_runs(Seq::<(u64, u64)>::empty()) =~= Seq::<(u64, u64)>::empty());
    assert(r.last() == (vaddr, size));
    assert(sort_runs(r) =~= insert_run(Seq::<(u64, u64)>::empty(), (vaddr, size)));
    assert(insert_run(Seq::<(u64, u64)>::empty(), (vaddr, size)) =~= r);
    assert(merge_runs(Seq::<(u64, u64)>::empty()) =~= Seq::<(u64, u64)>::empty());
    assert(merge_runs(r) =~= r);
    assert(coalesced(r) =~= r);
    assert(anon_frames(Seq::<Mapping>::empty(), v, e) =~= Seq::<(u64, u64)>::empty());
    assert(anon_frames(one_m, v, e) =~= Seq::<(u64, u64)>::empty());
    assert(anon_frames(aff, v, e) =~= Seq::<(u64, u64)>::empty());
    assert(release_all(entries, cnt, Seq::<Mapping>::empty()) == (entries, cnt, Seq::<u64>::empty()));
    assert(release_all(entries, cnt, one_m) == (entries, cnt, Seq::<u64>::empty()));
    assert(release_all(entries, cnt, aff) == (entries, cnt, Seq::<u64>::empty()));
    assert(acquire_all(entries, cnt, Seq::<Mapping>::empty()) == (entries, cnt));
    assert(acquire_all(entries, cnt, unmap_pieces(aff, v, e)) == (entries, cnt));
}

/// Copy-on-write pieces of one tracked frame each take a reference: the
/// frame stays tracked and its count grows by the number of pieces.
proof fn lemma_acquire_count(e: Seq<FrameRefcount>, cnt: usize, ps: Seq<Mapping>, pa: u64)
    requires
        pa != 0,
        frame_slot(e, pa, 0) < e.len(),
        count_model(e, pa) + ps.len() <= u32::MAX,
        forall|k: int| 0 <= k < ps.len() ==> (#[trigger] ps[k]).phys is CoWShared && ps[k].pa == pa,
    ensures
        frame_slot(acquire_all(e, cnt, ps).0, pa, 0) == frame_slot(e, pa, 0),
        acquire_all(e, cnt, ps).0.len() == e.len(),
        count_model(acquire_all(e, cnt, ps).0, pa) == count_model(e, pa) + ps.len(),
        forall|j: int| 0 <= j < e.len() && j != frame_slot(e, pa, 0) ==> #[trigger] acquire_all(e, cnt, ps).0[j] == e[j],
    decreases ps.len(),
{
    if ps.len() > 0 {
        let d = ps.drop_last();
        assert forall|k: int| 0 <= k < d.len() implies (#[trigger] d[k]).phys is CoWShared && d[k].pa == pa by {
            assert(d[k] == ps[k]);
        }
        lemma_acquire_count(e, cnt, d, pa);
        let (e1, c1) = acquire_all(e, cnt, d);
        let m = ps.last();
        assert(m == ps[ps.len() - 1]);
        let k = frame_slot(e1, pa, 0);
        lemma_frame_slot(e1, pa, 0);
        let e2 = inc_model(e1, c1, pa, 1).0;
        assert(e2 == e1.update(k, FrameRefcount { pa, refcount: (e1[k].refcount + 1) as u32 }));
        lemma_frame_slot(e2, pa, 0);
        assert(frame_slot(e2, pa, 0) == k) by {
            let f = frame_slot(e2, pa, 0);
            assert(e2[k].pa == pa);
            if f < k {
                assert(e2[f] == e1[f]);
            }
        }
    }
}

/// Splitting a shared mapping takes one owner per piece left: when the
/// copy-on-write mapping `m`, whose frame is tracked (in one slot), is
/// replaced by `pieces` of the same frame (the pieces take their references
/// first, then `m` releases its own), the frame's count changes by
/// `pieces.len() - 1`, and the frame is handed back for freeing exactly when
/// no owner is left.
pub proof fn law_split_shared_counts(e: Seq<FrameRefcount>, cnt: usize, m: Mapping, pieces: Seq<Mapping>)
    requires
        m.phys is CoWShared,
        m.pa != 0,
        frame_slot(e, m.pa, 0) < e.len(),
        count_model(e, m.pa) >= 1,
        count_model(e, m.pa) + pieces.len() <= u32::MAX,
        forall|j: int| 0 <= j < e.len() && j != frame_slot(e, m.pa, 0) ==> (#[trigger] e[j]).pa != m.pa,
        forall|k: int| 0 <= k < pieces.len() ==> (#[trigger] pieces[k]).phys is CoWShared && pieces[k].pa == m.pa,
    ensures
        ({
            let (e1, c1) = acquire_all(e, cnt, pieces);
            let (e2, c2, fr) = release_all(e1, c1, seq![m]);
            &&& count_model(e2, m.pa) == count_model(e, m.pa) + pieces.len() - 1
            &&& (fr.len() > 0 <==> count_model(e, m.pa) + pieces.len() == 1)
        }),
{
    lemma_acquire_count(e, cnt, pieces, m.pa);
    let (e1, c1) = acquire_all(e, cnt, pieces);
    let one: Seq<Mapping> = seq![m];
    assert(one.drop_last() =~= Seq::<Mapping>::empty());
    assert(one.last() == m);
    assert(release_all(e1, c1, Seq::<Mapping>::empty()) == (e1, c1, Seq::<u64>::empty()));
    let k = frame_slot(e1, m.pa, 0);
    lemma_frame_slot(e1, m.pa, 0);
    let (e2, c2, r) = dec_model(e1, c1, m.pa);
    lemma_frame_slot(e2, m.pa, 0);
    if e1[k].refcount <= 1 {
        assert forall|j: int| 0 <= j < e2.len() implies (#[trigger] e2[j]).pa != m.pa by {
            if j != k {
                assert(e2[j] == e1[j]);
                assert(e1[j] == e[j]);
            }
        }
        assert(frame_slot(e2, m.pa, 0) == e2.len());
    } else {
        assert(frame_slot(e2, m.pa, 0) == k) by {
            let f = frame_slot(e2, m.pa, 0);
            assert(e2[k].pa == m.pa);
            if f < k {
                assert(e2[f] == e1[f]);
            }
        }
    }
}

} // verus!
