//! Laws of the address-space shadow: what a permission change and an unmap
//! do to the addresses of the range and to those outside it.
use vstd::prelude::*;
use crate::vmm::address_space::{
    affected_of, cut, end_of, ends_ok, fill_pieces, fill_result, lazy_target, lazy_value, lemma_affected,
    lemma_hit_iff_overlaps, lemma_query, overlaps, page_of, protect_pieces, range_ok, unmap_pieces,
};
use crate::vmm::mapping::{hit, keep, Backing, Mapping, MappingFlags, PhysOwnership, VirtRange};

verus! {

/// Piece `m` covers address `va`.
pub open spec fn contains_va(m: Mapping, va: int) -> bool {
    m.virt_range.base <= va < end_of(m)
}

/// The pieces `keep` leaves are live pieces that no affected piece
/// identifies, and every such live piece is left.
proof fn lemma_keep_members(ms: Seq<Mapping>, aff: Seq<Mapping>)
    ensures
        forall|k: int| 0 <= k < keep(ms, aff).len() ==> exists|i: int|
            0 <= i < ms.len() && ms[i] == #[trigger] keep(ms, aff)[k] && !hit(aff, ms[i]),
        forall|i: int| 0 <= i < ms.len() && !hit(aff, #[trigger] ms[i]) ==> keep(ms, aff).contains(ms[i]),
    decreases ms.len(),
{
    if ms.len() > 0 {
        let d = ms.drop_last();
        lemma_keep_members(d, aff);
        let kd = keep(d, aff);
        let km = keep(ms, aff);
        assert forall|k: int| 0 <= k < km.len() implies exists|i: int|
            0 <= i < ms.len() && ms[i] == #[trigger] km[k] && !hit(aff, ms[i]) by {
            if k < kd.len() {
                assert(km[k] == kd[k]);
                let i = choose|i: int| 0 <= i < d.len() && d[i] == #[trigger] kd[k] && !hit(aff, d[i]);
                assert(ms[i] == d[i]);
            } else {
                assert(km[k] == ms[ms.len() - 1]);
            }
        }
        assert forall|i: int| 0 <= i < ms.len() && !hit(aff, #[trigger] ms[i]) implies km.contains(ms[i]) by {
            if i < ms.len() - 1 {
                assert(ms[i] == d[i]);
                let k = choose|k: int| 0 <= k < kd.len() && kd[k] == d[i];
                assert(km[k] == kd[k]);
            } else {
                assert(km[km.len() - 1] == ms[i]);
            }
        }
    }
}

/// The affected pieces overlap the range and end within the address space.
spec fn aff_ok(aff: Seq<Mapping>, v: int, e: int) -> bool {
    &&& forall|j: int| 0 <= j < aff.len() ==> overlaps(#[trigger] aff[j], v, e)
    &&& forall|j: int| 0 <= j < aff.len() ==> end_of(#[trigger] aff[j]) <= u64::MAX
    &&& 0 <= v < e <= u64::MAX
}

/// The pieces a permission change leaves inside the range have the new
/// permissions; those that reach into the range lie inside it; an address
/// of an affected piece is covered by a piece in the range (with the new
/// permissions) or, outside it, by one with the piece's own attributes.
proof fn lemma_protect_pieces(aff: Seq<Mapping>, v: int, e: int, f: MappingFlags)
    requires
        aff_ok(aff, v, e),
    ensures
        forall|k: int|
            0 <= k < protect_pieces(aff, v, e, f).len() && overlaps(#[trigger] protect_pieces(aff, v, e, f)[k], v, e)
                ==> v <= protect_pieces(aff, v, e, f)[k].virt_range.base && end_of(protect_pieces(aff, v, e, f)[k])
                <= e && protect_pieces(aff, v, e, f)[k].permissions == f,
        forall|j: int, va: int|
            0 <= j < aff.len() && v <= va < e && #[trigger] contains_va(aff[j], va) ==> exists|k: int|
                0 <= k < protect_pieces(aff, v, e, f).len() && #[trigger] contains_va(protect_pieces(aff, v, e, f)[k],
                    va,
                ),
        forall|j: int, va: int|
            0 <= j < aff.len() && !(v <= va < e) && #[trigger] contains_va(aff[j], va) ==> exists|k: int|
                0 <= k < protect_pieces(aff, v, e, f).len() && #[trigger] contains_va(protect_pieces(aff, v, e, f)[k],
                    va,
                ) && protect_pieces(aff, v, e, f)[k].permissions == aff[j].permissions
                    && protect_pieces(aff, v, e, f)[k].backing == aff[j].backing
                    && protect_pieces(aff, v, e, f)[k].object_id == aff[j].object_id,
    decreases aff.len(),
{
    if aff.len() > 0 {
        let d = aff.drop_last();
        assert(aff_ok(d, v, e)) by {
            assert forall|j: int| 0 <= j < d.len() implies overlaps(#[trigger] d[j], v, e) by {
                assert(d[j] == aff[j]);
            }
            assert forall|j: int| 0 <= j < d.len() implies end_of(#[trigger] d[j]) <= u64::MAX by {
                assert(d[j] == aff[j]);
            }
        }
        lemma_protect_pieces(d, v, e, f);
        let pd = protect_pieces(d, v, e, f);
        let pp = protect_pieces(aff, v, e, f);
        let m = aff.last();
        assert(overlaps(m, v, e) && end_of(m) <= u64::MAX);
        let b = m.virt_range.base as int;
        let en = end_of(m);
        let lo = if b < v { v } else { b };
        let hi = if en > e { e } else { en };
        let head = if b < v { seq![cut(m, b, v, m.permissions)] } else { Seq::<Mapping>::empty() };
        let tail = if en > e { seq![cut(m, e, en, m.permissions)] } else { Seq::<Mapping>::empty() };
        let mid = cut(m, lo, hi, f);
        assert(pp == pd + head + seq![mid] + tail);
        assert(mid.virt_range.base == lo && end_of(mid) == hi && mid.permissions == f);
        assert(b < v ==> head[0].virt_range.base == b && end_of(head[0]) == v && head[0].permissions
            == m.permissions && head[0].backing == m.backing && head[0].object_id == m.object_id);
        assert(en > e ==> tail[0].virt_range.base == e && end_of(tail[0]) == en && tail[0].permissions
            == m.permissions && tail[0].backing == m.backing && tail[0].object_id == m.object_id);
        let n1 = pd.len() as int;
        let n2 = n1 + head.len();
        let n3 = n2 + 1;
        assert forall|k: int| 0 <= k < pp.len() && overlaps(#[trigger] pp[k], v, e) implies v
            <= pp[k].virt_range.base && end_of(pp[k]) <= e && pp[k].permissions == f by {
            if k < n1 {
                assert(pp[k] == pd[k]);
            } else if k < n2 {
                assert(pp[k] == head[k - n1]);
            } else if k < n3 {
                assert(pp[k] == mid);
            } else {
                assert(pp[k] == tail[k - n3]);
            }
        }
        assert forall|j: int, va: int| 0 <= j < aff.len() && v <= va < e && #[trigger] contains_va(aff[j], va) implies exists|k: int|
            0 <= k < pp.len() && #[trigger] contains_va(pp[k], va) by {
            if j < aff.len() - 1 {
                assert(aff[j] == d[j]);
                let k = choose|k: int| 0 <= k < pd.len() && #[trigger] contains_va(pd[k], va);
                assert(pp[k] == pd[k]);
            } else {
                assert(pp[n2] == mid);
                assert(contains_va(pp[n2], va));
            }
        }
        assert forall|j: int, va: int| 0 <= j < aff.len() && !(v <= va < e) && #[trigger] contains_va(aff[j], va) implies exists|k: int|
            0 <= k < pp.len() && #[trigger] contains_va(pp[k], va) && pp[k].permissions == aff[j].permissions
                && pp[k].backing == aff[j].backing && pp[k].object_id == aff[j].object_id by {
            if j < aff.len() - 1 {
                assert(aff[j] == d[j]);
                let k = choose|k: int|
                    0 <= k < pd.len() && #[trigger] contains_va(pd[k], va) && pd[k].permissions == d[j].permissions
                        && pd[k].backing == d[j].backing && pd[k].object_id == d[j].object_id;
                assert(pp[k] == pd[k]);
            } else if va < v {
                assert(pp[n1] == head[0]);
                assert(contains_va(pp[n1], va));
            } else {
                assert(pp[n3] == tail[0]);
                assert(contains_va(pp[n3], va));
            }
        }
    }
}

/// A permission change affects exactly its range. Of the pieces it leaves
/// (the untouched pieces, then the pieces of the affected ones), every
/// piece that reaches into the range lies inside it and has the new
/// permissions; every address of the range that a piece covered is still
/// covered; every address outside the range is covered by a piece with the
/// permissions, backing and object of the piece that covered it before.
pub proof fn law_protect_exact(live: Seq<Mapping>, v: u64, size: u64, f: MappingFlags)
    requires
        ends_ok(live),
        range_ok(v, size),
    ensures
        ({
            let e = v + size;
            let aff = affected_of(live, v as int, e);
            let l2 = keep(live, aff) + protect_pieces(aff, v as int, e, f);
            &&& forall|k: int|
                0 <= k < l2.len() && overlaps(#[trigger] l2[k], v as int, e) ==> v <= l2[k].virt_range.base
                    && end_of(l2[k]) <= e && l2[k].permissions == f
            &&& forall|i: int, va: int|
                0 <= i < live.len() && v <= va < e && #[trigger] contains_va(live[i], va) ==> exists|k: int|
                    0 <= k < l2.len() && #[trigger] contains_va(l2[k], va)
            &&& forall|i: int, va: int|
                0 <= i < live.len() && !(v <= va < e) && #[trigger] contains_va(live[i], va) ==> exists|k: int|
                    0 <= k < l2.len() && #[trigger] contains_va(l2[k], va) && l2[k].permissions == live[i].permissions
                        && l2[k].backing == live[i].backing && l2[k].object_id == live[i].object_id
        }),
{
    let e = v + size;
    let vi = v as int;
    let aff = affected_of(live, vi, e);
    lemma_affected(live, vi, e);
    lemma_hit_iff_overlaps(live, vi, e);
    lemma_keep_members(live, aff);
    assert(aff_ok(aff, vi, e)) by {
        assert forall|j: int| 0 <= j < aff.len() implies end_of(#[trigger] aff[j]) <= u64::MAX by {
            let i = choose|i: int| 0 <= i < live.len() && live[i] == aff[j];
            assert(end_of(live[i]) <= u64::MAX);
        }
    }
    lemma_protect_pieces(aff, vi, e, f);
    let kp = keep(live, aff);
    let pp = protect_pieces(aff, vi, e, f);
    let l2 = kp + pp;
    let n = kp.len() as int;
    assert forall|k: int| 0 <= k < l2.len() && overlaps(#[trigger] l2[k], vi, e) implies v <= l2[k].virt_range.base
        && end_of(l2[k]) <= e && l2[k].permissions == f by {
        if k < n {
            assert(l2[k] == kp[k]);
            let i = choose|i: int| 0 <= i < live.len() && live[i] == #[trigger] kp[k] && !hit(aff, live[i]);
            assert(!overlaps(live[i], vi, e));
        } else {
            assert(l2[k] == pp[k - n]);
        }
    }
    assert forall|i: int, va: int| 0 <= i < live.len() && vi <= va < e && #[trigger] contains_va(live[i], va) implies exists|k: int|
        0 <= k < l2.len() && #[trigger] contains_va(l2[k], va) by {
        assert(overlaps(live[i], vi, e));
        let j = choose|j: int| 0 <= j < aff.len() && aff[j] == live[i];
        assert(contains_va(aff[j], va));
        let t = choose|t: int| 0 <= t < pp.len() && #[trigger] contains_va(pp[t], va);
        assert(l2[n + t] == pp[t]);
    }
    assert forall|i: int, va: int| 0 <= i < live.len() && !(vi <= va < e) && #[trigger] contains_va(live[i], va) implies exists|k: int|
        0 <= k < l2.len() && #[trigger] contains_va(l2[k], va) && l2[k].permissions == live[i].permissions
            && l2[k].backing == live[i].backing && l2[k].object_id == live[i].object_id by {
        if overlaps(live[i], vi, e) {
            let j = choose|j: int| 0 <= j < aff.len() && aff[j] == live[i];
            assert(contains_va(aff[j], va));
            let t = choose|t: int|
                0 <= t < pp.len() && #[trigger] contains_va(pp[t], va) && pp[t].permissions == aff[j].permissions
                    && pp[t].backing == aff[j].backing && pp[t].object_id == aff[j].object_id;
            assert(l2[n + t] == pp[t]);
        } else {
            assert(!hit(aff, live[i]));
            let k = choose|k: int| 0 <= k < kp.len() && kp[k] == live[i];
            assert(l2[k] == kp[k]);
        }
    }
}

} // verus!

verus! {

/// The pieces an unmap leaves of the affected pieces lie outside the range,
/// and an address of an affected piece outside the range is covered by one
/// of them with the piece's own attributes.
proof fn lemma_unmap_pieces(aff: Seq<Mapping>, v: int, e: int)
    requires
        aff_ok(aff, v, e),
    ensures
        forall|k: int| 0 <= k < unmap_pieces(aff, v, e).len() ==> !overlaps(#[trigger] unmap_pieces(aff, v, e)[k], v, e),
        forall|j: int, va: int|
            0 <= j < aff.len() && !(v <= va < e) && #[trigger] contains_va(aff[j], va) ==> exists|k: int|
                0 <= k < unmap_pieces(aff, v, e).len() && #[trigger] contains_va(unmap_pieces(aff, v, e)[k], va)
                    && unmap_pieces(aff, v, e)[k].permissions == aff[j].permissions
                    && unmap_pieces(aff, v, e)[k].backing == aff[j].backing
                    && unmap_pieces(aff, v, e)[k].object_id == aff[j].object_id,
    decreases aff.len(),
{
    if aff.len() > 0 {
        let d = aff.drop_last();
        assert(aff_ok(d, v, e)) by {
            assert forall|j: int| 0 <= j < d.len() implies overlaps(#[trigger] d[j], v, e) by {
                assert(d[j] == aff[j]);
            }
            assert forall|j: int| 0 <= j < d.len() implies end_of(#[trigger] d[j]) <= u64::MAX by {
                assert(d[j] == aff[j]);
            }
        }
        lemma_unmap_pieces(d, v, e);
        let pd = unmap_pieces(d, v, e);
        let pp = unmap_pieces(aff, v, e);
        let m = aff.last();
        assert(overlaps(m, v, e) && end_of(m) <= u64::MAX);
        let b = m.virt_range.base as int;
        let en = end_of(m);
        let head = if b < v { seq![cut(m, b, v, m.permissions)] } else { Seq::<Mapping>::empty() };
        let tail = if en > e { seq![cut(m, e, en, m.permissions)] } else { Seq::<Mapping>::empty() };
        assert(pp == pd + head + tail);
        assert(b < v ==> head[0].virt_range.base == b && end_of(head[0]) == v && head[0].permissions
            == m.permissions && head[0].backing == m.backing && head[0].object_id == m.object_id);
        assert(en > e ==> tail[0].virt_range.base == e && end_of(tail[0]) == en && tail[0].permissions
            == m.permissions && tail[0].backing == m.backing && tail[0].object_id == m.object_id);
        let n1 = pd.len() as int;
        let n2 = n1 + head.len();
        assert forall|k: int| 0 <= k < pp.len() implies !overlaps(#[trigger] pp[k], v, e) by {
            if k < n1 {
                assert(pp[k] == pd[k]);
            } else if k < n2 {
                assert(pp[k] == head[k - n1]);
            } else {
                assert(pp[k] == tail[k - n2]);
            }
        }
        assert forall|j: int, va: int| 0 <= j < aff.len() && !(v <= va < e) && #[trigger] contains_va(aff[j], va) implies exists|k: int|
            0 <= k < pp.len() && #[trigger] contains_va(pp[k], va) && pp[k].permissions == aff[j].permissions
                && pp[k].backing == aff[j].backing && pp[k].object_id == aff[j].object_id by {
            if j < aff.len() - 1 {
                assert(aff[j] == d[j]);
                let k = choose|k: int|
                    0 <= k < pd.len() && #[trigger] contains_va(pd[k], va) && pd[k].permissions == d[j].permissions
                        && pd[k].backing == d[j].backing && pd[k].object_id == d[j].object_id;
                assert(pp[k] == pd[k]);
            } else if va < v {
                assert(pp[n1] == head[0]);
                assert(contains_va(pp[n1], va));
            } else {
                assert(pp[n2] == tail[0]);
                assert(contains_va(pp[n2], va));
            }
        }
    }
}

/// An unmap removes exactly its range. No piece it leaves (the untouched
/// pieces, then the outer parts of the affected ones) reaches into the
/// range, and every address outside the range is covered by a piece with
/// the permissions, backing and object of the piece that covered it before.
pub proof fn law_unmap_exact(live: Seq<Mapping>, v: u64, size: u64)
    requires
        ends_ok(live),
        range_ok(v, size),
    ensures
        ({
            let e = v + size;
            let aff = affected_of(live, v as int, e);
            let l2 = keep(live, aff) + unmap_pieces(aff, v as int, e);
            &&& forall|k: int| 0 <= k < l2.len() ==> !overlaps(#[trigger] l2[k], v as int, e)
            &&& forall|i: int, va: int|
                0 <= i < live.len() && !(v <= va < e) && #[trigger] contains_va(live[i], va) ==> exists|k: int|
                    0 <= k < l2.len() && #[trigger] contains_va(l2[k], va) && l2[k].permissions == live[i].permissions
                        && l2[k].backing == live[i].backing && l2[k].object_id == live[i].object_id
        }),
{
    let e = v + size;
    let vi = v as int;
    let aff = affected_of(live, vi, e);
    lemma_affected(live, vi, e);
    lemma_hit_iff_overlaps(live, vi, e);
    lemma_keep_members(live, aff);
    assert(aff_ok(aff, vi, e)) by {
        assert forall|j: int| 0 <= j < aff.len() implies end_of(#[trigger] aff[j]) <= u64::MAX by {
            let i = choose|i: int| 0 <= i < live.len() && live[i] == aff[j];
            assert(end_of(live[i]) <= u64::MAX);
        }
    }
    lemma_unmap_pieces(aff, vi, e);
    let kp = keep(live, aff);
    let pp = unmap_pieces(aff, vi, e);
    let l2 = kp + pp;
    let n = kp.len() as int;
    assert forall|k: int| 0 <= k < l2.len() implies !overlaps(#[trigger] l2[k], vi, e) by {
        if k < n {
            assert(l2[k] == kp[k]);
            let i = choose|i: int| 0 <= i < live.len() && live[i] == #[trigger] kp[k] && !hit(aff, live[i]);
            assert(!overlaps(live[i], vi, e));
        } else {
            assert(l2[k] == pp[k - n]);
        }
    }
    assert forall|i: int, va: int| 0 <= i < live.len() && !(vi <= va < e) && #[trigger] contains_va(live[i], va) implies exists|k: int|
        0 <= k < l2.len() && #[trigger] contains_va(l2[k], va) && l2[k].permissions == live[i].permissions
            && l2[k].backing == live[i].backing && l2[k].object_id == live[i].object_id by {
        if overlaps(live[i], vi, e) {
            let j = choose|j: int| 0 <= j < aff.len() && aff[j] == live[i];
            assert(contains_va(aff[j], va));
            let t = choose|t: int|
                0 <= t < pp.len() && #[trigger] contains_va(pp[t], va) && pp[t].permissions == aff[j].permissions
                    && pp[t].backing == aff[j].backing && pp[t].object_id == aff[j].object_id;
            assert(l2[n + t] == pp[t]);
        } else {
            assert(!hit(aff, live[i]));
            let k = choose|k: int| 0 <= k < kp.len() && kp[k] == live[i];
            assert(l2[k] == kp[k]);
        }
    }
}

} // verus!

verus! {

/// A demand fill is page granular: after filling the page of a fault at
/// `va` with `frame`, exactly that page is a Present piece on `frame`, owned
/// anonymously, with the piece's permissions; every other address of the
/// filled piece stays LazyAnonymous with the same permissions; every other
/// piece is left as it was.
pub proof fn law_fill_page_granular(ms: Seq<Mapping>, va: u64, write: bool, frame: u64)
    requires
        ends_ok(ms),
        lazy_target(ms, va, write) is Some,
        fill_result(ms, lazy_target(ms, va, write)->0, page_of(va) as int, frame, lazy_target(ms, va, write)->0.permissions) is Some,
    ensures
        ({
            let m = lazy_target(ms, va, write)->0;
            let page = page_of(va) as int;
            let l = fill_result(ms, m, page, frame, m.permissions)->0;
            &&& exists|k: int|
                0 <= k < l.len() && (#[trigger] l[k]).virt_range == (VirtRange { base: page as u64, size: 4096 })
                    && l[k].backing == Backing::Present && l[k].pa == frame && l[k].phys == PhysOwnership::Anonymous
                    && l[k].permissions == m.permissions
            &&& forall|va2: int|
                #[trigger] contains_va(m, va2) && !(page <= va2 < page + 4096) ==> exists|k: int|
                    0 <= k < l.len() && #[trigger] contains_va(l[k], va2) && l[k].backing == Backing::LazyAnonymous
                        && l[k].permissions == m.permissions
            &&& forall|i: int| 0 <= i < ms.len() && (#[trigger] ms[i]).virt_range != m.virt_range ==> l.contains(ms[i])
        }),
{
    let m = lazy_target(ms, va, write)->0;
    let page = page_of(va) as int;
    let l = fill_result(ms, m, page, frame, m.permissions)->0;
    lemma_query(ms, page);
    let j = choose|j: int| 0 <= j < ms.len() && ms[j] == m;
    assert(end_of(ms[j]) <= u64::MAX);
    let aff = seq![lazy_value(m)];
    lemma_keep_members(ms, aff);
    let sv = keep(ms, aff);
    let p = fill_pieces(m, page, frame, m.permissions);
    assert(l == sv + p);
    let b = m.virt_range.base as int;
    let en = end_of(m);
    let head_len: int = if b < page { 1 } else { 0 };
    let n = sv.len() as int;
    assert(p[head_len].virt_range == (VirtRange { base: page as u64, size: 4096 }));
    assert(l[n + head_len] == p[head_len]);
    assert forall|va2: int| #[trigger] contains_va(m, va2) && !(page <= va2 < page + 4096) implies exists|k: int|
        0 <= k < l.len() && #[trigger] contains_va(l[k], va2) && l[k].backing == Backing::LazyAnonymous
            && l[k].permissions == m.permissions by {
        if va2 < page {
            assert(l[n] == p[0]);
            assert(contains_va(l[n], va2));
        } else {
            assert(l[n + head_len + 1] == p[head_len + 1]);
            assert(contains_va(l[n + head_len + 1], va2));
        }
    }
    assert forall|i: int| 0 <= i < ms.len() && (#[trigger] ms[i]).virt_range != m.virt_range implies l.contains(ms[i]) by {
        if hit(aff, ms[i]) {
            let k = choose|k: int| 0 <= k < aff.len() && (#[trigger] aff[k]).virt_range == ms[i].virt_range;
            assert(aff[k] == lazy_value(m));
        }
        let k = choose|k: int| 0 <= k < sv.len() && sv[k] == ms[i];
        assert(l[k] == sv[k]);
    }
}

} // verus!

verus! {

/// `a` lies within `b`.
pub open spec fn within(a: Mapping, b: Mapping) -> bool {
    b.virt_range.base <= a.virt_range.base && end_of(a) <= end_of(b)
}

/// The affected pieces of a shadow without overlaps overlap neither.
proof fn lemma_affected_disjoint(ms: Seq<Mapping>, v: int, e: int)
    requires
        crate::vmm::address_space::disjoint(ms),
    ensures
        crate::vmm::address_space::disjoint(affected_of(ms, v, e)),
    decreases ms.len(),
{
    if ms.len() > 0 {
        let d = ms.drop_last();
        assert(crate::vmm::address_space::disjoint(d)) by {
            assert forall|i: int, j: int|
                0 <= i < d.len() && 0 <= j < d.len() && i != j implies !overlaps(
                #[trigger] d[i],
                (#[trigger] d[j]).virt_range.base as int,
                end_of(d[j]),
            ) by {
                assert(d[i] == ms[i] && d[j] == ms[j]);
            }
        }
        lemma_affected_disjoint(d, v, e);
        lemma_affected(d, v, e);
        let ad = affected_of(d, v, e);
        let a = affected_of(ms, v, e);
        let last = ms.last();
        if overlaps(last, v, e) {
            assert(a == ad.push(last));
            assert forall|i: int, j: int|
                0 <= i < a.len() && 0 <= j < a.len() && i != j implies !overlaps(
                #[trigger] a[i],
                (#[trigger] a[j]).virt_range.base as int,
                end_of(a[j]),
            ) by {
                if i < ad.len() && j < ad.len() {
                    assert(a[i] == ad[i] && a[j] == ad[j]);
                } else if i < ad.len() {
                    assert(a[i] == ad[i]);
                    let p = choose|p: int| 0 <= p < d.len() && d[p] == ad[i];
                    assert(ms[p] == d[p]);
                    assert(!overlaps(ms[p], ms[ms.len() - 1].virt_range.base as int, end_of(ms[ms.len() - 1])));
                } else {
                    assert(a[j] == ad[j]);
                    let p = choose|p: int| 0 <= p < d.len() && d[p] == ad[j];
                    assert(ms[p] == d[p]);
                    assert(!overlaps(ms[ms.len() - 1], ms[p].virt_range.base as int, end_of(ms[p])));
                }
            }
        }
    }
}

/// Every piece a permission change leaves of the affected pieces lies
/// within one of them, and the pieces overlap each other nowhere when the
/// affected pieces do not.
proof fn lemma_protect_pieces_disjoint(aff: Seq<Mapping>, v: int, e: int, f: MappingFlags)
    requires
        aff_ok(aff, v, e),
        crate::vmm::address_space::disjoint(aff),
    ensures
        forall|k: int| 0 <= k < protect_pieces(aff, v, e, f).len() ==> exists|j: int|
            0 <= j < aff.len() && within(#[trigger] protect_pieces(aff, v, e, f)[k], aff[j]),
        crate::vmm::address_space::disjoint(protect_pieces(aff, v, e, f)),
    decreases aff.len(),
{
    if aff.len() > 0 {
        let d = aff.drop_last();
        assert(aff_ok(d, v, e)) by {
            assert forall|j: int| 0 <= j < d.len() implies overlaps(#[trigger] d[j], v, e) by {
                assert(d[j] == aff[j]);
            }
            assert forall|j: int| 0 <= j < d.len() implies end_of(#[trigger] d[j]) <= u64::MAX by {
                assert(d[j] == aff[j]);
            }
        }
        assert(crate::vmm::address_space::disjoint(d)) by {
            assert forall|i: int, j: int|
                0 <= i < d.len() && 0 <= j < d.len() && i != j implies !overlaps(
                #[trigger] d[i],
                (#[trigger] d[j]).virt_range.base as int,
                end_of(d[j]),
            ) by {
                assert(d[i] == aff[i] && d[j] == aff[j]);
            }
        }
        lemma_protect_pieces_disjoint(d, v, e, f);
        let pd = protect_pieces(d, v, e, f);
        let pp = protect_pieces(aff, v, e, f);
        let m = aff.last();
        let li = aff.len() - 1;
        assert(overlaps(m, v, e) && end_of(m) <= u64::MAX);
        let b = m.virt_range.base as int;
        let en = end_of(m);
        let lo = if b < v { v } else { b };
        let hi = if en > e { e } else { en };
        let head = if b < v { seq![cut(m, b, v, m.permissions)] } else { Seq::<Mapping>::empty() };
        let tail = if en > e { seq![cut(m, e, en, m.permissions)] } else { Seq::<Mapping>::empty() };
        let mid = cut(m, lo, hi, f);
        assert(pp == pd + head + seq![mid] + tail);
        let n1 = pd.len() as int;
        let n2 = n1 + head.len();
        let n3 = n2 + 1;
        assert(mid.virt_range.base == lo && end_of(mid) == hi);
        assert(b < v ==> head[0].virt_range.base == b && end_of(head[0]) == v);
        assert(en > e ==> tail[0].virt_range.base == e && end_of(tail[0]) == en);
        // Pieces of the last affected piece lie within it, in order.
        assert forall|k: int| n1 <= k < pp.len() implies within(#[trigger] pp[k], m) && (k < n2 ==> end_of(pp[k])
            <= lo) && (k == n2 ==> pp[k] == mid) && (k > n2 ==> hi <= pp[k].virt_range.base) by {
            if k < n2 {
                assert(pp[k] == head[k - n1]);
            } else if k == n2 {
                assert(pp[k] == mid);
            } else {
                assert(pp[k] == tail[k - n3]);
            }
        }
        assert forall|k: int| 0 <= k < pp.len() implies exists|j: int| 0 <= j < aff.len() && within(#[trigger] pp[k], aff[j]) by {
            if k < n1 {
                assert(pp[k] == pd[k]);
                let j = choose|j: int| 0 <= j < d.len() && within(pd[k], d[j]);
                assert(aff[j] == d[j]);
            } else {
                assert(within(pp[k], aff[li]));
            }
        }
        assert forall|i: int, j: int|
            0 <= i < pp.len() && 0 <= j < pp.len() && i != j implies !overlaps(
            #[trigger] pp[i],
            (#[trigger] pp[j]).virt_range.base as int,
            end_of(pp[j]),
        ) by {
            if i < n1 && j < n1 {
                assert(pp[i] == pd[i] && pp[j] == pd[j]);
            } else if i < n1 {
                assert(pp[i] == pd[i]);
                let ji = choose|ji: int| 0 <= ji < d.len() && within(pd[i], d[ji]);
                assert(aff[ji] == d[ji]);
                assert(!overlaps(aff[ji], aff[li].virt_range.base as int, end_of(aff[li])));
                assert(within(pp[j], m));
            } else if j < n1 {
                assert(pp[j] == pd[j]);
                let jj = choose|jj: int| 0 <= jj < d.len() && within(pd[j], d[jj]);
                assert(aff[jj] == d[jj]);
                assert(!overlaps(aff[li], aff[jj].virt_range.base as int, end_of(aff[jj])));
                assert(within(pp[i], m));
            } else {
                assert(within(pp[i], m) && within(pp[j], m));
            }
        }
    }
}

/// A permission change keeps the shadow free of overlaps: when no two live
/// pieces overlap, no two of the pieces it leaves do.
pub proof fn law_protect_keeps_disjoint(live: Seq<Mapping>, v: u64, size: u64, f: MappingFlags)
    requires
        ends_ok(live),
        crate::vmm::address_space::disjoint(live),
        range_ok(v, size),
    ensures
        crate::vmm::address_space::disjoint(
            keep(live, affected_of(live, v as int, v + size)) + protect_pieces(
                affected_of(live, v as int, v + size),
                v as int,
                v + size,
                f,
            ),
        ),
{
    let e = v + size;
    let vi = v as int;
    let aff = affected_of(live, vi, e);
    lemma_affected(live, vi, e);
    lemma_hit_iff_overlaps(live, vi, e);
    lemma_keep_members(live, aff);
    lemma_affected_disjoint(live, vi, e);
    assert(aff_ok(aff, vi, e)) by {
        assert forall|j: int| 0 <= j < aff.len() implies end_of(#[trigger] aff[j]) <= u64::MAX by {
            let i = choose|i: int| 0 <= i < live.len() && live[i] == aff[j];
            assert(end_of(live[i]) <= u64::MAX);
        }
    }
    lemma_protect_pieces_disjoint(aff, vi, e, f);
    let kp = keep(live, aff);
    let pp = protect_pieces(aff, vi, e, f);
    let l2 = kp + pp;
    let n = kp.len() as int;
    assert forall|i: int, j: int|
        0 <= i < l2.len() && 0 <= j < l2.len() && i != j implies !overlaps(
        #[trigger] l2[i],
        (#[trigger] l2[j]).virt_range.base as int,
        end_of(l2[j]),
    ) by {
        if i < n && j < n {
            assert(l2[i] == kp[i] && l2[j] == kp[j]);
            assert(crate::vmm::address_space::disjoint(kp)) by {
                lemma_keep_disjoint(live, aff);
            }
        } else if i < n {
            assert(l2[i] == kp[i] && l2[j] == pp[j - n]);
            let a = choose|a: int| 0 <= a < live.len() && live[a] == #[trigger] kp[i] && !hit(aff, live[a]);
            let q = choose|q: int| 0 <= q < aff.len() && within(#[trigger] pp[j - n], aff[q]);
            let c = choose|c: int| 0 <= c < live.len() && live[c] == aff[q];
            assert(a != c) by {
                if a == c {
                    assert(aff[q].virt_range == live[a].virt_range);
                }
            }
            assert(!overlaps(live[a], live[c].virt_range.base as int, end_of(live[c])));
        } else if j < n {
            assert(l2[j] == kp[j] && l2[i] == pp[i - n]);
            let a = choose|a: int| 0 <= a < live.len() && live[a] == #[trigger] kp[j] && !hit(aff, live[a]);
            let q = choose|q: int| 0 <= q < aff.len() && within(#[trigger] pp[i - n], aff[q]);
            let c = choose|c: int| 0 <= c < live.len() && live[c] == aff[q];
            assert(a != c) by {
                if a == c {
                    assert(aff[q].virt_range == live[a].virt_range);
                }
            }
            assert(!overlaps(live[c], live[a].virt_range.base as int, end_of(live[a])));
        } else {
            assert(l2[i] == pp[i - n] && l2[j] == pp[j - n]);
        }
    }
}

/// The pieces `keep` leaves of a shadow without overlaps overlap neither.
proof fn lemma_keep_disjoint(ms: Seq<Mapping>, aff: Seq<Mapping>)
    requires
        crate::vmm::address_space::disjoint(ms),
    ensures
        crate::vmm::address_space::disjoint(keep(ms, aff)),
    decreases ms.len(),
{
    if ms.len() > 0 {
        let d = ms.drop_last();
        assert(crate::vmm::address_space::disjoint(d)) by {
            assert forall|i: int, j: int|
                0 <= i < d.len() && 0 <= j < d.len() && i != j implies !overlaps(
                #[trigger] d[i],
                (#[trigger] d[j]).virt_range.base as int,
                end_of(d[j]),
            ) by {
                assert(d[i] == ms[i] && d[j] == ms[j]);
            }
        }
        lemma_keep_disjoint(d, aff);
        lemma_keep_members(d, aff);
        let kd = keep(d, aff);
        let km = keep(ms, aff);
        if !hit(aff, ms.last()) {
            assert(km == kd.push(ms.last()));
            assert forall|i: int, j: int|
                0 <= i < km.len() && 0 <= j < km.len() && i != j implies !overlaps(
                #[trigger] km[i],
                (#[trigger] km[j]).virt_range.base as int,
                end_of(km[j]),
            ) by {
                if i < kd.len() && j < kd.len() {
                    assert(km[i] == kd[i] && km[j] == kd[j]);
                } else if i < kd.len() {
                    assert(km[i] == kd[i]);
                    let p = choose|p: int| 0 <= p < d.len() && d[p] == #[trigger] kd[i] && !hit(aff, d[p]);
                    assert(ms[p] == d[p]);
                    assert(!overlaps(ms[p], ms[ms.len() - 1].virt_range.base as int, end_of(ms[ms.len() - 1])));
                } else {
                    assert(km[j] == kd[j]);
                    let p = choose|p: int| 0 <= p < d.len() && d[p] == #[trigger] kd[j] && !hit(aff, d[p]);
                    assert(ms[p] == d[p]);
                    assert(!overlaps(ms[ms.len() - 1], ms[p].virt_range.base as int, end_of(ms[p])));
                }
            }
        }
    }
}

} // verus!

verus! {

/// Every piece an unmap leaves of the affected pieces lies within one of
/// them, and the pieces overlap each other nowhere when the affected pieces
/// do not.
proof fn lemma_unmap_pieces_disjoint(aff: Seq<Mapping>, v: int, e: int)
    requires
        aff_ok(aff, v, e),
        crate::vmm::address_space::disjoint(aff),
    ensures
        forall|k: int| 0 <= k < unmap_pieces(aff, v, e).len() ==> exists|j: int|
            0 <= j < aff.len() && within(#[trigger] unmap_pieces(aff, v, e)[k], aff[j]),
        crate::vmm::address_space::disjoint(unmap_pieces(aff, v, e)),
    decreases aff.len(),
{
    if aff.len() > 0 {
        let d = aff.drop_last();
        assert(aff_ok(d, v, e)) by {
            assert forall|j: int| 0 <= j < d.len() implies overlaps(#[trigger] d[j], v, e) by {
                assert(d[j] == aff[j]);
            }
            assert forall|j: int| 0 <= j < d.len() implies end_of(#[trigger] d[j]) <= u64::MAX by {
                assert(d[j] == aff[j]);
            }
        }
        assert(crate::vmm::address_space::disjoint(d)) by {
            assert forall|i: int, j: int|
                0 <= i < d.len() && 0 <= j < d.len() && i != j implies !overlaps(
                #[trigger] d[i],
                (#[trigger] d[j]).virt_range.base as int,
                end_of(d[j]),
            ) by {
                assert(d[i] == aff[i] && d[j] == aff[j]);
            }
        }
        lemma_unmap_pieces_disjoint(d, v, e);
        let pd = unmap_pieces(d, v, e);
        let pp = unmap_pieces(aff, v, e);
        let m = aff.last();
        let li = aff.len() - 1;
        assert(overlaps(m, v, e) && end_of(m) <= u64::MAX);
        let b = m.virt_range.base as int;
        let en = end_of(m);
        let head = if b < v { seq![cut(m, b, v, m.permissions)] } else { Seq::<Mapping>::empty() };
        let tail = if en > e { seq![cut(m, e, en, m.permissions)] } else { Seq::<Mapping>::empty() };
        assert(pp == pd + head + tail);
        let n1 = pd.len() as int;
        let n2 = n1 + head.len();
        assert(b < v ==> head[0].virt_range.base == b && end_of(head[0]) == v);
        assert(en > e ==> tail[0].virt_range.base == e && end_of(tail[0]) == en);
        assert forall|k: int| n1 <= k < pp.len() implies within(#[trigger] pp[k], m) && (k < n2 ==> end_of(pp[k])
            <= v) && (k >= n2 ==> e <= pp[k].virt_range.base) by {
            if k < n2 {
                assert(pp[k] == head[k - n1]);
            } else {
                assert(pp[k] == tail[k - n2]);
            }
        }
        assert forall|k: int| 0 <= k < pp.len() implies exists|j: int| 0 <= j < aff.len() && within(#[trigger] pp[k], aff[j]) by {
            if k < n1 {
                assert(pp[k] == pd[k]);
                let j = choose|j: int| 0 <= j < d.len() && within(pd[k], d[j]);
                assert(aff[j] == d[j]);
            } else {
                assert(within(pp[k], aff[li]));
            }
        }
        assert forall|i: int, j: int|
            0 <= i < pp.len() && 0 <= j < pp.len() && i != j implies !overlaps(
            #[trigger] pp[i],
            (#[trigger] pp[j]).virt_range.base as int,
            end_of(pp[j]),
        ) by {
            if i < n1 && j < n1 {
                assert(pp[i] == pd[i] && pp[j] == pd[j]);
            } else if i < n1 {
                assert(pp[i] == pd[i]);
                let ji = choose|ji: int| 0 <= ji < d.len() && within(pd[i], d[ji]);
                assert(aff[ji] == d[ji]);
                assert(!overlaps(aff[ji], aff[li].virt_range.base as int, end_of(aff[li])));
                assert(within(pp[j], m));
            } else if j < n1 {
                assert(pp[j] == pd[j]);
                let jj = choose|jj: int| 0 <= jj < d.len() && within(pd[j], d[jj]);
                assert(aff[jj] == d[jj]);
                assert(!overlaps(aff[li], aff[jj].virt_range.base as int, end_of(aff[jj])));
                assert(within(pp[i], m));
            } else {
                assert(within(pp[i], m) && within(pp[j], m));
            }
        }
    }
}

/// An unmap keeps the shadow free of overlaps: when no two live pieces
/// overlap, no two of the pieces it leaves do.
pub proof fn law_unmap_keeps_disjoint(live: Seq<Mapping>, v: u64, size: u64)
    requires
        ends_ok(live),
        crate::vmm::address_space::disjoint(live),
        range_ok(v, size),
    ensures
        crate::vmm::address_space::disjoint(
            keep(live, affected_of(live, v as int, v + size)) + unmap_pieces(
                affected_of(live, v as int, v + size),
                v as int,
                v + size,
            ),
        ),
{
    let e = v + size;
    let vi = v as int;
    let aff = affected_of(live, vi, e);
    lemma_affected(live, vi, e);
    lemma_hit_iff_overlaps(live, vi, e);
    lemma_keep_members(live, aff);
    lemma_affected_disjoint(live, vi, e);
    assert(aff_ok(aff, vi, e)) by {
        assert forall|j: int| 0 <= j < aff.len() implies end_of(#[trigger] aff[j]) <= u64::MAX by {
            let i = choose|i: int| 0 <= i < live.len() && live[i] == aff[j];
            assert(end_of(live[i]) <= u64::MAX);
        }
    }
    lemma_unmap_pieces_disjoint(aff, vi, e);
    lemma_keep_disjoint(live, aff);
    let kp = keep(live, aff);
    let pp = unmap_pieces(aff, vi, e);
    let l2 = kp + pp;
    let n = kp.len() as int;
    assert forall|i: int, j: int|
        0 <= i < l2.len() && 0 <= j < l2.len() && i != j implies !overlaps(
        #[trigger] l2[i],
        (#[trigger] l2[j]).virt_range.base as int,
        end_of(l2[j]),
    ) by {
        if i < n && j < n {
            assert(l2[i] == kp[i] && l2[j] == kp[j]);
        } else if i < n {
            assert(l2[i] == kp[i] && l2[j] == pp[j - n]);
            let a = choose|a: int| 0 <= a < live.len() && live[a] == #[trigger] kp[i] && !hit(aff, live[a]);
            let q = choose|q: int| 0 <= q < aff.len() && within(#[trigger] pp[j - n], aff[q]);
            let c = choose|c: int| 0 <= c < live.len() && live[c] == aff[q];
            assert(a != c) by {
                if a == c {
                    assert(aff[q].virt_range == live[a].virt_range);
                }
            }
            assert(!overlaps(live[a], live[c].virt_range.base as int, end_of(live[c])));
        } else if j < n {
            assert(l2[j] == kp[j] && l2[i] == pp[i - n]);
            let a = choose|a: int| 0 <= a < live.len() && live[a] == #[trigger] kp[j] && !hit(aff, live[a]);
            let q = choose|q: int| 0 <= q < aff.len() && within(#[trigger] pp[i - n], aff[q]);
            let c = choose|c: int| 0 <= c < live.len() && live[c] == aff[q];
            assert(a != c) by {
                if a == c {
                    assert(aff[q].virt_range == live[a].virt_range);
                }
            }
            assert(!overlaps(live[c], live[a].virt_range.base as int, end_of(live[a])));
        } else {
            assert(l2[i] == pp[i - n] && l2[j] == pp[j - n]);
        }
    }
}

} // verus!
