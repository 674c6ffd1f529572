//! Hardware runs: the `(start, length)` ranges a shadow operation hands to
//! the page-table code, sorted and with touching runs merged, so that each
//! contiguous range is programmed once.
use vstd::prelude::*;

verus! {

/// `a` orders before or with `b`: by start, then by length.
pub open spec fn run_le(a: (u64, u64), b: (u64, u64)) -> bool {
    a.0 < b.0 || (a.0 == b.0 && a.1 <= b.1)
}

/// `x` inserted into the sorted `s` after every run that orders before or
/// with it.
pub open spec fn insert_run(s: Seq<(u64, u64)>, x: (u64, u64)) -> Seq<(u64, u64)>
    decreases s.len(),
{
    if s.len() == 0 {
        seq![x]
    } else if run_le(s.last(), x) {
        s.push(x)
    } else {
        insert_run(s.drop_last(), x).push(s.last())
    }
}

/// `s` sorted by start, then length.
pub open spec fn sort_runs(s: Seq<(u64, u64)>) -> Seq<(u64, u64)>
    decreases s.len(),
{
    if s.len() == 0 {
        Seq::empty()
    } else {
        insert_run(sort_runs(s.drop_last()), s.last())
    }
}

/// The runs of `s`, in order, with each run that starts where the previous
/// one ends merged into it.
pub open spec fn merge_runs(s: Seq<(u64, u64)>) -> Seq<(u64, u64)>
    decreases s.len(),
{
    if s.len() == 0 {
        Seq::empty()
    } else {
        let r = merge_runs(s.drop_last());
        let x = s.last();
        if r.len() > 0 && r.last().0 + r.last().1 == x.0 {
            r.drop_last().push((r.last().0, (r.last().1 + x.1) as u64))
        } else {
            r.push(x)
        }
    }
}

/// No run of `s` wraps past the end of the address space.
pub open spec fn runs_bounded(s: Seq<(u64, u64)>) -> bool {
    forall|k: int| 0 <= k < s.len() ==> (#[trigger] s[k]).0 + s[k].1 <= u64::MAX
}

/// The runs of `s`, sorted, with touching runs merged.
pub open spec fn coalesced(s: Seq<(u64, u64)>) -> Seq<(u64, u64)> {
    merge_runs(sort_runs(s))
}

proof fn lemma_insert_bounded(s: Seq<(u64, u64)>, x: (u64, u64))
    requires
        runs_bounded(s),
        x.0 + x.1 <= u64::MAX,
    ensures
        runs_bounded(insert_run(s, x)),
        insert_run(s, x).len() == s.len() + 1,
    decreases s.len(),
{
    if s.len() > 0 && !run_le(s.last(), x) {
        let d = s.drop_last();
        assert(runs_bounded(d)) by {
            assert forall|k: int| 0 <= k < d.len() implies (#[trigger] d[k]).0 + d[k].1 <= u64::MAX by {
                assert(d[k] == s[k]);
            }
        }
        lemma_insert_bounded(d, x);
        let r = insert_run(d, x);
        assert forall|k: int| 0 <= k < r.push(s.last()).len() implies (#[trigger] r.push(s.last())[k]).0
            + r.push(s.last())[k].1 <= u64::MAX by {
            if k < r.len() {
                assert(r.push(s.last())[k] == r[k]);
            }
        }
    } else if s.len() > 0 {
        assert forall|k: int| 0 <= k < s.push(x).len() implies (#[trigger] s.push(x)[k]).0 + s.push(x)[k].1
            <= u64::MAX by {
            if k < s.len() {
                assert(s.push(x)[k] == s[k]);
            }
        }
    }
}

/// `x` inserted into the sorted runs `s`.
fn insert_run_exec(s: Vec<(u64, u64)>, x: (u64, u64)) -> (r: Vec<(u64, u64)>)
    ensures
        r@ == insert_run(s@, x),
    decreases s@.len(),
{
    let mut s = s;
    match s.pop() {
        None => {
            let mut r: Vec<(u64, u64)> = Vec::new();
            r.push(x);
            assert(r@ =~= seq![x]);
            r
        },
        Some(last) => {
            if last.0 < x.0 || (last.0 == x.0 && last.1 <= x.1) {
                s.push(last);
                s.push(x);
                s
            } else {
                let mut r = insert_run_exec(s, x);
                r.push(last);
                r
            }
        },
    }
}

/// The runs of `runs`, sorted by start, with each run that starts where the
/// previous one ends merged into it.
pub fn coalesce_runs(runs: &[(u64, u64)]) -> (r: Vec<(u64, u64)>)
    requires
        runs_bounded(runs@),
    ensures
        r@ == coalesced(runs@),
{
    let mut sorted: Vec<(u64, u64)> = Vec::new();
    let mut i: usize = 0;
    while i < runs.len()
        invariant
            0 <= i <= runs@.len(),
            runs_bounded(runs@),
            sorted@ == sort_runs(runs@.take(i as int)),
            runs_bounded(sorted@),
        decreases runs@.len() - i,
    {
        assert(runs@.take(i + 1).drop_last() =~= runs@.take(i as int));
        assert(runs@[i as int].0 + runs@[i as int].1 <= u64::MAX);
        proof {
            lemma_insert_bounded(sorted@, runs@[i as int]);
        }
        sorted = insert_run_exec(sorted, runs[i]);
        i = i + 1;
    }
    assert(runs@.take(i as int) =~= runs@);
    let mut out: Vec<(u64, u64)> = Vec::new();
    let mut j: usize = 0;
    while j < sorted.len()
        invariant
            0 <= j <= sorted@.len(),
            runs_bounded(sorted@),
            out@ == merge_runs(sorted@.take(j as int)),
            runs_bounded(out@),
        decreases sorted@.len() - j,
    {
        assert(sorted@.take(j + 1).drop_last() =~= sorted@.take(j as int));
        let x = sorted[j];
        assert(x.0 + x.1 <= u64::MAX);
        let n = out.len();
        let mut merged = false;
        if n > 0 {
            let last = out[n - 1];
            assert(last == out@.last());
            if last.0 as u128 + last.1 as u128 == x.0 as u128 {
                out.set(n - 1, (last.0, last.1 + x.1));
                assert(out@ =~= merge_runs(sorted@.take(j as int)).drop_last().push((last.0, (last.1 + x.1) as u64)));
                merged = true;
            }
        }
        if !merged {
            out.push(x);
        }
        j = j + 1;
    }
    assert(sorted@.take(j as int) =~= sorted@);
    out
}

} // verus!
