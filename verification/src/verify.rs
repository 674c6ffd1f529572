//! Kernel invariants and verification infrastructure: PMM state checks and a
//! heap-free PMM stress test.
use vstd::prelude::*;
use crate::error::{KernelError, KernelResult, PmmError};
use crate::pmm::{PmmBitmap, FRAME_SIZE};

verus! {

#[derive(Debug, Clone, Copy, PartialEq, Eq, Structural)]
pub enum VerifyError {
    PmmLeakDetected { allocated_count: usize },
    PmmBitmapCorrupted,
    InvalidFrameState,
}

/// Check the PMM counters: the allocated count stays within the frame
/// count, and allocated + reserved frames fit in the frame count (so that
/// free + allocated + reserved adds up to it). `BitmapCorrupted` otherwise.
pub fn verify_pmm(pmm: &PmmBitmap) -> (r: KernelResult<()>)
    requires
        pmm.wf(),
    ensures
        r == (if pmm.spec_allocated_count() + pmm.spec_reserved_count() <= pmm.spec_total_frames() {
            Ok::<(), KernelError>(())
        } else {
            Err::<(), KernelError>(KernelError::Pmm(PmmError::BitmapCorrupted))
        }),
{
    proof {
        crate::pmm::law_pmm_counts(pmm);
    }
    if pmm.allocated_count() > pmm.total_frames() {
        return Err(KernelError::Pmm(PmmError::BitmapCorrupted));
    }
    if pmm.reserved_count() > pmm.total_frames() - pmm.allocated_count() {
        return Err(KernelError::Pmm(PmmError::BitmapCorrupted));
    }
    let computed_total = pmm.allocated_count() + pmm.reserved_count() + pmm.free_count();
    if computed_total != pmm.total_frames() {
        return Err(KernelError::Pmm(PmmError::BitmapCorrupted));
    }
    Ok(())
}

/// Most simultaneous allocations the stress test tracks.
pub const MAX_TRACKED: usize = 128;

/// Frames in use are those of `f0` plus the distinct, originally free frames
/// `idxs[0..count]`.
spec fn tracked_inv(frames: Seq<bool>, f0: Seq<bool>, idxs: Seq<int>, count: int) -> bool {
    &&& frames.len() == f0.len()
    &&& idxs.len() == MAX_TRACKED
    &&& forall|k: int| 0 <= k < count ==> 0 <= #[trigger] idxs[k] < f0.len() && !f0[idxs[k]]
    &&& forall|k1: int, k2: int|
        0 <= k1 < k2 < count ==> #[trigger] idxs[k1] != #[trigger] idxs[k2]
    &&& forall|j: int|
        0 <= j < f0.len() ==> #[trigger] frames[j] == (f0[j] || exists|k: int|
            0 <= k < count && idxs[k] == j)
    &&& count_true(frames) == count_true(f0) + count
}

/// Allocate and free pages for `cycles` rounds (two allocations for every
/// free, up to [`MAX_TRACKED`] live pages), checking the counters with
/// [`verify_pmm`] every round, then free what is left. When the counters
/// agree with the frame map (allocated + reserved = frames in use) every
/// check passes and the frame map and counters end as they began; a failed
/// check stops the test with `BitmapCorrupted`, leaving its pages
/// allocated.
pub fn stress_test_pmm(pmm: &mut PmmBitmap, cycles: usize) -> (r: KernelResult<()>)
    requires
        old(pmm).wf(),
    ensures
        final(pmm).wf(),
        final(pmm).spec_reserved_count() == old(pmm).spec_reserved_count(),
        final(pmm).spec_total_frames() == old(pmm).spec_total_frames(),
        final(pmm).spec_region_start() == old(pmm).spec_region_start(),
        old(pmm).spec_allocated_count() + old(pmm).spec_reserved_count() == old(pmm).used_count() ==> r == Ok::<
            (),
            KernelError,
        >(()),
        r is Ok ==> final(pmm).frames() == old(pmm).frames() && final(pmm).spec_allocated_count() == old(
            pmm,
        ).spec_allocated_count(),
        r is Err ==> r == Err::<(), KernelError>(KernelError::Pmm(PmmError::BitmapCorrupted)),
{
    let ghost f0 = pmm.frames();
    let ghost rs = pmm.spec_region_start();
    let ghost mut idxs: Seq<int> = Seq::new(MAX_TRACKED as nat, |k: int| 0int);
    let mut addrs: [u64; 128] = [0; 128];
    let mut count: usize = 0;
    let mut i: usize = 0;
    proof {
        crate::pmm::law_pmm_counts(pmm);
        assert(pmm.frames() =~= f0);
    }
    while i < cycles
        invariant
            pmm.wf(),
            0 <= count <= MAX_TRACKED,
            tracked_inv(pmm.frames(), f0, idxs, count as int),
            forall|k: int| 0 <= k < count ==> #[trigger] addrs@[k] == rs + idxs[k] * FRAME_SIZE,
            pmm.spec_allocated_count() == old(pmm).spec_allocated_count() + count,
            pmm.spec_reserved_count() == old(pmm).spec_reserved_count(),
            pmm.spec_total_frames() == f0.len(),
            pmm.spec_total_frames() == old(pmm).spec_total_frames(),
            pmm.spec_region_start() == rs,
            f0 == old(pmm).frames(),
            rs == old(pmm).spec_region_start(),
        decreases cycles - i,
    {
        let do_alloc = count == 0 || (i % 3 != 0 && count < MAX_TRACKED);
        if do_alloc {
            let ghost fb = pmm.frames();
            let res = pmm.allocate_page();
            match res {
                Ok(addr) => {
                    proof {
                        let j = first_clear(fb);
                        if j >= fb.len() {
                            assert(res is Err);
                        }
                        law_alloc_first_fit(fb);
                        lemma_push_tracked(pmm.frames(), fb, f0, idxs, count as int, j);
                        idxs = idxs.update(count as int, j);
                    }
                    addrs[count] = addr;
                    count = count + 1;
                },
                Err(_) => {},
            }
        } else if count > 0 {
            count = count - 1;
            let addr = addrs[count];
            let ghost fb = pmm.frames();
            let ghost j = idxs[count as int];
            proof {
                lemma_tracked_in_use(fb, f0, idxs, count as int + 1, count as int);
                crate::pmm::law_pmm_counts(pmm);
                lemma_frame_addr(rs, j, f0.len() as int);
            }
            match pmm.free_page(addr) {
                Ok(()) => {},
                Err(e) => return Err(KernelError::Pmm(e)),
            }
            proof {
                lemma_pop_tracked(pmm.frames(), fb, f0, idxs, count as int);
            }
        }
        proof {
            crate::pmm::law_pmm_counts(pmm);
        }
        match verify_pmm(pmm) {
            Ok(()) => {},
            Err(e) => return Err(e),
        }
        i = i + 1;
    }
    while count > 0
        invariant
            pmm.wf(),
            0 <= count <= MAX_TRACKED,
            tracked_inv(pmm.frames(), f0, idxs, count as int),
            forall|k: int| 0 <= k < count ==> #[trigger] addrs@[k] == rs + idxs[k] * FRAME_SIZE,
            pmm.spec_allocated_count() == old(pmm).spec_allocated_count() + count,
            pmm.spec_reserved_count() == old(pmm).spec_reserved_count(),
            pmm.spec_total_frames() == f0.len(),
            pmm.spec_total_frames() == old(pmm).spec_total_frames(),
            pmm.spec_region_start() == rs,
            f0 == old(pmm).frames(),
            rs == old(pmm).spec_region_start(),
        decreases count,
    {
        count = count - 1;
        let addr = addrs[count];
        let ghost fb = pmm.frames();
        let ghost j = idxs[count as int];
        proof {
            lemma_tracked_in_use(fb, f0, idxs, count as int + 1, count as int);
            crate::pmm::law_pmm_counts(pmm);
            lemma_frame_addr(rs, j, f0.len() as int);
        }
        match pmm.free_page(addr) {
            Ok(()) => {},
            Err(e) => return Err(KernelError::Pmm(e)),
        }
        proof {
            lemma_pop_tracked(pmm.frames(), fb, f0, idxs, count as int);
        }
    }
    proof {
        crate::pmm::law_pmm_counts(pmm);
        assert(pmm.frames() =~= f0);
    }
    match verify_pmm(pmm) {
        Ok(()) => {},
        Err(e) => return Err(e),
    }
    Ok(())
}

proof fn lemma_frame_addr(rs: u64, j: int, total: int)
    requires
        0 <= j < total,
        rs + total * FRAME_SIZE <= u64::MAX,
    ensures
        rs <= rs + j * FRAME_SIZE < rs + total * FRAME_SIZE,
        (rs + j * FRAME_SIZE - rs) / (FRAME_SIZE as int) == j,
{
    assert(j * FRAME_SIZE < total * FRAME_SIZE) by (nonlinear_arith)
        requires
            j < total,
    ;
}

proof fn lemma_tracked_in_use(frames: Seq<bool>, f0: Seq<bool>, idxs: Seq<int>, count: int, k: int)
    requires
        tracked_inv(frames, f0, idxs, count),
        0 <= k < count,
    ensures
        0 <= idxs[k] < frames.len(),
        frames[idxs[k]],
{
    assert(frames[idxs[k]]);
}

proof fn lemma_push_tracked(
    frames: Seq<bool>,
    fb: Seq<bool>,
    f0: Seq<bool>,
    idxs: Seq<int>,
    count: int,
    j: int,
)
    requires
        tracked_inv(fb, f0, idxs, count),
        0 <= count < MAX_TRACKED,
        0 <= j < fb.len(),
        !fb[j],
        frames == fb.update(j, true),
    ensures
        tracked_inv(frames, f0, idxs.update(count, j), count + 1),
{
    let n = idxs.update(count, j);
    crate::pmm::lemma_count_update(fb, j, true);
    assert(!f0[j]);
    assert forall|k: int| 0 <= k < count implies #[trigger] idxs[k] != j by {
        assert(fb[idxs[k]]);
    }
    assert forall|x: int| 0 <= x < f0.len() implies #[trigger] frames[x] == (f0[x] || exists|k: int|
        0 <= k < count + 1 && n[k] == x) by {
        if x == j {
            assert(n[count] == x);
        } else {
            if exists|k: int| 0 <= k < count && idxs[k] == x {
                let k = choose|k: int| 0 <= k < count && idxs[k] == x;
                assert(n[k] == x);
            }
            if exists|k: int| 0 <= k < count + 1 && n[k] == x {
                let k = choose|k: int| 0 <= k < count + 1 && n[k] == x;
                assert(idxs[k] == x);
            }
        }
    }
}

proof fn lemma_pop_tracked(frames: Seq<bool>, fb: Seq<bool>, f0: Seq<bool>, idxs: Seq<int>, count: int)
    requires
        tracked_inv(fb, f0, idxs, count + 1),
        0 <= count,
        frames == fb.update(idxs[count], false),
    ensures
        tracked_inv(frames, f0, idxs, count),
{
    let j = idxs[count];
    assert(fb[j]);
    crate::pmm::lemma_count_update(fb, j, false);
    assert forall|x: int| 0 <= x < f0.len() implies #[trigger] frames[x] == (f0[x] || exists|k: int|
        0 <= k < count && idxs[k] == x) by {
        if x == j {
            assert(!f0[x]);
            if exists|k: int| 0 <= k < count && idxs[k] == x {
                let k = choose|k: int| 0 <= k < count && idxs[k] == x;
                assert(idxs[k] != idxs[count]);
            }
        } else {
            if exists|k: int| 0 <= k < count + 1 && idxs[k] == x {
                let k = choose|k: int| 0 <= k < count + 1 && idxs[k] == x;
                assert(k != count);
            }
        }
    }
}

use crate::pmm::{count_true, first_clear, law_alloc_first_fit};

} // verus!
