//! The physical frame allocator as a memory backend: contiguous runs of
//! frames, page aligned.
use vstd::prelude::*;
use crate::memory::resource::{AllocError, MemoryBackend, MemoryProperties, PhysAddr};
use crate::pmm::{first_run, frame_index, mark_run, PhysFrame, PmmBitmap, FRAME_SIZE};

verus! {

/// Frames needed for `size` bytes.
pub open spec fn frames_for(size: u64) -> int {
    size as int / 4096 + (if size as int % 4096 != 0 {
        1int
    } else {
        0int
    })
}

/// The frame map after freeing the frame at `a` (ignored outside the
/// region or when free).
pub open spec fn free_one(f: Seq<bool>, start: u64, a: u64) -> Seq<bool> {
    let i = frame_index(start, a);
    if i < f.len() && f[i] {
        f.update(i, false)
    } else {
        f
    }
}

/// The frame map after freeing `n` frames from `addr` on, in order
/// (addresses wrap as the hardware's do).
pub open spec fn free_run(f: Seq<bool>, start: u64, addr: u64, n: nat) -> Seq<bool>
    decreases n,
{
    if n == 0 {
        f
    } else {
        free_one(free_run(f, start, addr, (n - 1) as nat), start, ((addr + (n - 1) * 4096) % 0x1_0000_0000_0000_0000) as u64)
    }
}

/// A memory backend serving page-aligned runs of frames from the bitmap
/// allocator.
pub struct PmmBackend {
    pmm: PmmBitmap,
    properties: MemoryProperties,
}

impl PmmBackend {
    #[verifier::type_invariant]
    spec fn inv(self) -> bool {
        self.pmm.wf()
    }

    pub closed spec fn allocator(&self) -> PmmBitmap {
        self.pmm
    }

    pub closed spec fn spec_properties(&self) -> MemoryProperties {
        self.properties
    }

    pub fn new(pmm: PmmBitmap, properties: MemoryProperties) -> (r: Self)
        requires
            pmm.wf(),
        ensures
            r.allocator() == pmm,
            r.spec_properties() == properties,
    {
        PmmBackend { pmm, properties }
    }

    /// A backend with the properties of system DRAM.
    pub fn new_dram(pmm: PmmBitmap) -> (r: Self)
        requires
            pmm.wf(),
        ensures
            r.allocator() == pmm,
            r.spec_properties() == MemoryProperties::dram_4gb_spec(),
    {
        Self::new(pmm, MemoryProperties::dram_4gb())
    }

    /// Move the allocator out, leaving an empty one in its place.
    fn take_pmm(&mut self) -> (p: PmmBitmap)
        ensures
            p == old(self).allocator(),
            p.wf(),
            final(self).spec_properties() == old(self).spec_properties(),
    {
        proof {
            use_type_invariant(&*self);
        }
        let mut p = PmmBitmap::init(0, 0);
        std::mem::swap(&mut self.pmm, &mut p);
        p
    }

    /// Put the allocator back.
    fn put_pmm(&mut self, p: PmmBitmap)
        requires
            p.wf(),
        ensures
            final(self).allocator() == p,
            final(self).spec_properties() == old(self).spec_properties(),
    {
        let mut q = p;
        std::mem::swap(&mut self.pmm, &mut q);
    }

    /// The allocator underneath.
    pub fn pmm(&self) -> (r: &PmmBitmap)
        ensures
            *r == self.allocator(),
            r.wf(),
    {
        proof {
            use_type_invariant(self);
        }
        &self.pmm
    }
}

impl MemoryBackend for PmmBackend {
    /// Whole frames for `size` bytes, the first free run that is long
    /// enough: `AlignmentNotSupported` for alignments above a frame,
    /// `OutOfCapacity` when there is no such run (or `size` is 0); the
    /// properties stay.
    open spec fn allocate_outcome(&self, size: u64, align: u64, r: Result<PhysAddr, AllocError>, after: Self) -> bool {
        &&& after.spec_properties() == self.spec_properties()
        &&& align > 4096 ==> r == Err::<PhysAddr, AllocError>(AllocError::AlignmentNotSupported)
            && after.allocator() == self.allocator()
        &&& align <= 4096 ==> {
            let f = self.allocator().frames();
            let n = frames_for(size);
            let i = first_run(f, n, 0);
            if n > 0 && n <= usize::MAX && i < f.len() {
                &&& r == Ok::<PhysAddr, AllocError>(self.allocator().frame_addr(i) as u64)
                &&& after.allocator().frames() == mark_run(f, i, n)
            } else {
                &&& r == Err::<PhysAddr, AllocError>(AllocError::OutOfCapacity)
                &&& after.allocator().frames() == f
            }
        }
    }

    /// A run of whole frames for `size` bytes: `AlignmentNotSupported` for
    /// alignments above a frame, `OutOfCapacity` when no free run is long
    /// enough (or `size` is 0).
    fn allocate(&mut self, size: u64, align: u64) -> (r: Result<PhysAddr, AllocError>)
        ensures
            final(self).spec_properties() == old(self).spec_properties(),
            align > 4096 ==> r == Err::<PhysAddr, AllocError>(AllocError::AlignmentNotSupported)
                && final(self).allocator() == old(self).allocator(),
            align <= 4096 ==> {
                let f = old(self).allocator().frames();
                let n = frames_for(size);
                let i = first_run(f, n, 0);
                if n > 0 && n <= usize::MAX && i < f.len() {
                    &&& r == Ok::<PhysAddr, AllocError>(old(self).allocator().frame_addr(i) as u64)
                    &&& final(self).allocator().frames() == mark_run(f, i, n)
                } else {
                    &&& r == Err::<PhysAddr, AllocError>(AllocError::OutOfCapacity)
                    &&& final(self).allocator().frames() == f
                }
            },
    {
        proof {
            use_type_invariant(&*self);
        }
        if align > 4096 {
            return Err(AllocError::AlignmentNotSupported);
        }
        let whole = size / 4096 + if size % 4096 != 0 { 1 } else { 0 };
        if whole > usize::MAX as u64 {
            return Err(AllocError::OutOfCapacity);
        }
        let n = whole as usize;
        let mut p = self.take_pmm();
        let r = p.alloc_contiguous(n);
        self.put_pmm(p);
        match r {
            Some(addr) => Ok(addr),
            None => Err(AllocError::OutOfCapacity),
        }
    }

    /// Free every frame of `size` bytes from `addr` on.
    fn deallocate(&mut self, addr: PhysAddr, size: u64)
        ensures
            final(self).spec_properties() == old(self).spec_properties(),
            frames_for(size) <= usize::MAX ==> final(self).allocator().frames() == free_run(
                old(self).allocator().frames(),
                old(self).allocator().spec_region_start(),
                addr,
                frames_for(size) as nat,
            ),
    {
        proof {
            use_type_invariant(&*self);
        }
        let whole = size / 4096 + if size % 4096 != 0 { 1 } else { 0 };
        if whole > usize::MAX as u64 {
            return;
        }
        let n = whole as usize;
        let mut p = self.take_pmm();
        let mut i: usize = 0;
        while i < n
            invariant
                0 <= i <= n,
                p.wf(),
                p.spec_region_start() == old(self).allocator().spec_region_start(),
                p.frames() == free_run(old(self).allocator().frames(), old(self).allocator().spec_region_start(), addr, i as nat),
            decreases n - i,
        {
            let a = addr.wrapping_add((i as u64).wrapping_mul(FRAME_SIZE));
            proof {
                assert(a == ((addr + i * 4096) % 0x1_0000_0000_0000_0000) as u64) by (nonlinear_arith)
                    requires
                        a == ((addr + ((i * 4096) % 0x1_0000_0000_0000_0000)) % 0x1_0000_0000_0000_0000),
                        i >= 0,
                ;
            }
            p.free_frame(PhysFrame { addr: a });
            i = i + 1;
        }
        self.put_pmm(p);
    }

    open spec fn backend_properties(&self) -> MemoryProperties {
        self.spec_properties()
    }

    fn properties(&self) -> (r: MemoryProperties)
        ensures
            r == self.spec_properties(),
    {
        self.properties
    }

    fn name(&self) -> (r: &'static str)
        ensures
            r@ == "DRAM (PMM)"@,
    {
        "DRAM (PMM)"
    }
}

} // verus!
