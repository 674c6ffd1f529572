//! Physical memory manager: a first-fit bitmap frame allocator over one
//! contiguous region of physical memory.
use vstd::prelude::*;
use crate::boot::memory_discovery::AvailableRegion;
use crate::error::{PmmError, PmmResult};

verus! {

/// Size of one physical frame.
pub const FRAME_SIZE: u64 = 4096;

/// A physical frame, named by its base address.
#[derive(Debug, Clone, Copy, PartialEq, Eq, Structural)]
pub struct PhysFrame {
    pub addr: u64,
}

/// Bitmap frame allocator: bit `i` set means frame `i` of the region is in
/// use (allocated or reserved).
pub struct PmmBitmap {
    bitmap: Vec<u8>,
    total_frames: usize,
    region_start: u64,
    allocated_count: usize,
    reserved_count: usize,
}

/// Whether bit `k` of byte `b` is set.
pub open spec fn bit_set(b: u8, k: int) -> bool {
    (b >> (k as u8)) & 1u8 != 0
}

/// Number of `true` entries of `s`.
pub open spec fn count_true(s: Seq<bool>) -> nat
    decreases s.len(),
{
    if s.len() == 0 {
        0
    } else {
        count_true(s.drop_last()) + (if s.last() { 1nat } else { 0nat })
    }
}

/// Index of the first `false` entry of `s`, or `s.len()`.
pub open spec fn first_clear(s: Seq<bool>) -> int
    decreases s.len(),
{
    if s.len() == 0 {
        0
    } else if first_clear(s.drop_last()) < s.len() - 1 {
        first_clear(s.drop_last())
    } else if !s.last() {
        s.len() - 1
    } else {
        s.len() as int
    }
}

/// Frame index of `addr` in a region starting at `start`, computed with the
/// same wrapping subtraction the allocator uses.
pub open spec fn frame_index(start: u64, addr: u64) -> int {
    (if addr >= start { addr - start } else { addr - start + 0x1_0000_0000_0000_0000 }) / (
    FRAME_SIZE as int)
}

/// Frames `lo..hi` (indices) covered by `[start, start+size)` clipped to a
/// region of `total` frames starting at `rs`: (first index, end index).
pub open spec fn reserve_span(rs: u64, total: int, start: u64, size: u64) -> (int, int) {
    let end = if start + size > u64::MAX { u64::MAX as int } else { start + size };
    let region_end = rs + total * FRAME_SIZE;
    let lo = if start >= rs { start as int } else { rs as int };
    let hi = if end <= region_end { end } else { region_end };
    if lo >= hi {
        (0, 0)
    } else {
        ((lo - rs) / (FRAME_SIZE as int), (hi - 1 - rs) / (FRAME_SIZE as int) + 1)
    }
}

/// Reserving `[start, start + size)` in a region of `total` frames at `rs`
/// marks every frame that holds at least one byte of the range (clipped to
/// the region): the frame of any such address `a` lies in the marked span.
pub proof fn law_reserve_covers_every_byte(rs: u64, total: int, start: u64, size: u64, a: u64)
    requires
        0 <= total,
        start <= a,
        a < start + size,
        rs <= a,
        a < rs + total * FRAME_SIZE,
        rs + total * FRAME_SIZE <= u64::MAX,
    ensures
        reserve_span(rs, total, start, size).0 <= frame_index(rs, a) < reserve_span(rs, total, start, size).1,
{
    let end = if start + size > u64::MAX { u64::MAX as int } else { start + size };
    let region_end = rs + total * FRAME_SIZE;
    let lo = if start >= rs { start as int } else { rs as int };
    let hi = if end <= region_end { end } else { region_end };
    assert(a < end);
    assert(lo <= a < hi);
    vstd::arithmetic::div_mod::lemma_div_is_ordered(lo - rs, a - rs, FRAME_SIZE as int);
    vstd::arithmetic::div_mod::lemma_div_is_ordered(a - rs, hi - 1 - rs, FRAME_SIZE as int);
}

/// The marked span holds only frames that the range touches: its first
/// frame ends after the range starts and its last frame starts before the
/// range ends, both inside the region.
pub proof fn law_reserve_span_is_tight(rs: u64, total: int, start: u64, size: u64)
    requires
        0 <= total,
    ensures
        ({
            let (lo, hi) = reserve_span(rs, total, start, size);
            let end = if start + size > u64::MAX { u64::MAX as int } else { start + size };
            lo < hi ==> {
                &&& 0 <= lo
                &&& hi <= total
                &&& start < rs + (lo + 1) * FRAME_SIZE
                &&& rs + (hi - 1) * FRAME_SIZE < end
            }
        }),
{
    let end = if start + size > u64::MAX { u64::MAX as int } else { start + size };
    let region_end = rs + total * FRAME_SIZE;
    let lo = if start >= rs { start as int } else { rs as int };
    let hi = if end <= region_end { end } else { region_end };
    if lo < hi {
        let f = FRAME_SIZE as int;
        let q0 = (lo - rs) / f;
        let q1 = (hi - 1 - rs) / f;
        vstd::arithmetic::div_mod::lemma_fundamental_div_mod(lo - rs, f);
        vstd::arithmetic::div_mod::lemma_fundamental_div_mod(hi - 1 - rs, f);
        assert(0 <= (lo - rs) % f < f);
        assert(0 <= (hi - 1 - rs) % f < f);
        assert(q0 >= 0) by (nonlinear_arith)
            requires
                lo - rs >= 0,
                q0 == (lo - rs) / f,
                f == 4096,
        ;
        assert(q1 < total) by (nonlinear_arith)
            requires
                hi - 1 - rs < total * f,
                hi - 1 - rs >= 0,
                q1 == (hi - 1 - rs) / f,
                f == 4096,
        ;
        assert(f * q0 <= lo - rs < f * q0 + f);
        assert(f * q1 <= hi - 1 - rs);
        assert((q0 + 1) * f == f * q0 + f) by (nonlinear_arith);
        assert((q1 + 1 - 1) * f == f * q1) by (nonlinear_arith);
    }
}

/// Bytes needed for a bitmap covering `region_size` bytes.
pub open spec fn spec_bitmap_size(region_size: u64) -> int {
    (region_size / FRAME_SIZE + 7) / 8
}

impl PmmBitmap {
    /// Which frames are in use, by index.
    pub closed spec fn frames(&self) -> Seq<bool> {
        Seq::new(self.total_frames as nat, |i: int| bit_set(self.bitmap@[i / 8], i % 8))
    }

    pub closed spec fn spec_total_frames(&self) -> nat {
        self.total_frames as nat
    }

    pub closed spec fn spec_region_start(&self) -> u64 {
        self.region_start
    }

    pub closed spec fn spec_allocated_count(&self) -> nat {
        self.allocated_count as nat
    }

    pub closed spec fn spec_reserved_count(&self) -> nat {
        self.reserved_count as nat
    }

    /// Internal consistency: the bitmap covers every frame, every frame
    /// address fits in 64 bits, and the allocated count never exceeds the
    /// number of frames in use.
    pub closed spec fn wf(&self) -> bool {
        &&& self.bitmap@.len() == (self.total_frames + 7) / 8
        &&& self.region_start + self.total_frames * FRAME_SIZE <= u64::MAX
        &&& self.allocated_count <= count_true(self.frames())
    }

    /// Base address of frame `i`.
    pub open spec fn frame_addr(&self, i: int) -> int {
        self.spec_region_start() + i * FRAME_SIZE
    }

    /// Frames in use, as a count.
    pub open spec fn used_count(&self) -> nat {
        count_true(self.frames())
    }

    /// A bitmap over `region_size` bytes at `region_start`, every frame free.
    pub fn init(region_start: u64, region_size: u64) -> (r: Self)
        requires
            region_start + (region_size / FRAME_SIZE) * FRAME_SIZE <= u64::MAX,
            region_size / FRAME_SIZE <= usize::MAX,
        ensures
            r.wf(),
            r.spec_total_frames() == region_size / FRAME_SIZE,
            r.spec_region_start() == region_start,
            r.spec_allocated_count() == 0,
            r.spec_reserved_count() == 0,
            forall|i: int| 0 <= i < r.frames().len() ==> !#[trigger] r.frames()[i],
    {
        let total_frames = (region_size / FRAME_SIZE) as usize;
        let byte_len = Self::bitmap_size(region_size);
        let mut bitmap: Vec<u8> = Vec::new();
        let mut k: usize = 0;
        while k < byte_len
            invariant
                0 <= k <= byte_len,
                bitmap@.len() == k,
                forall|j: int| 0 <= j < k ==> #[trigger] bitmap@[j] == 0,
            decreases byte_len - k,
        {
            bitmap.push(0);
            k = k + 1;
        }
        let r = PmmBitmap {
            bitmap,
            total_frames,
            region_start,
            allocated_count: 0,
            reserved_count: 0,
        };
        assert forall|i: int| 0 <= i < r.frames().len() implies !#[trigger] r.frames()[i] by {
            let b = r.bitmap@[i / 8];
            let kk = (i % 8) as u8;
            assert(b == 0);
            assert((0u8 >> kk) & 1u8 == 0) by (bit_vector);
        }
        proof {
            lemma_count_all_false(r.frames());
        }
        r
    }

    /// A bitmap over `region`, with the pages that a bitmap of its size
    /// occupies at the region start reserved.
    pub fn new(region: &AvailableRegion) -> (r: Self)
        requires
            region.start % FRAME_SIZE == 0,
            region.start <= region.end,
            (region.end - region.start) / (FRAME_SIZE as int) <= usize::MAX,
        ensures
            r.wf(),
            r.spec_total_frames() == (region.end - region.start) / (FRAME_SIZE as int),
            r.spec_region_start() == region.start,
            r.spec_allocated_count() == 0,
            ({
                let bitmap_pages = (spec_bitmap_size((region.end - region.start) as u64) + 0xFFF)
                    / 0x1000;
                let (lo, hi) = reserve_span(
                    region.start,
                    r.spec_total_frames() as int,
                    region.start,
                    (bitmap_pages * 0x1000) as u64,
                );
                forall|i: int|
                    0 <= i < r.frames().len() ==> (#[trigger] r.frames()[i] <==> lo <= i < hi)
            }),
    {
        let region_size = region.end - region.start;
        assert(region.start + (region_size / FRAME_SIZE) * FRAME_SIZE <= u64::MAX) by {
            assert((region_size / FRAME_SIZE) * FRAME_SIZE <= region_size) by (nonlinear_arith);
        }
        let mut pmm = Self::init(region.start, region_size);
        let bitmap_bytes = Self::bitmap_size(region_size);
        let bitmap_pages = (bitmap_bytes as u64 + 0xFFF) / 0x1000;
        pmm.reserve(region.start, bitmap_pages * 0x1000);
        pmm
    }

    /// Bytes needed for a bitmap covering `region_size` bytes.
    pub fn bitmap_size(region_size: u64) -> (r: usize)
        requires
            region_size / FRAME_SIZE <= usize::MAX,
        ensures
            r == spec_bitmap_size(region_size),
    {
        let frames = region_size / FRAME_SIZE;
        let f = frames as usize;
        f / 8 + (if f % 8 == 0 { 0 } else { 1 })
    }

    pub fn total_frames(&self) -> (r: usize)
        ensures
            r == self.spec_total_frames(),
    {
        self.total_frames
    }

    /// Frames neither allocated nor reserved, by the counters.
    pub fn free_count(&self) -> (r: usize)
        requires
            self.spec_allocated_count() + self.spec_reserved_count() <= self.spec_total_frames(),
        ensures
            r == self.spec_total_frames() - self.spec_allocated_count()
                - self.spec_reserved_count(),
    {
        self.total_frames - self.allocated_count - self.reserved_count
    }

    pub fn allocated_count(&self) -> (r: usize)
        ensures
            r == self.spec_allocated_count(),
    {
        self.allocated_count
    }

    pub fn reserved_count(&self) -> (r: usize)
        ensures
            r == self.spec_reserved_count(),
    {
        self.reserved_count
    }

    pub fn region_start(&self) -> (r: u64)
        ensures
            r == self.spec_region_start(),
    {
        self.region_start
    }

    fn test(&self, idx: usize) -> (r: bool)
        requires
            self.wf(),
            idx < self.total_frames,
        ensures
            r == self.frames()[idx as int],
    {
        (self.bitmap[idx / 8] >> ((idx % 8) as u8)) & 1u8 != 0
    }

    fn set(&mut self, idx: usize, value: bool)
        requires
            old(self).bitmap@.len() == (old(self).total_frames + 7) / 8,
            idx < old(self).total_frames,
        ensures
            final(self).frames() == old(self).frames().update(idx as int, value),
            final(self).bitmap@.len() == old(self).bitmap@.len(),
            final(self).total_frames == old(self).total_frames,
            final(self).region_start == old(self).region_start,
            final(self).allocated_count == old(self).allocated_count,
            final(self).reserved_count == old(self).reserved_count,
    {
        let byte = self.bitmap[idx / 8];
        let k = (idx % 8) as u8;
        let nb = if value {
            byte | (1u8 << k)
        } else {
            byte & !(1u8 << k)
        };
        self.bitmap.set(idx / 8, nb);
        proof {
            let f0 = old(self).frames();
            let f1 = self.frames();
            assert forall|i: int| 0 <= i < f1.len() implies #[trigger] f1[i] == f0.update(
                idx as int,
                value,
            )[i] by {
                let j = (i % 8) as u8;
                if i / 8 == idx / 8 {
                    lemma_bit_update(byte, k, j, value);
                    if i != idx {
                        assert(j != k);
                    }
                }
            }
            assert(f1 =~= f0.update(idx as int, value));
        }
    }

    /// Mark the lowest free frame in use and return it; `None` when every
    /// frame is in use.
    pub fn alloc_frame(&mut self) -> (r: Option<PhysFrame>)
        requires
            old(self).wf(),
        ensures
            final(self).wf(),
            final(self).spec_total_frames() == old(self).spec_total_frames(),
            final(self).spec_region_start() == old(self).spec_region_start(),
            final(self).spec_reserved_count() == old(self).spec_reserved_count(),
            ({
                let i = first_clear(old(self).frames());
                if i < old(self).frames().len() {
                    &&& r == Some(PhysFrame { addr: old(self).frame_addr(i) as u64 })
                    &&& final(self).frames() == old(self).frames().update(i, true)
                    &&& final(self).spec_allocated_count() == old(self).spec_allocated_count() + 1
                } else {
                    &&& r is None
                    &&& final(self).frames() == old(self).frames()
                    &&& final(self).spec_allocated_count() == old(self).spec_allocated_count()
                }
            }),
    {
        let ghost f0 = self.frames();
        proof {
            lemma_first_clear(f0);
            lemma_count_le_len(f0);
        }
        let mut i: usize = 0;
        while i < self.total_frames
            invariant
                self.wf(),
                self.frames() == f0,
                *self == *old(self),
                0 <= i <= self.total_frames,
                forall|j: int| 0 <= j < i ==> #[trigger] f0[j],
            decreases self.total_frames - i,
        {
            if !self.test(i) {
                proof {
                    lemma_first_clear_is(f0, i as int);
                    lemma_count_update(f0, i as int, true);
                    lemma_count_le_len(f0.update(i as int, true));
                    assert(i * FRAME_SIZE <= self.total_frames * FRAME_SIZE) by (nonlinear_arith)
                        requires
                            i <= self.total_frames,
                    ;
                }
                self.set(i, true);
                self.allocated_count = self.allocated_count + 1;
                return Some(PhysFrame { addr: self.region_start + i as u64 * FRAME_SIZE });
            }
            i = i + 1;
        }
        proof {
            lemma_first_clear_none(f0);
        }
        None
    }

    /// Mark the frame at `frame.addr` free if it lies in the region and is in
    /// use; the allocated count drops by one (not below zero).
    pub fn free_frame(&mut self, frame: PhysFrame)
        requires
            old(self).wf(),
        ensures
            final(self).wf(),
            final(self).spec_total_frames() == old(self).spec_total_frames(),
            final(self).spec_region_start() == old(self).spec_region_start(),
            final(self).spec_reserved_count() == old(self).spec_reserved_count(),
            ({
                let i = frame_index(old(self).spec_region_start(), frame.addr);
                if i < old(self).frames().len() && old(self).frames()[i] {
                    &&& final(self).frames() == old(self).frames().update(i, false)
                    &&& final(self).spec_allocated_count() == if old(self).spec_allocated_count()
                        > 0 {
                        old(self).spec_allocated_count() - 1
                    } else {
                        0
                    }
                } else {
                    &&& final(self).frames() == old(self).frames()
                    &&& final(self).spec_allocated_count() == old(self).spec_allocated_count()
                }
            }),
    {
        let offset = frame.addr.wrapping_sub(self.region_start);
        let idx_u64 = offset / FRAME_SIZE;
        assert(idx_u64 == frame_index(self.region_start, frame.addr));
        if idx_u64 < self.total_frames as u64 {
            let idx = idx_u64 as usize;
            if self.test(idx) {
                proof {
                    lemma_count_update(self.frames(), idx as int, false);
                }
                self.set(idx, false);
                self.allocated_count = if self.allocated_count > 0 {
                    self.allocated_count - 1
                } else {
                    0
                };
            }
        }
    }

    /// Mark every free frame of `[start, start + size)` (clipped to the
    /// region) in use as reserved: afterwards every frame holding a byte of
    /// the range is in use.
    pub fn reserve(&mut self, start: u64, size: u64)
        requires
            old(self).wf(),
            old(self).spec_reserved_count() + old(self).spec_total_frames() <= usize::MAX,
        ensures
            final(self).wf(),
            final(self).spec_total_frames() == old(self).spec_total_frames(),
            final(self).spec_region_start() == old(self).spec_region_start(),
            final(self).spec_allocated_count() == old(self).spec_allocated_count(),
            ({
                let (lo, hi) = reserve_span(
                    old(self).spec_region_start(),
                    old(self).spec_total_frames() as int,
                    start,
                    size,
                );
                &&& forall|i: int|
                    0 <= i < final(self).frames().len() ==> #[trigger] final(self).frames()[i] == (
                    old(self).frames()[i] || (lo <= i < hi))
                &&& final(self).spec_reserved_count() == old(self).spec_reserved_count() + (
                count_true(final(self).frames()) - count_true(old(self).frames()))
            }),
            final(self).frames().len() == old(self).frames().len(),
            count_true(final(self).frames()) >= count_true(old(self).frames()),
            forall|a: u64|
                start <= a < start + size && old(self).spec_region_start() <= a < old(self).spec_region_start()
                    + old(self).spec_total_frames() * FRAME_SIZE ==> #[trigger] final(self).frames()[frame_index(
                    old(self).spec_region_start(),
                    a,
                )],
    {
        proof {
            assert forall|a: u64|
                start <= a < start + size && self.region_start <= a < self.region_start + self.total_frames
                    * FRAME_SIZE implies reserve_span(self.region_start, self.total_frames as int, start, size).0
                <= #[trigger] frame_index(self.region_start, a) < reserve_span(
                self.region_start,
                self.total_frames as int,
                start,
                size,
            ).1 by {
                law_reserve_covers_every_byte(self.region_start, self.total_frames as int, start, size, a);
            }
        }
        let end = start.saturating_add(size);
        assert(self.total_frames * FRAME_SIZE <= u64::MAX);
        let region_end = self.region_start + self.total_frames as u64 * FRAME_SIZE;
        let lo = if start >= self.region_start { start } else { self.region_start };
        let hi = if end <= region_end { end } else { region_end };
        let ghost f0 = self.frames();
        proof {
            lemma_count_le_len(f0);
        }
        if lo >= hi {
            return;
        }
        let first = ((lo - self.region_start) / FRAME_SIZE) as usize;
        let last_excl = ((hi - 1 - self.region_start) / FRAME_SIZE) as usize + 1;
        assert(last_excl <= self.total_frames) by {
            assert((hi - 1 - self.region_start) < self.total_frames * FRAME_SIZE);
            assert((hi - 1 - self.region_start) / (FRAME_SIZE as int) < self.total_frames)
                by (nonlinear_arith)
                requires
                    (hi - 1 - self.region_start) < self.total_frames * FRAME_SIZE,
                    0 <= (hi - 1 - self.region_start),
            ;
        }
        let mut i = first;
        while i < last_excl
            invariant
                self.wf(),
                self.total_frames == old(self).total_frames,
                self.region_start == old(self).region_start,
                self.allocated_count == old(self).allocated_count,
                first <= i <= last_excl <= self.total_frames,
                f0 == old(self).frames(),
                self.frames().len() == f0.len(),
                forall|j: int|
                    0 <= j < self.frames().len() ==> #[trigger] self.frames()[j] == (f0[j] || (
                    first <= j < i)),
                self.reserved_count == old(self).reserved_count + (count_true(self.frames())
                    - count_true(f0)),
                count_true(self.frames()) >= count_true(f0),
                count_true(self.frames()) <= self.total_frames,
                old(self).reserved_count + old(self).total_frames <= usize::MAX,
            decreases last_excl - i,
        {
            if !self.test(i) {
                let ghost fb = self.frames();
                proof {
                    lemma_count_update(fb, i as int, true);
                    lemma_count_le_len(fb.update(i as int, true));
                }
                self.set(i, true);
                self.reserved_count = self.reserved_count + 1;
            }
            i = i + 1;
        }
    }

    /// Allocate one page; `OutOfMemory` when every frame is in use.
    pub fn allocate_page(&mut self) -> (r: PmmResult<u64>)
        requires
            old(self).wf(),
        ensures
            final(self).wf(),
            final(self).spec_total_frames() == old(self).spec_total_frames(),
            final(self).spec_region_start() == old(self).spec_region_start(),
            final(self).spec_reserved_count() == old(self).spec_reserved_count(),
            ({
                let i = first_clear(old(self).frames());
                if i < old(self).frames().len() {
                    &&& r == Ok::<u64, PmmError>(old(self).frame_addr(i) as u64)
                    &&& final(self).frames() == old(self).frames().update(i, true)
                    &&& final(self).spec_allocated_count() == old(self).spec_allocated_count() + 1
                } else {
                    &&& r == Err::<u64, PmmError>(PmmError::OutOfMemory)
                    &&& final(self).frames() == old(self).frames()
                    &&& final(self).spec_allocated_count() == old(self).spec_allocated_count()
                }
            }),
    {
        match self.alloc_frame() {
            Some(f) => Ok(f.addr),
            None => Err(PmmError::OutOfMemory),
        }
    }

    /// Free the page at `addr`: `InvalidAddress` outside the region, else as
    /// [`PmmBitmap::free_frame`].
    pub fn free_page(&mut self, addr: u64) -> (r: PmmResult<()>)
        requires
            old(self).wf(),
        ensures
            final(self).wf(),
            final(self).spec_total_frames() == old(self).spec_total_frames(),
            final(self).spec_region_start() == old(self).spec_region_start(),
            final(self).spec_reserved_count() == old(self).spec_reserved_count(),
            (addr < old(self).spec_region_start() || addr >= old(self).frame_addr(
                old(self).spec_total_frames() as int,
            )) ==> r == Err::<(), PmmError>(PmmError::InvalidAddress) && final(self).frames()
                == old(self).frames() && final(self).spec_allocated_count() == old(
                self,
            ).spec_allocated_count(),
            !(addr < old(self).spec_region_start() || addr >= old(self).frame_addr(
                old(self).spec_total_frames() as int,
            )) ==> r is Ok && ({
                let i = (addr - old(self).spec_region_start()) / (FRAME_SIZE as int);
                if old(self).frames()[i] {
                    &&& final(self).frames() == old(self).frames().update(i, false)
                    &&& final(self).spec_allocated_count() == if old(self).spec_allocated_count()
                        > 0 {
                        old(self).spec_allocated_count() - 1
                    } else {
                        0
                    }
                } else {
                    &&& final(self).frames() == old(self).frames()
                    &&& final(self).spec_allocated_count() == old(self).spec_allocated_count()
                }
            }),
    {
        let region_end = self.region_start + self.total_frames as u64 * FRAME_SIZE;
        if addr < self.region_start || addr >= region_end {
            return Err(PmmError::InvalidAddress);
        }
        proof {
            let i = (addr - self.region_start) / (FRAME_SIZE as int);
            assert(i < self.total_frames) by (nonlinear_arith)
                requires
                    addr - self.region_start < self.total_frames * FRAME_SIZE,
                    addr >= self.region_start,
                    i == (addr - self.region_start) / (FRAME_SIZE as int),
            ;
        }
        self.free_frame(PhysFrame { addr });
        Ok(())
    }

    /// Reserve the page at `addr`.
    pub fn reserve_page(&mut self, addr: u64)
        requires
            old(self).wf(),
            old(self).spec_reserved_count() + old(self).spec_total_frames() <= usize::MAX,
        ensures
            final(self).wf(),
            final(self).spec_total_frames() == old(self).spec_total_frames(),
            final(self).spec_region_start() == old(self).spec_region_start(),
            final(self).spec_allocated_count() == old(self).spec_allocated_count(),
            ({
                let (lo, hi) = reserve_span(
                    old(self).spec_region_start(),
                    old(self).spec_total_frames() as int,
                    addr,
                    FRAME_SIZE,
                );
                forall|i: int|
                    0 <= i < final(self).frames().len() ==> #[trigger] final(self).frames()[i] == (
                    old(self).frames()[i] || (lo <= i < hi))
            }),
    {
        self.reserve(addr, FRAME_SIZE);
    }

    /// Reserve `[start, end)`; nothing happens when `end <= start`.
    pub fn reserve_range(&mut self, start: u64, end: u64)
        requires
            old(self).wf(),
            old(self).spec_reserved_count() + old(self).spec_total_frames() <= usize::MAX,
        ensures
            final(self).wf(),
            final(self).spec_total_frames() == old(self).spec_total_frames(),
            final(self).spec_region_start() == old(self).spec_region_start(),
            final(self).spec_allocated_count() == old(self).spec_allocated_count(),
            end <= start ==> final(self).frames() == old(self).frames()
                && final(self).spec_reserved_count() == old(self).spec_reserved_count(),
            end > start ==> ({
                let (lo, hi) = reserve_span(
                    old(self).spec_region_start(),
                    old(self).spec_total_frames() as int,
                    start,
                    (end - start) as u64,
                );
                forall|i: int|
                    0 <= i < final(self).frames().len() ==> #[trigger] final(self).frames()[i] == (
                    old(self).frames()[i] || (lo <= i < hi))
            }),
            forall|a: u64|
                start <= a < end && old(self).spec_region_start() <= a < old(self).spec_region_start()
                    + old(self).spec_total_frames() * FRAME_SIZE ==> #[trigger] final(self).frames()[frame_index(
                    old(self).spec_region_start(),
                    a,
                )],
    {
        if end > start {
            self.reserve(start, end - start);
        }
    }

    /// Whether the frame holding `addr` lies in the region and is in use.
    pub fn is_allocated(&self, addr: u64) -> (r: bool)
        requires
            self.wf(),
        ensures
            r == (frame_index(self.spec_region_start(), addr) < self.frames().len()
                && self.frames()[frame_index(self.spec_region_start(), addr)]),
    {
        let offset = addr.wrapping_sub(self.region_start);
        let idx_u64 = offset / FRAME_SIZE;
        assert(idx_u64 == frame_index(self.region_start, addr));
        if idx_u64 < self.total_frames as u64 {
            self.test(idx_u64 as usize)
        } else {
            false
        }
    }

    /// Allocate two pages, free the first, check that it is handed out again
    /// first, and release everything. `OutOfMemory` when fewer than two
    /// frames are free (the first page then stays allocated); on success the
    /// frame map and counters are as before.
    pub fn run_self_test(&mut self) -> (r: PmmResult<()>)
        requires
            old(self).wf(),
            old(self).spec_allocated_count() == 0,
        ensures
            final(self).wf(),
            final(self).spec_total_frames() == old(self).spec_total_frames(),
            final(self).spec_region_start() == old(self).spec_region_start(),
            final(self).spec_reserved_count() == old(self).spec_reserved_count(),
            ({
                let f0 = old(self).frames();
                let ia = first_clear(f0);
                let ib = first_clear(f0.update(ia, true));
                if ia >= f0.len() {
                    &&& r == Err::<(), PmmError>(PmmError::OutOfMemory)
                    &&& final(self).frames() == f0
                    &&& final(self).spec_allocated_count() == 0
                } else if ib >= f0.len() {
                    &&& r == Err::<(), PmmError>(PmmError::OutOfMemory)
                    &&& final(self).frames() == f0.update(ia, true)
                    &&& final(self).spec_allocated_count() == 1
                } else {
                    &&& r == Ok::<(), PmmError>(())
                    &&& final(self).frames() == f0
                    &&& final(self).spec_allocated_count() == 0
                }
            }),
    {
        let ghost f0 = self.frames();
        let pa = match self.allocate_page() {
            Ok(a) => a,
            Err(e) => return Err(e),
        };
        let ghost ia = first_clear(f0);
        let ghost f1 = self.frames();
        let pb = match self.allocate_page() {
            Ok(a) => a,
            Err(e) => return Err(e),
        };
        let ghost ib = first_clear(f1);
        proof {
            lemma_first_clear(f0);
            lemma_first_clear(f1);
            assert(ia != ib);
            assert(ib * FRAME_SIZE < self.total_frames * FRAME_SIZE) by (nonlinear_arith)
                requires
                    ib < self.total_frames,
            ;
            assert(ia * FRAME_SIZE < self.total_frames * FRAME_SIZE) by (nonlinear_arith)
                requires
                    ia < self.total_frames,
            ;
        }
        let ghost f2 = self.frames();
        match self.free_page(pa) {
            Ok(()) => {},
            Err(e) => return Err(e),
        }
        proof {
            assert((pa - self.region_start) / (FRAME_SIZE as int) == ia) by (nonlinear_arith)
                requires
                    pa == self.region_start + ia * FRAME_SIZE,
                    0 <= ia,
            ;
            assert(f2 == f0.update(ia, true).update(ib, true));
            assert(self.frames() =~= f0.update(ib, true));
            if ib < ia {
                assert(f1[ib]);
            }
            lemma_first_clear_is(f0.update(ib, true), ia);
        }
        let re_alloc = match self.allocate_page() {
            Ok(a) => a,
            Err(e) => return Err(e),
        };
        assert(re_alloc == pa);
        match self.free_page(re_alloc) {
            Ok(()) => {},
            Err(e) => return Err(e),
        }
        match self.free_page(pb) {
            Ok(()) => {},
            Err(e) => return Err(e),
        }
        proof {
            assert((pb - self.region_start) / (FRAME_SIZE as int) == ib) by (nonlinear_arith)
                requires
                    pb == self.region_start + ib * FRAME_SIZE,
                    0 <= ib,
            ;
            assert(self.frames() =~= f0);
        }
        Ok(())
    }
}

/// The frames `[i, i + n)` exist and are all free.
pub open spec fn run_free(s: Seq<bool>, i: int, n: int) -> bool {
    &&& 0 <= i
    &&& i + n <= s.len()
    &&& forall|j: int| i <= j < i + n ==> !#[trigger] s[j]
}

/// Start of the first run of `n` free frames at or after `i`; `s.len()`
/// when there is none.
pub open spec fn first_run(s: Seq<bool>, n: int, i: int) -> int
    decreases s.len() - i,
{
    if 0 <= i && i + n <= s.len() {
        if run_free(s, i, n) {
            i
        } else {
            first_run(s, n, i + 1)
        }
    } else {
        s.len() as int
    }
}

/// `s` with the frames `[i, i + n)` in use.
pub open spec fn mark_run(s: Seq<bool>, i: int, n: int) -> Seq<bool> {
    Seq::new(s.len(), |j: int| if i <= j < i + n { true } else { s[j] })
}

proof fn lemma_mark_run_count(s: Seq<bool>, i: int, n: int)
    requires
        run_free(s, i, n),
        n >= 0,
    ensures
        count_true(mark_run(s, i, n)) == count_true(s) + n,
    decreases n,
{
    if n == 0 {
        assert(mark_run(s, i, 0) =~= s);
    } else {
        lemma_mark_run_count(s, i, n - 1);
        let m = mark_run(s, i, n - 1);
        assert(!m[i + n - 1]);
        lemma_count_update(m, i + n - 1, true);
        assert(m.update(i + n - 1, true) =~= mark_run(s, i, n));
    }
}

proof fn lemma_first_run(s: Seq<bool>, n: int, i: int)
    requires
        0 <= i,
    ensures
        first_run(s, n, i) == s.len() || (i <= first_run(s, n, i) && run_free(s, first_run(s, n, i), n)),
        forall|k: int| i <= k < first_run(s, n, i) && k + n <= s.len() ==> !run_free(s, k, n),
    decreases s.len() - i,
{
    if i + n <= s.len() && !run_free(s, i, n) {
        lemma_first_run(s, n, i + 1);
    }
}

impl PmmBitmap {
    /// Mark the lowest run of `n` free frames in use and return the base
    /// address of its first frame; `None` when `n` is 0 or no such run
    /// exists.
    pub fn alloc_contiguous(&mut self, n: usize) -> (r: Option<u64>)
        requires
            old(self).wf(),
        ensures
            final(self).wf(),
            final(self).spec_total_frames() == old(self).spec_total_frames(),
            final(self).spec_region_start() == old(self).spec_region_start(),
            final(self).spec_reserved_count() == old(self).spec_reserved_count(),
            ({
                let i = first_run(old(self).frames(), n as int, 0);
                if n > 0 && i < old(self).frames().len() {
                    &&& r == Some(old(self).frame_addr(i) as u64)
                    &&& final(self).frames() == mark_run(old(self).frames(), i, n as int)
                    &&& final(self).spec_allocated_count() == old(self).spec_allocated_count() + n
                } else {
                    &&& r is None
                    &&& final(self).frames() == old(self).frames()
                    &&& final(self).spec_allocated_count() == old(self).spec_allocated_count()
                }
            }),
    {
        let ghost f0 = self.frames();
        proof {
            lemma_first_run(f0, n as int, 0);
        }
        if n == 0 || n > self.total_frames {
            proof {
                if n > self.total_frames {
                    assert(first_run(f0, n as int, 0) == f0.len());
                }
            }
            return None;
        }
        let mut i: usize = 0;
        while i <= self.total_frames - n
            invariant
                self.wf(),
                *self == *old(self),
                self.frames() == f0,
                0 < n <= self.total_frames,
                0 <= i <= self.total_frames - n + 1,
                first_run(f0, n as int, 0) == first_run(f0, n as int, i as int),
            decreases self.total_frames - n + 1 - i,
        {
            let mut j: usize = 0;
            let mut ok = true;
            while j < n
                invariant
                    self.wf(),
                    self.frames() == f0,
                    i + n <= self.total_frames,
                    0 <= j <= n,
                    ok ==> forall|k: int| i <= k < i + j ==> !#[trigger] f0[k],
                    !ok ==> !run_free(f0, i as int, n as int),
                decreases n - j,
            {
                if self.test(i + j) {
                    ok = false;
                    assert(f0[i + j]);
                    j = n;
                } else {
                    j = j + 1;
                }
            }
            if ok {
                assert(run_free(f0, i as int, n as int));
                proof {
                    lemma_mark_run_count(f0, i as int, n as int);
                    lemma_count_le_len(mark_run(f0, i as int, n as int));
                    assert(i * FRAME_SIZE <= self.total_frames * FRAME_SIZE) by (nonlinear_arith)
                        requires
                            i <= self.total_frames,
                    ;
                }
                let mut k: usize = 0;
                while k < n
                    invariant
                        self.bitmap@.len() == (self.total_frames + 7) / 8,
                        self.total_frames == old(self).total_frames,
                        self.region_start == old(self).region_start,
                        self.allocated_count == old(self).allocated_count,
                        self.reserved_count == old(self).reserved_count,
                        i + n <= self.total_frames,
                        0 <= k <= n,
                        self.frames() == mark_run(f0, i as int, k as int),
                    decreases n - k,
                {
                    self.set(i + k, true);
                    assert(self.frames() =~= mark_run(f0, i as int, k + 1));
                    k = k + 1;
                }
                self.allocated_count = self.allocated_count + n;
                return Some(self.region_start + i as u64 * FRAME_SIZE);
            }
            i = i + 1;
        }
        None
    }
}

// ---------------------------------------------------------------------------
// Laws
// ---------------------------------------------------------------------------

/// The allocator never counts more allocated frames than it has marked in
/// use, nor more frames in use than the region holds.
pub proof fn law_pmm_counts(p: &PmmBitmap)
    requires
        p.wf(),
    ensures
        p.spec_allocated_count() <= p.used_count() <= p.spec_total_frames(),
        p.frames().len() == p.spec_total_frames(),
        p.frame_addr(p.spec_total_frames() as int) <= u64::MAX,
{
    lemma_count_le_len(p.frames());
}

/// An allocation hands out the lowest frame not in use, never a frame in use.
pub proof fn law_alloc_first_fit(frames: Seq<bool>)
    ensures
        0 <= first_clear(frames) <= frames.len(),
        first_clear(frames) < frames.len() ==> !frames[first_clear(frames)],
        forall|j: int| 0 <= j < first_clear(frames) ==> #[trigger] frames[j],
{
    lemma_first_clear(frames);
}

/// Freeing the frame that an allocation just handed out restores the frame
/// map and the number of frames in use.
pub proof fn law_free_undoes_alloc(frames: Seq<bool>)
    requires
        first_clear(frames) < frames.len(),
    ensures
        frames.update(first_clear(frames), true).update(first_clear(frames), false) == frames,
        count_true(frames.update(first_clear(frames), true)) == count_true(frames) + 1,
{
    let i = first_clear(frames);
    lemma_first_clear(frames);
    lemma_count_update(frames, i, true);
    assert(frames.update(i, true).update(i, false) =~= frames);
}

// ---------------------------------------------------------------------------
// Lemmas
// ---------------------------------------------------------------------------

proof fn lemma_bit_update(byte: u8, k: u8, j: u8, value: bool)
    requires
        k < 8,
        j < 8,
    ensures
        value ==> (bit_set(byte | (1u8 << k), j as int) <==> (j == k || bit_set(byte, j as int))),
        !value ==> (bit_set(byte & !(1u8 << k), j as int) <==> (j != k && bit_set(
            byte,
            j as int,
        ))),
{
    assert(((byte | (1u8 << k)) >> j) & 1u8 != 0 <==> (j == k || (byte >> j) & 1u8 != 0))
        by (bit_vector)
        requires
            k < 8,
            j < 8,
    ;
    assert(((byte & !(1u8 << k)) >> j) & 1u8 != 0 <==> (j != k && (byte >> j) & 1u8 != 0))
        by (bit_vector)
        requires
            k < 8,
            j < 8,
    ;
}

proof fn lemma_count_le_len(s: Seq<bool>)
    ensures
        count_true(s) <= s.len(),
    decreases s.len(),
{
    if s.len() > 0 {
        lemma_count_le_len(s.drop_last());
    }
}

proof fn lemma_count_all_false(s: Seq<bool>)
    requires
        forall|i: int| 0 <= i < s.len() ==> !#[trigger] s[i],
    ensures
        count_true(s) == 0,
    decreases s.len(),
{
    if s.len() > 0 {
        lemma_count_all_false(s.drop_last());
    }
}

pub proof fn lemma_count_update(s: Seq<bool>, i: int, v: bool)
    requires
        0 <= i < s.len(),
    ensures
        count_true(s.update(i, v)) + (if s[i] { 1int } else { 0 }) == count_true(s) + (if v {
            1int
        } else {
            0
        }),
    decreases s.len(),
{
    let t = s.update(i, v);
    if i == s.len() - 1 {
        assert(t.drop_last() =~= s.drop_last());
    } else {
        lemma_count_update(s.drop_last(), i, v);
        assert(t.drop_last() =~= s.drop_last().update(i, v));
    }
}

proof fn lemma_first_clear(s: Seq<bool>)
    ensures
        0 <= first_clear(s) <= s.len(),
        first_clear(s) < s.len() ==> !s[first_clear(s)],
        forall|j: int| 0 <= j < first_clear(s) ==> #[trigger] s[j],
    decreases s.len(),
{
    if s.len() > 0 {
        lemma_first_clear(s.drop_last());
        let p = s.drop_last();
        assert forall|j: int| 0 <= j < first_clear(s) implies #[trigger] s[j] by {
            if j < s.len() - 1 {
                assert(s[j] == p[j]);
            }
        }
    }
}

proof fn lemma_first_clear_is(s: Seq<bool>, i: int)
    requires
        0 <= i < s.len(),
        !s[i],
        forall|j: int| 0 <= j < i ==> #[trigger] s[j],
    ensures
        first_clear(s) == i,
{
    lemma_first_clear(s);
    if first_clear(s) < i {
        assert(s[first_clear(s)]);
    }
}

proof fn lemma_first_clear_none(s: Seq<bool>)
    requires
        forall|j: int| 0 <= j < s.len() ==> #[trigger] s[j],
    ensures
        first_clear(s) == s.len(),
{
    lemma_first_clear(s);
    if first_clear(s) < s.len() {
        assert(s[first_clear(s)]);
    }
}

} // verus!
