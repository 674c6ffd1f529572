//! Kernel heap: a first-fit free-list allocator over one region of memory.
//!
//! Every block starts with a two-word header: its payload size (the low bit
//! set while the block is free) and, for free blocks, the header address of
//! the next free block. The headers live in the heap memory itself, which
//! the caller reads and writes: it hands these functions the free list as
//! read from memory and writes back the headers the returned plans name.
use vstd::prelude::*;

verus! {

/// Low bit of a header's size word: the block is free.
pub const FREE_BIT: usize = 1;
/// Smallest alignment and size of a payload.
pub const MIN_ALIGN: usize = 16;
/// Bytes of a block header.
pub const HEADER_SIZE: usize = 16;

/// A block on the free list: its header address, payload size and the
/// header address of the next free block (0 at the end).
#[derive(Debug, Clone, Copy, PartialEq, Eq, Structural)]
pub struct FreeBlock {
    pub header: usize,
    pub size: usize,
    pub next: usize,
}

/// The next pointer to write in the header of free block `prev`.
#[derive(Debug, Clone, Copy, PartialEq, Eq, Structural)]
pub struct Relink {
    pub prev: usize,
    pub next: usize,
}

/// What an allocation writes: the allocated block's header (size word
/// `size`, free bit clear), the unlink of the used block when it was not the
/// head of the list (`(predecessor header, next)`), and the leftover
/// fragment that goes to the head of the list.
#[derive(Debug, Clone, Copy, PartialEq, Eq, Structural)]
pub struct AllocPlan {
    pub header: usize,
    pub payload: usize,
    pub size: usize,
    pub relink: Option<Relink>,
    pub fragment: Option<FreeBlock>,
}

/// `x` rounded up to a multiple of `a`.
pub open spec fn round_up(x: int, a: int) -> int {
    (x + a - 1) / a * a
}

/// The payload size an allocation of `size` bytes takes: at least
/// `MIN_ALIGN`, rounded up to 16.
pub open spec fn alloc_size(size: usize) -> int {
    round_up(if size < 16 { 16 } else { size as int }, 16)
}

/// The payload alignment an allocation aligned to `align` gets.
pub open spec fn alloc_align(align: usize) -> int {
    if align < 16 { 16 } else { align as int }
}

/// `align` is a power of two.
pub open spec fn is_pow2(align: usize) -> bool {
    exists|k: nat| k < 64 && align as int == vstd::arithmetic::power2::pow2(k)
}

/// The payload of block `b`, aligned to `a`, and `rsize` bytes after it fit
/// inside the block.
pub open spec fn fits(b: FreeBlock, rsize: int, a: int) -> bool {
    round_up(b.header + HEADER_SIZE, a) + rsize <= b.header + HEADER_SIZE + b.size
}

/// Index of the first block at or after `i` that fits; `list.len()` when
/// none does.
pub open spec fn first_fit(list: Seq<FreeBlock>, rsize: int, a: int, i: int) -> int
    decreases list.len() - i,
{
    if 0 <= i < list.len() {
        if fits(list[i], rsize, a) {
            i
        } else {
            first_fit(list, rsize, a, i + 1)
        }
    } else {
        list.len() as int
    }
}

/// `list` is the free list read from memory: it starts at `head`, each
/// block's next is the following block's header, every block lies inside
/// the heap (below `end`), and the last next ends the walk (null or past
/// the heap).
pub open spec fn list_ok(list: Seq<FreeBlock>, head: usize, end: usize) -> bool {
    &&& forall|i: int|
        0 <= i < list.len() ==> (#[trigger] list[i]).header != 0 && list[i].header + HEADER_SIZE + list[i].size
            <= end
    &&& forall|i: int| 0 <= i < list.len() - 1 ==> (#[trigger] list[i]).next == list[i + 1].header
    &&& list.len() > 0 ==> list[0].header == head
    &&& list.len() == 0 ==> (head == 0 || head >= end)
    &&& list.len() > 0 ==> (list.last().next == 0 || list.last().next >= end)
}

/// The plan of an allocation from block `i` of `list`, and the new head of
/// the free list.
pub open spec fn plan_at(list: Seq<FreeBlock>, i: int, rsize: int, a: int, head: usize) -> (AllocPlan, usize) {
    let b = list[i];
    let aligned = round_up(b.header + HEADER_SIZE, a);
    let head1: usize = if i == 0 { b.next } else { head };
    let leftover = aligned + rsize;
    let block_end = b.header + HEADER_SIZE + b.size;
    let fragment = if leftover + HEADER_SIZE <= block_end {
        Some(FreeBlock { header: leftover as usize, size: (block_end - leftover - HEADER_SIZE) as usize, next: head1 })
    } else {
        None
    };
    (
        AllocPlan {
            header: (aligned - HEADER_SIZE) as usize,
            payload: aligned as usize,
            size: rsize as usize,
            relink: if i == 0 { None } else { Some(Relink { prev: list[i - 1].header, next: b.next }) },
            fragment,
        },
        if fragment is Some { leftover as usize } else { head1 },
    )
}

/// The kernel heap's bookkeeping: the region, the head of the free list and
/// the operation counters.
pub struct KernelHeap {
    base: usize,
    end: usize,
    free_head: usize,
    allocs: usize,
    deallocs: usize,
}

impl KernelHeap {
    pub closed spec fn spec_base(&self) -> usize {
        self.base
    }

    pub closed spec fn spec_end(&self) -> usize {
        self.end
    }

    pub closed spec fn spec_free_head(&self) -> usize {
        self.free_head
    }

    pub closed spec fn spec_allocs(&self) -> usize {
        self.allocs
    }

    pub closed spec fn spec_deallocs(&self) -> usize {
        self.deallocs
    }

    /// A heap with no region yet; it refuses every allocation.
    pub fn uninitialized() -> (r: Self)
        ensures
            r.spec_base() == 0 && r.spec_end() == 0 && r.spec_free_head() == 0,
            r.spec_allocs() == 0 && r.spec_deallocs() == 0,
    {
        KernelHeap { base: 0, end: 0, free_head: 0, allocs: 0, deallocs: 0 }
    }

    /// Take `[base, base + size)` as the heap: one free block covering the
    /// whole region, whose header the caller writes at `base`.
    pub fn init(&mut self, base: usize, size: usize) -> (r: FreeBlock)
        requires
            size >= HEADER_SIZE,
            base + size <= usize::MAX,
        ensures
            r == (FreeBlock { header: base, size: (size - HEADER_SIZE) as usize, next: 0 }),
            final(self).spec_base() == base,
            final(self).spec_end() == base + size,
            final(self).spec_free_head() == base,
            final(self).spec_allocs() == old(self).spec_allocs(),
            final(self).spec_deallocs() == old(self).spec_deallocs(),
    {
        self.base = base;
        self.end = base + size;
        self.free_head = base;
        FreeBlock { header: base, size: size - HEADER_SIZE, next: 0 }
    }

    pub fn is_initialized(&self) -> (r: bool)
        ensures
            r == (self.spec_base() != 0),
    {
        self.base != 0
    }

    /// Allocate `size` bytes aligned to `align` from `list`, the free list
    /// as read from memory: the first block whose aligned payload fits is
    /// taken off the list, and what is left after the allocation becomes a
    /// free fragment at the head of the list when it can hold a header. The
    /// space between the block's header and the aligned header is given up.
    /// `None`, changing nothing, on an uninitialized heap or when no block
    /// fits.
    pub fn alloc_locked(&mut self, list: &[FreeBlock], size: usize, align: usize) -> (r: Option<AllocPlan>)
        requires
            is_pow2(align),
            old(self).spec_base() != 0 ==> list_ok(list@, old(self).spec_free_head(), old(self).spec_end()),
        ensures
            final(self).spec_base() == old(self).spec_base(),
            final(self).spec_end() == old(self).spec_end(),
            final(self).spec_deallocs() == old(self).spec_deallocs(),
            ({
                let i = first_fit(list@, alloc_size(size), alloc_align(align), 0);
                if old(self).spec_base() == 0 || i >= list@.len() {
                    &&& r is None
                    &&& final(self).spec_free_head() == old(self).spec_free_head()
                    &&& final(self).spec_allocs() == old(self).spec_allocs()
                } else {
                    let (p, h) = plan_at(list@, i, alloc_size(size), alloc_align(align), old(self).spec_free_head());
                    &&& r == Some(p)
                    &&& final(self).spec_free_head() == h
                    &&& final(self).spec_allocs() == (if old(self).spec_allocs() == usize::MAX {
                        0
                    } else {
                        (old(self).spec_allocs() + 1) as usize
                    })
                }
            }),
    {
        if self.base == 0 {
            return None;
        }
        let a: usize = if align < MIN_ALIGN { MIN_ALIGN } else { align };
        let s0: u128 = if size < MIN_ALIGN { 16 } else { size as u128 };
        let rsize: u128 = (s0 + 15) / 16 * 16;
        proof {
            assert(rsize == alloc_size(size));
            assert(a as int == alloc_align(align));
            assert(a >= 16);
        }
        let mut i: usize = 0;
        while i < list.len()
            invariant
                0 <= i <= list@.len(),
                a >= 16,
                a as int == alloc_align(align),
                rsize == alloc_size(size),
                first_fit(list@, rsize as int, a as int, 0) == first_fit(list@, rsize as int, a as int, i as int),
                list_ok(list@, self.free_head, self.end),
                self.base == old(self).base,
                self.base != 0,
                self.end == old(self).end,
                self.free_head == old(self).free_head,
                self.allocs == old(self).allocs,
                self.deallocs == old(self).deallocs,
            decreases list@.len() - i,
        {
            let b = list[i];
            let p: u128 = b.header as u128 + 16;
            let aligned: u128 = (p + a as u128 - 1) / (a as u128) * (a as u128);
            let block_end: u128 = b.header as u128 + 16 + b.size as u128;
            proof {
                assert(list@[i as int].header + HEADER_SIZE + list@[i as int].size <= self.end);
                assert(aligned == round_up(p as int, a as int));
                assert(((p + a - 1) / (a as int)) * (a as int) <= p + a - 1) by (nonlinear_arith)
                    requires a > 0, p >= 0;
                assert(((p + a - 1) / (a as int)) * (a as int) >= p) by (nonlinear_arith)
                    requires a > 0, p >= 0;
            }
            if aligned + rsize <= block_end {
                let head1: usize = if i == 0 { b.next } else { self.free_head };
                let relink: Option<Relink> = if i == 0 { None } else { Some(Relink { prev: list[i - 1].header, next: b.next }) };
                let leftover: u128 = aligned + rsize;
                let fragment: Option<FreeBlock> = if leftover + 16 <= block_end {
                    Some(FreeBlock { header: leftover as usize, size: (block_end - leftover - 16) as usize, next: head1 })
                } else {
                    None
                };
                let plan = AllocPlan {
                    header: (aligned - 16) as usize,
                    payload: aligned as usize,
                    size: rsize as usize,
                    relink,
                    fragment,
                };
                self.free_head = match fragment {
                    Some(f) => f.header,
                    None => head1,
                };
                self.allocs = self.allocs.wrapping_add(1);
                return Some(plan);
            }
            i = i + 1;
        }
        None
    }

    /// Free the block whose payload starts at `payload`: its header goes to
    /// the head of the free list (no coalescing). Returns the header to mark
    /// free and the next pointer to write in it; `None` for a null payload,
    /// which still counts as a release. An uninitialized heap ignores the
    /// call.
    pub fn dealloc_locked(&mut self, payload: usize) -> (r: Option<(usize, usize)>)
        requires
            payload == 0 || payload >= HEADER_SIZE,
        ensures
            final(self).spec_base() == old(self).spec_base(),
            final(self).spec_end() == old(self).spec_end(),
            final(self).spec_allocs() == old(self).spec_allocs(),
            old(self).spec_base() == 0 ==> r is None && final(self).spec_free_head() == old(self).spec_free_head()
                && final(self).spec_deallocs() == old(self).spec_deallocs(),
            old(self).spec_base() != 0 ==> final(self).spec_deallocs() == (if old(self).spec_deallocs()
                == usize::MAX {
                0
            } else {
                (old(self).spec_deallocs() + 1) as usize
            }),
            old(self).spec_base() != 0 && payload == 0 ==> r is None && final(self).spec_free_head() == old(
                self,
            ).spec_free_head(),
            old(self).spec_base() != 0 && payload != 0 ==> r == Some(
                ((payload - HEADER_SIZE) as usize, old(self).spec_free_head()),
            ) && final(self).spec_free_head() == payload - HEADER_SIZE,
    {
        if self.base == 0 {
            return None;
        }
        let r = if payload == 0 {
            None
        } else {
            let header = payload - HEADER_SIZE;
            let next = self.free_head;
            self.free_head = header;
            Some((header, next))
        };
        self.deallocs = self.deallocs.wrapping_add(1);
        r
    }

    /// Number of successful allocations (wrapping).
    pub fn allocs(&self) -> (r: usize)
        ensures
            r == self.spec_allocs(),
    {
        self.allocs
    }

    /// Number of releases (wrapping).
    pub fn deallocs(&self) -> (r: usize)
        ensures
            r == self.spec_deallocs(),
    {
        self.deallocs
    }

    /// Header address of the first free block.
    pub fn free_head(&self) -> (r: usize)
        ensures
            r == self.spec_free_head(),
    {
        self.free_head
    }

    /// End of the heap region (exclusive).
    pub fn end(&self) -> (r: usize)
        ensures
            r == self.spec_end(),
    {
        self.end
    }
}

} // verus!

verus! {

/// A freed block is reused first: once the block with header `h` heads the
/// free list (as `dealloc_locked` leaves it), an allocation of at most its
/// payload size with at most the minimum alignment is served from it, at
/// the same payload address.
pub proof fn law_freed_block_reused_first(b: FreeBlock, rest: Seq<FreeBlock>, size: usize, align: usize, head: usize)
    requires
        b.header % 16 == 0,
        b.header + HEADER_SIZE + b.size <= usize::MAX,
        alloc_size(size) <= b.size,
        align <= MIN_ALIGN,
    ensures
        first_fit(seq![b] + rest, alloc_size(size), alloc_align(align), 0) == 0,
        plan_at(seq![b] + rest, 0, alloc_size(size), alloc_align(align), head).0.payload == b.header + HEADER_SIZE,
        plan_at(seq![b] + rest, 0, alloc_size(size), alloc_align(align), head).0.relink is None,
{
    let x = b.header + HEADER_SIZE;
    assert(x % 16 == 0);
    assert((x + 15) / 16 * 16 == x) by (nonlinear_arith)
        requires x % 16 == 0, x >= 0;
    assert(round_up(x, 16) == x);
    assert((seq![b] + rest)[0] == b);
}

/// An allocation stays inside the free block that serves it: its header
/// and payload lie within the block, after the block's own header, and the
/// leftover fragment, when there is one, starts right after the payload and
/// ends where the block ended. So an allocation overlaps no memory the free
/// block did not hold, and the fragment put back on the list does not
/// overlap the allocation.
pub proof fn law_alloc_stays_in_block(list: Seq<FreeBlock>, i: int, size: usize, align: usize, head: usize)
    requires
        0 <= i < list.len(),
        list[i].header + HEADER_SIZE + list[i].size <= usize::MAX,
        fits(list[i], alloc_size(size), alloc_align(align)),
    ensures
        ({
            let b = list[i];
            let p = plan_at(list, i, alloc_size(size), alloc_align(align), head).0;
            &&& b.header <= p.header
            &&& p.header + HEADER_SIZE == p.payload
            &&& p.payload + p.size <= b.header + HEADER_SIZE + b.size
            &&& p.fragment matches Some(f) ==> (f.header == p.payload + p.size && f.header + HEADER_SIZE + f.size
                == b.header + HEADER_SIZE + b.size)
        }),
{
    let b = list[i];
    let a = alloc_align(align);
    let x = b.header + HEADER_SIZE;
    let n = x + a - 1;
    vstd::arithmetic::div_mod::lemma_fundamental_div_mod(n, a);
    vstd::arithmetic::div_mod::lemma_mod_bound(n, a);
    assert(round_up(x, a) == n / a * a);
    assert(a * (n / a) == n / a * a) by (nonlinear_arith);
    assert(round_up(x, a) >= x);
    assert(alloc_size(size) >= 0) by (nonlinear_arith)
        requires
            alloc_size(size) == round_up(if size < 16 { 16 } else { size as int }, 16),
    {
        let y: int = if size < 16 { 16 } else { size as int };
        assert((y + 15) / 16 >= 0);
    }
}

} // verus!
