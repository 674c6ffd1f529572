//! Loading a validated ELF image into an address space: the mapping
//! permissions of a segment and the page-by-page copy of its file data.
//! The caller reserves each segment with `AddressSpace::reserve_at`,
//! copies each page into a fresh zeroed frame and commits it with
//! `AddressSpace::materialize_with`; the zero-fill tail stays lazy.
use vstd::prelude::*;
use crate::elf::{LoadSegment, PF_W, PF_X};
use crate::vmm::mapping::MappingFlags;

verus! {

/// The mapping permissions of ELF segment flags `p`: always user
/// accessible and readable; writable and executable as the flags say.
pub open spec fn pflags_to_mapping(p: u32) -> MappingFlags {
    MappingFlags { user: true, read_write: p & PF_W != 0, executable: p & PF_X != 0 }
}

/// Convert ELF `p_flags` into mapping permissions (W^X is already enforced
/// by the planner).
pub fn flags_from_pflags(p_flags: u32) -> (r: MappingFlags)
    ensures
        r == pflags_to_mapping(p_flags),
{
    let mut f = MappingFlags::user();
    if p_flags & PF_W != 0 {
        f = f.union(MappingFlags::read_write());
    }
    if p_flags & PF_X != 0 {
        f = f.union(MappingFlags::executable());
    }
    f
}

/// One page of a segment's file data: the page's virtual address, the
/// offset of the data in the page, its offset in the image, its length.
#[derive(Debug, Clone, Copy, PartialEq, Eq, Structural)]
pub struct PageCopy {
    pub page_va: u64,
    pub page_off: u64,
    pub src_off: u64,
    pub len: u64,
}

/// Where a segment's file data starts in memory: at its page-aligned start
/// plus the in-page offset of the data in the file, so file byte `k` of the
/// segment lands at `segment_base(seg) + k`.
pub open spec fn segment_base(seg: LoadSegment) -> int {
    seg.va_start + seg.file_off % 4096
}

/// The page copies of `filesz` bytes placed from virtual address `base`
/// (image offset `file_off`), from byte `off` of the data on: each copy
/// runs to the end of its page or of the data, whichever comes first.
pub open spec fn copies_from(base: u64, file_off: u64, filesz: u64, off: int) -> Seq<PageCopy>
    decreases filesz - off,
{
    if off < 0 || off >= filesz {
        Seq::empty()
    } else {
        let a = base + off;
        let page_off = a % 4096;
        let len = if 4096 - page_off < filesz - off { 4096 - page_off } else { filesz - off };
        seq![PageCopy { page_va: (a - page_off) as u64, page_off: page_off as u64, src_off: (file_off + off) as u64, len: len as u64 }]
            + copies_from(base, file_off, filesz, off + len)
    }
}

/// The page copies of the file data of `seg`, in order: file byte `k`
/// goes to `segment_base(seg) + k`.
pub fn segment_copies(seg: &LoadSegment) -> (r: Vec<PageCopy>)
    requires
        segment_base(*seg) + seg.filesz <= u64::MAX,
        seg.file_off + seg.filesz <= u64::MAX,
    ensures
        r@ == copies_from(segment_base(*seg) as u64, seg.file_off, seg.filesz, 0),
{
    let base = seg.va_start + seg.file_off % 4096;
    let mut out: Vec<PageCopy> = Vec::new();
    let mut off: u64 = 0;
    while off < seg.filesz
        invariant
            off <= seg.filesz,
            base == segment_base(*seg),
            base + seg.filesz <= u64::MAX,
            seg.file_off + seg.filesz <= u64::MAX,
            out@ + copies_from(base, seg.file_off, seg.filesz, off as int) == copies_from(
                base,
                seg.file_off,
                seg.filesz,
                0,
            ),
        decreases seg.filesz - off,
    {
        let a = base + off;
        let page_off = a % 4096;
        let len = if 4096 - page_off < seg.filesz - off { 4096 - page_off } else { seg.filesz - off };
        let c = PageCopy { page_va: a - page_off, page_off, src_off: seg.file_off + off, len };
        let ghost rest = copies_from(base, seg.file_off, seg.filesz, (off + len) as int);
        assert(copies_from(base, seg.file_off, seg.filesz, off as int) == seq![c] + rest);
        let ghost before = out@;
        out.push(c);
        assert(out@ + rest =~= before + (seq![c] + rest));
        off = off + len;
    }
    out
}

} // verus!
