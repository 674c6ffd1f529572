//! ELF64 little-endian AArch64 program-image reader and load planner.
//!
//! The planner is pure: it reads an in-memory image and produces a validated
//! [`LoadPlan`] describing what to map, copy and zero-fill, and where to enter.
//! Every field is bounds-checked against the image, arithmetic is
//! overflow-checked, segments must be disjoint after page rounding, and W^X is
//! enforced at plan time.
use vstd::prelude::*;

verus! {

/// File offset type in the image.
pub type Off = u64;

/// Memory address type in the image.
pub type Addr = u64;

pub const ELFCLASS64: u8 = 2;
pub const ELFDATA2LSB: u8 = 1;
pub const EM_AARCH64: u16 = 0xB7;
pub const ET_EXEC: u16 = 2;

pub const PT_LOAD: u32 = 1;

pub const PF_X: u32 = 1;
pub const PF_W: u32 = 2;
pub const PF_R: u32 = 4;

/// Page size of the target VA space (4 KiB).
pub const PAGE: u64 = 4096;

/// Entry-point alignment requirement (instruction fetch alignment).
pub const ENTRY_ALIGN: u64 = 4;

/// Most PT_LOAD segments a plan can hold.
pub const MAX_SEGS: usize = 16;

#[derive(Debug, Clone, Copy, PartialEq, Eq, Structural)]
pub enum ElfError {
    TooSmall,
    BadMagic,
    BadClass,
    BadEndian,
    BadMachine,
    BadType,
    /// e_phoff == 0, e_phnum == 0 or e_phentsize too small.
    BadHeaderFields,
    /// The program header table extends past the image.
    TruncatedHeader,
    /// p_filesz extends past the image.
    SegmentTruncated,
    /// Two PT_LOADs overlap after page rounding.
    SegmentOverlap,
    /// p_memsz < p_filesz, or a writable and executable segment.
    BadSegmentSize,
    /// Nothing to load, or more PT_LOADs than a plan can hold.
    NoLoadSegments,
    /// Entry not aligned or not inside any executable segment.
    BadEntry,
    /// Segment vaddr/offset congruence violated.
    BadAlignment,
    Overflow,
}

/// One validated PT_LOAD segment, page-rounded for mapping.
#[derive(Debug, Clone, Copy, PartialEq, Eq, Structural)]
pub struct LoadSegment {
    /// Page-aligned virtual start.
    pub va_start: Addr,
    /// Exclusive virtual end (page-rounded up from vaddr + memsz).
    pub va_end: Addr,
    /// Byte offset of file data inside the image.
    pub file_off: Off,
    /// Bytes to copy from the file.
    pub filesz: u64,
    /// Total bytes in memory (memsz >= filesz; the tail is zero-fill).
    pub memsz: u64,
    /// Permission bits (same values as PF_*).
    pub flags: u32,
}

/// Complete validated load plan for an image.
#[derive(Debug, Clone, PartialEq, Eq)]
pub struct LoadPlan {
    pub entry: Addr,
    pub segments: Vec<LoadSegment>,
}

// ---------------------------------------------------------------------------
// Specification
// ---------------------------------------------------------------------------

/// Largest multiple of the page size not above `x`.
pub open spec fn page_floor(x: int) -> int {
    x - x % (PAGE as int)
}

/// Little-endian 16-bit field at `off`.
#[verifier::opaque]
pub open spec fn le16(img: Seq<u8>, off: int) -> int {
    img[off] as int + img[off + 1] as int * 0x100
}

/// Little-endian 32-bit field at `off`.
#[verifier::opaque]
pub open spec fn le32(img: Seq<u8>, off: int) -> int {
    le16(img, off) + le16(img, off + 2) * 0x10000
}

/// Little-endian 64-bit field at `off`.
#[verifier::opaque]
pub open spec fn le64(img: Seq<u8>, off: int) -> int {
    le32(img, off) + le32(img, off + 4) * 0x1_0000_0000
}

/// The image starts with the ELF magic `\x7fELF`.
pub open spec fn has_elf_magic(img: Seq<u8>) -> bool {
    img[0] == 0x7f && img[1] == 0x45 && img[2] == 0x4c && img[3] == 0x46
}

/// What the program header at byte `base` contributes: nothing (not
/// PT_LOAD), a validated segment, or the first rule it breaks.
pub open spec fn spec_segment(img: Seq<u8>, base: int) -> Result<Option<LoadSegment>, ElfError> {
    let p_type = le32(img, base);
    let p_flags = le32(img, base + 4) as u32;
    let p_offset = le64(img, base + 8);
    let p_vaddr = le64(img, base + 16);
    let p_filesz = le64(img, base + 32);
    let p_memsz = le64(img, base + 40);
    if p_type != PT_LOAD {
        Ok(None)
    } else if (p_vaddr - p_offset) % (PAGE as int) != 0 {
        Err(ElfError::BadAlignment)
    } else if p_memsz < p_filesz {
        Err(ElfError::BadSegmentSize)
    } else if p_offset + p_filesz > u64::MAX {
        Err(ElfError::Overflow)
    } else if p_offset + p_filesz > img.len() {
        Err(ElfError::SegmentTruncated)
    } else if p_vaddr + p_memsz + (PAGE - 1) > u64::MAX {
        Err(ElfError::Overflow)
    } else {
        let va_start = page_floor(p_vaddr);
        let va_end = page_floor(p_vaddr + p_memsz + (PAGE - 1));
        if va_end <= va_start && p_memsz > 0 {
            Err(ElfError::Overflow)
        } else if p_flags & PF_W != 0 && p_flags & PF_X != 0 {
            Err(ElfError::BadSegmentSize)
        } else {
            Ok(
                Some(
                    LoadSegment {
                        va_start: va_start as u64,
                        va_end: va_end as u64,
                        file_off: p_offset as u64,
                        filesz: p_filesz as u64,
                        memsz: p_memsz as u64,
                        flags: p_flags,
                    },
                ),
            )
        }
    }
}

/// Walk program headers `i..phnum`, appending PT_LOAD segments to `acc`;
/// the first error ends the walk.
pub open spec fn scan_segments(
    img: Seq<u8>,
    phoff: int,
    phentsize: int,
    phnum: int,
    i: int,
    acc: Seq<LoadSegment>,
) -> Result<Seq<LoadSegment>, ElfError>
    decreases phnum - i,
{
    if i >= phnum {
        Ok(acc)
    } else {
        match spec_segment(img, phoff + i * phentsize) {
            Err(e) => Err(e),
            Ok(None) => scan_segments(img, phoff, phentsize, phnum, i + 1, acc),
            Ok(Some(s)) => if acc.len() >= MAX_SEGS {
                Err(ElfError::NoLoadSegments)
            } else {
                scan_segments(img, phoff, phentsize, phnum, i + 1, acc.push(s))
            },
        }
    }
}

/// Segment `i` comes before segment `j` when sorted by start address, ties
/// kept in header order.
pub open spec fn seg_before(segs: Seq<LoadSegment>, i: int, j: int) -> bool {
    segs[i].va_start < segs[j].va_start || (segs[i].va_start == segs[j].va_start && i < j)
}

/// Some segment starts before the end of a segment that comes before it.
pub open spec fn has_overlap(segs: Seq<LoadSegment>) -> bool {
    exists|i: int, j: int|
        0 <= i < segs.len() && 0 <= j < segs.len() && i != j && #[trigger] seg_before(segs, i, j)
            && segs[j].va_start < segs[i].va_end
}

/// `entry` lies inside an executable segment.
pub open spec fn entry_in_exec(segs: Seq<LoadSegment>, entry: int) -> bool {
    exists|k: int|
        0 <= k < segs.len() && #[trigger] segs[k].flags & PF_X != 0 && segs[k].va_start <= entry
            < segs[k].va_end
}

/// The plan (entry, segments) an image yields, or the first rule it breaks.
pub open spec fn spec_plan_load(img: Seq<u8>) -> Result<(u64, Seq<LoadSegment>), ElfError> {
    if img.len() < 64 {
        Err(ElfError::TooSmall)
    } else if !has_elf_magic(img) {
        Err(ElfError::BadMagic)
    } else if img[4] != ELFCLASS64 {
        Err(ElfError::BadClass)
    } else if img[5] != ELFDATA2LSB {
        Err(ElfError::BadEndian)
    } else {
        let e_type = le16(img, 16);
        let e_machine = le16(img, 18);
        let e_entry = le64(img, 24);
        let e_phoff = le64(img, 32);
        let e_phentsize = le16(img, 54);
        let e_phnum = le16(img, 56);
        if e_type != ET_EXEC {
            Err(ElfError::BadType)
        } else if e_machine != EM_AARCH64 {
            Err(ElfError::BadMachine)
        } else if e_phoff == 0 || e_phnum == 0 || e_phentsize < 56 {
            Err(ElfError::BadHeaderFields)
        } else if e_phoff + e_phnum * e_phentsize > u64::MAX {
            Err(ElfError::Overflow)
        } else if e_phoff + e_phnum * e_phentsize > img.len() {
            Err(ElfError::TruncatedHeader)
        } else {
            finish_plan(scan_segments(img, e_phoff, e_phentsize, e_phnum, 0, Seq::empty()), e_entry)
        }
    }
}

/// Cross-segment and entry-point checks applied to the walk's outcome.
pub open spec fn finish_plan(
    scanned: Result<Seq<LoadSegment>, ElfError>,
    e_entry: int,
) -> Result<(u64, Seq<LoadSegment>), ElfError> {
    match scanned {
        Err(e) => Err(e),
        Ok(segs) => if segs.len() == 0 {
            Err(ElfError::NoLoadSegments)
        } else if has_overlap(segs) {
            Err(ElfError::SegmentOverlap)
        } else if e_entry % (ENTRY_ALIGN as int) != 0 {
            Err(ElfError::BadEntry)
        } else if !entry_in_exec(segs, e_entry) {
            Err(ElfError::BadEntry)
        } else {
            Ok((e_entry as u64, segs))
        },
    }
}

/// The abstract value of a planning result.
pub open spec fn plan_view(r: Result<LoadPlan, ElfError>) -> Result<(u64, Seq<LoadSegment>), ElfError> {
    match r {
        Ok(p) => Ok((p.entry, p.segments@)),
        Err(e) => Err(e),
    }
}

/// What every accepted plan guarantees to the loader.
pub open spec fn plan_is_sound(img: Seq<u8>, entry: u64, segs: Seq<LoadSegment>) -> bool {
    &&& 1 <= segs.len() <= MAX_SEGS
    &&& forall|k: int|
        0 <= k < segs.len() ==> {
            let s = #[trigger] segs[k];
            &&& s.va_start % PAGE == 0
            &&& s.va_end % PAGE == 0
            &&& s.filesz <= s.memsz
            &&& s.file_off + s.filesz <= img.len()
            &&& !(s.flags & PF_W != 0 && s.flags & PF_X != 0)
            &&& s.va_start + s.filesz + (PAGE - 1) <= u64::MAX
        }
    &&& forall|i: int, j: int|
        0 <= i < segs.len() && 0 <= j < segs.len() && i != j ==> #[trigger] segs[i].va_end
            <= #[trigger] segs[j].va_start || segs[j].va_end <= segs[i].va_start
    &&& entry % ENTRY_ALIGN == 0
    &&& entry_in_exec(segs, entry as int)
}

// ---------------------------------------------------------------------------
// Field readers
// ---------------------------------------------------------------------------

fn rd16(img: &[u8], off: usize) -> (r: Option<u16>)
    ensures
        off + 2 <= img@.len() ==> (r matches Some(v) && v as int == le16(img@, off as int)),
        off + 2 > img@.len() ==> r.is_none(),
{
    if off > img.len() || img.len() - off < 2 {
        return None;
    }
    proof {
        reveal(le16);
    }
    Some((img[off] as u16) + (img[off + 1] as u16) * 0x100)
}

fn rd32(img: &[u8], off: usize) -> (r: Option<u32>)
    ensures
        off + 4 <= img@.len() ==> (r matches Some(v) && v as int == le32(img@, off as int)),
        off + 4 > img@.len() ==> r.is_none(),
{
    if off > img.len() || img.len() - off < 4 {
        return None;
    }
    let lo = (img[off] as u32) + (img[off + 1] as u32) * 0x100;
    let hi = (img[off + 2] as u32) + (img[off + 3] as u32) * 0x100;
    proof {
        reveal(le16);
        reveal(le32);
    }
    Some(lo + hi * 0x10000)
}

fn rd64(img: &[u8], off: usize) -> (r: Option<u64>)
    ensures
        off + 8 <= img@.len() ==> (r matches Some(v) && v as int == le64(img@, off as int)),
        off + 8 > img@.len() ==> r.is_none(),
{
    if off > img.len() || img.len() - off < 8 {
        return None;
    }
    let b0 = (img[off] as u64) + (img[off + 1] as u64) * 0x100;
    let b1 = (img[off + 2] as u64) + (img[off + 3] as u64) * 0x100;
    let b2 = (img[off + 4] as u64) + (img[off + 5] as u64) * 0x100;
    let b3 = (img[off + 6] as u64) + (img[off + 7] as u64) * 0x100;
    let lo = b0 + b1 * 0x10000;
    let hi = b2 + b3 * 0x10000;
    proof {
        reveal(le16);
        reveal(le32);
        reveal(le64);
    }
    Some(lo + hi * 0x1_0000_0000)
}

proof fn lemma_le_range(img: Seq<u8>, off: int)
    ensures
        0 <= le16(img, off) <= 0xffff,
        0 <= le32(img, off) <= 0xffff_ffff,
        0 <= le64(img, off) <= 0xffff_ffff_ffff_ffff,
{
    reveal(le16);
    reveal(le32);
    reveal(le64);
    assert(0 <= le16(img, off) <= 0xffff);
    assert(0 <= le16(img, off + 2) <= 0xffff);
    assert(0 <= le32(img, off) <= 0xffff_ffff);
    assert(0 <= le32(img, off + 4) <= 0xffff_ffff);
}

proof fn lemma_header_ranges(img: Seq<u8>, base: int)
    ensures
        0 <= le32(img, base) <= 0xffff_ffff,
        0 <= le32(img, base + 4) <= 0xffff_ffff,
        0 <= le64(img, base + 8) <= 0xffff_ffff_ffff_ffff,
        0 <= le64(img, base + 16) <= 0xffff_ffff_ffff_ffff,
        0 <= le64(img, base + 32) <= 0xffff_ffff_ffff_ffff,
        0 <= le64(img, base + 40) <= 0xffff_ffff_ffff_ffff,
{
    lemma_le_range(img, base);
    lemma_le_range(img, base + 4);
    lemma_le_range(img, base + 8);
    lemma_le_range(img, base + 16);
    lemma_le_range(img, base + 32);
    lemma_le_range(img, base + 40);
}

proof fn lemma_page_floor(x: u64)
    ensures
        x & !0xfffu64 == page_floor(x as int),
        page_floor(x as int) % (PAGE as int) == 0,
        0 <= page_floor(x as int) <= x,
        x - page_floor(x as int) < PAGE,
{
    assert(x & !0xfffu64 == x - x % 4096) by (bit_vector);
}

proof fn lemma_xor_low_bits(a: u64, b: u64)
    ensures
        ((a ^ b) & 0xfffu64 == 0) == ((a as int - b as int) % (PAGE as int) == 0),
{
    assert(((a ^ b) & 0xfff == 0) == (a % 4096 == b % 4096)) by (bit_vector);
}

// ---------------------------------------------------------------------------
// Segment methods
// ---------------------------------------------------------------------------

impl LoadSegment {
    /// True when the segment has file bytes that must be copied eagerly.
    pub fn has_file_data(&self) -> (r: bool)
        ensures
            r == (self.filesz > 0),
    {
        self.filesz > 0
    }

    /// The lazy (demand-fillable) tail: the page-rounded part of memory past
    /// the page holding the last file byte, as (start, length).
    pub fn lazy_tail(&self) -> (r: Option<(Addr, u64)>)
        requires
            self.va_start + self.filesz + (PAGE - 1) <= u64::MAX,
        ensures
            ({
                let data_end_r = page_floor(self.va_start + self.filesz + (PAGE - 1));
                &&& self.va_end > data_end_r ==> r == Some(
                    (data_end_r as u64, (self.va_end - data_end_r) as u64),
                )
                &&& self.va_end <= data_end_r ==> r.is_none()
            }),
    {
        let data_end = self.va_start.saturating_add(self.filesz);
        let x = data_end + (PAGE - 1);
        let data_end_r = x & !0xfffu64;
        proof {
            lemma_page_floor(x);
        }
        if self.va_end > data_end_r {
            Some((data_end_r, self.va_end - data_end_r))
        } else {
            None
        }
    }
}

// ---------------------------------------------------------------------------
// Planner
// ---------------------------------------------------------------------------

/// Validate one program header at `base` (already known to lie inside the
/// image).
fn check_segment(img: &[u8], base: usize) -> (r: Result<Option<LoadSegment>, ElfError>)
    requires
        base + 48 <= img@.len(),
    ensures
        r == spec_segment(img@, base as int),
{
    assert(img@.len() == img.len());
    let p_type = rd32(img, base).unwrap();
    let p_flags = rd32(img, base + 4).unwrap();
    let p_offset = rd64(img, base + 8).unwrap();
    let p_vaddr = rd64(img, base + 16).unwrap();
    let p_filesz = rd64(img, base + 32).unwrap();
    let p_memsz = rd64(img, base + 40).unwrap();

    if p_type != PT_LOAD {
        return Ok(None);
    }
    proof {
        lemma_xor_low_bits(p_vaddr, p_offset);
    }
    if (p_vaddr ^ p_offset) & (PAGE - 1) != 0 {
        return Err(ElfError::BadAlignment);
    }
    if p_memsz < p_filesz {
        return Err(ElfError::BadSegmentSize);
    }
    let file_end = match p_offset.checked_add(p_filesz) {
        Some(v) => v,
        None => return Err(ElfError::Overflow),
    };
    if file_end > img.len() as u64 {
        return Err(ElfError::SegmentTruncated);
    }
    let mem_end = match p_vaddr.checked_add(p_memsz) {
        Some(v) => v,
        None => return Err(ElfError::Overflow),
    };
    if mem_end > u64::MAX - (PAGE - 1) {
        return Err(ElfError::Overflow);
    }
    let va_start = p_vaddr & !0xfffu64;
    let va_end = (mem_end + (PAGE - 1)) & !0xfffu64;
    proof {
        lemma_page_floor(p_vaddr);
        lemma_page_floor((mem_end + (PAGE - 1)) as u64);
    }
    if va_end <= va_start && p_memsz > 0 {
        return Err(ElfError::Overflow);
    }
    if p_flags & PF_W != 0 && p_flags & PF_X != 0 {
        return Err(ElfError::BadSegmentSize);
    }
    Ok(
        Some(
            LoadSegment {
                va_start,
                va_end,
                file_off: p_offset,
                filesz: p_filesz,
                memsz: p_memsz,
                flags: p_flags,
            },
        ),
    )
}

/// Every segment produced by a walk is well formed.
proof fn lemma_scan_sound(
    img: Seq<u8>,
    phoff: int,
    phentsize: int,
    phnum: int,
    i: int,
    acc: Seq<LoadSegment>,
)
    requires
        i <= phnum,
        acc.len() <= MAX_SEGS,
        forall|k: int| 0 <= k < acc.len() ==> segment_is_sound(img, #[trigger] acc[k]),
    ensures
        scan_segments(img, phoff, phentsize, phnum, i, acc) matches Ok(segs) ==> {
            &&& segs.len() <= MAX_SEGS
            &&& forall|k: int| 0 <= k < segs.len() ==> segment_is_sound(img, #[trigger] segs[k])
        },
    decreases phnum - i,
{
    if i < phnum {
        let base = phoff + i * phentsize;
        match spec_segment(img, base) {
            Err(e) => {},
            Ok(None) => {
                lemma_scan_sound(img, phoff, phentsize, phnum, i + 1, acc);
            },
            Ok(Some(s)) => {
                if acc.len() < MAX_SEGS {
                    lemma_segment_sound(img, base);
                    let acc2 = acc.push(s);
                    assert forall|k: int| 0 <= k < acc2.len() implies segment_is_sound(
                        img,
                        #[trigger] acc2[k],
                    ) by {
                        if k < acc.len() {
                            assert(acc2[k] == acc[k]);
                        }
                    }
                    lemma_scan_sound(img, phoff, phentsize, phnum, i + 1, acc2);
                }
            },
        }
    }
}

/// Per-segment part of [`plan_is_sound`].
pub open spec fn segment_is_sound(img: Seq<u8>, s: LoadSegment) -> bool {
    &&& s.va_start % PAGE == 0
    &&& s.va_end % PAGE == 0
    &&& s.filesz <= s.memsz
    &&& s.file_off + s.filesz <= img.len()
    &&& !(s.flags & PF_W != 0 && s.flags & PF_X != 0)
    &&& s.va_start + s.filesz + (PAGE - 1) <= u64::MAX
}

proof fn lemma_segment_sound(img: Seq<u8>, base: int)
    ensures
        spec_segment(img, base) matches Ok(Some(s)) ==> segment_is_sound(img, s),
{
    let p_offset = le64(img, base + 8);
    let p_vaddr = le64(img, base + 16);
    let p_filesz = le64(img, base + 32);
    let p_memsz = le64(img, base + 40);
    lemma_header_ranges(img, base);
    if spec_segment(img, base) matches Ok(Some(s)) {
        let e = p_vaddr + p_memsz + (PAGE - 1);
        assert(page_floor(p_vaddr) % 4096 == 0);
        assert(page_floor(e) % 4096 == 0);
        assert(page_floor(p_vaddr) <= p_vaddr);
    }
}

/// Byte offset of program header `i`.
pub open spec fn ph_base(phoff: int, phentsize: int, i: int) -> int {
    phoff + i * phentsize
}

/// Segment `s` is what the PT_LOAD program header at byte `base` asks for:
/// its file data is the header's `p_filesz` bytes at image offset
/// `p_offset`, and file byte `k` is placed at `p_vaddr + k` (the page start
/// plus the offset's position in its page); its memory size and flags are
/// the header's.
pub open spec fn header_gives(img: Seq<u8>, base: int, s: LoadSegment) -> bool {
    &&& le32(img, base) == PT_LOAD
    &&& s.file_off == le64(img, base + 8)
    &&& s.filesz == le64(img, base + 32)
    &&& s.memsz == le64(img, base + 40)
    &&& s.flags == le32(img, base + 4)
    &&& s.va_start % PAGE == 0
    &&& s.va_start + s.file_off % PAGE == le64(img, base + 16)
    &&& s.va_end % PAGE == 0
    &&& le64(img, base + 16) + s.memsz <= s.va_end < le64(img, base + 16) + s.memsz + PAGE
}

/// The indices of the PT_LOAD program headers among the first `n`, in
/// order.
pub open spec fn load_headers(img: Seq<u8>, phoff: int, phentsize: int, n: int) -> Seq<int>
    decreases n,
{
    if n <= 0 {
        Seq::empty()
    } else {
        load_headers(img, phoff, phentsize, n - 1) + if le32(img, ph_base(phoff, phentsize, n - 1)) == PT_LOAD {
            seq![n - 1]
        } else {
            Seq::<int>::empty()
        }
    }
}

/// Segment `s` comes from one of the `phnum` program headers.
pub open spec fn from_header(img: Seq<u8>, phoff: int, phentsize: int, phnum: int, s: LoadSegment) -> bool {
    exists|i: int| 0 <= i < phnum && #[trigger] header_gives(img, ph_base(phoff, phentsize, i), s)
}

proof fn lemma_segment_from_header(img: Seq<u8>, base: int)
    ensures
        spec_segment(img, base) matches Ok(Some(s)) ==> header_gives(img, base, s),
{
    lemma_header_ranges(img, base);
    if let Ok(Some(s)) = spec_segment(img, base) {
        let o = le64(img, base + 8);
        let v = le64(img, base + 16);
        assert(v % 4096 == o % 4096) by (nonlinear_arith)
            requires
                (v - o) % 4096 == 0,
                0 <= v,
                0 <= o,
        ;
        assert(page_floor(v) % 4096 == 0) by (nonlinear_arith)
            requires
                0 <= v,
        ;
        let x = v + le64(img, base + 40) + 4095;
        assert(page_floor(x) % 4096 == 0 && x - 4095 <= page_floor(x) <= x) by (nonlinear_arith)
            requires
                0 <= x,
        ;
    }
}

proof fn lemma_scan_in_header_order(
    img: Seq<u8>,
    phoff: int,
    phentsize: int,
    phnum: int,
    i: int,
    acc: Seq<LoadSegment>,
)
    requires
        0 <= i <= phnum,
        acc.len() == load_headers(img, phoff, phentsize, i).len(),
        forall|k: int|
            0 <= k < acc.len() ==> header_gives(
                img,
                ph_base(phoff, phentsize, load_headers(img, phoff, phentsize, i)[k]),
                #[trigger] acc[k],
            ),
    ensures
        scan_segments(img, phoff, phentsize, phnum, i, acc) matches Ok(segs) ==> {
            &&& segs.len() == load_headers(img, phoff, phentsize, phnum).len()
            &&& forall|k: int|
                0 <= k < segs.len() ==> header_gives(
                    img,
                    ph_base(phoff, phentsize, load_headers(img, phoff, phentsize, phnum)[k]),
                    #[trigger] segs[k],
                )
        },
    decreases phnum - i,
{
    if i < phnum {
        let base = phoff + i * phentsize;
        let lh = load_headers(img, phoff, phentsize, i);
        let lh1 = load_headers(img, phoff, phentsize, i + 1);
        lemma_segment_from_header(img, base);
        assert(ph_base(phoff, phentsize, i) == base);
        match spec_segment(img, base) {
            Err(_) => {},
            Ok(None) => {
                assert(lh1 =~= lh);
                lemma_scan_in_header_order(img, phoff, phentsize, phnum, i + 1, acc);
            },
            Ok(Some(s)) => {
                if acc.len() < MAX_SEGS {
                    let acc2 = acc.push(s);
                    assert(lh1 =~= lh.push(i));
                    assert forall|k: int| 0 <= k < acc2.len() implies header_gives(
                        img,
                        ph_base(phoff, phentsize, lh1[k]),
                        #[trigger] acc2[k],
                    ) by {
                        if k < acc.len() {
                            assert(acc2[k] == acc[k]);
                            assert(lh1[k] == lh[k]);
                        }
                    }
                    lemma_scan_in_header_order(img, phoff, phentsize, phnum, i + 1, acc2);
                }
            },
        }
    }
}

proof fn lemma_scan_from_headers(
    img: Seq<u8>,
    phoff: int,
    phentsize: int,
    phnum: int,
    i: int,
    acc: Seq<LoadSegment>,
)
    requires
        0 <= i,
        forall|k: int| 0 <= k < acc.len() ==> from_header(img, phoff, phentsize, phnum, #[trigger] acc[k]),
    ensures
        scan_segments(img, phoff, phentsize, phnum, i, acc) matches Ok(segs) ==> forall|k: int|
            0 <= k < segs.len() ==> from_header(img, phoff, phentsize, phnum, #[trigger] segs[k]),
    decreases phnum - i,
{
    if i < phnum {
        let base = phoff + i * phentsize;
        lemma_segment_from_header(img, base);
        match spec_segment(img, base) {
            Err(_) => {},
            Ok(None) => {
                lemma_scan_from_headers(img, phoff, phentsize, phnum, i + 1, acc);
            },
            Ok(Some(s)) => {
                if acc.len() < MAX_SEGS {
                    let acc2 = acc.push(s);
                    assert(header_gives(img, ph_base(phoff, phentsize, i), s));
                    assert forall|k: int| 0 <= k < acc2.len() implies from_header(
                        img,
                        phoff,
                        phentsize,
                        phnum,
                        #[trigger] acc2[k],
                    ) by {
                        if k < acc.len() {
                            assert(acc2[k] == acc[k]);
                        }
                    }
                    lemma_scan_from_headers(img, phoff, phentsize, phnum, i + 1, acc2);
                }
            },
        }
    }
}

/// Only a well-formed AArch64 executable is accepted: at least a full ELF
/// header, the magic, 64-bit little-endian, `ET_EXEC` for `EM_AARCH64`; its
/// entry is the header's `e_entry`, 4-byte aligned and inside an
/// executable segment; no segment is both writable and executable, and no
/// two segments overlap.
pub proof fn law_plan_accepts_only_valid_images(img: Seq<u8>)
    ensures
        spec_plan_load(img) matches Ok((entry, segs)) ==> {
            &&& img.len() >= 64
            &&& has_elf_magic(img)
            &&& img[4] == ELFCLASS64
            &&& img[5] == ELFDATA2LSB
            &&& le16(img, 16) == ET_EXEC
            &&& le16(img, 18) == EM_AARCH64
            &&& entry == le64(img, 24)
            &&& entry % ENTRY_ALIGN == 0
            &&& exists|k: int|
                0 <= k < segs.len() && #[trigger] segs[k].flags & PF_X != 0 && segs[k].va_start <= entry
                    < segs[k].va_end
            &&& forall|k: int| 0 <= k < segs.len() ==> !(#[trigger] segs[k].flags & PF_W != 0 && segs[k].flags & PF_X != 0)
            &&& forall|i: int, j: int|
                0 <= i < segs.len() && 0 <= j < segs.len() && i != j ==> #[trigger] segs[i].va_end <= #[trigger] segs[j].va_start
                    || segs[j].va_end <= segs[i].va_start
        },
{
    if let Ok((entry, segs)) = spec_plan_load(img) {
        lemma_le_range(img, 24);
        lemma_le_range(img, 56);
        lemma_scan_sound(img, le64(img, 32), le16(img, 54), le16(img, 56), 0, Seq::empty());
        lemma_no_overlap_disjoint(segs);
    }
}

/// Every segment of an accepted plan comes from a PT_LOAD program header
/// and keeps what it says: the file data is `p_filesz` bytes at image
/// offset `p_offset` (file byte `k` is image byte `p_offset + k`), placed
/// from `p_vaddr` on inside page-aligned memory that ends at the first page
/// boundary at or above `p_vaddr + p_memsz`, with `p_memsz` and `p_flags`.
/// The plan has one segment per PT_LOAD header, in header order.
pub proof fn law_plan_segments_follow_headers(img: Seq<u8>)
    ensures
        spec_plan_load(img) matches Ok((entry, segs)) ==> forall|k: int|
            0 <= k < segs.len() ==> from_header(img, le64(img, 32), le16(img, 54), le16(img, 56), #[trigger] segs[k]),
        spec_plan_load(img) matches Ok((entry, segs)) ==> ({
            let lh = load_headers(img, le64(img, 32), le16(img, 54), le16(img, 56));
            &&& segs.len() == lh.len()
            &&& forall|k: int|
                0 <= k < segs.len() ==> header_gives(
                    img,
                    ph_base(le64(img, 32), le16(img, 54), lh[k]),
                    #[trigger] segs[k],
                )
        }),
{
    lemma_scan_from_headers(img, le64(img, 32), le16(img, 54), le16(img, 56), 0, Seq::empty());
    lemma_le_range(img, 56);
    lemma_scan_in_header_order(img, le64(img, 32), le16(img, 54), le16(img, 56), 0, Seq::empty());
}

/// Parse and validate the image into a [`LoadPlan`].
pub fn plan_load(img: &[u8]) -> (r: Result<LoadPlan, ElfError>)
    ensures
        plan_view(r) == spec_plan_load(img@),
        r matches Ok(p) ==> plan_is_sound(img@, p.entry, p.segments@),
        r matches Ok(p) ==> forall|k: int|
            0 <= k < p.segments@.len() ==> from_header(
                img@,
                le64(img@, 32),
                le16(img@, 54),
                le16(img@, 56),
                #[trigger] p.segments@[k],
            ),
        r matches Ok(p) ==> img@.len() >= 64 && has_elf_magic(img@) && img@[4] == ELFCLASS64 && img@[5]
            == ELFDATA2LSB && le16(img@, 16) == ET_EXEC && le16(img@, 18) == EM_AARCH64 && p.entry == le64(img@, 24),
        r matches Ok(p) ==> ({
            let lh = load_headers(img@, le64(img@, 32), le16(img@, 54), le16(img@, 56));
            &&& p.segments@.len() == lh.len()
            &&& forall|k: int|
                0 <= k < p.segments@.len() ==> header_gives(
                    img@,
                    ph_base(le64(img@, 32), le16(img@, 54), lh[k]),
                    #[trigger] p.segments@[k],
                )
        }),
{
    // ---- ELF header ------------------------------------------------------
    if img.len() < 64 {
        return Err(ElfError::TooSmall);
    }
    if !(img[0] == 0x7f && img[1] == 0x45 && img[2] == 0x4c && img[3] == 0x46) {
        return Err(ElfError::BadMagic);
    }
    if img[4] != ELFCLASS64 {
        return Err(ElfError::BadClass);
    }
    if img[5] != ELFDATA2LSB {
        return Err(ElfError::BadEndian);
    }
    let e_type = rd16(img, 16).unwrap();
    let e_machine = rd16(img, 18).unwrap();
    let e_entry = rd64(img, 24).unwrap();
    let e_phoff = rd64(img, 32).unwrap();
    let e_phentsize = rd16(img, 54).unwrap();
    let e_phnum = rd16(img, 56).unwrap();

    if e_type != ET_EXEC {
        return Err(ElfError::BadType);
    }
    if e_machine != EM_AARCH64 {
        return Err(ElfError::BadMachine);
    }
    if e_phoff == 0 || e_phnum == 0 || e_phentsize < 56 {
        return Err(ElfError::BadHeaderFields);
    }
    let n = e_phnum as u64;
    let esz = e_phentsize as u64;
    assert(n * esz <= 0xffff * 0xffff) by (nonlinear_arith)
        requires
            n <= 0xffff,
            esz <= 0xffff,
    ;
    let table_bytes = match e_phoff.checked_add(n * esz) {
        Some(v) => v,
        None => return Err(ElfError::Overflow),
    };
    if table_bytes > img.len() as u64 {
        return Err(ElfError::TruncatedHeader);
    }

    // ---- Program headers -------------------------------------------------
    let ghost gimg = img@;
    let ghost phoff = e_phoff as int;
    let ghost phent = e_phentsize as int;
    let ghost phnum = e_phnum as int;
    let mut segments: Vec<LoadSegment> = Vec::new();
    let count = e_phnum as usize;
    let stride = e_phentsize as usize;
    let start = e_phoff as usize;
    let mut i: usize = 0;
    assert(img@.len() == img.len());
    assert(spec_plan_load(gimg) == finish_plan(
        scan_segments(gimg, phoff, phent, phnum, 0, Seq::empty()),
        le64(gimg, 24),
    ));
    while i < count
        invariant
            gimg == img@,
            img@.len() <= usize::MAX,
            spec_plan_load(gimg) == finish_plan(
                scan_segments(gimg, phoff, phent, phnum, 0, Seq::empty()),
                le64(gimg, 24),
            ),
            0 <= i <= count,
            count == phnum,
            stride == phent,
            start == phoff,
            phent >= 56,
            phoff + phnum * phent <= img@.len(),
            segments.len() <= MAX_SEGS,
            scan_segments(gimg, phoff, phent, phnum, 0, Seq::empty()) == scan_segments(
                gimg,
                phoff,
                phent,
                phnum,
                i as int,
                segments@,
            ),
        decreases count - i,
    {
        assert(i * stride + stride <= count * stride) by (nonlinear_arith)
            requires
                i < count,
        ;
        let base = start + i * stride;
        let r = check_segment(img, base);
        assert(base as int == phoff + i * phent);
        assert(scan_segments(gimg, phoff, phent, phnum, i as int, segments@) == match spec_segment(
            gimg,
            phoff + i * phent,
        ) {
            Err(e) => Err(e),
            Ok(None) => scan_segments(gimg, phoff, phent, phnum, i + 1, segments@),
            Ok(Some(s)) => if segments@.len() >= MAX_SEGS {
                Err(ElfError::NoLoadSegments)
            } else {
                scan_segments(gimg, phoff, phent, phnum, i + 1, segments@.push(s))
            },
        });
        match r {
            Err(e) => {
                return Err(e);
            },
            Ok(None) => {},
            Ok(Some(seg)) => {
                if segments.len() >= MAX_SEGS {
                    return Err(ElfError::NoLoadSegments);
                }
                segments.push(seg);
            },
        }
        i = i + 1;
    }
    proof {
        lemma_scan_sound(gimg, phoff, phent, phnum, 0, Seq::empty());
    }
    let ghost segs = segments@;
    assert(scan_segments(gimg, phoff, phent, phnum, 0, Seq::empty()) == Ok::<
        Seq<LoadSegment>,
        ElfError,
    >(segs));

    // ---- Cross-segment checks --------------------------------------------
    if segments.len() == 0 {
        return Err(ElfError::NoLoadSegments);
    }
    if find_overlap(&segments) {
        return Err(ElfError::SegmentOverlap);
    }
    proof {
        lemma_no_overlap_disjoint(segs);
    }

    // ---- Entry point must land inside an executable segment --------------
    if e_entry % ENTRY_ALIGN != 0 {
        return Err(ElfError::BadEntry);
    }
    let mut entry_ok = false;
    let mut k: usize = 0;
    while k < segments.len()
        invariant
            0 <= k <= segments.len(),
            segments@ == segs,
            entry_ok <==> exists|m: int|
                0 <= m < k && #[trigger] segs[m].flags & PF_X != 0 && segs[m].va_start <= e_entry
                    < segs[m].va_end,
        decreases segments.len() - k,
    {
        let s = segments[k];
        if s.flags & PF_X != 0 && e_entry >= s.va_start && e_entry < s.va_end {
            entry_ok = true;
        }
        k = k + 1;
    }
    if !entry_ok {
        return Err(ElfError::BadEntry);
    }
    proof {
        lemma_scan_from_headers(gimg, phoff, phent, phnum, 0, Seq::empty());
        lemma_scan_in_header_order(gimg, phoff, phent, phnum, 0, Seq::empty());
        law_plan_accepts_only_valid_images(gimg);
        assert(phoff == le64(img@, 32) && phent == le16(img@, 54) && phnum == le16(img@, 56));
    }
    Ok(LoadPlan { entry: e_entry, segments })
}

/// Whether some segment starts before the end of a segment that comes
/// before it (see [`has_overlap`]).
fn find_overlap(segs: &Vec<LoadSegment>) -> (r: bool)
    ensures
        r == has_overlap(segs@),
{
    let n = segs.len();
    let mut i: usize = 0;
    while i < n
        invariant
            n == segs@.len(),
            0 <= i <= n,
            forall|a: int, b: int|
                0 <= a < i && 0 <= b < n && a != b && #[trigger] seg_before(segs@, a, b)
                    ==> !(segs@[b].va_start < segs@[a].va_end),
        decreases n - i,
    {
        let mut j: usize = 0;
        while j < n
            invariant
                n == segs@.len(),
                0 <= i < n,
                0 <= j <= n,
                forall|a: int, b: int|
                    0 <= a < i && 0 <= b < n && a != b && #[trigger] seg_before(segs@, a, b)
                        ==> !(segs@[b].va_start < segs@[a].va_end),
                forall|b: int|
                    0 <= b < j && i != b && #[trigger] seg_before(segs@, i as int, b)
                        ==> !(segs@[b].va_start < segs@[i as int].va_end),
            decreases n - j,
        {
            let si = segs[i];
            let sj = segs[j];
            if i != j && (si.va_start < sj.va_start || (si.va_start == sj.va_start && i < j))
                && sj.va_start < si.va_end {
                assert(seg_before(segs@, i as int, j as int));
                return true;
            }
            j = j + 1;
        }
        i = i + 1;
    }
    false
}

proof fn lemma_no_overlap_disjoint(segs: Seq<LoadSegment>)
    requires
        !has_overlap(segs),
    ensures
        forall|i: int, j: int|
            0 <= i < segs.len() && 0 <= j < segs.len() && i != j ==> #[trigger] segs[i].va_end
                <= #[trigger] segs[j].va_start || segs[j].va_end <= segs[i].va_start,
{
    assert forall|i: int, j: int|
        0 <= i < segs.len() && 0 <= j < segs.len() && i != j implies #[trigger] segs[i].va_end
        <= #[trigger] segs[j].va_start || segs[j].va_end <= segs[i].va_start by {
        if seg_before(segs, i, j) {
        } else {
            assert(seg_before(segs, j, i));
        }
    }
}

} // verus!
