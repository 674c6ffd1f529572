//! Flattened device tree (DTB) scanner, over the blob's bytes.
//!
//! The structure block is a sequence of big-endian 32-bit tokens: a node
//! begins with its NUL-terminated name (padded to 4 bytes), a property
//! carries its length, the offset of its name in the strings block and its
//! value (padded to 4 bytes). The scanners walk this token stream once or
//! twice and collect what boot needs: usable memory, the CPU count, the
//! console node and the interrupt controller.
//!
//! Offsets are relative to the start of the blob, which the boot protocol
//! places 8-byte aligned. Anything that would read past the end of the blob
//! ends the walk.
use vstd::prelude::*;
use crate::boot::utf8::{is_utf8, utf8_from};
use crate::boot::boot_info::{MemoryMap, MemoryRegion, MemoryRegionKind};
use crate::boot::fdt_names;
use crate::boot::fdt_tree::{
    cpu_nodes, cpu_type_props, lemma_cpu_walk_counts_cpu_nodes, lemma_mem_walk_counts_cpu_props,
    lemma_mem_walk_finds_memory_ranges, memory_ranges, tokens, top_end_from, first_named_from, node_end_from,
    first_own_compatible, first_own_reg, last_own_cell, lemma_console_walk_fields, tokens_from, console_node_fields,
    chosen_stdout, lemma_chosen_walk_target,
};
use crate::boot::hardware::{bytes_contain, contains_bytes, HardwareNode, InterruptControllerInfo, MmioRegion};

verus! {

pub const FDT_MAGIC: u32 = 0xD00D_FEED;
pub const FDT_BEGIN_NODE: u32 = 0x1;
pub const FDT_END_NODE: u32 = 0x2;
pub const FDT_PROP: u32 = 0x3;
pub const FDT_NOP: u32 = 0x4;
pub const FDT_END: u32 = 0x9;

/// Big-endian 32-bit value at `off`.
pub open spec fn be32(b: Seq<u8>, off: int) -> u32 {
    ((b[off] as u32) << 24u32) | ((b[off + 1] as u32) << 16u32) | ((b[off + 2] as u32) << 8u32) | (b[off
        + 3] as u32)
}

/// A value of `n` big-endian 32-bit cells at `off`, keeping the low 64 bits.
pub open spec fn be_cells(b: Seq<u8>, off: int, n: nat) -> u64
    decreases n,
{
    if n == 0 {
        0
    } else {
        (be_cells(b, off, (n - 1) as nat) << 32u64) | (be32(b, off + 4 * (n - 1)) as u64)
    }
}

/// Index of the first NUL byte at or after `i`; `b.len()` when none.
pub open spec fn nul_at(b: Seq<u8>, i: int) -> int
    decreases b.len() - i,
{
    if 0 <= i < b.len() {
        if b[i] == 0 {
            i
        } else {
            nul_at(b, i + 1)
        }
    } else {
        b.len() as int
    }
}

/// `x` rounded up to a multiple of 4.
pub open spec fn align4(x: int) -> int {
    x + (4 - x % 4) % 4
}

/// The bytes `[start, start + len)` are `lit`.
pub open spec fn bytes_are(b: Seq<u8>, start: int, len: int, lit: Seq<u8>) -> bool {
    &&& len == lit.len()
    &&& 0 <= start
    &&& start + len <= b.len()
    &&& b.subrange(start, start + len) == lit
}

/// The bytes `[start, start + len)` begin with `lit`.
pub open spec fn bytes_start_with(b: Seq<u8>, start: int, len: int, lit: Seq<u8>) -> bool {
    &&& len >= lit.len()
    &&& 0 <= start
    &&& start + lit.len() <= b.len()
    &&& b.subrange(start, start + lit.len()) == lit
}

/// One token of the structure block, with byte offsets into the blob.
#[derive(Debug, Clone, Copy, PartialEq, Eq, Structural)]
pub enum FdtToken {
    /// A node begins; its name is `name_len` bytes at `name`.
    BeginNode { name: usize, name_len: usize },
    EndNode,
    /// A property: name at `name` (in the strings block), value of `len`
    /// bytes at `value`.
    Prop { name: usize, name_len: usize, value: usize, len: usize },
    Nop,
}

/// Where the structure block ends and the strings block starts.
#[derive(Debug, Clone, Copy, PartialEq, Eq, Structural)]
pub struct FdtLayout {
    pub struct_start: usize,
    pub struct_end: usize,
    pub strings: usize,
}

/// The header fields the scanners use, as the blob states them.
pub open spec fn header_ok(b: Seq<u8>) -> bool {
    b.len() >= 40
}

/// The layout the header describes; the structure block is cut at the end of
/// the blob.
pub open spec fn layout_of(b: Seq<u8>) -> FdtLayout {
    let start = be32(b, 8) as int;
    let end = start + be32(b, 36) as int;
    FdtLayout {
        struct_start: start as usize,
        struct_end: (if end <= b.len() {
            end
        } else {
            b.len() as int
        }) as usize,
        strings: be32(b, 12) as usize,
    }
}

/// The token at `pos` and the position after it; `None` ends the walk (end
/// token, unknown token, or a token that does not fit in the blob).
pub open spec fn next_token(b: Seq<u8>, lay: FdtLayout, pos: int) -> Option<(FdtToken, int)> {
    if pos < 0 || pos + 4 > lay.struct_end || pos + 4 > b.len() {
        None
    } else {
        let tok = be32(b, pos);
        if tok == FDT_BEGIN_NODE {
            let z = nul_at(b, pos + 4);
            if z >= b.len() || align4(z + 1) > usize::MAX {
                None
            } else {
                Some((FdtToken::BeginNode { name: (pos + 4) as usize, name_len: (z - (pos + 4)) as usize }, align4(z + 1)))
            }
        } else if tok == FDT_END_NODE {
            Some((FdtToken::EndNode, pos + 4))
        } else if tok == FDT_PROP {
            if pos + 12 > lay.struct_end || pos + 12 > b.len() {
                None
            } else {
                let len = be32(b, pos + 4) as int;
                let name = lay.strings + be32(b, pos + 8) as int;
                let value = pos + 12;
                if value + len > b.len() || name >= b.len() || nul_at(b, name) >= b.len() || align4(value + len)
                    > usize::MAX {
                    None
                } else {
                    Some(
                        (
                            FdtToken::Prop {
                                name: name as usize,
                                name_len: (nul_at(b, name) - name) as usize,
                                value: value as usize,
                                len: len as usize,
                            },
                            align4(value + len),
                        ),
                    )
                }
            }
        } else if tok == FDT_NOP {
            Some((FdtToken::Nop, pos + 4))
        } else {
            None
        }
    }
}

/// Every token lies in the blob and moves the walk forward by at least 4
/// bytes (8 for a node start), to at most 3 bytes past the blob.
pub proof fn lemma_next_token(b: Seq<u8>, lay: FdtLayout, pos: int)
    ensures
        next_token(b, lay, pos) matches Some((tok, np)) ==> {
            &&& 0 <= pos
            &&& pos + 4 <= np <= b.len() + 3
            &&& np <= usize::MAX
            &&& (tok matches FdtToken::BeginNode { name, name_len } ==> {
                &&& name + name_len < b.len()
                &&& pos + 5 <= np
            })
            &&& (tok matches FdtToken::Prop { name, name_len, value, len } ==> {
                &&& name + name_len < b.len()
                &&& value + len <= b.len()
                &&& value == pos + 12
                &&& pos + 12 <= np
            })
        },
{
    if pos >= 0 && pos + 4 <= lay.struct_end && pos + 4 <= b.len() {
        let tok = be32(b, pos);
        if tok == FDT_BEGIN_NODE {
            lemma_nul_at(b, pos + 4);
            lemma_align4(nul_at(b, pos + 4) + 1);
        } else if tok == FDT_PROP && pos + 12 <= b.len() {
            let name = lay.strings + be32(b, pos + 8) as int;
            let len = be32(b, pos + 4) as int;
            lemma_align4(pos + 12 + len);
            if 0 <= name < b.len() {
                lemma_nul_at(b, name);
            }
        }
    }
}

pub proof fn lemma_align4(x: int)
    requires
        0 <= x,
    ensures
        x <= align4(x) <= x + 3,
        align4(x) % 4 == 0,
{
}

pub proof fn lemma_nul_at(b: Seq<u8>, i: int)
    requires
        0 <= i,
    ensures
        i <= nul_at(b, i) || (i > b.len() && nul_at(b, i) == b.len()),
        nul_at(b, i) <= b.len() || i > b.len(),
        nul_at(b, i) < b.len() ==> b[nul_at(b, i)] == 0,
        forall|j: int| i <= j < nul_at(b, i) ==> b[j] != 0,
    decreases b.len() - i,
{
    if i < b.len() && b[i] != 0 {
        lemma_nul_at(b, i + 1);
    }
}

/// Big-endian 32-bit value at `off`.
pub fn read_be_u32(b: &[u8], off: usize) -> (r: u32)
    requires
        off + 4 <= b@.len(),
    ensures
        r == be32(b@, off as int),
{
    ((b[off] as u32) << 24u32) | ((b[off + 1] as u32) << 16u32) | ((b[off + 2] as u32) << 8u32) | (b[off
        + 3] as u32)
}

/// A value of `ncells` big-endian cells at `off` (low 64 bits).
pub fn read_be_u64(b: &[u8], off: usize, ncells: u32) -> (r: u64)
    requires
        off + 4 * ncells <= b@.len(),
    ensures
        r == be_cells(b@, off as int, ncells as nat),
{
    let n = b.len();
    let mut val: u64 = 0;
    let mut i: u32 = 0;
    while i < ncells
        invariant
            n == b@.len(),
            0 <= i <= ncells,
            off + 4 * ncells <= b@.len(),
            val == be_cells(b@, off as int, i as nat),
        decreases ncells - i,
    {
        let cell = read_be_u32(b, off + (i as usize) * 4);
        val = (val << 32u64) | (cell as u64);
        i = i + 1;
    }
    val
}

/// `x` rounded up to a multiple of 4, when that fits.
pub fn align_up4(x: usize) -> (r: Option<usize>)
    ensures
        align4(x as int) <= usize::MAX ==> r == Some(align4(x as int) as usize),
        align4(x as int) > usize::MAX ==> r is None,
{
    let pad = (4 - x % 4) % 4;
    if x > usize::MAX - pad {
        None
    } else {
        Some(x + pad)
    }
}

/// Index of the first NUL at or after `i`, or the blob length.
fn find_nul(b: &[u8], i: usize) -> (r: usize)
    requires
        i <= b@.len(),
    ensures
        r == nul_at(b@, i as int),
{
    let mut j = i;
    while j < b.len()
        invariant
            i <= j <= b@.len(),
            nul_at(b@, i as int) == nul_at(b@, j as int),
        decreases b@.len() - j,
    {
        if b[j] == 0 {
            return j;
        }
        j = j + 1;
    }
    j
}

/// Whether the bytes `[start, start + len)` are `lit`.
pub fn bytes_eq(b: &[u8], start: usize, len: usize, lit: &[u8]) -> (r: bool)
    requires
        start + len <= b@.len(),
    ensures
        r == bytes_are(b@, start as int, len as int, lit@),
{
    if len != lit.len() {
        return false;
    }
    let n = b.len();
    let mut i: usize = 0;
    while i < len
        invariant
            n == b@.len(),
            len == lit@.len(),
            start + len <= b@.len(),
            0 <= i <= len,
            forall|k: int| 0 <= k < i ==> b@[start + k] == lit@[k],
        decreases len - i,
    {
        if b[start + i] != lit[i] {
            assert(b@.subrange(start as int, start + len)[i as int] != lit@[i as int]);
            return false;
        }
        i = i + 1;
    }
    assert(b@.subrange(start as int, start + len) =~= lit@);
    true
}

/// Whether the bytes `[start, start + len)` begin with `lit`.
pub fn bytes_prefix(b: &[u8], start: usize, len: usize, lit: &[u8]) -> (r: bool)
    requires
        start + len <= b@.len(),
    ensures
        r == bytes_start_with(b@, start as int, len as int, lit@),
{
    if len < lit.len() {
        return false;
    }
    bytes_eq(b, start, lit.len(), lit)
}

/// The layout the header describes; `None` when the blob is too short to
/// hold a header.
pub fn layout(b: &[u8]) -> (r: Option<FdtLayout>)
    ensures
        header_ok(b@) ==> r == Some(layout_of(b@)),
        !header_ok(b@) ==> r is None,
{
    if b.len() < 40 {
        return None;
    }
    let start = read_be_u32(b, 8) as usize;
    let size = read_be_u32(b, 36) as usize;
    let strings = read_be_u32(b, 12) as usize;
    let end = if start <= b.len() && size <= b.len() - start {
        start + size
    } else {
        b.len()
    };
    Some(FdtLayout { struct_start: start, struct_end: end, strings })
}

/// The token at `pos` (see `next_token`).
pub fn read_token(b: &[u8], lay: &FdtLayout, pos: usize) -> (r: Option<(FdtToken, usize)>)
    ensures
        match next_token(b@, *lay, pos as int) {
            None => r is None,
            Some((tok, np)) => r == Some((tok, np as usize)),
        },
{
    proof {
        lemma_next_token(b@, *lay, pos as int);
    }
    if pos > lay.struct_end || lay.struct_end - pos < 4 || pos > b.len() || b.len() - pos < 4 {
        return None;
    }
    let tok = read_be_u32(b, pos);
    if tok == FDT_BEGIN_NODE {
        let z = find_nul(b, pos + 4);
        proof {
            lemma_nul_at(b@, pos + 4);
        }
        if z >= b.len() {
            return None;
        }
        match align_up4(z + 1) {
            Some(np) => Some((FdtToken::BeginNode { name: pos + 4, name_len: z - (pos + 4) }, np)),
            None => None,
        }
    } else if tok == FDT_END_NODE {
        Some((FdtToken::EndNode, pos + 4))
    } else if tok == FDT_PROP {
        if lay.struct_end - pos < 12 || b.len() - pos < 12 {
            return None;
        }
        let len = read_be_u32(b, pos + 4) as usize;
        let name_off = read_be_u32(b, pos + 8) as usize;
        let value = pos + 12;
        if len > b.len() - value || lay.strings >= b.len() || name_off >= b.len() - lay.strings {
            return None;
        }
        let name = lay.strings + name_off;
        let z = find_nul(b, name);
        proof {
            lemma_nul_at(b@, name as int);
        }
        if z >= b.len() {
            return None;
        }
        match align_up4(value + len) {
            Some(np) => Some((FdtToken::Prop { name, name_len: z - name, value, len }, np)),
            None => None,
        }
    } else if tok == FDT_NOP {
        Some((FdtToken::Nop, pos + 4))
    } else {
        None
    }
}

// ---------------------------------------------------------------------------
// Memory and CPU scan
// ---------------------------------------------------------------------------

/// State of the memory walk: node depth, the `#address-cells` and
/// `#size-cells` in force at depths 0..8, the last node begun, the CPU
/// nodes counted and the memory regions found.
pub struct MemScan {
    pub depth: nat,
    pub ac: Seq<u32>,
    pub sc: Seq<u32>,
    pub name: int,
    pub name_len: int,
    pub cpus: nat,
    pub regions: Seq<MemoryRegion>,
}

/// Cells in force before any `#address-cells` / `#size-cells`: 2.
pub open spec fn default_cells() -> Seq<u32> {
    Seq::new(8, |i: int| 2u32)
}

pub open spec fn mem_init() -> MemScan {
    MemScan {
        depth: 0,
        ac: default_cells(),
        sc: default_cells(),
        name: 0,
        name_len: 0,
        cpus: 0,
        regions: Seq::empty(),
    }
}

/// A `device_type` value naming a CPU: `cpu` followed only by NULs, at most
/// 16 bytes.
pub open spec fn is_cpu_type(b: Seq<u8>, value: int, len: int) -> bool {
    &&& len <= 16
    &&& bytes_start_with(b, value, len, fdt_names::name_cpu())
    &&& forall|k: int| value + 3 <= k < value + len ==> b[k] == 0
}

/// `n` memory ranges of `pac` address and `psc` size cells, `eb` bytes
/// apart from `value`.
pub open spec fn reg_entries(b: Seq<u8>, value: int, eb: int, pac: u32, psc: u32, n: nat) -> Seq<MemoryRegion>
    decreases n,
{
    if n == 0 {
        Seq::empty()
    } else {
        let off = value + (n - 1) * eb;
        reg_entries(b, value, eb, pac, psc, (n - 1) as nat).push(
            MemoryRegion {
                start: be_cells(b, off, pac as nat),
                size: be_cells(b, off + 4 * pac, psc as nat),
                kind: MemoryRegionKind::Usable,
            },
        )
    }
}

/// Cells of the parent of the current node (2 at the top).
pub open spec fn parent_cells(cells: Seq<u32>, depth: nat) -> u32 {
    if depth > 1 && depth - 1 < 8 {
        cells[depth - 1]
    } else {
        2
    }
}

/// The ranges of a memory node's `reg` of `len` bytes at `value`.
pub open spec fn memory_reg(b: Seq<u8>, st: MemScan, value: int, len: int) -> Seq<MemoryRegion> {
    let pac = parent_cells(st.ac, st.depth);
    let psc = parent_cells(st.sc, st.depth);
    let eb = (pac + psc) * 4;
    if eb > 0 {
        reg_entries(b, value, eb, pac, psc, (len / eb) as nat)
    } else {
        Seq::empty()
    }
}

/// One token of the memory walk; the flag ends the walk.
pub open spec fn mem_step(b: Seq<u8>, st: MemScan, tok: FdtToken) -> (MemScan, bool) {
    match tok {
        FdtToken::BeginNode { name, name_len } => {
            let d = st.depth + 1;
            (
                MemScan {
                    depth: d,
                    ac: if d < 8 {
                        st.ac.update(d as int, st.ac[d - 1])
                    } else {
                        st.ac
                    },
                    sc: if d < 8 {
                        st.sc.update(d as int, st.sc[d - 1])
                    } else {
                        st.sc
                    },
                    name: name as int,
                    name_len: name_len as int,
                    ..st
                },
                false,
            )
        },
        FdtToken::EndNode => if st.depth == 0 {
            (st, true)
        } else {
            (MemScan { depth: (st.depth - 1) as nat, ..st }, false)
        },
        FdtToken::Prop { name, name_len, value, len } => {
            if bytes_are(b, name as int, name_len as int, fdt_names::name_address_cells()) && len >= 4 {
                (
                    MemScan {
                        ac: if st.depth < 8 {
                            st.ac.update(st.depth as int, be32(b, value as int))
                        } else {
                            st.ac
                        },
                        ..st
                    },
                    false,
                )
            } else if bytes_are(b, name as int, name_len as int, fdt_names::name_size_cells()) && len >= 4 {
                (
                    MemScan {
                        sc: if st.depth < 8 {
                            st.sc.update(st.depth as int, be32(b, value as int))
                        } else {
                            st.sc
                        },
                        ..st
                    },
                    false,
                )
            } else {
                let cpu = bytes_are(b, name as int, name_len as int, fdt_names::name_device_type())
                    && is_cpu_type(b, value as int, len as int);
                let mem = bytes_are(b, name as int, name_len as int, fdt_names::name_reg())
                    && bytes_start_with(b, st.name, st.name_len, fdt_names::name_memory());
                (
                    MemScan {
                        cpus: if cpu {
                            st.cpus + 1
                        } else {
                            st.cpus
                        },
                        regions: if mem {
                            st.regions + memory_reg(b, st, value as int, len as int)
                        } else {
                            st.regions
                        },
                        ..st
                    },
                    false,
                )
            }
        },
        FdtToken::Nop => (st, false),
    }
}

/// The memory walk from `pos` on.
pub open spec fn mem_walk(b: Seq<u8>, lay: FdtLayout, pos: int, st: MemScan) -> MemScan
    decreases b.len() + 8 - pos,
{
    match next_token(b, lay, pos) {
        None => st,
        Some((tok, np)) => {
            proof {
                lemma_next_token(b, lay, pos);
            }
            let (st2, stop) = mem_step(b, st, tok);
            if stop {
                st2
            } else {
                mem_walk(b, lay, np, st2)
            }
        },
    }
}

/// What the memory walk over the whole structure block finds.
pub open spec fn mem_scan(b: Seq<u8>) -> MemScan {
    let lay = layout_of(b);
    mem_walk(b, lay, lay.struct_start as int, mem_init())
}

/// Eight cells of 2.
fn default_cells_vec() -> (v: Vec<u32>)
    ensures
        v@ == default_cells(),
{
    let mut v: Vec<u32> = Vec::new();
    let mut i: usize = 0;
    while i < 8
        invariant
            0 <= i <= 8,
            v@ == Seq::new(i as nat, |k: int| 2u32),
        decreases 8 - i,
    {
        v.push(2);
        i = i + 1;
    }
    v
}

/// Append the ranges of a memory node's `reg` to `mem`.
fn push_memory_reg(
    b: &[u8],
    value: usize,
    len: usize,
    pac: u32,
    psc: u32,
    mem: &mut MemoryMap,
)
    requires
        value + len <= b@.len(),
    ensures
        ({
            let eb = (pac + psc) * 4;
            final(mem).spec_regions() == old(mem).spec_regions() + (if eb > 0 {
                reg_entries(b@, value as int, eb, pac, psc, (len as int / eb) as nat)
            } else {
                Seq::empty()
            })
        }),
{
    let eb: u64 = (pac as u64 + psc as u64) * 4;
    if eb == 0 {
        assert(old(mem).spec_regions() + Seq::<MemoryRegion>::empty() =~= old(mem).spec_regions());
        return;
    }
    let blen = b.len();
    let n: u64 = len as u64 / eb;
    let ghost e = eb as int;
    proof {
        assert(n * e <= len) by (nonlinear_arith)
            requires
                n == len as int / e,
                e > 0,
        ;
    }
    let mut i: u64 = 0;
    while i < n
        invariant
            0 <= i <= n,
            eb > 0,
            e == eb,
            eb == (pac + psc) * 4,
            n == len as int / e,
            n * e <= len,
            blen == b@.len(),
            value + len <= b@.len(),
            mem.spec_regions() == old(mem).spec_regions() + reg_entries(b@, value as int, e, pac, psc, i as nat),
        decreases n - i,
    {
        proof {
            assert((i + 1) * e <= n * e) by (nonlinear_arith)
                requires
                    i < n,
                    e > 0,
            ;
            assert(i * e + e == (i + 1) * e) by (nonlinear_arith);
        }
        let off = value + (i * eb) as usize;
        let start = read_be_u64(b, off, pac);
        let off2 = off + (4 * pac as u64) as usize;
        let size = read_be_u64(b, off2, psc);
        mem.push(MemoryRegion { start, size, kind: MemoryRegionKind::Usable });
        proof {
            assert(mem.spec_regions() =~= old(mem).spec_regions() + reg_entries(
                b@,
                value as int,
                e,
                pac,
                psc,
                (i + 1) as nat,
            ));
        }
        i = i + 1;
    }
}

/// Walk the structure block once: append the ranges of every memory node's
/// `reg` to `mem` (in the parent's cells) and count the CPU nodes.
fn scan_memory(b: &[u8], lay: FdtLayout, mem: &mut MemoryMap) -> (cpus: usize)
    ensures
        final(mem).spec_regions() == old(mem).spec_regions() + mem_walk(
            b@,
            lay,
            lay.struct_start as int,
            mem_init(),
        ).regions,
        cpus == mem_walk(b@, lay, lay.struct_start as int, mem_init()).cpus,
{
    let mut depth: usize = 0;
    let mut ac = default_cells_vec();
    let mut sc = default_cells_vec();
    let mut name: usize = 0;
    let mut name_len: usize = 0;
    let mut cpus: usize = 0;
    let mut pos = lay.struct_start;
    let ghost start = lay.struct_start as int;
    let ghost base = mem.spec_regions();
    assert(base + Seq::<MemoryRegion>::empty() =~= base);
    assert(mem.spec_regions().skip(base.len() as int) =~= Seq::<MemoryRegion>::empty());
    assert(mem.spec_regions().take(base.len() as int) =~= base);
    loop
        invariant
            name + name_len <= b@.len(),
            ac@.len() == 8,
            sc@.len() == 8,
            depth <= pos,
            cpus <= pos,
            pos <= usize::MAX,
            mem.spec_regions() == base + (MemScan {
                depth: depth as nat,
                ac: ac@,
                sc: sc@,
                name: name as int,
                name_len: name_len as int,
                cpus: cpus as nat,
                regions: mem.spec_regions().skip(base.len() as int),
            }).regions,
            mem_walk(
                b@,
                lay,
                pos as int,
                MemScan {
                    depth: depth as nat,
                    ac: ac@,
                    sc: sc@,
                    name: name as int,
                    name_len: name_len as int,
                    cpus: cpus as nat,
                    regions: mem.spec_regions().skip(base.len() as int),
                },
            ) == mem_walk(b@, lay, start, mem_init()),
            base == old(mem).spec_regions(),
            mem.spec_regions().len() >= base.len(),
            mem.spec_regions().take(base.len() as int) == base,
        ensures
            mem.spec_regions() == base + mem_walk(b@, lay, start, mem_init()).regions,
            cpus == mem_walk(b@, lay, start, mem_init()).cpus,
        decreases b@.len() + 8 - pos,
    {
        let ghost st = MemScan {
            depth: depth as nat,
            ac: ac@,
            sc: sc@,
            name: name as int,
            name_len: name_len as int,
            cpus: cpus as nat,
            regions: mem.spec_regions().skip(base.len() as int),
        };
        proof {
            lemma_next_token(b@, lay, pos as int);
        }
        let (tok, np) = match read_token(b, &lay, pos) {
            None => {
                assert(mem.spec_regions() =~= base + st.regions);
                break;
            },
            Some(x) => x,
        };
        match tok {
            FdtToken::BeginNode { name: n, name_len: nl } => {
                depth = depth + 1;
                if depth < 8 {
                    let a = ac[depth - 1];
                    ac.set(depth, a);
                    let c = sc[depth - 1];
                    sc.set(depth, c);
                }
                name = n;
                name_len = nl;
            },
            FdtToken::EndNode => {
                if depth == 0 {
                    assert(mem.spec_regions() =~= base + st.regions);
                    break;
                }
                depth = depth - 1;
            },
            FdtToken::Prop { name: pn, name_len: pl, value, len } => {
                let is_ac = bytes_eq(b, pn, pl, &fdt_names::address_cells());
                let is_sc = bytes_eq(b, pn, pl, &fdt_names::size_cells());
                if is_ac && len >= 4 {
                    if depth < 8 {
                        let v = read_be_u32(b, value);
                        ac.set(depth, v);
                    }
                } else if is_sc && len >= 4 {
                    if depth < 8 {
                        let v = read_be_u32(b, value);
                        sc.set(depth, v);
                    }
                } else {
                    let is_dt = bytes_eq(b, pn, pl, &fdt_names::device_type());
                    if is_dt && cpu_type(b, value, len) {
                        cpus = cpus + 1;
                    }
                    let is_reg = bytes_eq(b, pn, pl, &fdt_names::reg());
                    if is_reg && bytes_prefix(b, name, name_len, &fdt_names::memory()) {
                        let pac = if depth > 1 && depth - 1 < 8 { ac[depth - 1] } else { 2 };
                        let psc = if depth > 1 && depth - 1 < 8 { sc[depth - 1] } else { 2 };
                        let ghost before = mem.spec_regions();
                        push_memory_reg(b, value, len, pac, psc, mem);
                        proof {
                            assert(mem.spec_regions().skip(base.len() as int) =~= st.regions + memory_reg(
                                b@,
                                st,
                                value as int,
                                len as int,
                            ));
                        }
                    }
                }
            },
            FdtToken::Nop => {},
        }
        proof {
            assert(mem.spec_regions().take(base.len() as int) =~= base);
            assert(mem.spec_regions() =~= base + mem.spec_regions().skip(base.len() as int));
        }
        pos = np;
    }
    cpus
}

/// Whether the `device_type` value of `len` bytes at `value` names a CPU.
fn cpu_type(b: &[u8], value: usize, len: usize) -> (r: bool)
    requires
        value + len <= b@.len(),
    ensures
        r == is_cpu_type(b@, value as int, len as int),
{
    if len > 16 || !bytes_prefix(b, value, len, &fdt_names::cpu()) {
        return false;
    }
    let blen = b.len();
    let mut k = value + 3;
    while k < value + len
        invariant
            blen == b@.len(),
            value + 3 <= k <= value + len,
            value + len <= b@.len(),
            forall|j: int| value + 3 <= j < k ==> b@[j] == 0,
        decreases value + len - k,
    {
        if b[k] != 0 {
            return false;
        }
        k = k + 1;
    }
    true
}



// ---------------------------------------------------------------------------
// Shared value helpers
// ---------------------------------------------------------------------------

/// Length of a string property's value without its one trailing NUL.
pub open spec fn trim_nul(b: Seq<u8>, value: int, len: int) -> int {
    let n = b.len();
    if len > 0 && b[value + (len - 1)] == 0 {
        len - 1
    } else {
        len
    }
}

/// Index of the first `c` in `[from, to)`; `to` when none.
pub open spec fn find_first(b: Seq<u8>, from: int, to: int, c: u8) -> int
    decreases to - from,
{
    if from < to {
        if b[from] == c {
            from
        } else {
            find_first(b, from + 1, to, c)
        }
    } else {
        to
    }
}

/// Index just after the last `c` in `[from, to)`; `from` when none.
pub open spec fn after_last(b: Seq<u8>, from: int, to: int, c: u8) -> int
    decreases to - from,
{
    if from < to {
        if b[to - 1] == c {
            to
        } else {
            after_last(b, from, to - 1, c)
        }
    } else {
        from
    }
}

pub proof fn lemma_find_first(b: Seq<u8>, from: int, to: int, c: u8)
    requires
        from <= to,
    ensures
        from <= find_first(b, from, to, c) <= to,
    decreases to - from,
{
    if from < to && b[from] != c {
        lemma_find_first(b, from + 1, to, c);
    }
}

pub proof fn lemma_after_last(b: Seq<u8>, from: int, to: int, c: u8)
    requires
        from <= to,
    ensures
        from <= after_last(b, from, to, c) <= to,
    decreases to - from,
{
    if from < to && b[to - 1] != c {
        lemma_after_last(b, from, to - 1, c);
    }
}

fn trim_nul_len(b: &[u8], value: usize, len: usize) -> (r: usize)
    requires
        value + len <= b@.len(),
    ensures
        r == trim_nul(b@, value as int, len as int),
{
    let n = b.len();
    if len > 0 && b[value + (len - 1)] == 0 {
        len - 1
    } else {
        len
    }
}

fn first_index(b: &[u8], from: usize, to: usize, c: u8) -> (r: usize)
    requires
        from <= to <= b@.len(),
    ensures
        r == find_first(b@, from as int, to as int, c),
{
    let mut i = from;
    while i < to
        invariant
            from <= i <= to,
            to <= b@.len(),
            find_first(b@, from as int, to as int, c) == find_first(b@, i as int, to as int, c),
        decreases to - i,
    {
        if b[i] == c {
            return i;
        }
        i = i + 1;
    }
    to
}

fn index_after_last(b: &[u8], from: usize, to: usize, c: u8) -> (r: usize)
    requires
        from <= to <= b@.len(),
    ensures
        r == after_last(b@, from as int, to as int, c),
{
    let mut j = to;
    while j > from
        invariant
            from <= j <= to,
            to <= b@.len(),
            after_last(b@, from as int, to as int, c) == after_last(b@, from as int, j as int, c),
        decreases j - from,
    {
        if b[j - 1] == c {
            return j;
        }
        j = j - 1;
    }
    from
}

// ---------------------------------------------------------------------------
// CPU count
// ---------------------------------------------------------------------------

/// State of the CPU walk: whether the current node's name begins with
/// `cpu`, whether it was already counted, and the CPU nodes counted so far.
pub struct CpuScan {
    pub named: bool,
    pub counted: bool,
    pub count: nat,
}

/// One token of the CPU walk: a node counts once when its name begins with
/// `cpu` and it has a `device_type` of `cpu` (NUL-trimmed). Properties come
/// before child nodes, so a CPU node with children (caches) counts too, and
/// containers such as `cpus` or `cpu-map` without that `device_type` do not.
pub open spec fn cpu_step(b: Seq<u8>, st: CpuScan, tok: FdtToken) -> CpuScan {
    match tok {
        FdtToken::BeginNode { name, name_len } => CpuScan {
            named: bytes_start_with(b, name as int, name_len as int, fdt_names::name_cpu()),
            counted: false,
            ..st
        },
        FdtToken::EndNode => CpuScan { named: false, ..st },
        FdtToken::Prop { name, name_len, value, len } => if st.named && !st.counted && bytes_are(
            b,
            name as int,
            name_len as int,
            fdt_names::name_device_type(),
        ) && bytes_are(b, value as int, trim_nul(b, value as int, len as int), fdt_names::name_cpu()) {
            CpuScan { counted: true, count: st.count + 1, ..st }
        } else {
            st
        },
        FdtToken::Nop => st,
    }
}

pub open spec fn cpu_walk(b: Seq<u8>, lay: FdtLayout, pos: int, st: CpuScan) -> CpuScan
    decreases b.len() + 8 - pos,
{
    match next_token(b, lay, pos) {
        None => st,
        Some((tok, np)) => {
            proof {
                lemma_next_token(b, lay, pos);
            }
            cpu_walk(b, lay, np, cpu_step(b, st, tok))
        },
    }
}


// ---------------------------------------------------------------------------
// Console node
// ---------------------------------------------------------------------------

/// State of the first console walk: depth, whether `/chosen` was entered,
/// and the node name `stdout-path` designates (`start`, `len`).
pub struct ChosenScan {
    pub depth: int,
    pub in_chosen: bool,
    pub target: Option<(int, int)>,
}

/// The node name in a `stdout-path` value: the path up to any `:`, after its
/// last `/`.
pub open spec fn path_node(b: Seq<u8>, value: int, len: int) -> (int, int) {
    let end = find_first(b, value, value + trim_nul(b, value, len), 58u8);
    let start = after_last(b, value, end, 47u8);
    (start, end - start)
}

pub open spec fn chosen_step(b: Seq<u8>, st: ChosenScan, tok: FdtToken) -> (ChosenScan, bool) {
    match tok {
        FdtToken::BeginNode { name, name_len } => (
            ChosenScan {
                depth: st.depth + 1,
                in_chosen: st.in_chosen || bytes_are(b, name as int, name_len as int, fdt_names::name_chosen())
                    || bytes_are(b, name as int, name_len as int, fdt_names::name_slash_chosen()),
                ..st
            },
            false,
        ),
        FdtToken::EndNode => if st.in_chosen && st.depth == 1 {
            (st, true)
        } else {
            (ChosenScan { depth: st.depth - 1, ..st }, false)
        },
        FdtToken::Prop { name, name_len, value, len } => if st.in_chosen && bytes_are(
            b,
            name as int,
            name_len as int,
            fdt_names::name_stdout_path(),
        ) {
            (
                ChosenScan {
                    target: Some(
                        if utf8_from(b, value as int, value + trim_nul(b, value as int, len as int)) {
                            path_node(b, value as int, len as int)
                        } else {
                            (value as int, 0)
                        },
                    ),
                    ..st
                },
                false,
            )
        } else {
            (st, false)
        },
        FdtToken::Nop => (st, false),
    }
}

pub open spec fn chosen_walk(b: Seq<u8>, lay: FdtLayout, pos: int, st: ChosenScan) -> ChosenScan
    decreases b.len() + 8 - pos,
{
    match next_token(b, lay, pos) {
        None => st,
        Some((tok, np)) => {
            proof {
                lemma_next_token(b, lay, pos);
            }
            let (st2, stop) = chosen_step(b, st, tok);
            if stop {
                st2
            } else {
                chosen_walk(b, lay, np, st2)
            }
        },
    }
}

/// What the console walk collects of the matching node: the depth of the
/// walk, whether the node was found and at which depth, and its properties.
pub struct ConsoleScan {
    pub depth: int,
    pub found: bool,
    pub fdepth: int,
    pub compatible: Seq<u8>,
    pub reg: Option<MmioRegion>,
    pub irq: Option<u32>,
    pub reg_shift: Option<u32>,
    pub reg_io_width: Option<u32>,
    pub clock_frequency: Option<u32>,
    pub current_speed: Option<u32>,
}

/// The first string of a string-list value.
pub open spec fn first_string(b: Seq<u8>, value: int, len: int) -> Seq<u8> {
    let end = find_first(b, value, value + trim_nul(b, value, len), 0u8);
    b.subrange(value, end)
}

pub open spec fn console_prop(b: Seq<u8>, st: ConsoleScan, name: int, name_len: int, value: int, len: int) -> ConsoleScan {
    if bytes_are(b, name, name_len, fdt_names::name_compatible()) {
        if st.compatible.len() == 0 {
            let f = first_string(b, value, len);
            ConsoleScan {
                compatible: if utf8_from(b, value, value + f.len()) {
                    f
                } else {
                    Seq::empty()
                },
                ..st
            }
        } else {
            st
        }
    } else if bytes_are(b, name, name_len, fdt_names::name_reg()) {
        if st.reg is None && len >= 8 && value + 16 <= b.len() {
            ConsoleScan {
                reg: Some(MmioRegion { addr: be_cells(b, value, 2), size: be_cells(b, value + 8, 2) }),
                ..st
            }
        } else {
            st
        }
    } else if bytes_are(b, name, name_len, fdt_names::name_interrupts()) && len >= 4 {
        ConsoleScan { irq: Some(be32(b, value)), ..st }
    } else if bytes_are(b, name, name_len, fdt_names::name_reg_shift()) && len >= 4 {
        ConsoleScan { reg_shift: Some(be32(b, value)), ..st }
    } else if bytes_are(b, name, name_len, fdt_names::name_reg_io_width()) && len >= 4 {
        ConsoleScan { reg_io_width: Some(be32(b, value)), ..st }
    } else if bytes_are(b, name, name_len, fdt_names::name_clock_frequency()) && len >= 4 {
        ConsoleScan { clock_frequency: Some(be32(b, value)), ..st }
    } else if bytes_are(b, name, name_len, fdt_names::name_current_speed()) && len >= 4 {
        ConsoleScan { current_speed: Some(be32(b, value)), ..st }
    } else {
        st
    }
}

/// One token of the console walk for the node name `target` (bytes
/// `[ts, ts + tl)` of the blob): the first node whose name begins with it
/// is the console node; its own properties (not those of its children) are
/// collected, and the walk stops when that node ends.
pub open spec fn console_step(b: Seq<u8>, ts: int, tl: int, st: ConsoleScan, tok: FdtToken) -> (ConsoleScan, bool) {
    match tok {
        FdtToken::BeginNode { name, name_len } => if !st.found && bytes_start_with(
            b,
            name as int,
            name_len as int,
            b.subrange(ts, ts + tl),
        ) {
            (ConsoleScan { depth: st.depth + 1, found: true, fdepth: st.depth + 1, ..st }, false)
        } else {
            (ConsoleScan { depth: st.depth + 1, ..st }, false)
        },
        FdtToken::EndNode => if st.found && st.depth == st.fdepth {
            (st, true)
        } else {
            (ConsoleScan { depth: st.depth - 1, ..st }, false)
        },
        FdtToken::Prop { name, name_len, value, len } => if st.found && st.depth == st.fdepth {
            (console_prop(b, st, name as int, name_len as int, value as int, len as int), false)
        } else {
            (st, false)
        },
        FdtToken::Nop => (st, false),
    }
}

pub open spec fn console_walk(b: Seq<u8>, lay: FdtLayout, ts: int, tl: int, pos: int, st: ConsoleScan) -> ConsoleScan
    decreases b.len() + 8 - pos,
{
    match next_token(b, lay, pos) {
        None => st,
        Some((tok, np)) => {
            proof {
                lemma_next_token(b, lay, pos);
            }
            let (st2, stop) = console_step(b, ts, tl, st, tok);
            if stop {
                st2
            } else {
                console_walk(b, lay, ts, tl, np, st2)
            }
        },
    }
}

pub open spec fn console_init() -> ConsoleScan {
    ConsoleScan {
        depth: 0,
        found: false,
        fdepth: 0,
        compatible: Seq::empty(),
        reg: None,
        irq: None,
        reg_shift: None,
        reg_io_width: None,
        clock_frequency: None,
        current_speed: None,
    }
}

/// The console node: `/chosen`'s `stdout-path` names a node; the first node
/// whose name begins with that name supplies its own properties. `None` without a header, a `stdout-path` with a node name, or
/// a `compatible`.
pub open spec fn console_model(b: Seq<u8>) -> Option<ConsoleScan> {
    if !header_ok(b) {
        None
    } else {
        let lay = layout_of(b);
        let c = chosen_walk(b, lay, lay.struct_start as int, ChosenScan { depth: 0, in_chosen: false, target: None });
        match c.target {
            None => None,
            Some((ts, tl)) => if tl == 0 {
                None
            } else {
                let r = console_walk(b, lay, ts, tl, lay.struct_start as int, console_init());
                if r.compatible.len() == 0 {
                    None
                } else {
                    Some(r)
                }
            },
        }
    }
}

/// The value of a 4-byte property.
fn u32_prop(b: &[u8], value: usize, len: usize) -> (r: u32)
    requires
        len >= 4,
        value + len <= b@.len(),
    ensures
        r == be32(b@, value as int),
{
    read_be_u32(b, value)
}

/// The node name `stdout-path` designates in `/chosen`, as `(start, len)`.
fn chosen_target(b: &[u8], lay: FdtLayout) -> (r: Option<(usize, usize)>)
    ensures
        ({
            let c = chosen_walk(b@, lay, lay.struct_start as int, ChosenScan { depth: 0, in_chosen: false, target: None });
            match c.target {
                None => r is None,
                Some((ts, tl)) => r == Some((ts as usize, tl as usize)) && 0 <= ts && 0 <= tl && ts + tl <= b@.len(),
            }
        }),
{
    let mut depth: i128 = 0;
    let mut in_chosen = false;
    let mut target: Option<(usize, usize)> = None;
    let mut pos = lay.struct_start;
    let ghost start = lay.struct_start as int;
    let ghost init = ChosenScan { depth: 0, in_chosen: false, target: None };
    loop
        invariant
            -(pos as int) <= depth <= pos,
            pos <= usize::MAX,
            target matches Some((ts, tl)) ==> ts + tl <= b@.len(),
            chosen_walk(
                b@,
                lay,
                pos as int,
                ChosenScan {
                    depth: depth as int,
                    in_chosen,
                    target: match target {
                        Some((ts, tl)) => Some((ts as int, tl as int)),
                        None => None,
                    },
                },
            ) == chosen_walk(b@, lay, start, init),
        ensures
            match chosen_walk(b@, lay, start, init).target {
                None => target is None,
                Some((ts, tl)) => target == Some((ts as usize, tl as usize)) && 0 <= ts && 0 <= tl && ts
                    + tl <= b@.len(),
            },
        decreases b@.len() + 8 - pos,
    {
        proof {
            lemma_next_token(b@, lay, pos as int);
        }
        let (tok, np) = match read_token(b, &lay, pos) {
            None => {
                break;
            },
            Some(x) => x,
        };
        match tok {
            FdtToken::BeginNode { name, name_len } => {
                depth = depth + 1;
                if bytes_eq(b, name, name_len, &fdt_names::chosen()) || bytes_eq(
                    b,
                    name,
                    name_len,
                    &fdt_names::slash_chosen(),
                ) {
                    in_chosen = true;
                }
            },
            FdtToken::EndNode => {
                if in_chosen && depth == 1 {
                    break;
                }
                depth = depth - 1;
            },
            FdtToken::Prop { name, name_len, value, len } => {
                if in_chosen && bytes_eq(b, name, name_len, &fdt_names::stdout_path()) {
                    let vlen = trim_nul_len(b, value, len);
                    if is_utf8(b, value, value + vlen) {
                        let end = first_index(b, value, value + vlen, 58);
                        proof {
                            lemma_find_first(b@, value as int, value + vlen, 58u8);
                        }
                        let s = index_after_last(b, value, end, 47);
                        proof {
                            lemma_after_last(b@, value as int, end as int, 47u8);
                        }
                        target = Some((s, end - s));
                    } else {
                        target = Some((value, 0));
                    }
                }
            },
            FdtToken::Nop => {},
        }
        pos = np;
    }
    target
}

/// Copy of the bytes `[from, to)`.
fn copy_bytes(b: &[u8], from: usize, to: usize) -> (r: Vec<u8>)
    requires
        from <= to <= b@.len(),
    ensures
        r@ == b@.subrange(from as int, to as int),
{
    let mut out: Vec<u8> = Vec::new();
    let mut i = from;
    while i < to
        invariant
            from <= i <= to,
            to <= b@.len(),
            out@ == b@.subrange(from as int, i as int),
        decreases to - i,
    {
        out.push(b[i]);
        assert(out@ =~= b@.subrange(from as int, i + 1));
        i = i + 1;
    }
    out
}


// ---------------------------------------------------------------------------
// Interrupt controller
// ---------------------------------------------------------------------------

/// A `compatible` value (well-formed UTF-8) naming a GICv2
/// (`cortex-a15-gic`) or GICv3 (`gic-v3`) distributor.
pub open spec fn is_gic(b: Seq<u8>, value: int, len: int) -> bool {
    let v = b.subrange(value, value + trim_nul(b, value, len));
    &&& utf8_from(b, value, value + trim_nul(b, value, len))
    &&& bytes_contain(v, fdt_names::name_gicv2()) || bytes_contain(v, fdt_names::name_gicv3())
}

/// State of the first interrupt-controller walk: depth, and the depth of
/// the first node with a GIC `compatible`.
pub struct GicDepthScan {
    pub depth: nat,
    pub target: Option<nat>,
}

pub open spec fn gic_depth_step(b: Seq<u8>, st: GicDepthScan, tok: FdtToken) -> (GicDepthScan, bool) {
    match tok {
        FdtToken::BeginNode { .. } => (GicDepthScan { depth: st.depth + 1, ..st }, false),
        FdtToken::EndNode => if st.target == Some(st.depth) || st.depth == 0 {
            (st, true)
        } else {
            (GicDepthScan { depth: (st.depth - 1) as nat, ..st }, false)
        },
        FdtToken::Prop { name, name_len, value, len } => if st.target is None && bytes_are(
            b,
            name as int,
            name_len as int,
            fdt_names::name_compatible(),
        ) && is_gic(b, value as int, len as int) {
            (GicDepthScan { target: Some(st.depth), ..st }, false)
        } else {
            (st, false)
        },
        FdtToken::Nop => (st, false),
    }
}

pub open spec fn gic_depth_walk(b: Seq<u8>, lay: FdtLayout, pos: int, st: GicDepthScan) -> GicDepthScan
    decreases b.len() + 8 - pos,
{
    match next_token(b, lay, pos) {
        None => st,
        Some((tok, np)) => {
            proof {
                lemma_next_token(b, lay, pos);
            }
            let (st2, stop) = gic_depth_step(b, st, tok);
            if stop {
                st2
            } else {
                gic_depth_walk(b, lay, np, st2)
            }
        },
    }
}

/// State of the second interrupt-controller walk.
pub struct GicScan {
    pub depth: nat,
    pub ac: Seq<u32>,
    pub sc: Seq<u32>,
    pub compatible: Seq<u8>,
    pub distributor: Option<MmioRegion>,
    pub redistributor: Option<MmioRegion>,
    pub found_gic: bool,
    pub inside: bool,
}

pub open spec fn gic_init() -> GicScan {
    GicScan {
        depth: 0,
        ac: default_cells(),
        sc: default_cells(),
        compatible: Seq::empty(),
        distributor: None,
        redistributor: None,
        found_gic: false,
        inside: false,
    }
}

/// Cells of the parent at `depth` (2 at the top or below the table).
pub open spec fn gic_parent_cells(cells: Seq<u32>, depth: nat) -> u32 {
    if depth > 0 && depth < 8 {
        cells[depth - 1]
    } else {
        2
    }
}

/// Range number `i` of a `reg` of entries `eb` bytes apart.
pub open spec fn reg_range(b: Seq<u8>, value: int, eb: int, pac: u32, psc: u32, i: int) -> MmioRegion {
    MmioRegion { addr: be_cells(b, value + i * eb, pac as nat), size: be_cells(b, value + i * eb + 4 * pac, psc as nat) }
}

pub open spec fn gic_prop(b: Seq<u8>, td: nat, st: GicScan, name: int, name_len: int, value: int, len: int) -> GicScan {
    if st.inside && bytes_are(b, name, name_len, fdt_names::name_address_cells()) && len >= 4 {
        GicScan {
            ac: if st.depth < 8 {
                st.ac.update(st.depth as int, be32(b, value))
            } else {
                st.ac
            },
            ..st
        }
    } else if st.inside && bytes_are(b, name, name_len, fdt_names::name_size_cells()) && len >= 4 {
        GicScan {
            sc: if st.depth < 8 {
                st.sc.update(st.depth as int, be32(b, value))
            } else {
                st.sc
            },
            ..st
        }
    } else if bytes_are(b, name, name_len, fdt_names::name_compatible()) && !st.found_gic {
        if is_gic(b, value, len) {
            GicScan { found_gic: true, compatible: first_string(b, value, len), ..st }
        } else {
            st
        }
    } else if st.inside && st.depth == td && bytes_are(b, name, name_len, fdt_names::name_reg()) {
        let pac = gic_parent_cells(st.ac, st.depth);
        let psc = gic_parent_cells(st.sc, st.depth);
        let eb = (pac + psc) * 4;
        let n = if eb > 0 {
            len / eb
        } else {
            0
        };
        GicScan {
            distributor: if n >= 1 {
                Some(reg_range(b, value, eb, pac, psc, 0))
            } else {
                st.distributor
            },
            redistributor: if n >= 2 {
                Some(reg_range(b, value, eb, pac, psc, 1))
            } else {
                st.redistributor
            },
            ..st
        }
    } else {
        st
    }
}

/// One token of the second walk for the GIC at depth `td`: collection runs
/// inside nodes at that depth until the GIC node ends.
pub open spec fn gic_step(b: Seq<u8>, td: nat, st: GicScan, tok: FdtToken) -> (GicScan, bool) {
    match tok {
        FdtToken::BeginNode { .. } => {
            let d = st.depth + 1;
            (
                GicScan {
                    depth: d,
                    ac: if d < 8 {
                        st.ac.update(d as int, st.ac[d - 1])
                    } else {
                        st.ac
                    },
                    sc: if d < 8 {
                        st.sc.update(d as int, st.sc[d - 1])
                    } else {
                        st.sc
                    },
                    inside: st.inside || d == td,
                    ..st
                },
                false,
            )
        },
        FdtToken::EndNode => if st.inside && st.depth == td && st.found_gic {
            (st, true)
        } else {
            let st1 = if st.inside && st.depth == td {
                GicScan { inside: false, ..st }
            } else {
                st
            };
            if st1.depth == 0 {
                (st1, true)
            } else {
                (GicScan { depth: (st1.depth - 1) as nat, ..st1 }, false)
            }
        },
        FdtToken::Prop { name, name_len, value, len } => (
            gic_prop(b, td, st, name as int, name_len as int, value as int, len as int),
            false,
        ),
        FdtToken::Nop => (st, false),
    }
}

pub open spec fn gic_walk(b: Seq<u8>, lay: FdtLayout, td: nat, pos: int, st: GicScan) -> GicScan
    decreases b.len() + 8 - pos,
{
    match next_token(b, lay, pos) {
        None => st,
        Some((tok, np)) => {
            proof {
                lemma_next_token(b, lay, pos);
            }
            let (st2, stop) = gic_step(b, td, st, tok);
            if stop {
                st2
            } else {
                gic_walk(b, lay, td, np, st2)
            }
        },
    }
}

/// The interrupt controller: the depth of the first node with a GIC
/// `compatible`, then a walk collecting the first GIC compatible string and
/// the `reg` ranges (distributor, redistributor) of the nodes at that depth
/// until the GIC node ends. `None` without a header, a GIC, or a
/// distributor range.
pub open spec fn gic_model(b: Seq<u8>) -> Option<GicScan> {
    if !header_ok(b) {
        None
    } else {
        let lay = layout_of(b);
        match gic_depth_walk(b, lay, lay.struct_start as int, GicDepthScan { depth: 0, target: None }).target {
            None => None,
            Some(td) => {
                let g = gic_walk(b, lay, td, lay.struct_start as int, gic_init());
                if g.distributor is None {
                    None
                } else {
                    Some(g)
                }
            },
        }
    }
}

/// Whether the `compatible` value of `len` bytes at `value` names a GIC.
fn gic_compatible(b: &[u8], value: usize, len: usize) -> (r: bool)
    requires
        value + len <= b@.len(),
    ensures
        r == is_gic(b@, value as int, len as int),
{
    let n = b.len();
    let vlen = trim_nul_len(b, value, len);
    let v = copy_bytes(b, value, value + vlen);
    let g2 = fdt_names::gicv2();
    let g3 = fdt_names::gicv3();
    is_utf8(b, value, value + vlen) && (contains_bytes(v.as_slice(), &g2) || contains_bytes(v.as_slice(), &g3))
}

/// Depth of the first node with a GIC `compatible`.
fn gic_depth(b: &[u8], lay: FdtLayout) -> (r: Option<usize>)
    ensures
        ({
            let t = gic_depth_walk(b@, lay, lay.struct_start as int, GicDepthScan { depth: 0, target: None }).target;
            match t {
                None => r is None,
                Some(td) => r is Some && r->0 as nat == td,
            }
        }),
{
    let mut depth: usize = 0;
    let mut target: Option<usize> = None;
    let mut pos = lay.struct_start;
    let ghost start = lay.struct_start as int;
    let ghost init = GicDepthScan { depth: 0, target: None };
    loop
        invariant
            depth <= pos,
            target matches Some(t) ==> t <= pos,
            gic_depth_walk(
                b@,
                lay,
                pos as int,
                GicDepthScan {
                    depth: depth as nat,
                    target: match target {
                        Some(t) => Some(t as nat),
                        None => None,
                    },
                },
            ) == gic_depth_walk(b@, lay, start, init),
        ensures
            match gic_depth_walk(b@, lay, start, init).target {
                None => target is None,
                Some(td) => target is Some && target->0 as nat == td,
            },
        decreases b@.len() + 8 - pos,
    {
        proof {
            lemma_next_token(b@, lay, pos as int);
        }
        let (tok, np) = match read_token(b, &lay, pos) {
            None => {
                break;
            },
            Some(x) => x,
        };
        match tok {
            FdtToken::BeginNode { .. } => {
                depth = depth + 1;
            },
            FdtToken::EndNode => {
                if target == Some(depth) || depth == 0 {
                    break;
                }
                depth = depth - 1;
            },
            FdtToken::Prop { name, name_len, value, len } => {
                if target.is_none() && bytes_eq(b, name, name_len, &fdt_names::compatible())
                    && gic_compatible(b, value, len) {
                    target = Some(depth);
                }
            },
            FdtToken::Nop => {},
        }
        pos = np;
    }
    target
}

/// Range number `i` of a `reg` of `pac` address and `psc` size cells.
fn read_reg_range(b: &[u8], value: usize, eb: u64, pac: u32, psc: u32, i: u64) -> (r: MmioRegion)
    requires
        eb == (pac + psc) * 4,
        value + (i + 1) * eb <= b@.len(),
    ensures
        r == reg_range(b@, value as int, eb as int, pac, psc, i as int),
{
    let n = b.len();
    proof {
        assert((i + 1) * eb == i * eb + eb) by (nonlinear_arith);
    }
    let off = value + (i * eb) as usize;
    let addr = read_be_u64(b, off, pac);
    let size = read_be_u64(b, off + (4 * pac as u64) as usize, psc);
    MmioRegion { addr, size }
}


/// The device tree scanners.
pub struct FdtScanner {}

impl FdtScanner {
    /// Validate the header (magic, version 16 or later) and append the usable
    /// memory ranges of every memory node to `mem` (`memory_ranges`: one
    /// range per `reg` entry of each node named `memory...`, decoded with the
    /// parent's `#address-cells` and `#size-cells`, in tree order). False, with `mem`
    /// untouched, when the header is missing, the magic is wrong or the
    /// version is too old.
    pub fn probe(b: &[u8], mem: &mut MemoryMap) -> (ok: bool)
        ensures
            ok == (header_ok(b@) && be32(b@, 0) == FDT_MAGIC && be32(b@, 20) >= 16),
            ok ==> final(mem).spec_regions() == old(mem).spec_regions() + mem_scan(b@).regions,
            ok ==> final(mem).spec_regions() == old(mem).spec_regions() + memory_ranges(
                b@,
                tokens(b@),
                top_end_from(tokens(b@), 0),
            ),
            !ok ==> final(mem).spec_regions() == old(mem).spec_regions(),
    {
        let lay = match layout(b) {
            Some(l) => l,
            None => {
                return false;
            },
        };
        if read_be_u32(b, 0) != FDT_MAGIC {
            return false;
        }
        if read_be_u32(b, 20) < 16 {
            return false;
        }
        proof {
            lemma_mem_walk_finds_memory_ranges(b@, lay, lay.struct_start as int);
        }
        let _ = scan_memory(b, lay, mem);
        true
    }

    /// Walk the tree once, appending the usable memory ranges to `mem`
    /// (`memory_ranges`, as for `probe`);
    /// return the number of CPU nodes: the `device_type` properties of
    /// `cpu` (up to 16 bytes, trailing NULs) before the end of the top-level
    /// node (`cpu_type_props`). Zero, with `mem` untouched, when the header
    /// is missing or the magic is wrong.
    pub fn report(b: &[u8], mem: &mut MemoryMap) -> (cpus: usize)
        ensures
            (header_ok(b@) && be32(b@, 0) == FDT_MAGIC) ==> final(mem).spec_regions() == old(mem).spec_regions()
                + mem_scan(b@).regions && cpus == mem_scan(b@).cpus,
            (header_ok(b@) && be32(b@, 0) == FDT_MAGIC) ==> final(mem).spec_regions() == old(mem).spec_regions()
                + memory_ranges(b@, tokens(b@), top_end_from(tokens(b@), 0)),
            (header_ok(b@) && be32(b@, 0) == FDT_MAGIC) ==> cpus == cpu_type_props(
                b@,
                tokens(b@),
                top_end_from(tokens(b@), 0),
            ),
            !(header_ok(b@) && be32(b@, 0) == FDT_MAGIC) ==> final(mem).spec_regions() == old(
                mem,
            ).spec_regions() && cpus == 0,
    {
        let lay = match layout(b) {
            Some(l) => l,
            None => {
                return 0;
            },
        };
        if read_be_u32(b, 0) != FDT_MAGIC {
            return 0;
        }
        proof {
            lemma_mem_walk_counts_cpu_props(b@, lay, lay.struct_start as int);
            lemma_mem_walk_finds_memory_ranges(b@, lay, lay.struct_start as int);
        }
        scan_memory(b, lay, mem)
    }

    /// Number of CPU cores: nodes whose name begins with `cpu` and whose
    /// `device_type` is `cpu` (so containers such as `cpus` and `cpu-map` are
    /// not counted, and a CPU node with cache children is), counted over the
    /// structure block's tokens (`cpu_nodes`). Zero when the blob is too
    /// short for a header.
    pub fn cpu_count(b: &[u8]) -> (n: usize)
        ensures
            header_ok(b@) ==> n == cpu_walk(
                b@,
                layout_of(b@),
                layout_of(b@).struct_start as int,
                CpuScan { named: false, counted: false, count: 0 },
            ).count,
            header_ok(b@) ==> n == cpu_nodes(b@, tokens(b@), tokens(b@).len() as int),
            !header_ok(b@) ==> n == 0,
    {
        let lay = match layout(b) {
            Some(l) => l,
            None => {
                return 0;
            },
        };
        proof {
            lemma_cpu_walk_counts_cpu_nodes(b@, lay, lay.struct_start as int);
        }
        let mut named = false;
        let mut counted = false;
        let mut count: usize = 0;
        let mut pos = lay.struct_start;
        let ghost start = lay.struct_start as int;
        loop
            invariant
                count <= pos,
                lay == layout_of(b@),
                cpu_walk(b@, lay, pos as int, CpuScan { named, counted, count: count as nat }) == cpu_walk(
                    b@,
                    lay,
                    start,
                    CpuScan { named: false, counted: false, count: 0 },
                ),
            ensures
                count == cpu_walk(b@, lay, start, CpuScan { named: false, counted: false, count: 0 }).count,
            decreases b@.len() + 8 - pos,
        {
            proof {
                lemma_next_token(b@, lay, pos as int);
            }
            let (tok, np) = match read_token(b, &lay, pos) {
                None => {
                    break;
                },
                Some(x) => x,
            };
            match tok {
                FdtToken::BeginNode { name, name_len } => {
                    named = bytes_prefix(b, name, name_len, &fdt_names::cpu());
                    counted = false;
                },
                FdtToken::EndNode => {
                    named = false;
                },
                FdtToken::Prop { name, name_len, value, len } => {
                    if named && !counted && bytes_eq(b, name, name_len, &fdt_names::device_type()) {
                        let vlen = trim_nul_len(b, value, len);
                        if bytes_eq(b, value, vlen, &fdt_names::cpu()) {
                            count = count + 1;
                            counted = true;
                        }
                    }
                },
                FdtToken::Nop => {},
            }
            pos = np;
        }
        count
    }

    /// Locate the console: the node `/chosen`'s `stdout-path` designates, with
    /// its own first compatible string, its first `reg` range, and its
    /// `interrupts`, `reg-shift`, `reg-io-width`, `clock-frequency` and
    /// `current-speed` values (the last one given, if repeated). Properties of
    /// its children and of later nodes are not read. See `console_model`;
    /// over the structure block's tokens, the designated name is that of the
    /// last `stdout-path` in the top-level node holding the first `chosen`
    /// (`chosen_stdout`), and the node is the first whose name begins with it
    /// (`first_named_from`), read up to its end (`node_end_from`).
    pub fn console(b: &[u8]) -> (r: Option<HardwareNode>)
        ensures
            match console_model(b@) {
                None => r is None,
                Some(c) => r matches Some(n) && {
                    &&& n.compatible@ == c.compatible
                    &&& n.reg == c.reg
                    &&& n.irq == c.irq
                    &&& n.reg_shift == c.reg_shift
                    &&& n.reg_io_width == c.reg_io_width
                    &&& n.clock_frequency == c.clock_frequency
                    &&& n.current_speed == c.current_speed
                },
            },
            (header_ok(b@) && chosen_stdout(b@, tokens(b@)) is Some) ==> ({
                let tg = chosen_stdout(b@, tokens(b@))->0;
                let t = tokens(b@);
                let f = first_named_from(b@, t, tg.0, tg.1, 0);
                let e = node_end_from(t, f, f + 1);
                &&& tg.1 == 0 ==> r is None
                &&& (tg.1 != 0 && (f == t.len() || first_own_compatible(b@, t, f, e).len() == 0)) ==> r is None
                &&& (tg.1 != 0 && f < t.len() && first_own_compatible(b@, t, f, e).len() > 0) ==> (r matches Some(n) && {
                    &&& n.compatible@ == first_own_compatible(b@, t, f, e)
                    &&& n.reg == first_own_reg(b@, t, f, e)
                    &&& n.irq == last_own_cell(b@, t, f, e, fdt_names::name_interrupts())
                    &&& n.reg_shift == last_own_cell(b@, t, f, e, fdt_names::name_reg_shift())
                    &&& n.reg_io_width == last_own_cell(b@, t, f, e, fdt_names::name_reg_io_width())
                    &&& n.clock_frequency == last_own_cell(b@, t, f, e, fdt_names::name_clock_frequency())
                    &&& n.current_speed == last_own_cell(b@, t, f, e, fdt_names::name_current_speed())
                })
            }),
    {
        let lay = match layout(b) {
            Some(l) => l,
            None => {
                return None;
            },
        };
        proof {
            lemma_chosen_walk_target(b@, lay, lay.struct_start as int);
        }
        let (ts, tl) = match chosen_target(b, lay) {
            Some(t) => t,
            None => {
                return None;
            },
        };
        let n = b.len();
        proof {
            let c = chosen_walk(b@, lay, lay.struct_start as int, ChosenScan { depth: 0, in_chosen: false, target: None });
            let (ts0, tl0) = c.target->0;
            assert(ts0 == ts as int && tl0 == tl as int);
        }
        if tl == 0 {
            return None;
        }
        let target = copy_bytes(b, ts, ts + tl);
        let mut depth: i128 = 0;
        let mut found = false;
        let mut fdepth: i128 = 0;
        let mut node = HardwareNode::empty();
        assert(node.compatible@ =~= Seq::<u8>::empty());
        let mut pos = lay.struct_start;
        let ghost start = lay.struct_start as int;
        loop
            invariant
                -(pos as int) <= depth <= pos,
                pos <= usize::MAX,
                ts + tl <= b@.len(),
                target@ == b@.subrange(ts as int, ts + tl),
                console_walk(
                    b@,
                    lay,
                    ts as int,
                    tl as int,
                    pos as int,
                    ConsoleScan {
                        depth: depth as int,
                        found,
                        fdepth: fdepth as int,
                        compatible: node.compatible@,
                        reg: node.reg,
                        irq: node.irq,
                        reg_shift: node.reg_shift,
                        reg_io_width: node.reg_io_width,
                        clock_frequency: node.clock_frequency,
                        current_speed: node.current_speed,
                    },
                ) == console_walk(b@, lay, ts as int, tl as int, start, console_init()),
            ensures
                ({
                    let c = console_walk(b@, lay, ts as int, tl as int, start, console_init());
                    &&& node.compatible@ == c.compatible
                    &&& node.reg == c.reg
                    &&& node.irq == c.irq
                    &&& node.reg_shift == c.reg_shift
                    &&& node.reg_io_width == c.reg_io_width
                    &&& node.clock_frequency == c.clock_frequency
                    &&& node.current_speed == c.current_speed
                }),
            decreases b@.len() + 8 - pos,
        {
            proof {
                lemma_next_token(b@, lay, pos as int);
            }
            let (tok, np) = match read_token(b, &lay, pos) {
                None => {
                    break;
                },
                Some(x) => x,
            };
            match tok {
                FdtToken::BeginNode { name, name_len } => {
                    depth = depth + 1;
                    if !found && name_len >= tl && bytes_eq(b, name, tl, target.as_slice()) {
                        found = true;
                        fdepth = depth;
                    }
                },
                FdtToken::EndNode => {
                    if found && depth == fdepth {
                        break;
                    }
                    depth = depth - 1;
                },
                FdtToken::Prop { name, name_len, value, len } => {
                    if found && depth == fdepth {
                        if bytes_eq(b, name, name_len, &fdt_names::compatible()) {
                            if node.compatible.len() == 0 {
                                let vlen = trim_nul_len(b, value, len);
                                let end = first_index(b, value, value + vlen, 0);
                                proof {
                                    lemma_find_first(b@, value as int, value + vlen, 0u8);
                                    assert(first_string(b@, value as int, len as int).len() == end - value);
                                }
                                if is_utf8(b, value, end) {
                                    node.compatible = copy_bytes(b, value, end);
                                } else {
                                    assert(node.compatible@ =~= Seq::<u8>::empty());
                                }
                            }
                        } else if bytes_eq(b, name, name_len, &fdt_names::reg()) {
                            if node.reg.is_none() && len >= 8 && b.len() - value >= 16 {
                                let addr = read_be_u64(b, value, 2);
                                let size = read_be_u64(b, value + 8, 2);
                                node.reg = Some(MmioRegion { addr, size });
                            }
                        } else if bytes_eq(b, name, name_len, &fdt_names::interrupts()) && len >= 4 {
                            node.irq = Some(u32_prop(b, value, len));
                        } else if bytes_eq(b, name, name_len, &fdt_names::reg_shift()) && len >= 4 {
                            node.reg_shift = Some(u32_prop(b, value, len));
                        } else if bytes_eq(b, name, name_len, &fdt_names::reg_io_width()) && len >= 4 {
                            node.reg_io_width = Some(u32_prop(b, value, len));
                        } else if bytes_eq(b, name, name_len, &fdt_names::clock_frequency()) && len >= 4 {
                            node.clock_frequency = Some(u32_prop(b, value, len));
                        } else if bytes_eq(b, name, name_len, &fdt_names::current_speed()) && len >= 4 {
                            node.current_speed = Some(u32_prop(b, value, len));
                        }
                    }
                },
                FdtToken::Nop => {},
            }
            pos = np;
        }
        proof {
            let c = chosen_walk(b@, lay, lay.struct_start as int, ChosenScan { depth: 0, in_chosen: false, target: None });
            assert(c.target == Some((ts as int, tl as int)));
            lemma_console_walk_fields(b@, lay, ts as int, tl as int, lay.struct_start as int);
            assert(header_ok(b@));
            assert(lay == layout_of(b@));
            let t = tokens(b@);
            assert(t == tokens_from(b@, lay, start));
            lemma_chosen_walk_target(b@, lay, start);
            assert(chosen_stdout(b@, t) == Some((ts as int, tl as int)));
            let f = first_named_from(b@, t, ts as int, tl as int, 0);
            let e = node_end_from(t, f, f + 1);
            let cw = console_walk(b@, lay, ts as int, tl as int, start, console_init());
            if f < t.len() {
                assert(console_node_fields(b@, t, f, e, cw));
                assert(cw.compatible == first_own_compatible(b@, t, f, e));
            } else {
                assert(cw.compatible.len() == 0);
            }
            assert(node.compatible@ == cw.compatible);
        }
        if node.compatible.len() == 0 {
            None
        } else {
            Some(node)
        }
    }

    /// Locate the first GICv2 or GICv3 interrupt controller: its first
    /// compatible string and its distributor (and redistributor) ranges. See
    /// `gic_model`.
    pub fn interrupt_controller(b: &[u8]) -> (r: Option<InterruptControllerInfo>)
        ensures
            match gic_model(b@) {
                None => r is None,
                Some(g) => r matches Some(ic) && {
                    &&& ic.compatible@ == g.compatible
                    &&& Some(ic.distributor) == g.distributor
                    &&& ic.redistributor == g.redistributor
                },
            },
    {
        let lay = match layout(b) {
            Some(l) => l,
            None => {
                return None;
            },
        };
        let td = match gic_depth(b, lay) {
            Some(t) => t,
            None => {
                return None;
            },
        };
        let ghost tdn = td as nat;
        let mut depth: usize = 0;
        let mut ac = default_cells_vec();
        let mut sc = default_cells_vec();
        let mut compatible: Vec<u8> = Vec::new();
        let mut distributor: Option<MmioRegion> = None;
        let mut redistributor: Option<MmioRegion> = None;
        let mut found_gic = false;
        let mut inside = false;
        let mut pos = lay.struct_start;
        let ghost start = lay.struct_start as int;
        let n = b.len();
        assert(compatible@ =~= Seq::<u8>::empty());
        loop
            invariant
                n == b@.len(),
                tdn == td,
                depth <= pos,
                ac@.len() == 8,
                sc@.len() == 8,
                gic_walk(
                    b@,
                    lay,
                    tdn,
                    pos as int,
                    GicScan {
                        depth: depth as nat,
                        ac: ac@,
                        sc: sc@,
                        compatible: compatible@,
                        distributor,
                        redistributor,
                        found_gic,
                        inside,
                    },
                ) == gic_walk(b@, lay, tdn, start, gic_init()),
            ensures
                ({
                    let g = gic_walk(b@, lay, tdn, start, gic_init());
                    &&& compatible@ == g.compatible
                    &&& distributor == g.distributor
                    &&& redistributor == g.redistributor
                }),
            decreases b@.len() + 8 - pos,
        {
            proof {
                lemma_next_token(b@, lay, pos as int);
            }
            let (tok, np) = match read_token(b, &lay, pos) {
                None => {
                    break;
                },
                Some(x) => x,
            };
            match tok {
                FdtToken::BeginNode { .. } => {
                    depth = depth + 1;
                    if depth < 8 {
                        let a = ac[depth - 1];
                        ac.set(depth, a);
                        let c = sc[depth - 1];
                        sc.set(depth, c);
                    }
                    if !inside && depth == td {
                        inside = true;
                    }
                },
                FdtToken::EndNode => {
                    if inside && depth == td && found_gic {
                        break;
                    }
                    if depth == 0 {
                        break;
                    }
                    if inside && depth == td {
                        inside = false;
                    }
                    depth = depth - 1;
                },
                FdtToken::Prop { name, name_len, value, len } => {
                    if inside && bytes_eq(b, name, name_len, &fdt_names::address_cells()) && len >= 4 {
                        if depth < 8 {
                            let v = read_be_u32(b, value);
                            ac.set(depth, v);
                        }
                    } else if inside && bytes_eq(b, name, name_len, &fdt_names::size_cells()) && len >= 4 {
                        if depth < 8 {
                            let v = read_be_u32(b, value);
                            sc.set(depth, v);
                        }
                    } else if bytes_eq(b, name, name_len, &fdt_names::compatible()) && !found_gic {
                        if gic_compatible(b, value, len) {
                            found_gic = true;
                            let vlen = trim_nul_len(b, value, len);
                            let end = first_index(b, value, value + vlen, 0);
                            proof {
                                lemma_find_first(b@, value as int, value + vlen, 0u8);
                            }
                            compatible = copy_bytes(b, value, end);
                        }
                    } else if inside && depth == td && bytes_eq(b, name, name_len, &fdt_names::reg()) {
                        let pac = if depth > 0 && depth < 8 { ac[depth - 1] } else { 2 };
                        let psc = if depth > 0 && depth < 8 { sc[depth - 1] } else { 2 };
                        let eb: u64 = (pac as u64 + psc as u64) * 4;
                        let cnt: u64 = if eb > 0 { len as u64 / eb } else { 0 };
                        proof {
                            if eb > 0 {
                                assert(cnt * eb <= len) by (nonlinear_arith)
                                    requires
                                        cnt == len as int / eb as int,
                                        eb > 0,
                                ;
                            }
                        }
                        if cnt >= 1 {
                            proof {
                                assert(1 * eb <= cnt * eb) by (nonlinear_arith)
                                    requires
                                        cnt >= 1,
                                ;
                            }
                            distributor = Some(read_reg_range(b, value, eb, pac, psc, 0));
                        }
                        if cnt >= 2 {
                            proof {
                                assert(2 * eb <= cnt * eb) by (nonlinear_arith)
                                    requires
                                        cnt >= 2,
                                ;
                            }
                            redistributor = Some(read_reg_range(b, value, eb, pac, psc, 1));
                        }
                    }
                },
                FdtToken::Nop => {},
            }
            pos = np;
        }
        match distributor {
            Some(d) => Some(InterruptControllerInfo { compatible, distributor: d, redistributor }),
            None => None,
        }
    }
}

} // verus!
