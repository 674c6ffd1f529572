//! The structure block of a flattened device tree as a sequence of tokens,
//! and what the scanners compute stated over that sequence, independently
//! of how a walk keeps its state: which nodes are CPU nodes, which
//! properties name CPUs, the ranges of the memory nodes, the node
//! `/chosen`'s `stdout-path` designates and that node's own properties.
use vstd::prelude::*;
use crate::boot::fdt::{
    be32, be_cells, bytes_are, bytes_start_with, console_init, console_step, console_walk, cpu_step, cpu_walk,
    first_string, is_cpu_type, layout_of, lemma_next_token, mem_init, mem_step, mem_walk, next_token, reg_entries,
    trim_nul, chosen_step, chosen_walk, path_node, ChosenScan, ConsoleScan, CpuScan, FdtLayout, FdtToken, MemScan,
};
use crate::boot::hardware::MmioRegion;
use crate::boot::utf8::utf8_from;
use crate::boot::boot_info::MemoryRegion;
use crate::boot::fdt_names;

verus! {

/// The tokens of the structure block from `pos` on, up to the end token or
/// the first token that does not fit in the blob.
pub open spec fn tokens_from(b: Seq<u8>, lay: FdtLayout, pos: int) -> Seq<FdtToken>
    decreases b.len() + 8 - pos,
{
    match next_token(b, lay, pos) {
        None => Seq::empty(),
        Some((tok, np)) => {
            proof {
                lemma_next_token(b, lay, pos);
            }
            seq![tok] + tokens_from(b, lay, np)
        },
    }
}

/// The tokens of the blob's structure block.
pub open spec fn tokens(b: Seq<u8>) -> Seq<FdtToken> {
    tokens_from(b, layout_of(b), layout_of(b).struct_start as int)
}

/// Token `t[j]` is one of the node `t[i]`'s own properties: `t[i]` begins
/// a node and only properties (or no-ops) stand between them, no child and
/// no end of the node.
pub open spec fn own_prop(t: Seq<FdtToken>, i: int, j: int) -> bool {
    &&& 0 <= i < j < t.len()
    &&& t[i] is BeginNode
    &&& t[j] is Prop
    &&& forall|m: int| i < m < j ==> (#[trigger] t[m] is Prop || t[m] is Nop)
}

/// A `device_type` property whose value, without trailing NULs, is `cpu`.
pub open spec fn is_cpu_type_prop(b: Seq<u8>, tok: FdtToken) -> bool {
    tok matches FdtToken::Prop { name, name_len, value, len } && bytes_are(
        b,
        name as int,
        name_len as int,
        fdt_names::name_device_type(),
    ) && bytes_are(b, value as int, trim_nul(b, value as int, len as int), fdt_names::name_cpu())
}

/// `t[i]` is a CPU node: its name begins with `cpu` and one of its own
/// properties is `device_type = "cpu"`.
pub open spec fn is_cpu_node(b: Seq<u8>, t: Seq<FdtToken>, i: int) -> bool {
    &&& 0 <= i < t.len()
    &&& t[i] matches FdtToken::BeginNode { name, name_len } && bytes_start_with(
        b,
        name as int,
        name_len as int,
        fdt_names::name_cpu(),
    )
    &&& exists|j: int| own_prop(t, i, j) && #[trigger] is_cpu_type_prop(b, t[j])
}

/// Number of CPU nodes among the first `n` tokens.
pub open spec fn cpu_nodes(b: Seq<u8>, t: Seq<FdtToken>, n: int) -> nat
    decreases n,
{
    if n <= 0 {
        0
    } else {
        cpu_nodes(b, t, n - 1) + if is_cpu_node(b, t, n - 1) {
            1nat
        } else {
            0nat
        }
    }
}

// ---------------------------------------------------------------------------
// The CPU walk over the token sequence
// ---------------------------------------------------------------------------

/// The node whose own properties run up to token `k` (exclusive): the last
/// node start before `k` with only properties or no-ops after it.
spec fn open_node(t: Seq<FdtToken>, k: int) -> Option<int>
    decreases k,
{
    if k <= 0 {
        None
    } else if t[k - 1] is BeginNode {
        Some(k - 1)
    } else if t[k - 1] is EndNode {
        None
    } else {
        open_node(t, k - 1)
    }
}

/// `t[i]` is a CPU node on the evidence of the tokens before `k`.
spec fn cpu_node_before(b: Seq<u8>, t: Seq<FdtToken>, i: int, k: int) -> bool {
    &&& 0 <= i < t.len()
    &&& t[i] matches FdtToken::BeginNode { name, name_len } && bytes_start_with(
        b,
        name as int,
        name_len as int,
        fdt_names::name_cpu(),
    )
    &&& exists|j: int| j < k && own_prop(t, i, j) && #[trigger] is_cpu_type_prop(b, t[j])
}

/// Number of `i < n` that are CPU nodes on the evidence before `k`.
spec fn count_before(b: Seq<u8>, t: Seq<FdtToken>, n: int, k: int) -> nat
    decreases n,
{
    if n <= 0 {
        0
    } else {
        count_before(b, t, n - 1, k) + if cpu_node_before(b, t, n - 1, k) {
            1nat
        } else {
            0nat
        }
    }
}

/// The CPU walk's state after the first `k` tokens.
spec fn cpu_state(b: Seq<u8>, t: Seq<FdtToken>, k: int) -> CpuScan
    decreases k,
{
    if k <= 0 {
        CpuScan { named: false, counted: false, count: 0 }
    } else {
        cpu_step(b, cpu_state(b, t, k - 1), t[k - 1])
    }
}

/// The CPU walk over the tokens `t`, from state `st`.
spec fn cpu_fold(b: Seq<u8>, t: Seq<FdtToken>, st: CpuScan) -> CpuScan
    decreases t.len(),
{
    if t.len() == 0 {
        st
    } else {
        cpu_fold(b, t.drop_first(), cpu_step(b, st, t[0]))
    }
}

proof fn lemma_walk_is_fold(b: Seq<u8>, lay: FdtLayout, pos: int, st: CpuScan)
    ensures
        cpu_walk(b, lay, pos, st) == cpu_fold(b, tokens_from(b, lay, pos), st),
    decreases b.len() + 8 - pos,
{
    match next_token(b, lay, pos) {
        None => {},
        Some((tok, np)) => {
            lemma_next_token(b, lay, pos);
            lemma_walk_is_fold(b, lay, np, cpu_step(b, st, tok));
            let t = tokens_from(b, lay, pos);
            assert(t.drop_first() =~= tokens_from(b, lay, np));
        },
    }
}

proof fn lemma_fold_is_state(b: Seq<u8>, t: Seq<FdtToken>, k: int)
    requires
        0 <= k <= t.len(),
    ensures
        cpu_fold(b, t.skip(k), cpu_state(b, t, k)) == cpu_state(b, t, t.len() as int),
    decreases t.len() - k,
{
    if k < t.len() {
        lemma_fold_is_state(b, t, k + 1);
        assert(t.skip(k).drop_first() =~= t.skip(k + 1));
        assert(t.skip(k)[0] == t[k]);
    } else {
        assert(t.skip(k).len() == 0);
    }
}

/// The open node is the only one whose own properties reach `k`.
proof fn lemma_open_node(t: Seq<FdtToken>, i: int, k: int)
    requires
        0 <= i < k <= t.len(),
        t[i] is BeginNode,
        forall|m: int| i < m < k ==> (#[trigger] t[m] is Prop || t[m] is Nop),
    ensures
        open_node(t, k) == Some(i),
    decreases k,
{
    if k - 1 > i {
        assert(t[k - 1] is Prop || t[k - 1] is Nop);
        lemma_open_node(t, i, k - 1);
    }
}

proof fn lemma_open_node_props(t: Seq<FdtToken>, k: int)
    requires
        0 <= k <= t.len(),
    ensures
        open_node(t, k) matches Some(i) ==> 0 <= i < k && t[i] is BeginNode && forall|m: int|
            i < m < k ==> (#[trigger] t[m] is Prop || t[m] is Nop),
    decreases k,
{
    if k > 0 && !(t[k - 1] is BeginNode) && !(t[k - 1] is EndNode) {
        lemma_open_node_props(t, k - 1);
    }
}

/// Adding token `k` can only make the open node a CPU node.
proof fn lemma_count_step(b: Seq<u8>, t: Seq<FdtToken>, n: int, k: int)
    requires
        0 <= n <= k < t.len(),
    ensures
        count_before(b, t, n, k + 1) == count_before(b, t, n, k) + if (open_node(t, k) matches Some(i) && i < n
            && cpu_node_before(b, t, i, k + 1) && !cpu_node_before(b, t, i, k)) {
            1nat
        } else {
            0nat
        },
    decreases n,
{
    if n > 0 {
        lemma_count_step(b, t, n - 1, k);
        let i = n - 1;
        if cpu_node_before(b, t, i, k + 1) && !cpu_node_before(b, t, i, k) {
            let j = choose|j: int| j < k + 1 && own_prop(t, i, j) && #[trigger] is_cpu_type_prop(b, t[j]);
            assert(j == k);
            lemma_open_node(t, i, k);
        }
        if cpu_node_before(b, t, i, k) {
            let j = choose|j: int| j < k && own_prop(t, i, j) && #[trigger] is_cpu_type_prop(b, t[j]);
            assert(cpu_node_before(b, t, i, k + 1));
        }
    }
}

proof fn lemma_count_new_index(b: Seq<u8>, t: Seq<FdtToken>, k: int)
    requires
        0 <= k < t.len(),
    ensures
        !cpu_node_before(b, t, k, k + 1),
{
}

/// The walk's state after `k` tokens, in terms of the token sequence.
proof fn lemma_state(b: Seq<u8>, t: Seq<FdtToken>, k: int)
    requires
        0 <= k <= t.len(),
    ensures
        cpu_state(b, t, k).count == count_before(b, t, k, k),
        cpu_state(b, t, k).named <==> (open_node(t, k) matches Some(i) && (t[i] matches FdtToken::BeginNode {
            name,
            name_len,
        } && bytes_start_with(b, name as int, name_len as int, fdt_names::name_cpu()))),
        cpu_state(b, t, k).named ==> (cpu_state(b, t, k).counted <==> cpu_node_before(
            b,
            t,
            open_node(t, k)->0,
            k,
        )),
    decreases k,
{
    lemma_open_node_props(t, k);
    if k > 0 {
        let k0 = k - 1;
        lemma_state(b, t, k0);
        lemma_open_node_props(t, k0);
        lemma_count_step(b, t, k0, k0);
        lemma_count_new_index(b, t, k0);
        let s0 = cpu_state(b, t, k0);
        let tok = t[k0];
        assert(count_before(b, t, k, k) == count_before(b, t, k0, k) + if cpu_node_before(b, t, k0, k) {
            1nat
        } else {
            0nat
        });
        match tok {
            FdtToken::BeginNode { .. } => {
                assert(open_node(t, k) == Some(k0));
                assert(!cpu_node_before(b, t, k0, k));
                if let Some(i) = open_node(t, k0) {
                    if cpu_node_before(b, t, i, k) && !cpu_node_before(b, t, i, k0) {
                        let j = choose|j: int| j < k && own_prop(t, i, j) && #[trigger] is_cpu_type_prop(b, t[j]);
                        assert(j == k0);
                    }
                }
            },
            FdtToken::EndNode => {
                assert(open_node(t, k) is None);
                if let Some(i) = open_node(t, k0) {
                    if cpu_node_before(b, t, i, k) && !cpu_node_before(b, t, i, k0) {
                        let j = choose|j: int| j < k && own_prop(t, i, j) && #[trigger] is_cpu_type_prop(b, t[j]);
                        assert(j == k0);
                    }
                }
            },
            FdtToken::Nop => {
                assert(open_node(t, k) == open_node(t, k0));
                if let Some(i) = open_node(t, k0) {
                    if cpu_node_before(b, t, i, k) && !cpu_node_before(b, t, i, k0) {
                        let j = choose|j: int| j < k && own_prop(t, i, j) && #[trigger] is_cpu_type_prop(b, t[j]);
                        assert(j == k0);
                    }
                }
            },
            FdtToken::Prop { .. } => {
                assert(open_node(t, k) == open_node(t, k0));
                if let Some(i) = open_node(t, k0) {
                    if is_cpu_type_prop(b, tok) {
                        assert(own_prop(t, i, k0));
                        assert(cpu_node_before(b, t, i, k) <==> (t[i] matches FdtToken::BeginNode { name, name_len }
                            && bytes_start_with(b, name as int, name_len as int, fdt_names::name_cpu())));
                    } else if cpu_node_before(b, t, i, k) {
                        let j = choose|j: int| j < k && own_prop(t, i, j) && #[trigger] is_cpu_type_prop(b, t[j]);
                        assert(j != k0);
                        assert(cpu_node_before(b, t, i, k0));
                    }
                }
            },
        }
    }
}

/// The number of CPU nodes, as the CPU walk counts them.
pub proof fn lemma_cpu_walk_counts_cpu_nodes(b: Seq<u8>, lay: FdtLayout, pos: int)
    ensures
        cpu_walk(b, lay, pos, CpuScan { named: false, counted: false, count: 0 }).count == cpu_nodes(
            b,
            tokens_from(b, lay, pos),
            tokens_from(b, lay, pos).len() as int,
        ),
{
    let t = tokens_from(b, lay, pos);
    let n = t.len() as int;
    lemma_walk_is_fold(b, lay, pos, CpuScan { named: false, counted: false, count: 0 });
    lemma_fold_is_state(b, t, 0);
    assert(t.skip(0) =~= t);
    lemma_state(b, t, n);
    lemma_count_is_nodes(b, t, n);
}

proof fn lemma_count_is_nodes(b: Seq<u8>, t: Seq<FdtToken>, n: int)
    requires
        0 <= n <= t.len(),
    ensures
        count_before(b, t, n, t.len() as int) == cpu_nodes(b, t, n),
    decreases n,
{
    if n > 0 {
        lemma_count_is_nodes(b, t, n - 1);
        let i = n - 1;
        if is_cpu_node(b, t, i) {
            let j = choose|j: int| own_prop(t, i, j) && #[trigger] is_cpu_type_prop(b, t[j]);
            assert(cpu_node_before(b, t, i, t.len() as int));
        }
        if cpu_node_before(b, t, i, t.len() as int) {
            let j = choose|j: int| j < t.len() && own_prop(t, i, j) && #[trigger] is_cpu_type_prop(b, t[j]);
            assert(is_cpu_node(b, t, i));
        }
    }
}


// ---------------------------------------------------------------------------
// The CPU properties the memory walk counts
// ---------------------------------------------------------------------------

/// A `device_type` property whose value is `cpu` followed only by NULs, at
/// most 16 bytes.
pub open spec fn is_cpu_device_type(b: Seq<u8>, tok: FdtToken) -> bool {
    tok matches FdtToken::Prop { name, name_len, value, len } && bytes_are(
        b,
        name as int,
        name_len as int,
        fdt_names::name_device_type(),
    ) && is_cpu_type(b, value as int, len as int)
}

/// Node starts minus node ends among the first `k` tokens.
pub open spec fn depth_before(t: Seq<FdtToken>, k: int) -> int
    decreases k,
{
    if k <= 0 {
        0
    } else {
        depth_before(t, k - 1) + if t[k - 1] is BeginNode {
            1int
        } else if t[k - 1] is EndNode {
            -1int
        } else {
            0int
        }
    }
}

/// The first end token at or after `s` that closes the top level (an end
/// at depth 0), where a walk over the tree stops; `t.len()` when none.
pub open spec fn top_end_from(t: Seq<FdtToken>, s: int) -> int
    decreases t.len() - s,
{
    if s >= t.len() {
        t.len() as int
    } else if t[s] is EndNode && depth_before(t, s) == 0 {
        s
    } else {
        top_end_from(t, s + 1)
    }
}

/// Number of CPU `device_type` properties among the first `n` tokens.
pub open spec fn cpu_type_props(b: Seq<u8>, t: Seq<FdtToken>, n: int) -> nat
    decreases n,
{
    if n <= 0 {
        0
    } else {
        cpu_type_props(b, t, n - 1) + if is_cpu_device_type(b, t[n - 1]) {
            1nat
        } else {
            0nat
        }
    }
}

/// The memory walk over the tokens `t`, from state `st`.
spec fn mem_fold(b: Seq<u8>, t: Seq<FdtToken>, st: MemScan) -> MemScan
    decreases t.len(),
{
    if t.len() == 0 {
        st
    } else {
        let (s2, stop) = mem_step(b, st, t[0]);
        if stop {
            s2
        } else {
            mem_fold(b, t.drop_first(), s2)
        }
    }
}

/// The memory walk's state after the first `k` tokens.
spec fn mem_state(b: Seq<u8>, t: Seq<FdtToken>, k: int) -> MemScan
    decreases k,
{
    if k <= 0 {
        mem_init()
    } else {
        mem_step(b, mem_state(b, t, k - 1), t[k - 1]).0
    }
}

proof fn lemma_mem_walk_is_fold(b: Seq<u8>, lay: FdtLayout, pos: int, st: MemScan)
    ensures
        mem_walk(b, lay, pos, st) == mem_fold(b, tokens_from(b, lay, pos), st),
    decreases b.len() + 8 - pos,
{
    match next_token(b, lay, pos) {
        None => {},
        Some((tok, np)) => {
            lemma_next_token(b, lay, pos);
            let (s2, stop) = mem_step(b, st, tok);
            if !stop {
                lemma_mem_walk_is_fold(b, lay, np, s2);
            }
            let t = tokens_from(b, lay, pos);
            assert(t.drop_first() =~= tokens_from(b, lay, np));
        },
    }
}

proof fn lemma_top_end(t: Seq<FdtToken>, s: int)
    requires
        0 <= s <= t.len(),
    ensures
        s <= top_end_from(t, s) <= t.len(),
        forall|m: int| s <= m < top_end_from(t, s) ==> !(#[trigger] t[m] is EndNode && depth_before(t, m) == 0),
        top_end_from(t, s) < t.len() ==> t[top_end_from(t, s)] is EndNode && depth_before(t, top_end_from(t, s))
            == 0,
    decreases t.len() - s,
{
    if s < t.len() && !(t[s] is EndNode && depth_before(t, s) == 0) {
        lemma_top_end(t, s + 1);
    }
}

/// Before the top level closes, the walk's depth is the token depth and
/// its CPU count is the number of CPU `device_type` properties.
proof fn lemma_mem_state(b: Seq<u8>, t: Seq<FdtToken>, k: int)
    requires
        0 <= k <= t.len(),
        forall|m: int| 0 <= m < k ==> !(#[trigger] t[m] is EndNode && depth_before(t, m) == 0),
    ensures
        mem_state(b, t, k).depth == depth_before(t, k),
        mem_state(b, t, k).cpus == cpu_type_props(b, t, k),
    decreases k,
{
    if k > 0 {
        let m = k - 1;
        lemma_mem_state(b, t, m);
        assert(!(t[m] is EndNode && depth_before(t, m) == 0));
        if let FdtToken::Prop { name, name_len, .. } = t[m] {
            if bytes_are(b, name as int, name_len as int, fdt_names::name_device_type()) {
                let sub = b.subrange(name as int, name as int + name_len as int);
                assert(sub[0] == fdt_names::name_device_type()[0]);
                assert(!bytes_are(b, name as int, name_len as int, fdt_names::name_address_cells()));
                assert(!bytes_are(b, name as int, name_len as int, fdt_names::name_size_cells()));
            }
        }
    }
}

/// The walk over the tokens from `k` on, started in the state after `k`
/// tokens, ends as the whole walk does, up to the top-level end.
proof fn lemma_mem_fold_from(b: Seq<u8>, t: Seq<FdtToken>, k: int)
    requires
        0 <= k <= top_end_from(t, 0),
        top_end_from(t, 0) <= t.len(),
        forall|m: int| 0 <= m < top_end_from(t, 0) ==> !(#[trigger] t[m] is EndNode && depth_before(t, m) == 0),
    ensures
        mem_fold(b, t, mem_init()) == mem_fold(b, t.skip(k), mem_state(b, t, k)),
    decreases k,
{
    if k > 0 {
        let m = k - 1;
        lemma_mem_fold_from(b, t, m);
        lemma_mem_state(b, t, m);
        assert(t.skip(m).drop_first() =~= t.skip(k));
        assert(t.skip(m)[0] == t[m]);
        assert(!(t[m] is EndNode && depth_before(t, m) == 0));
    } else {
        assert(t.skip(0) =~= t);
    }
}

/// The CPU count of the memory walk: the CPU `device_type` properties
/// before the end token that closes the top level.
pub proof fn lemma_mem_walk_counts_cpu_props(b: Seq<u8>, lay: FdtLayout, pos: int)
    ensures
        ({
            let t = tokens_from(b, lay, pos);
            mem_walk(b, lay, pos, mem_init()).cpus == cpu_type_props(b, t, top_end_from(t, 0))
        }),
{
    let t = tokens_from(b, lay, pos);
    let e = top_end_from(t, 0);
    lemma_mem_walk_is_fold(b, lay, pos, mem_init());
    lemma_top_end(t, 0);
    lemma_mem_fold_from(b, t, e);
    lemma_mem_state(b, t, e);
    if e < t.len() {
        assert(t.skip(e)[0] == t[e]);
    } else {
        assert(t.skip(e).len() == 0);
    }
}

// ---------------------------------------------------------------------------
// The memory ranges the memory walk finds
// ---------------------------------------------------------------------------

/// Token `tok` gives the cell count `nm` (`#address-cells` or `#size-cells`)
/// with a value of at least 4 bytes.
pub open spec fn sets_cells(b: Seq<u8>, tok: FdtToken, nm: Seq<u8>) -> bool {
    tok matches FdtToken::Prop { name, name_len, len, .. } && bytes_are(b, name as int, name_len as int, nm) && len
        >= 4
}

/// Where a property's value starts.
pub open spec fn prop_value(tok: FdtToken) -> int {
    match tok {
        FdtToken::Prop { value, .. } => value as int,
        _ => 0,
    }
}

/// The last token strictly between `lo` and `k` that gives `nm` at depth
/// `d`.
pub open spec fn last_setting(b: Seq<u8>, t: Seq<FdtToken>, nm: Seq<u8>, d: int, lo: int, k: int) -> Option<int>
    decreases k - lo,
{
    if k <= lo + 1 {
        None
    } else if sets_cells(b, t[k - 1], nm) && depth_before(t, k - 1) == d {
        Some(k - 1)
    } else {
        last_setting(b, t, nm, d, lo, k - 1)
    }
}

/// The last node start before `k` that enters depth `d`.
pub open spec fn open_begin(t: Seq<FdtToken>, d: int, k: int) -> Option<int>
    decreases k,
{
    if k <= 0 {
        None
    } else if t[k - 1] is BeginNode && depth_before(t, k - 1) == d - 1 {
        Some(k - 1)
    } else {
        open_begin(t, d, k - 1)
    }
}

/// The cell count `nm` in force at depth `d` before token `k`: the last
/// value the node open at depth `d` gave, else the one in force at depth
/// `d - 1` when that node began; 2 when none was given.
pub open spec fn cells_at(b: Seq<u8>, t: Seq<FdtToken>, nm: Seq<u8>, d: nat, k: int) -> u32
    decreases d,
{
    if d == 0 {
        match last_setting(b, t, nm, 0, -1, k) {
            Some(m) => be32(b, prop_value(t[m])),
            None => 2,
        }
    } else {
        match open_begin(t, d as int, k) {
            Some(i) => match last_setting(b, t, nm, d as int, i, k) {
                Some(m) => be32(b, prop_value(t[m])),
                None => cells_at(b, t, nm, (d - 1) as nat, i),
            },
            None => 2,
        }
    }
}

/// The last node start before `k`.
pub open spec fn last_begin(t: Seq<FdtToken>, k: int) -> Option<int>
    decreases k,
{
    if k <= 0 {
        None
    } else if t[k - 1] is BeginNode {
        Some(k - 1)
    } else {
        last_begin(t, k - 1)
    }
}

/// The cells of the parent of a node at depth `dp` before token `k`: those
/// in force at depth `dp - 1` (2 at the top, or beyond depth 8).
pub open spec fn parent_cells_at(b: Seq<u8>, t: Seq<FdtToken>, nm: Seq<u8>, dp: int, k: int) -> u32 {
    if dp > 1 && dp - 1 < 8 {
        cells_at(b, t, nm, (dp - 1) as nat, k)
    } else {
        2
    }
}

/// The usable ranges token `k` gives: when it is a `reg` property and the
/// last node begun is named `memory...`, one range per entry, decoded with
/// the parent's `#address-cells` and `#size-cells`.
pub open spec fn memory_ranges_at(b: Seq<u8>, t: Seq<FdtToken>, k: int) -> Seq<MemoryRegion> {
    match t[k] {
        FdtToken::Prop { name, name_len, value, len } => match last_begin(t, k) {
            Some(i) => if bytes_are(b, name as int, name_len as int, fdt_names::name_reg()) && (t[i] matches FdtToken::BeginNode {
                name: nn,
                name_len: nl,
            } && bytes_start_with(b, nn as int, nl as int, fdt_names::name_memory())) {
                let dp = depth_before(t, k);
                let pac = parent_cells_at(b, t, fdt_names::name_address_cells(), dp, k);
                let psc = parent_cells_at(b, t, fdt_names::name_size_cells(), dp, k);
                let eb = (pac + psc) * 4;
                if eb > 0 {
                    reg_entries(b, value as int, eb, pac, psc, (len as int / eb) as nat)
                } else {
                    Seq::empty()
                }
            } else {
                Seq::empty()
            },
            None => Seq::empty(),
        },
        _ => Seq::empty(),
    }
}

/// The usable ranges of the first `n` tokens, in order.
pub open spec fn memory_ranges(b: Seq<u8>, t: Seq<FdtToken>, n: int) -> Seq<MemoryRegion>
    decreases n,
{
    if n <= 0 {
        Seq::empty()
    } else {
        memory_ranges(b, t, n - 1) + memory_ranges_at(b, t, n - 1)
    }
}

proof fn lemma_open_begin_some(t: Seq<FdtToken>, d: int, k: int)
    requires
        0 <= k <= t.len(),
        1 <= d <= depth_before(t, k),
    ensures
        open_begin(t, d, k) matches Some(i) && 0 <= i < k,
    decreases k,
{
    if k > 0 && !(t[k - 1] is BeginNode && depth_before(t, k - 1) == d - 1) {
        lemma_open_begin_some(t, d, k - 1);
    }
}

proof fn lemma_open_begin_lt(t: Seq<FdtToken>, d: int, k: int)
    ensures
        open_begin(t, d, k) matches Some(i) ==> 0 <= i < k,
    decreases k,
{
    if k > 0 && !(t[k - 1] is BeginNode && depth_before(t, k - 1) == d - 1) {
        lemma_open_begin_lt(t, d, k - 1);
    }
}

/// A token that neither enters depth `d` nor gives `nm` at depth `d`
/// leaves the cells in force at depth `d` as they were.
proof fn lemma_cells_stable(b: Seq<u8>, t: Seq<FdtToken>, nm: Seq<u8>, d: nat, k: int)
    requires
        0 <= k,
        !(t[k] is BeginNode && depth_before(t, k) == d - 1),
        !(sets_cells(b, t[k], nm) && depth_before(t, k) == d),
    ensures
        cells_at(b, t, nm, d, k + 1) == cells_at(b, t, nm, d, k),
{
    if d > 0 {
        lemma_open_begin_lt(t, d as int, k);
        assert(open_begin(t, d as int, k + 1) == open_begin(t, d as int, k));
        if let Some(i) = open_begin(t, d as int, k) {
            assert(last_setting(b, t, nm, d as int, i, k + 1) == last_setting(b, t, nm, d as int, i, k));
        }
    } else {
        assert(last_setting(b, t, nm, 0, -1, k + 1) == last_setting(b, t, nm, 0, -1, k));
    }
}

/// What the memory walk keeps about cells and names, before the top level
/// closes.
spec fn cells_inv(b: Seq<u8>, t: Seq<FdtToken>, k: int, st: MemScan) -> bool {
    &&& st.ac.len() == 8
    &&& st.sc.len() == 8
    &&& forall|d: nat|
        d < 8 && d <= depth_before(t, k) ==> #[trigger] st.ac[d as int] == cells_at(
            b,
            t,
            fdt_names::name_address_cells(),
            d,
            k,
        ) && st.sc[d as int] == cells_at(b, t, fdt_names::name_size_cells(), d, k)
    &&& match last_begin(t, k) {
        Some(i) => t[i] matches FdtToken::BeginNode { name, name_len } && st.name == name && st.name_len
            == name_len,
        None => st.name == 0 && st.name_len == 0,
    }
}

proof fn lemma_names_differ(b: Seq<u8>, name: int, name_len: int)
    ensures
        !(bytes_are(b, name, name_len, fdt_names::name_address_cells()) && bytes_are(
            b,
            name,
            name_len,
            fdt_names::name_size_cells(),
        )),
        !(bytes_are(b, name, name_len, fdt_names::name_address_cells()) && bytes_are(
            b,
            name,
            name_len,
            fdt_names::name_reg(),
        )),
        !(bytes_are(b, name, name_len, fdt_names::name_size_cells()) && bytes_are(
            b,
            name,
            name_len,
            fdt_names::name_reg(),
        )),
{
}

proof fn lemma_mem_cells(b: Seq<u8>, t: Seq<FdtToken>, k: int)
    requires
        0 <= k <= t.len(),
        forall|m: int| 0 <= m < k ==> !(#[trigger] t[m] is EndNode && depth_before(t, m) == 0),
    ensures
        cells_inv(b, t, k, mem_state(b, t, k)),
        mem_state(b, t, k).regions == memory_ranges(b, t, k),
    decreases k,
{
    let ac_nm = fdt_names::name_address_cells();
    let sc_nm = fdt_names::name_size_cells();
    if k == 0 {
        assert forall|d: nat| d < 8 && d <= depth_before(t, 0) implies #[trigger] mem_init().ac[d as int] == cells_at(
            b,
            t,
            ac_nm,
            d,
            0,
        ) && mem_init().sc[d as int] == cells_at(b, t, sc_nm, d, 0) by {
            assert(d == 0);
        }
    } else {
        let m = k - 1;
        lemma_mem_cells(b, t, m);
        lemma_mem_state(b, t, m);
        lemma_mem_state(b, t, k);
        let st = mem_state(b, t, m);
        let st2 = mem_state(b, t, k);
        let dm = depth_before(t, m);
        assert(!(t[m] is EndNode && dm == 0));
        match t[m] {
            FdtToken::BeginNode { name, name_len } => {
                assert forall|d: nat| d < 8 && d <= depth_before(t, k) implies #[trigger] st2.ac[d as int] == cells_at(
                    b,
                    t,
                    ac_nm,
                    d,
                    k,
                ) && st2.sc[d as int] == cells_at(b, t, sc_nm, d, k) by {
                    if d <= dm {
                        assert(st.ac[d as int] == cells_at(b, t, ac_nm, d, m));
                        assert(st.sc[d as int] == cells_at(b, t, sc_nm, d, m));
                    }
                    if d == dm + 1 {
                        let dd: nat = dm as nat;
                        assert(st.ac[dd as int] == cells_at(b, t, ac_nm, dd, m));
                        assert(st.sc[dd as int] == cells_at(b, t, sc_nm, dd, m));
                        assert(open_begin(t, d as int, k) == Some(m));
                        assert(last_setting(b, t, ac_nm, d as int, m, k) is None);
                        assert(last_setting(b, t, sc_nm, d as int, m, k) is None);
                    } else {
                        lemma_cells_stable(b, t, ac_nm, d, m);
                        lemma_cells_stable(b, t, sc_nm, d, m);
                    }
                }
                assert(memory_ranges_at(b, t, m) == Seq::<MemoryRegion>::empty());
                assert(st2.regions =~= memory_ranges(b, t, k));
            },
            FdtToken::EndNode => {
                assert forall|d: nat| d < 8 && d <= depth_before(t, k) implies #[trigger] st2.ac[d as int] == cells_at(
                    b,
                    t,
                    ac_nm,
                    d,
                    k,
                ) && st2.sc[d as int] == cells_at(b, t, sc_nm, d, k) by {
                    lemma_cells_stable(b, t, ac_nm, d, m);
                    lemma_cells_stable(b, t, sc_nm, d, m);
                }
                assert(memory_ranges_at(b, t, m) == Seq::<MemoryRegion>::empty());
                assert(st2.regions =~= memory_ranges(b, t, k));
            },
            FdtToken::Nop => {
                assert forall|d: nat| d < 8 && d <= depth_before(t, k) implies #[trigger] st2.ac[d as int] == cells_at(
                    b,
                    t,
                    ac_nm,
                    d,
                    k,
                ) && st2.sc[d as int] == cells_at(b, t, sc_nm, d, k) by {
                    lemma_cells_stable(b, t, ac_nm, d, m);
                    lemma_cells_stable(b, t, sc_nm, d, m);
                }
                assert(memory_ranges_at(b, t, m) == Seq::<MemoryRegion>::empty());
                assert(st2.regions =~= memory_ranges(b, t, k));
            },
            FdtToken::Prop { name, name_len, value, len } => {
                lemma_names_differ(b, name as int, name_len as int);
                assert forall|d: nat| d < 8 && d <= depth_before(t, k) implies #[trigger] st2.ac[d as int] == cells_at(
                    b,
                    t,
                    ac_nm,
                    d,
                    k,
                ) && st2.sc[d as int] == cells_at(b, t, sc_nm, d, k) by {
                    assert(st.ac[d as int] == cells_at(b, t, ac_nm, d, m));
                    assert(st.sc[d as int] == cells_at(b, t, sc_nm, d, m));
                    if d == dm {
                        if d > 0 {
                            lemma_open_begin_some(t, d as int, m);
                            let i = open_begin(t, d as int, m)->0;
                            assert(open_begin(t, d as int, k) == Some(i));
                            if !sets_cells(b, t[m], ac_nm) {
                                assert(last_setting(b, t, ac_nm, d as int, i, k) == last_setting(b, t, ac_nm, d as int, i, m));
                            }
                            if !sets_cells(b, t[m], sc_nm) {
                                assert(last_setting(b, t, sc_nm, d as int, i, k) == last_setting(b, t, sc_nm, d as int, i, m));
                            }
                        } else {
                            if !sets_cells(b, t[m], ac_nm) {
                                assert(last_setting(b, t, ac_nm, 0, -1, k) == last_setting(b, t, ac_nm, 0, -1, m));
                            }
                            if !sets_cells(b, t[m], sc_nm) {
                                assert(last_setting(b, t, sc_nm, 0, -1, k) == last_setting(b, t, sc_nm, 0, -1, m));
                            }
                        }
                    } else {
                        lemma_cells_stable(b, t, ac_nm, d, m);
                        lemma_cells_stable(b, t, sc_nm, d, m);
                    }
                }
                assert(st2.regions =~= memory_ranges(b, t, k));
            },
        }
    }
}

/// The memory ranges the memory walk finds: those of the tokens before the
/// end token that closes the top level.
pub proof fn lemma_mem_walk_finds_memory_ranges(b: Seq<u8>, lay: FdtLayout, pos: int)
    ensures
        ({
            let t = tokens_from(b, lay, pos);
            mem_walk(b, lay, pos, mem_init()).regions == memory_ranges(b, t, top_end_from(t, 0))
        }),
{
    let t = tokens_from(b, lay, pos);
    let e = top_end_from(t, 0);
    lemma_mem_walk_is_fold(b, lay, pos, mem_init());
    lemma_top_end(t, 0);
    lemma_mem_fold_from(b, t, e);
    lemma_mem_state(b, t, e);
    lemma_mem_cells(b, t, e);
    if e < t.len() {
        assert(t.skip(e)[0] == t[e]);
    } else {
        assert(t.skip(e).len() == 0);
    }
}

// ---------------------------------------------------------------------------
// The console node's own properties
// ---------------------------------------------------------------------------

/// The first node start at or after `s` whose name begins with the bytes
/// `[ts, ts + tl)`; `t.len()` when none.
pub open spec fn first_named_from(b: Seq<u8>, t: Seq<FdtToken>, ts: int, tl: int, s: int) -> int
    decreases t.len() - s,
{
    if s >= t.len() {
        t.len() as int
    } else if t[s] matches FdtToken::BeginNode { name, name_len } && bytes_start_with(
        b,
        name as int,
        name_len as int,
        b.subrange(ts, ts + tl),
    ) {
        s
    } else {
        first_named_from(b, t, ts, tl, s + 1)
    }
}

/// The end token at or after `s` that closes the node begun at `f`;
/// `t.len()` when none.
pub open spec fn node_end_from(t: Seq<FdtToken>, f: int, s: int) -> int
    decreases t.len() - s,
{
    if s >= t.len() {
        t.len() as int
    } else if t[s] is EndNode && depth_before(t, s) == depth_before(t, f) + 1 {
        s
    } else {
        node_end_from(t, f, s + 1)
    }
}

/// Token `j` is a property of the node begun at `f` itself (at its depth,
/// not a child's).
pub open spec fn own_at(t: Seq<FdtToken>, f: int, j: int) -> bool {
    &&& f < j
    &&& t[j] is Prop
    &&& depth_before(t, j) == depth_before(t, f) + 1
}

/// Token `tok` is a property named `nm` with a value of at least `min`
/// bytes.
pub open spec fn named_prop(b: Seq<u8>, tok: FdtToken, nm: Seq<u8>, min: int) -> bool {
    tok matches FdtToken::Prop { name, name_len, len, .. } && bytes_are(b, name as int, name_len as int, nm) && len
        >= min
}

/// The first cell of the last own property named `nm` (4 bytes or more)
/// among the tokens before `k`; `None` when there is none.
pub open spec fn last_own_cell(b: Seq<u8>, t: Seq<FdtToken>, f: int, k: int, nm: Seq<u8>) -> Option<u32>
    decreases k - f,
{
    if k <= f + 1 {
        None
    } else if own_at(t, f, k - 1) && named_prop(b, t[k - 1], nm, 4) {
        Some(be32(b, prop_value(t[k - 1])))
    } else {
        last_own_cell(b, t, f, k - 1, nm)
    }
}

/// The first range of the first own `reg` property (a 2+2-cell entry that
/// lies in the blob) among the tokens before `k`.
pub open spec fn first_own_reg(b: Seq<u8>, t: Seq<FdtToken>, f: int, k: int) -> Option<MmioRegion>
    decreases k - f,
{
    if k <= f + 1 {
        None
    } else {
        let prev = first_own_reg(b, t, f, k - 1);
        let v = prop_value(t[k - 1]);
        if prev is Some {
            prev
        } else if own_at(t, f, k - 1) && named_prop(b, t[k - 1], fdt_names::name_reg(), 8) && v + 16 <= b.len() {
            Some(MmioRegion { addr: be_cells(b, v, 2), size: be_cells(b, v + 8, 2) })
        } else {
            None
        }
    }
}

/// The first string of a `compatible` value, when it is valid UTF-8.
pub open spec fn compatible_string(b: Seq<u8>, tok: FdtToken) -> Seq<u8> {
    match tok {
        FdtToken::Prop { value, len, .. } => {
            let f = first_string(b, value as int, len as int);
            if utf8_from(b, value as int, value + f.len()) {
                f
            } else {
                Seq::empty()
            }
        },
        _ => Seq::empty(),
    }
}

/// The first nonempty compatible string among the own `compatible`
/// properties before `k`; empty when there is none.
pub open spec fn first_own_compatible(b: Seq<u8>, t: Seq<FdtToken>, f: int, k: int) -> Seq<u8>
    decreases k - f,
{
    if k <= f + 1 {
        Seq::empty()
    } else {
        let prev = first_own_compatible(b, t, f, k - 1);
        if prev.len() > 0 {
            prev
        } else if own_at(t, f, k - 1) && named_prop(b, t[k - 1], fdt_names::name_compatible(), 0) {
            compatible_string(b, t[k - 1])
        } else {
            prev
        }
    }
}

/// What the console walk collects, stated over the tokens: the node begun
/// at `f`, its own properties up to its end `e`.
pub open spec fn console_node_fields(b: Seq<u8>, t: Seq<FdtToken>, f: int, e: int, c: ConsoleScan) -> bool {
    &&& c.compatible == first_own_compatible(b, t, f, e)
    &&& c.reg == first_own_reg(b, t, f, e)
    &&& c.irq == last_own_cell(b, t, f, e, fdt_names::name_interrupts())
    &&& c.reg_shift == last_own_cell(b, t, f, e, fdt_names::name_reg_shift())
    &&& c.reg_io_width == last_own_cell(b, t, f, e, fdt_names::name_reg_io_width())
    &&& c.clock_frequency == last_own_cell(b, t, f, e, fdt_names::name_clock_frequency())
    &&& c.current_speed == last_own_cell(b, t, f, e, fdt_names::name_current_speed())
}

/// The console walk's state after the first `k` tokens.
spec fn console_state(b: Seq<u8>, ts: int, tl: int, t: Seq<FdtToken>, k: int) -> ConsoleScan
    decreases k,
{
    if k <= 0 {
        console_init()
    } else {
        console_step(b, ts, tl, console_state(b, ts, tl, t, k - 1), t[k - 1]).0
    }
}

/// The console walk over the tokens `t`, from state `st`.
spec fn console_fold(b: Seq<u8>, ts: int, tl: int, t: Seq<FdtToken>, st: ConsoleScan) -> ConsoleScan
    decreases t.len(),
{
    if t.len() == 0 {
        st
    } else {
        let (s2, stop) = console_step(b, ts, tl, st, t[0]);
        if stop {
            s2
        } else {
            console_fold(b, ts, tl, t.drop_first(), s2)
        }
    }
}

proof fn lemma_console_walk_is_fold(b: Seq<u8>, lay: FdtLayout, ts: int, tl: int, pos: int, st: ConsoleScan)
    ensures
        console_walk(b, lay, ts, tl, pos, st) == console_fold(b, ts, tl, tokens_from(b, lay, pos), st),
    decreases b.len() + 8 - pos,
{
    match next_token(b, lay, pos) {
        None => {},
        Some((tok, np)) => {
            lemma_next_token(b, lay, pos);
            let (s2, stop) = console_step(b, ts, tl, st, tok);
            if !stop {
                lemma_console_walk_is_fold(b, lay, ts, tl, np, s2);
            }
            let t = tokens_from(b, lay, pos);
            assert(t.drop_first() =~= tokens_from(b, lay, np));
        },
    }
}

proof fn lemma_first_named(b: Seq<u8>, t: Seq<FdtToken>, ts: int, tl: int, s: int)
    requires
        0 <= s <= t.len(),
    ensures
        s <= first_named_from(b, t, ts, tl, s) <= t.len(),
        forall|m: int|
            s <= m < first_named_from(b, t, ts, tl, s) ==> !(#[trigger] t[m] matches FdtToken::BeginNode {
                name,
                name_len,
            } && bytes_start_with(b, name as int, name_len as int, b.subrange(ts, ts + tl))),
        first_named_from(b, t, ts, tl, s) < t.len() ==> (t[first_named_from(b, t, ts, tl, s)] matches FdtToken::BeginNode {
            name,
            name_len,
        } && bytes_start_with(b, name as int, name_len as int, b.subrange(ts, ts + tl))),
    decreases t.len() - s,
{
    if s < t.len() && !(t[s] matches FdtToken::BeginNode { name, name_len } && bytes_start_with(
        b,
        name as int,
        name_len as int,
        b.subrange(ts, ts + tl),
    )) {
        lemma_first_named(b, t, ts, tl, s + 1);
    }
}

proof fn lemma_node_end(t: Seq<FdtToken>, f: int, s: int)
    requires
        0 <= s <= t.len(),
    ensures
        s <= node_end_from(t, f, s) <= t.len(),
        forall|m: int|
            s <= m < node_end_from(t, f, s) ==> !(#[trigger] t[m] is EndNode && depth_before(t, m) == depth_before(t, f)
                + 1),
        node_end_from(t, f, s) < t.len() ==> t[node_end_from(t, f, s)] is EndNode && depth_before(
            t,
            node_end_from(t, f, s),
        ) == depth_before(t, f) + 1,
    decreases t.len() - s,
{
    if s < t.len() && !(t[s] is EndNode && depth_before(t, s) == depth_before(t, f) + 1) {
        lemma_node_end(t, f, s + 1);
    }
}

proof fn lemma_console_names_differ(b: Seq<u8>, name: int, name_len: int)
    ensures
        !(bytes_are(b, name, name_len, fdt_names::name_compatible()) && bytes_are(
            b,
            name,
            name_len,
            fdt_names::name_interrupts(),
        )),
{
    if bytes_are(b, name, name_len, fdt_names::name_compatible()) {
        let sub = b.subrange(name, name + name_len);
        assert(sub[0] == fdt_names::name_compatible()[0]);
    }
}

/// Before the matching node begins, the walk only counts depth.
proof fn lemma_console_before(b: Seq<u8>, ts: int, tl: int, t: Seq<FdtToken>, k: int)
    requires
        0 <= k <= first_named_from(b, t, ts, tl, 0),
        first_named_from(b, t, ts, tl, 0) <= t.len(),
        forall|m: int|
            0 <= m < first_named_from(b, t, ts, tl, 0) ==> !(#[trigger] t[m] matches FdtToken::BeginNode {
                name,
                name_len,
            } && bytes_start_with(b, name as int, name_len as int, b.subrange(ts, ts + tl))),
    ensures
        console_state(b, ts, tl, t, k) == (ConsoleScan { depth: depth_before(t, k), ..console_init() }),
    decreases k,
{
    if k > 0 {
        lemma_console_before(b, ts, tl, t, k - 1);
    }
}

/// After the matching node `f` begins and before it ends, the walk holds
/// what its own properties so far give.
proof fn lemma_console_inside(b: Seq<u8>, ts: int, tl: int, t: Seq<FdtToken>, f: int, k: int)
    requires
        0 <= f < k <= t.len(),
        console_state(b, ts, tl, t, f) == (ConsoleScan { depth: depth_before(t, f), ..console_init() }),
        t[f] matches FdtToken::BeginNode { name, name_len } && bytes_start_with(
            b,
            name as int,
            name_len as int,
            b.subrange(ts, ts + tl),
        ),
        forall|m: int| f < m < k ==> !(#[trigger] t[m] is EndNode && depth_before(t, m) == depth_before(t, f) + 1),
    ensures
        ({
            let c = console_state(b, ts, tl, t, k);
            &&& c.found
            &&& c.fdepth == depth_before(t, f) + 1
            &&& c.depth == depth_before(t, k)
            &&& console_node_fields(b, t, f, k, c)
        }),
    decreases k,
{
    if k > f + 1 {
        let m = k - 1;
        lemma_console_inside(b, ts, tl, t, f, m);
        assert(!(t[m] is EndNode && depth_before(t, m) == depth_before(t, f) + 1));
        if let FdtToken::Prop { name, name_len, .. } = t[m] {
            lemma_console_names_differ(b, name as int, name_len as int);
        }
    }
}

/// The console walk for the node name `[ts, ts + tl)`: when a node's name
/// begins with it, the first such node's own properties, up to its end;
/// else nothing is found.
pub proof fn lemma_console_walk_fields(b: Seq<u8>, lay: FdtLayout, ts: int, tl: int, pos: int)
    ensures
        ({
            let t = tokens_from(b, lay, pos);
            let f = first_named_from(b, t, ts, tl, 0);
            let c = console_walk(b, lay, ts, tl, pos, console_init());
            &&& f <= t.len()
            &&& f == t.len() ==> c == (ConsoleScan { depth: depth_before(t, f), ..console_init() })
            &&& f < t.len() ==> c.found && console_node_fields(b, t, f, node_end_from(t, f, f + 1), c)
        }),
{
    let t = tokens_from(b, lay, pos);
    let f = first_named_from(b, t, ts, tl, 0);
    lemma_console_walk_is_fold(b, lay, ts, tl, pos, console_init());
    lemma_first_named(b, t, ts, tl, 0);
    lemma_console_before(b, ts, tl, t, f);
    lemma_console_fold_from(b, ts, tl, t, f);
    if f < t.len() {
        let e = node_end_from(t, f, f + 1);
        lemma_node_end(t, f, f + 1);
        lemma_console_inside_fold(b, ts, tl, t, f, e);
        lemma_console_inside(b, ts, tl, t, f, e);
        if e < t.len() {
            assert(t.skip(e)[0] == t[e]);
        } else {
            assert(t.skip(e).len() == 0);
        }
    } else {
        assert(t.skip(f).len() == 0);
    }
}

/// Up to the matching node, the walk over the rest continues the whole.
proof fn lemma_console_fold_from(b: Seq<u8>, ts: int, tl: int, t: Seq<FdtToken>, k: int)
    requires
        0 <= k <= first_named_from(b, t, ts, tl, 0),
        first_named_from(b, t, ts, tl, 0) <= t.len(),
        forall|m: int|
            0 <= m < first_named_from(b, t, ts, tl, 0) ==> !(#[trigger] t[m] matches FdtToken::BeginNode {
                name,
                name_len,
            } && bytes_start_with(b, name as int, name_len as int, b.subrange(ts, ts + tl))),
    ensures
        console_fold(b, ts, tl, t, console_init()) == console_fold(b, ts, tl, t.skip(k), console_state(b, ts, tl, t, k)),
    decreases k,
{
    if k > 0 {
        let m = k - 1;
        lemma_console_fold_from(b, ts, tl, t, m);
        lemma_console_before(b, ts, tl, t, m);
        assert(t.skip(m).drop_first() =~= t.skip(k));
        assert(t.skip(m)[0] == t[m]);
    } else {
        assert(t.skip(0) =~= t);
    }
}

/// From the matching node to its end, the walk over the rest continues the
/// whole.
proof fn lemma_console_inside_fold(b: Seq<u8>, ts: int, tl: int, t: Seq<FdtToken>, f: int, k: int)
    requires
        0 <= f < k <= t.len(),
        k <= node_end_from(t, f, f + 1),
        first_named_from(b, t, ts, tl, 0) == f,
        console_fold(b, ts, tl, t, console_init()) == console_fold(b, ts, tl, t.skip(f), console_state(b, ts, tl, t, f)),
        console_state(b, ts, tl, t, f) == (ConsoleScan { depth: depth_before(t, f), ..console_init() }),
        t[f] matches FdtToken::BeginNode { name, name_len } && bytes_start_with(
            b,
            name as int,
            name_len as int,
            b.subrange(ts, ts + tl),
        ),
        forall|m: int|
            f + 1 <= m < node_end_from(t, f, f + 1) ==> !(#[trigger] t[m] is EndNode && depth_before(t, m)
                == depth_before(t, f) + 1),
    ensures
        console_fold(b, ts, tl, t, console_init()) == console_fold(b, ts, tl, t.skip(k), console_state(b, ts, tl, t, k)),
    decreases k - f,
{
    let m = k - 1;
    if m > f {
        lemma_console_inside_fold(b, ts, tl, t, f, m);
        lemma_console_inside(b, ts, tl, t, f, m);
    }
    assert(t.skip(m).drop_first() =~= t.skip(k));
    assert(t.skip(m)[0] == t[m]);
}

// ---------------------------------------------------------------------------
// The node `/chosen`'s `stdout-path` designates
// ---------------------------------------------------------------------------

/// Token `tok` begins a node named `chosen` or `/chosen`.
pub open spec fn is_chosen_start(b: Seq<u8>, tok: FdtToken) -> bool {
    tok matches FdtToken::BeginNode { name, name_len } && (bytes_are(
        b,
        name as int,
        name_len as int,
        fdt_names::name_chosen(),
    ) || bytes_are(b, name as int, name_len as int, fdt_names::name_slash_chosen()))
}

/// The first `chosen` node start at or after `s`; `t.len()` when none.
pub open spec fn first_chosen_from(b: Seq<u8>, t: Seq<FdtToken>, s: int) -> int
    decreases t.len() - s,
{
    if s >= t.len() {
        t.len() as int
    } else if is_chosen_start(b, t[s]) {
        s
    } else {
        first_chosen_from(b, t, s + 1)
    }
}

/// The first end token at or after `s` that closes a top-level node (the
/// walk for `stdout-path` stops there once `/chosen` was seen); `t.len()`
/// when none.
pub open spec fn top_node_end_from(t: Seq<FdtToken>, s: int) -> int
    decreases t.len() - s,
{
    if s >= t.len() {
        t.len() as int
    } else if t[s] is EndNode && depth_before(t, s) == 1 {
        s
    } else {
        top_node_end_from(t, s + 1)
    }
}

/// The last `stdout-path` property strictly between `lo` and `k`.
pub open spec fn last_stdout_path(b: Seq<u8>, t: Seq<FdtToken>, lo: int, k: int) -> Option<int>
    decreases k - lo,
{
    if k <= lo + 1 {
        None
    } else if named_prop(b, t[k - 1], fdt_names::name_stdout_path(), 0) {
        Some(k - 1)
    } else {
        last_stdout_path(b, t, lo, k - 1)
    }
}

/// The node name a `stdout-path` property designates, as `(start, len)` in
/// the blob (empty when its value is not valid UTF-8).
pub open spec fn stdout_node(b: Seq<u8>, tok: FdtToken) -> (int, int) {
    match tok {
        FdtToken::Prop { value, len, .. } => if utf8_from(b, value as int, value + trim_nul(b, value as int, len as int)) {
            path_node(b, value as int, len as int)
        } else {
            (value as int, 0)
        },
        _ => (0, 0),
    }
}

/// The node `stdout-path` designates, over the tokens `t`: the last
/// `stdout-path` property after the first `chosen` node begins, up to the
/// end of the top-level node that holds it.
pub open spec fn chosen_stdout(b: Seq<u8>, t: Seq<FdtToken>) -> Option<(int, int)> {
    let c = first_chosen_from(b, t, 0);
    if c >= t.len() {
        None
    } else {
        match last_stdout_path(b, t, c, top_node_end_from(t, c + 1)) {
            Some(j) => Some(stdout_node(b, t[j])),
            None => None,
        }
    }
}

spec fn chosen_state(b: Seq<u8>, t: Seq<FdtToken>, k: int) -> ChosenScan
    decreases k,
{
    if k <= 0 {
        ChosenScan { depth: 0, in_chosen: false, target: None }
    } else {
        chosen_step(b, chosen_state(b, t, k - 1), t[k - 1]).0
    }
}

spec fn chosen_fold(b: Seq<u8>, t: Seq<FdtToken>, st: ChosenScan) -> ChosenScan
    decreases t.len(),
{
    if t.len() == 0 {
        st
    } else {
        let (s2, stop) = chosen_step(b, st, t[0]);
        if stop {
            s2
        } else {
            chosen_fold(b, t.drop_first(), s2)
        }
    }
}

proof fn lemma_chosen_walk_is_fold(b: Seq<u8>, lay: FdtLayout, pos: int, st: ChosenScan)
    ensures
        chosen_walk(b, lay, pos, st) == chosen_fold(b, tokens_from(b, lay, pos), st),
    decreases b.len() + 8 - pos,
{
    match next_token(b, lay, pos) {
        None => {},
        Some((tok, np)) => {
            lemma_next_token(b, lay, pos);
            let (s2, stop) = chosen_step(b, st, tok);
            if !stop {
                lemma_chosen_walk_is_fold(b, lay, np, s2);
            }
            let t = tokens_from(b, lay, pos);
            assert(t.drop_first() =~= tokens_from(b, lay, np));
        },
    }
}

proof fn lemma_first_chosen(b: Seq<u8>, t: Seq<FdtToken>, s: int)
    requires
        0 <= s <= t.len(),
    ensures
        s <= first_chosen_from(b, t, s) <= t.len(),
        forall|m: int| s <= m < first_chosen_from(b, t, s) ==> !is_chosen_start(b, #[trigger] t[m]),
        first_chosen_from(b, t, s) < t.len() ==> is_chosen_start(b, t[first_chosen_from(b, t, s)]),
    decreases t.len() - s,
{
    if s < t.len() && !is_chosen_start(b, t[s]) {
        lemma_first_chosen(b, t, s + 1);
    }
}

proof fn lemma_top_node_end(t: Seq<FdtToken>, s: int)
    requires
        0 <= s <= t.len(),
    ensures
        s <= top_node_end_from(t, s) <= t.len(),
        forall|m: int| s <= m < top_node_end_from(t, s) ==> !(#[trigger] t[m] is EndNode && depth_before(t, m) == 1),
        top_node_end_from(t, s) < t.len() ==> t[top_node_end_from(t, s)] is EndNode && depth_before(
            t,
            top_node_end_from(t, s),
        ) == 1,
    decreases t.len() - s,
{
    if s < t.len() && !(t[s] is EndNode && depth_before(t, s) == 1) {
        lemma_top_node_end(t, s + 1);
    }
}

/// The walk's state: before `/chosen`, only the depth; after it, the last
/// `stdout-path` so far.
proof fn lemma_chosen_state(b: Seq<u8>, t: Seq<FdtToken>, k: int)
    requires
        0 <= k <= t.len(),
        k <= first_chosen_from(b, t, 0) || k <= top_node_end_from(t, first_chosen_from(b, t, 0) + 1),
        0 <= first_chosen_from(b, t, 0) <= t.len(),
        forall|m: int| 0 <= m < first_chosen_from(b, t, 0) ==> !is_chosen_start(b, #[trigger] t[m]),
        first_chosen_from(b, t, 0) < t.len() ==> is_chosen_start(b, t[first_chosen_from(b, t, 0)]),
        forall|m: int|
            first_chosen_from(b, t, 0) + 1 <= m < top_node_end_from(t, first_chosen_from(b, t, 0) + 1) ==> !(
            #[trigger] t[m] is EndNode && depth_before(t, m) == 1),
    ensures
        ({
            let c = first_chosen_from(b, t, 0);
            let st = chosen_state(b, t, k);
            &&& st.depth == depth_before(t, k)
            &&& k <= c ==> !st.in_chosen && st.target is None
            &&& k > c ==> st.in_chosen && st.target == match last_stdout_path(b, t, c, k) {
                Some(j) => Some(stdout_node(b, t[j])),
                None => None,
            }
        }),
    decreases k,
{
    let c = first_chosen_from(b, t, 0);
    if k > 0 {
        let m = k - 1;
        lemma_chosen_state(b, t, m);
        let st = chosen_state(b, t, m);
        if m < c {
            assert(!is_chosen_start(b, t[m]));
        } else if m == c {
            assert(is_chosen_start(b, t[m]));
            assert(last_stdout_path(b, t, c, k) is None);
        } else {
            assert(!(t[m] is EndNode && depth_before(t, m) == 1));
            assert(st.in_chosen);
        }
    }
}

proof fn lemma_chosen_fold_from(b: Seq<u8>, t: Seq<FdtToken>, k: int)
    requires
        0 <= k <= t.len(),
        k <= first_chosen_from(b, t, 0) || k <= top_node_end_from(t, first_chosen_from(b, t, 0) + 1),
        0 <= first_chosen_from(b, t, 0) <= t.len(),
        forall|m: int| 0 <= m < first_chosen_from(b, t, 0) ==> !is_chosen_start(b, #[trigger] t[m]),
        first_chosen_from(b, t, 0) < t.len() ==> is_chosen_start(b, t[first_chosen_from(b, t, 0)]),
        forall|m: int|
            first_chosen_from(b, t, 0) + 1 <= m < top_node_end_from(t, first_chosen_from(b, t, 0) + 1) ==> !(
            #[trigger] t[m] is EndNode && depth_before(t, m) == 1),
    ensures
        chosen_fold(b, t, ChosenScan { depth: 0, in_chosen: false, target: None }) == chosen_fold(
            b,
            t.skip(k),
            chosen_state(b, t, k),
        ),
    decreases k,
{
    let c = first_chosen_from(b, t, 0);
    if k > 0 {
        let m = k - 1;
        lemma_chosen_fold_from(b, t, m);
        lemma_chosen_state(b, t, m);
        assert(t.skip(m).drop_first() =~= t.skip(k));
        assert(t.skip(m)[0] == t[m]);
        if m > c {
            assert(!(t[m] is EndNode && depth_before(t, m) == 1));
        }
    } else {
        assert(t.skip(0) =~= t);
    }
}

/// The node name the walk for `stdout-path` finds is `chosen_stdout`.
pub proof fn lemma_chosen_walk_target(b: Seq<u8>, lay: FdtLayout, pos: int)
    ensures
        chosen_walk(b, lay, pos, ChosenScan { depth: 0, in_chosen: false, target: None }).target == chosen_stdout(
            b,
            tokens_from(b, lay, pos),
        ),
{
    let t = tokens_from(b, lay, pos);
    let c = first_chosen_from(b, t, 0);
    lemma_chosen_walk_is_fold(b, lay, pos, ChosenScan { depth: 0, in_chosen: false, target: None });
    lemma_first_chosen(b, t, 0);
    if c < t.len() {
        lemma_top_node_end(t, c + 1);
        let e = top_node_end_from(t, c + 1);
        lemma_chosen_fold_from(b, t, e);
        lemma_chosen_state(b, t, e);
        if e < t.len() {
            assert(t.skip(e)[0] == t[e]);
        } else {
            assert(t.skip(e).len() == 0);
        }
    } else {
        lemma_chosen_fold_from(b, t, c);
        lemma_chosen_state(b, t, c);
        assert(t.skip(c).len() == 0);
    }
}

} // verus!
