//! The run queue: every live thread in a slot vector, with round-robin
//! selection by priority.
use vstd::prelude::*;
use crate::scheduler::thread::{Priority, Thread, ThreadId, ThreadState};

verus! {

#[derive(Debug, Clone, Copy, PartialEq, Eq, Structural)]
pub enum RunQueueError {
    ThreadNotFound,
    QueueFull,
}

/// Slot `o` holds the thread `id`.
pub open spec fn holds(o: Option<Thread>, id: ThreadId) -> bool {
    o is Some && o->0.id == id
}

/// Index of the first slot at or after `i` holding thread `id`; `s.len()`
/// when there is none.
pub open spec fn slot_of(s: Seq<Option<Thread>>, id: ThreadId, i: int) -> int
    decreases s.len() - i,
{
    if 0 <= i < s.len() {
        if holds(s[i], id) {
            i
        } else {
            slot_of(s, id, i + 1)
        }
    } else {
        s.len() as int
    }
}

/// Index of the first empty slot at or after `i`; `s.len()` when none.
pub open spec fn free_slot(s: Seq<Option<Thread>>, i: int) -> int
    decreases s.len() - i,
{
    if 0 <= i < s.len() {
        if s[i] is None {
            i
        } else {
            free_slot(s, i + 1)
        }
    } else {
        s.len() as int
    }
}

/// The threads present, in slot order.
pub open spec fn present(s: Seq<Option<Thread>>) -> Seq<Thread>
    decreases s.len(),
{
    if s.len() == 0 {
        Seq::empty()
    } else {
        let rest = present(s.drop_last());
        match s.last() {
            Some(t) => rest.push(t),
            None => rest,
        }
    }
}

/// Number of threads present in state `st`.
pub open spec fn count_state(s: Seq<Option<Thread>>, st: ThreadState) -> nat
    decreases s.len(),
{
    if s.len() == 0 {
        0
    } else {
        count_state(s.drop_last(), st) + (if s.last() is Some && s.last()->0.state == st {
            1nat
        } else {
            0nat
        })
    }
}

/// Slot `o` holds a Ready thread of priority `p`.
pub open spec fn ready_at(o: Option<Thread>, p: Priority) -> bool {
    o is Some && o->0.state == ThreadState::Ready && o->0.priority == p
}

/// Round-robin search: the first Ready thread of priority `p` among the
/// slots `start + i, start + i + 1, .., start + len - 1` (modulo `len`).
pub open spec fn scan_from(s: Seq<Option<Thread>>, start: int, p: Priority, i: int) -> Option<ThreadId>
    decreases s.len() - i,
{
    if 1 <= i < s.len() {
        let idx = (start + i) % (s.len() as int);
        if ready_at(s[idx], p) {
            Some(s[idx]->0.id)
        } else {
            scan_from(s, start, p, i + 1)
        }
    } else {
        None
    }
}

/// The first Ready idle thread in slot order, from slot `i` on.
pub open spec fn first_idle(s: Seq<Option<Thread>>, i: int) -> Option<ThreadId>
    decreases s.len() - i,
{
    if 0 <= i < s.len() {
        if ready_at(s[i], Priority::Idle) {
            Some(s[i]->0.id)
        } else {
            first_idle(s, i + 1)
        }
    } else {
        None
    }
}

/// Where the round-robin search starts: the slot of `from`, or slot 0.
pub open spec fn search_start(s: Seq<Option<Thread>>, from: ThreadId) -> int {
    let k = slot_of(s, from, 0);
    if k < s.len() {
        k
    } else {
        0
    }
}

/// The next thread to run after `from`: the first priority class (Realtime,
/// High, Normal, Low) with a Ready thread, searched round-robin after
/// `from`'s slot; failing that, the first Ready idle thread unless idle
/// threads are excluded.
pub open spec fn next_ready(s: Seq<Option<Thread>>, from: ThreadId, exclude_idle: bool) -> Option<ThreadId> {
    let st = search_start(s, from);
    if scan_from(s, st, Priority::Realtime, 1) is Some {
        scan_from(s, st, Priority::Realtime, 1)
    } else if scan_from(s, st, Priority::High, 1) is Some {
        scan_from(s, st, Priority::High, 1)
    } else if scan_from(s, st, Priority::Normal, 1) is Some {
        scan_from(s, st, Priority::Normal, 1)
    } else if scan_from(s, st, Priority::Low, 1) is Some {
        scan_from(s, st, Priority::Low, 1)
    } else if !exclude_idle {
        first_idle(s, 0)
    } else {
        None
    }
}

/// `insert`: the thread takes the first empty slot, or is appended.
pub open spec fn insert_model(s: Seq<Option<Thread>>, t: Thread) -> Seq<Option<Thread>> {
    let k = free_slot(s, 0);
    if k < s.len() {
        s.update(k, Some(t))
    } else {
        s.push(Some(t))
    }
}

/// `set_state`: the first slot holding `id` gets the new state.
pub open spec fn set_state_model(s: Seq<Option<Thread>>, id: ThreadId, st: ThreadState) -> Seq<Option<Thread>> {
    let k = slot_of(s, id, 0);
    if k < s.len() {
        s.update(k, Some(Thread { state: st, ..s[k]->0 }))
    } else {
        s
    }
}

/// `remove`: the first slot holding `id` is emptied.
pub open spec fn remove_model(s: Seq<Option<Thread>>, id: ThreadId) -> Seq<Option<Thread>> {
    let k = slot_of(s, id, 0);
    if k < s.len() {
        s.update(k, None)
    } else {
        s
    }
}

/// The thread `id` as a lookup finds it.
pub open spec fn get_model(s: Seq<Option<Thread>>, id: ThreadId) -> Option<Thread> {
    let k = slot_of(s, id, 0);
    if 0 <= k < s.len() {
        s[k]
    } else {
        None
    }
}

pub proof fn lemma_slot_of_range(s: Seq<Option<Thread>>, id: ThreadId, i: int)
    requires
        0 <= i <= s.len(),
    ensures
        i <= slot_of(s, id, i) <= s.len(),
        slot_of(s, id, i) < s.len() ==> holds(s[slot_of(s, id, i)], id),
        forall|j: int| i <= j < slot_of(s, id, i) ==> !holds(#[trigger] s[j], id),
    decreases s.len() - i,
{
    if i < s.len() {
        lemma_slot_of_range(s, id, i + 1);
    }
}

pub proof fn lemma_free_slot_range(s: Seq<Option<Thread>>, i: int)
    requires
        0 <= i <= s.len(),
    ensures
        i <= free_slot(s, i) <= s.len(),
        free_slot(s, i) < s.len() ==> s[free_slot(s, i)] is None,
        forall|j: int| i <= j < free_slot(s, i) ==> (#[trigger] s[j]) is Some,
    decreases s.len() - i,
{
    if i < s.len() {
        lemma_free_slot_range(s, i + 1);
    }
}

/// Updating slot `k` changes the count of a state by what leaves and what
/// enters that slot.
pub proof fn lemma_count_update(s: Seq<Option<Thread>>, k: int, o: Option<Thread>, st: ThreadState)
    requires
        0 <= k < s.len(),
    ensures
        count_state(s.update(k, o), st) + (if s[k] is Some && s[k]->0.state == st {
            1int
        } else {
            0int
        }) == count_state(s, st) + (if o is Some && o->0.state == st {
            1int
        } else {
            0int
        }),
    decreases s.len(),
{
    let u = s.update(k, o);
    if k < s.len() - 1 {
        assert(u.drop_last() =~= s.drop_last().update(k, o));
        lemma_count_update(s.drop_last(), k, o, st);
    } else {
        assert(u.drop_last() =~= s.drop_last());
    }
}

/// A count of 0 means no slot holds the state.
pub proof fn lemma_count_zero(s: Seq<Option<Thread>>, st: ThreadState)
    requires
        count_state(s, st) == 0,
    ensures
        forall|j: int| 0 <= j < s.len() ==> !(#[trigger] s[j] is Some && s[j]->0.state == st),
    decreases s.len(),
{
    if s.len() > 0 {
        lemma_count_zero(s.drop_last(), st);
        assert forall|j: int| 0 <= j < s.len() implies !(#[trigger] s[j] is Some && s[j]->0.state == st) by {
            if j < s.len() - 1 {
                assert(s.drop_last()[j] == s[j]);
            }
        }
    }
}

/// `set_sleep`: the first slot holding `id` gets the new state and wake-up
/// tick.
pub open spec fn sleep_model(s: Seq<Option<Thread>>, id: ThreadId, st: ThreadState, until: Option<u64>) -> Seq<Option<Thread>> {
    let k = slot_of(s, id, 0);
    if k < s.len() {
        s.update(k, Some(Thread { state: st, sleep_until: until, ..s[k]->0 }))
    } else {
        s
    }
}

/// Changing a thread's state moves no thread: every lookup finds the same
/// slot, and only the changed slot's state differs.
pub proof fn lemma_set_state_lookup(s: Seq<Option<Thread>>, id: ThreadId, st: ThreadState, other: ThreadId)
    ensures
        slot_of(set_state_model(s, id, st), other, 0) == slot_of(s, other, 0),
        set_state_model(s, id, st).len() == s.len(),
        get_model(set_state_model(s, id, st), other) is Some == get_model(s, other) is Some,
        get_model(s, other) is Some ==> get_model(set_state_model(s, id, st), other)->0 == (if slot_of(s, other, 0)
            == slot_of(s, id, 0) {
            Thread { state: st, ..get_model(s, other)->0 }
        } else {
            get_model(s, other)->0
        }),
{
    lemma_slot_of_range(s, id, 0);
    lemma_slot_of_range(s, other, 0);
    let k = slot_of(s, id, 0);
    if k < s.len() {
        lemma_slot_of_update(s, k, Some(Thread { state: st, ..s[k]->0 }), other);
    }
}

/// No two present threads share an id.
pub open spec fn ids_unique(s: Seq<Option<Thread>>) -> bool {
    forall|i: int, j: int|
        0 <= i < s.len() && 0 <= j < s.len() && i != j && (#[trigger] s[i]) is Some && (#[trigger] s[j]) is Some
            ==> s[i]->0.id != s[j]->0.id
}

/// Writing a slot that holds `id` before exactly when it holds it after
/// leaves the lookup of `id` unchanged.
pub proof fn lemma_slot_of_update(s: Seq<Option<Thread>>, k: int, o: Option<Thread>, id: ThreadId)
    requires
        0 <= k < s.len(),
        holds(s[k], id) == holds(o, id),
    ensures
        slot_of(s.update(k, o), id, 0) == slot_of(s, id, 0),
{
    let u = s.update(k, o);
    lemma_slot_of_range(s, id, 0);
    lemma_slot_of_range(u, id, 0);
    let a = slot_of(s, id, 0);
    let b = slot_of(u, id, 0);
    if a < b {
        assert(holds(s[a], id));
        assert(holds(u[a], id));
        assert(!holds(u[a], id));
    } else if b < a {
        assert(holds(u[b], id));
        assert(holds(s[b], id));
        assert(!holds(s[b], id));
    }
}

/// With unique ids, the slot found for a present thread is its own.
pub proof fn lemma_slot_of_unique(s: Seq<Option<Thread>>, k: int)
    requires
        ids_unique(s),
        0 <= k < s.len(),
        s[k] is Some,
    ensures
        slot_of(s, s[k]->0.id, 0) == k,
{
    let id = s[k]->0.id;
    lemma_slot_of_range(s, id, 0);
    let f = slot_of(s, id, 0);
    assert(f < k ==> holds(s[f], id));
    assert(f > k ==> !holds(s[k], id));
}

/// What a round-robin scan finds is a Ready thread of that priority.
pub proof fn lemma_scan_found(s: Seq<Option<Thread>>, start: int, p: Priority, i: int)
    requires
        0 <= start,
        scan_from(s, start, p, i) is Some,
    ensures
        exists|j: int|
            0 <= j < s.len() && ready_at(#[trigger] s[j], p) && s[j]->0.id == scan_from(s, start, p, i)->0,
    decreases s.len() - i,
{
    if 1 <= i < s.len() {
        let idx = (start + i) % (s.len() as int);
        if !ready_at(s[idx], p) {
            lemma_scan_found(s, start, p, i + 1);
        } else {
            assert(ready_at(s[idx], p));
        }
    }
}

/// What the idle fallback finds is a Ready idle thread.
pub proof fn lemma_first_idle_found(s: Seq<Option<Thread>>, i: int)
    requires
        first_idle(s, i) is Some,
    ensures
        exists|j: int|
            0 <= j < s.len() && ready_at(#[trigger] s[j], Priority::Idle) && s[j]->0.id == first_idle(s, i)->0,
    decreases s.len() - i,
{
    if 0 <= i < s.len() && !ready_at(s[i], Priority::Idle) {
        lemma_first_idle_found(s, i + 1);
    }
}

/// The thread chosen to run next is present and Ready.
pub proof fn lemma_next_ready_is_ready(s: Seq<Option<Thread>>, from: ThreadId, exclude_idle: bool)
    requires
        next_ready(s, from, exclude_idle) is Some,
    ensures
        exists|j: int|
            0 <= j < s.len() && (#[trigger] s[j]) is Some && s[j]->0.state == ThreadState::Ready
                && s[j]->0.id == next_ready(s, from, exclude_idle)->0,
{
    let st = search_start(s, from);
    lemma_slot_of_range(s, from, 0);
    if scan_from(s, st, Priority::Realtime, 1) is Some {
        lemma_scan_found(s, st, Priority::Realtime, 1);
    } else if scan_from(s, st, Priority::High, 1) is Some {
        lemma_scan_found(s, st, Priority::High, 1);
    } else if scan_from(s, st, Priority::Normal, 1) is Some {
        lemma_scan_found(s, st, Priority::Normal, 1);
    } else if scan_from(s, st, Priority::Low, 1) is Some {
        lemma_scan_found(s, st, Priority::Low, 1);
    } else {
        lemma_first_idle_found(s, 0);
    }
}

/// How urgent a priority is: Realtime > High > Normal > Low > Idle.
pub open spec fn priority_rank(p: Priority) -> int {
    match p {
        Priority::Realtime => 4,
        Priority::High => 3,
        Priority::Normal => 2,
        Priority::Low => 1,
        Priority::Idle => 0,
    }
}

/// A scan that finds nothing passed over no Ready thread of that priority
/// from offset `i` on.
proof fn lemma_scan_none(s: Seq<Option<Thread>>, start: int, p: Priority, i: int)
    requires
        0 <= start < s.len(),
        1 <= i,
        scan_from(s, start, p, i) is None,
    ensures
        forall|k: int| i <= k < s.len() ==> !ready_at(#[trigger] s[(start + k) % (s.len() as int)], p),
    decreases s.len() - i,
{
    if i < s.len() {
        lemma_scan_none(s, start, p, i + 1);
    }
}

/// Every slot other than `start` is reached by the round-robin scan.
proof fn lemma_scan_reaches(s: Seq<Option<Thread>>, start: int, j: int) -> (k: int)
    requires
        0 <= start < s.len(),
        0 <= j < s.len(),
        j != start,
    ensures
        1 <= k < s.len(),
        (start + k) % (s.len() as int) == j,
{
    let n = s.len() as int;
    vstd::arithmetic::div_mod::lemma_small_mod(j as nat, n as nat);
    if j > start {
        j - start
    } else {
        vstd::arithmetic::div_mod::lemma_mod_add_multiples_vanish(j, n);
        assert(start + (j - start + n) == n + j);
        j - start + n
    }
}

/// No scan of priority `p` finds anything, so no slot but `start` holds a
/// Ready thread of priority `p`.
proof fn lemma_none_ready_elsewhere(s: Seq<Option<Thread>>, start: int, p: Priority)
    requires
        0 <= start < s.len(),
        scan_from(s, start, p, 1) is None,
    ensures
        forall|j: int| 0 <= j < s.len() && j != start ==> !ready_at(#[trigger] s[j], p),
{
    lemma_scan_none(s, start, p, 1);
    assert forall|j: int| 0 <= j < s.len() && j != start implies !ready_at(#[trigger] s[j], p) by {
        let k = lemma_scan_reaches(s, start, j);
        assert(!ready_at(s[(start + k) % (s.len() as int)], p));
    }
}

/// No Ready thread outside slot `start` has a priority above `p`.
pub open spec fn none_above(s: Seq<Option<Thread>>, start: int, p: Priority) -> bool {
    forall|j: int|
        0 <= j < s.len() && j != start && (#[trigger] s[j]) is Some && s[j]->0.state == ThreadState::Ready
            ==> priority_rank(s[j]->0.priority) <= priority_rank(p)
}

/// Thread `r` is Ready and no Ready thread outside slot `start` has a
/// higher priority.
pub open spec fn picked_best(s: Seq<Option<Thread>>, start: int, r: ThreadId) -> bool {
    exists|i: int|
        0 <= i < s.len() && (#[trigger] s[i]) is Some && s[i]->0.state == ThreadState::Ready && s[i]->0.id == r
            && forall|j: int|
            0 <= j < s.len() && j != start && (#[trigger] s[j]) is Some && s[j]->0.state == ThreadState::Ready
                ==> priority_rank(s[j]->0.priority) <= priority_rank(s[i]->0.priority)
}

proof fn lemma_pick(s: Seq<Option<Thread>>, start: int, p: Priority, r: ThreadId)
    requires
        exists|i: int| 0 <= i < s.len() && ready_at(#[trigger] s[i], p) && s[i]->0.id == r,
        none_above(s, start, p),
    ensures
        picked_best(s, start, r),
{
    let i = choose|i: int| 0 <= i < s.len() && ready_at(#[trigger] s[i], p) && s[i]->0.id == r;
    assert(s[i] is Some);
}

proof fn lemma_none_above(s: Seq<Option<Thread>>, start: int, p: Priority)
    requires
        0 <= start < s.len(),
        priority_rank(p) < 4 ==> scan_from(s, start, Priority::Realtime, 1) is None,
        priority_rank(p) < 3 ==> scan_from(s, start, Priority::High, 1) is None,
        priority_rank(p) < 2 ==> scan_from(s, start, Priority::Normal, 1) is None,
        priority_rank(p) < 1 ==> scan_from(s, start, Priority::Low, 1) is None,
    ensures
        none_above(s, start, p),
{
    if priority_rank(p) < 4 {
        lemma_none_ready_elsewhere(s, start, Priority::Realtime);
    }
    if priority_rank(p) < 3 {
        lemma_none_ready_elsewhere(s, start, Priority::High);
    }
    if priority_rank(p) < 2 {
        lemma_none_ready_elsewhere(s, start, Priority::Normal);
    }
    if priority_rank(p) < 1 {
        lemma_none_ready_elsewhere(s, start, Priority::Low);
    }
    assert forall|j: int|
        0 <= j < s.len() && j != start && (#[trigger] s[j]) is Some && s[j]->0.state == ThreadState::Ready
            implies priority_rank(s[j]->0.priority) <= priority_rank(p) by {
        if priority_rank(p) < 4 {
            assert(!ready_at(s[j], Priority::Realtime));
        }
        if priority_rank(p) < 3 {
            assert(!ready_at(s[j], Priority::High));
        }
        if priority_rank(p) < 2 {
            assert(!ready_at(s[j], Priority::Normal));
        }
        if priority_rank(p) < 1 {
            assert(!ready_at(s[j], Priority::Low));
        }
    }
}

/// Priority order: the thread picked to run next is Ready, and no Ready
/// thread outside the caller's slot (slot 0 when the caller has none) has
/// a strictly higher priority (Realtime > High > Normal > Low > Idle).
pub proof fn law_next_ready_highest_priority(s: Seq<Option<Thread>>, from: ThreadId, exclude_idle: bool)
    requires
        next_ready(s, from, exclude_idle) is Some,
    ensures
        picked_best(s, search_start(s, from), next_ready(s, from, exclude_idle)->0),
{
    let st = search_start(s, from);
    lemma_slot_of_range(s, from, 0);
    if s.len() == 0 {
        assert(scan_from(s, st, Priority::Realtime, 1) is None);
        assert(scan_from(s, st, Priority::High, 1) is None);
        assert(scan_from(s, st, Priority::Normal, 1) is None);
        assert(scan_from(s, st, Priority::Low, 1) is None);
        assert(first_idle(s, 0) is None);
        return;
    }
    let r = next_ready(s, from, exclude_idle)->0;
    let p = if scan_from(s, st, Priority::Realtime, 1) is Some {
        Priority::Realtime
    } else if scan_from(s, st, Priority::High, 1) is Some {
        Priority::High
    } else if scan_from(s, st, Priority::Normal, 1) is Some {
        Priority::Normal
    } else if scan_from(s, st, Priority::Low, 1) is Some {
        Priority::Low
    } else {
        Priority::Idle
    };
    lemma_none_above(s, st, p);
    if p == Priority::Idle {
        assert(r == first_idle(s, 0)->0);
        lemma_first_idle_found(s, 0);
    } else {
        assert(r == scan_from(s, st, p, 1)->0);
        lemma_scan_found(s, st, p, 1);
    }
    lemma_pick(s, st, p, r);
}

/// How far slot `x` comes after slot `start` in the round-robin order of
/// `n` slots (1 for the next slot, `n - 1` for the one before `start`).
pub open spec fn rr_offset(n: int, start: int, x: int) -> int {
    if x >= start {
        x - start
    } else {
        x - start + n
    }
}

/// Thread `r` is taken in round-robin order: among the Ready threads of its
/// priority outside slot `start`, it is the first after `start`; an idle
/// thread is taken only when idle threads are allowed, and then the first
/// Ready idle thread in slot order.
pub open spec fn picked_round_robin(s: Seq<Option<Thread>>, start: int, r: ThreadId, exclude_idle: bool) -> bool {
    exists|i: int|
        0 <= i < s.len() && (#[trigger] s[i]) is Some && s[i]->0.state == ThreadState::Ready && s[i]->0.id == r && (
        s[i]->0.priority != Priority::Idle ==> i != start && forall|j: int|
            0 <= j < s.len() && j != start && ready_at(#[trigger] s[j], s[i]->0.priority) ==> rr_offset(
                s.len() as int,
                start,
                i,
            ) <= rr_offset(s.len() as int, start, j)) && (s[i]->0.priority == Priority::Idle ==> !exclude_idle
            && forall|j: int| 0 <= j < i ==> !ready_at(#[trigger] s[j], Priority::Idle))
}

/// Nothing is picked exactly when no slot but `start` holds a Ready thread
/// above idle priority and no idle thread may be taken.
pub open spec fn nothing_to_pick(s: Seq<Option<Thread>>, start: int, exclude_idle: bool) -> bool {
    &&& forall|j: int|
        0 <= j < s.len() && j != start && (#[trigger] s[j]) is Some && s[j]->0.state == ThreadState::Ready
            ==> s[j]->0.priority == Priority::Idle
    &&& (exclude_idle || forall|j: int| 0 <= j < s.len() ==> !ready_at(#[trigger] s[j], Priority::Idle))
}

/// A scan that finds a thread finds the first Ready one of its priority
/// from offset `i` on.
proof fn lemma_scan_first(s: Seq<Option<Thread>>, start: int, p: Priority, i: int) -> (k: int)
    requires
        0 <= start < s.len(),
        1 <= i,
        scan_from(s, start, p, i) is Some,
    ensures
        i <= k < s.len(),
        ready_at(s[(start + k) % (s.len() as int)], p),
        s[(start + k) % (s.len() as int)]->0.id == scan_from(s, start, p, i)->0,
        forall|k2: int| i <= k2 < k ==> !ready_at(#[trigger] s[(start + k2) % (s.len() as int)], p),
    decreases s.len() - i,
{
    let idx = (start + i) % (s.len() as int);
    if ready_at(s[idx], p) {
        i
    } else {
        lemma_scan_first(s, start, p, i + 1)
    }
}

/// The slot the scan reaches at offset `k` is `k` after `start`.
proof fn lemma_offset_of(n: int, start: int, k: int)
    requires
        0 <= start < n,
        1 <= k < n,
    ensures
        0 <= (start + k) % n < n,
        (start + k) % n != start,
        rr_offset(n, start, (start + k) % n) == k,
{
    if start + k < n {
        vstd::arithmetic::div_mod::lemma_small_mod((start + k) as nat, n as nat);
    } else {
        vstd::arithmetic::div_mod::lemma_small_mod((start + k - n) as nat, n as nat);
        vstd::arithmetic::div_mod::lemma_mod_add_multiples_vanish(start + k - n, n);
    }
}

/// The first idle thread in slot order, as the idle fallback finds it.
proof fn lemma_first_idle_first(s: Seq<Option<Thread>>, i: int) -> (k: int)
    requires
        0 <= i,
        first_idle(s, i) is Some,
    ensures
        i <= k < s.len(),
        ready_at(s[k], Priority::Idle),
        s[k]->0.id == first_idle(s, i)->0,
        forall|k2: int| i <= k2 < k ==> !ready_at(#[trigger] s[k2], Priority::Idle),
    decreases s.len() - i,
{
    if ready_at(s[i], Priority::Idle) {
        i
    } else {
        lemma_first_idle_first(s, i + 1)
    }
}

proof fn lemma_first_idle_none(s: Seq<Option<Thread>>, i: int)
    requires
        0 <= i,
        first_idle(s, i) is None,
    ensures
        forall|k: int| i <= k < s.len() ==> !ready_at(#[trigger] s[k], Priority::Idle),
    decreases s.len() - i,
{
    if i < s.len() {
        lemma_first_idle_none(s, i + 1);
    }
}

/// Round-robin order within a priority: the next thread to run is the
/// first Ready one of its priority after the caller's slot; idle threads
/// only as a last resort (the first one in slot order) and never when they
/// are excluded; nothing is picked exactly when no other Ready thread above
/// idle priority exists and no idle one may be taken.
pub proof fn law_next_ready_round_robin(s: Seq<Option<Thread>>, from: ThreadId, exclude_idle: bool)
    ensures
        next_ready(s, from, exclude_idle) is None <==> nothing_to_pick(s, search_start(s, from), exclude_idle),
        next_ready(s, from, exclude_idle) matches Some(r) ==> picked_round_robin(
            s,
            search_start(s, from),
            r,
            exclude_idle,
        ),
{
    let st = search_start(s, from);
    let n = s.len() as int;
    lemma_slot_of_range(s, from, 0);
    if n == 0 {
        assert(scan_from(s, st, Priority::Realtime, 1) is None);
        assert(scan_from(s, st, Priority::High, 1) is None);
        assert(scan_from(s, st, Priority::Normal, 1) is None);
        assert(scan_from(s, st, Priority::Low, 1) is None);
        assert(first_idle(s, 0) is None);
        return;
    }
    let p = if scan_from(s, st, Priority::Realtime, 1) is Some {
        Priority::Realtime
    } else if scan_from(s, st, Priority::High, 1) is Some {
        Priority::High
    } else if scan_from(s, st, Priority::Normal, 1) is Some {
        Priority::Normal
    } else if scan_from(s, st, Priority::Low, 1) is Some {
        Priority::Low
    } else {
        Priority::Idle
    };
    if p != Priority::Idle {
        let r = scan_from(s, st, p, 1)->0;
        assert(next_ready(s, from, exclude_idle) == Some(r));
        let k = lemma_scan_first(s, st, p, 1);
        lemma_offset_of(n, st, k);
        let i = (st + k) % n;
        assert forall|j: int| 0 <= j < n && j != st && ready_at(#[trigger] s[j], s[i]->0.priority) implies rr_offset(
            n,
            st,
            i,
        ) <= rr_offset(n, st, j) by {
            let kj = lemma_scan_reaches(s, st, j);
            lemma_offset_of(n, st, kj);
            if kj < k {
                assert(!ready_at(s[(st + kj) % n], p));
            }
        }
        assert(s[i] is Some);
        // Something Ready above idle priority exists outside the caller's slot.
        assert(!nothing_to_pick(s, st, exclude_idle));
    } else {
        lemma_none_above(s, st, Priority::Idle);
        assert forall|j: int|
            0 <= j < n && j != st && (#[trigger] s[j]) is Some && s[j]->0.state == ThreadState::Ready implies s[j]->0.priority
            == Priority::Idle by {
            assert(priority_rank(s[j]->0.priority) <= 0);
        }
        if !exclude_idle {
            if first_idle(s, 0) is Some {
                let k = lemma_first_idle_first(s, 0);
                assert(s[k] is Some);
                assert(!(forall|j: int| 0 <= j < n ==> !ready_at(#[trigger] s[j], Priority::Idle)));
            } else {
                lemma_first_idle_none(s, 0);
            }
        }
    }
}

pub struct RunQueue {
    threads: Vec<Option<Thread>>,
    next_id: u64,
}

impl RunQueue {
    /// The slots, in order.
    pub closed spec fn slots(&self) -> Seq<Option<Thread>> {
        self.threads@
    }

    /// The id the next `alloc_id` hands out.
    pub closed spec fn spec_next_id(&self) -> u64 {
        self.next_id
    }

    /// The id the next `alloc_id` hands out.
    pub fn next_id(&self) -> (r: u64)
        ensures
            r == self.spec_next_id(),
    {
        self.next_id
    }

    pub fn new() -> (r: Self)
        ensures
            r.slots() == Seq::<Option<Thread>>::empty(),
            r.spec_next_id() == 0,
    {
        RunQueue { threads: Vec::new(), next_id: 0 }
    }

    /// Allocate a new unique thread id.
    pub fn alloc_id(&mut self) -> (id: ThreadId)
        requires
            old(self).spec_next_id() < u64::MAX,
        ensures
            id == old(self).spec_next_id(),
            final(self).spec_next_id() == id + 1,
            final(self).slots() == old(self).slots(),
    {
        let id = self.next_id;
        self.next_id = self.next_id + 1;
        id
    }

    /// Index of the first slot holding `id`, or the slot count.
    fn position(&self, id: ThreadId) -> (k: usize)
        ensures
            k == slot_of(self.slots(), id, 0),
    {
        let mut i: usize = 0;
        while i < self.threads.len()
            invariant
                0 <= i <= self.threads@.len(),
                slot_of(self.threads@, id, 0) == slot_of(self.threads@, id, i as int),
            decreases self.threads@.len() - i,
        {
            match &self.threads[i] {
                Some(t) => {
                    if t.id == id {
                        return i;
                    }
                },
                None => {},
            }
            i = i + 1;
        }
        i
    }

    /// Insert a thread into the first empty slot, or append it.
    pub fn insert(&mut self, thread: Thread) -> (r: Result<(), RunQueueError>)
        ensures
            r is Ok,
            final(self).spec_next_id() == old(self).spec_next_id(),
            final(self).slots() == insert_model(old(self).slots(), thread),
    {
        let mut i: usize = 0;
        while i < self.threads.len()
            invariant
                0 <= i <= self.threads@.len(),
                self.threads@ == old(self).threads@,
                self.next_id == old(self).next_id,
                free_slot(self.threads@, 0) == free_slot(self.threads@, i as int),
            decreases self.threads@.len() - i,
        {
            if self.threads[i].is_none() {
                self.threads.set(i, Some(thread));
                return Ok(());
            }
            i = i + 1;
        }
        self.threads.push(Some(thread));
        Ok(())
    }

    /// Remove the thread `id` (its first slot becomes empty).
    pub fn remove(&mut self, id: ThreadId) -> (r: Option<Thread>)
        ensures
            final(self).spec_next_id() == old(self).spec_next_id(),
            r == get_model(old(self).slots(), id),
            final(self).slots() == remove_model(old(self).slots(), id),
    {
        let k = self.position(id);
        proof {
            lemma_slot_of_range(self.threads@, id, 0);
        }
        if k < self.threads.len() {
            let t = self.threads[k];
            self.threads.set(k, None);
            t
        } else {
            None
        }
    }

    /// The thread `id`, if present.
    pub fn get(&self, id: ThreadId) -> (r: Option<&Thread>)
        ensures
            r.is_some() == get_model(self.slots(), id).is_some(),
            r.is_some() ==> *r.unwrap() == get_model(self.slots(), id)->0,
    {
        let k = self.position(id);
        proof {
            lemma_slot_of_range(self.threads@, id, 0);
        }
        if k < self.threads.len() {
            self.threads[k].as_ref()
        } else {
            None
        }
    }

    /// The thread `id`, for update in place; its slot takes whatever the
    /// caller leaves in it.
    pub fn get_mut(&mut self, id: ThreadId) -> (r: Option<&mut Thread>)
        ensures
            r.is_some() == get_model(old(self).slots(), id).is_some(),
            r is None ==> final(self).slots() == old(self).slots(),
            r matches Some(t) ==> *t == get_model(old(self).slots(), id)->0 && final(self).slots() == old(
                self,
            ).slots().update(slot_of(old(self).slots(), id, 0), Some(*final(t))),
            final(self).spec_next_id() == old(self).spec_next_id(),
    {
        let k = self.position(id);
        proof {
            lemma_slot_of_range(self.threads@, id, 0);
        }
        if k < self.threads.len() {
            self.threads[k].as_mut()
        } else {
            None
        }
    }

    /// Replace the thread `id` by `t` (which keeps the id).
    fn replace(&mut self, k: usize, t: Thread)
        requires
            k < old(self).slots().len(),
        ensures
            final(self).slots() == old(self).slots().update(k as int, Some(t)),
            final(self).spec_next_id() == old(self).spec_next_id(),
    {
        self.threads.set(k, Some(t));
    }

    /// Set the state of the thread `id`.
    pub fn set_state(&mut self, id: ThreadId, new_state: ThreadState) -> (r: Result<(), RunQueueError>)
        ensures
            final(self).spec_next_id() == old(self).spec_next_id(),
            final(self).slots() == set_state_model(old(self).slots(), id, new_state),
            r is Ok <==> get_model(old(self).slots(), id) is Some,
            r is Err ==> r == Err::<(), RunQueueError>(RunQueueError::ThreadNotFound),
    {
        let k = self.position(id);
        proof {
            lemma_slot_of_range(self.threads@, id, 0);
        }
        if k < self.threads.len() {
            let t = self.threads[k].unwrap();
            self.replace(k, Thread { state: new_state, ..t });
            Ok(())
        } else {
            Err(RunQueueError::ThreadNotFound)
        }
    }

    /// Set the state and wake-up tick of the thread `id`, if present.
    pub fn set_sleep(&mut self, id: ThreadId, new_state: ThreadState, until: Option<u64>) -> (found: bool)
        ensures
            final(self).spec_next_id() == old(self).spec_next_id(),
            found == get_model(old(self).slots(), id) is Some,
            final(self).slots() == sleep_model(old(self).slots(), id, new_state, until),
    {
        let k = self.position(id);
        proof {
            lemma_slot_of_range(self.threads@, id, 0);
        }
        if k < self.threads.len() {
            let t = self.threads[k].unwrap();
            self.replace(k, Thread { state: new_state, sleep_until: until, ..t });
            true
        } else {
            false
        }
    }

    /// Round-robin search for a Ready thread of priority `p` after `start`.
    fn scan(&self, start: usize, p: Priority) -> (r: Option<ThreadId>)
        requires
            start < self.slots().len() || (start == 0 && self.slots().len() == 0),
        ensures
            r == scan_from(self.slots(), start as int, p, 1),
    {
        let len = self.threads.len();
        let mut i: usize = 1;
        while i < len
            invariant
                len == self.threads@.len(),
                start < len || (start == 0 && len == 0),
                1 <= i,
                i <= len || len == 0,
                scan_from(self.threads@, start as int, p, 1) == scan_from(self.threads@, start as int, p, i as int),
            decreases len - i,
        {
            let idx = if start < len - i { start + i } else { start - (len - i) };
            proof {
                if start < len - i {
                    vstd::arithmetic::div_mod::lemma_small_mod((start + i) as nat, len as nat);
                } else {
                    vstd::arithmetic::div_mod::lemma_mod_add_multiples_vanish(
                        (start + i - len) as int,
                        len as int,
                    );
                    vstd::arithmetic::div_mod::lemma_small_mod((start + i - len) as nat, len as nat);
                }
            }
            assert(idx == (start + i) % (len as int));
            match &self.threads[idx] {
                Some(t) => {
                    if t.state == ThreadState::Ready && t.priority == p {
                        return Some(t.id);
                    }
                },
                None => {},
            }
            i = i + 1;
        }
        None
    }

    /// Find the next Ready thread after `from_id`, by priority: see
    /// `next_ready`.
    pub fn find_next_ready(&self, from_id: ThreadId, exclude_idle: bool) -> (r: Option<ThreadId>)
        ensures
            r == next_ready(self.slots(), from_id, exclude_idle),
            r matches Some(id) ==> picked_best(self.slots(), search_start(self.slots(), from_id), id),
            r matches Some(id) ==> picked_round_robin(self.slots(), search_start(self.slots(), from_id), id, exclude_idle),
            r is None <==> nothing_to_pick(self.slots(), search_start(self.slots(), from_id), exclude_idle),
    {
        proof {
            if next_ready(self.slots(), from_id, exclude_idle) is Some {
                law_next_ready_highest_priority(self.slots(), from_id, exclude_idle);
            }
            law_next_ready_round_robin(self.slots(), from_id, exclude_idle);
        }
        let k = self.position(from_id);
        proof {
            lemma_slot_of_range(self.threads@, from_id, 0);
        }
        let start = if k < self.threads.len() { k } else { 0 };
        let r = self.scan(start, Priority::Realtime);
        if r.is_some() {
            return r;
        }
        let r = self.scan(start, Priority::High);
        if r.is_some() {
            return r;
        }
        let r = self.scan(start, Priority::Normal);
        if r.is_some() {
            return r;
        }
        let r = self.scan(start, Priority::Low);
        if r.is_some() {
            return r;
        }
        if !exclude_idle {
            assert(next_ready(self.threads@, from_id, exclude_idle) == first_idle(self.threads@, 0));
            let mut i: usize = 0;
            while i < self.threads.len()
                invariant
                    0 <= i <= self.threads@.len(),
                    next_ready(self.threads@, from_id, exclude_idle) == first_idle(self.threads@, 0),
                    first_idle(self.threads@, 0) == first_idle(self.threads@, i as int),
                    next_ready(self.threads@, from_id, exclude_idle) is Some ==> picked_best(
                        self.threads@,
                        search_start(self.threads@, from_id),
                        next_ready(self.threads@, from_id, exclude_idle)->0,
                    ),
                    next_ready(self.threads@, from_id, exclude_idle) is Some ==> picked_round_robin(
                        self.threads@,
                        search_start(self.threads@, from_id),
                        next_ready(self.threads@, from_id, exclude_idle)->0,
                        exclude_idle,
                    ),
                    next_ready(self.threads@, from_id, exclude_idle) is None <==> nothing_to_pick(
                        self.threads@,
                        search_start(self.threads@, from_id),
                        exclude_idle,
                    ),
                decreases self.threads@.len() - i,
            {
                match &self.threads[i] {
                    Some(t) => {
                        if t.state == ThreadState::Ready && t.priority == Priority::Idle {
                            return Some(t.id);
                        }
                    },
                    None => {},
                }
                i = i + 1;
            }
        }
        None
    }

    /// Number of threads in state `st`.
    pub fn count_in_state(&self, st: ThreadState) -> (n: usize)
        ensures
            n == count_state(self.slots(), st),
    {
        let mut n: usize = 0;
        let mut i: usize = 0;
        while i < self.threads.len()
            invariant
                0 <= i <= self.threads@.len(),
                n == count_state(self.threads@.take(i as int), st),
                n <= i,
            decreases self.threads@.len() - i,
        {
            assert(self.threads@.take(i + 1).drop_last() =~= self.threads@.take(i as int));
            match &self.threads[i] {
                Some(t) => {
                    if t.state == st {
                        n = n + 1;
                    }
                },
                None => {},
            }
            i = i + 1;
        }
        assert(self.threads@.take(i as int) =~= self.threads@);
        n
    }

    /// All present threads, in slot order.
    pub fn iter(&self) -> (r: Vec<Thread>)
        ensures
            r@ == present(self.slots()),
    {
        let mut out: Vec<Thread> = Vec::new();
        let mut i: usize = 0;
        while i < self.threads.len()
            invariant
                0 <= i <= self.threads@.len(),
                out@ == present(self.threads@.take(i as int)),
            decreases self.threads@.len() - i,
        {
            assert(self.threads@.take(i + 1).drop_last() =~= self.threads@.take(i as int));
            match &self.threads[i] {
                Some(t) => {
                    out.push(*t);
                },
                None => {},
            }
            i = i + 1;
        }
        assert(self.threads@.take(i as int) =~= self.threads@);
        out
    }
}

} // verus!
