//! The process table: the registry of all tasks.
//!
//! Identity policy: pids are never reused; reaping bumps the slot's
//! generation so `(id, generation)` handles go stale deterministically.
//! Capacity is a hard limit on live tasks (`MAX_TASKS`); reaped tombstones
//! are not live and their slots are reused.
use vstd::prelude::*;
use crate::scheduler::task::{fresh_signals, ProcessHandle, Task, TaskId, TaskState, MAX_TASKS};
use crate::scheduler::thread::ThreadId;

verus! {

/// The slot holds a task that is not a reaped tombstone.
pub open spec fn is_live(o: Option<Task>) -> bool {
    o is Some && o->0.state != TaskState::Exited
}

/// Number of live tasks.
pub open spec fn live_total(s: Seq<Option<Task>>) -> nat
    decreases s.len(),
{
    if s.len() == 0 {
        0
    } else {
        live_total(s.drop_last()) + (if is_live(s.last()) {
            1nat
        } else {
            0nat
        })
    }
}

/// The slot holds the task `pid` (live or tombstone).
pub open spec fn has_pid(o: Option<Task>, pid: TaskId) -> bool {
    o is Some && o->0.task_id == pid
}

/// First slot at or after `i` holding `pid`; `s.len()` when none.
pub open spec fn pid_slot(s: Seq<Option<Task>>, pid: TaskId, i: int) -> int
    decreases s.len() - i,
{
    if 0 <= i < s.len() {
        if has_pid(s[i], pid) {
            i
        } else {
            pid_slot(s, pid, i + 1)
        }
    } else {
        s.len() as int
    }
}

/// An empty slot or a tombstone can take a new task.
pub open spec fn reusable(o: Option<Task>) -> bool {
    o is None || o->0.state == TaskState::Exited
}

/// First reusable slot at or after `i`; `s.len()` when none.
pub open spec fn reuse_slot(s: Seq<Option<Task>>, i: int) -> int
    decreases s.len() - i,
{
    if 0 <= i < s.len() {
        if reusable(s[i]) {
            i
        } else {
            reuse_slot(s, i + 1)
        }
    } else {
        s.len() as int
    }
}

/// Generation a new task inherits from the slot it takes.
pub open spec fn slot_generation(o: Option<Task>) -> u32 {
    match o {
        None => 0,
        Some(t) => t.generation,
    }
}

/// The generation after a reap (wrapping).
pub open spec fn next_generation(g: u32) -> u32 {
    if g == u32::MAX {
        0
    } else {
        (g + 1) as u32
    }
}

/// The task `pid` as a lookup finds it: the first slot holding it.
pub open spec fn lookup_model(s: Seq<Option<Task>>, pid: TaskId) -> Option<Task> {
    let k = pid_slot(s, pid, 0);
    if 0 <= k < s.len() {
        s[k]
    } else {
        None
    }
}

/// The task a handle resolves to: the task with its id, if the generation
/// still matches.
pub open spec fn lookup_handle_model(s: Seq<Option<Task>>, h: ProcessHandle) -> Option<Task> {
    match lookup_model(s, h.id) {
        Some(t) => if t.generation == h.generation {
            Some(t)
        } else {
            None
        },
        None => None,
    }
}

/// `create`: refuse at capacity; else take the first reusable slot (keeping
/// its generation) or append, under the next pid.
pub open spec fn create_result(s: Seq<Option<Task>>, next: TaskId, task: Task) -> (
    Seq<Option<Task>>,
    TaskId,
    Option<ProcessHandle>,
) {
    if live_total(s) >= MAX_TASKS {
        (s, next, None)
    } else {
        let k = reuse_slot(s, 0);
        if k < s.len() {
            let g = slot_generation(s[k]);
            (
                s.update(k, Some(Task { task_id: next, generation: g, ..task })),
                (next + 1) as u64,
                Some(ProcessHandle { id: next, generation: g }),
            )
        } else {
            (
                s.push(Some(Task { task_id: next, generation: 0, ..task })),
                (next + 1) as u64,
                Some(ProcessHandle { id: next, generation: 0 }),
            )
        }
    }
}

/// `t` is the resource-free tombstone left by reaping `removed`: same id,
/// parent and address space, bumped generation, state `Exited`.
pub open spec fn is_tombstone_of(t: Task, removed: Task) -> bool {
    &&& t.task_id == removed.task_id
    &&& t.generation == next_generation(removed.generation)
    &&& t.state == TaskState::Exited
    &&& t.parent == removed.parent
    &&& t.address_space == removed.address_space
    &&& t.threads@ == seq![if removed.threads@.len() > 0 { removed.threads@[0] } else { 0 }]
    &&& t.owned_objects@.len() == 0
    &&& t.children@.len() == 0
    &&& t.exit_code is None
    &&& fresh_signals(t.signals)
}

/// `remove(pid)` took `s` to `s2` returning `r`: the first slot holding
/// `pid` now holds the tombstone of the task it held, which is returned.
pub open spec fn remove_rel(s: Seq<Option<Task>>, pid: TaskId, s2: Seq<Option<Task>>, r: Option<Task>) -> bool {
    let k = pid_slot(s, pid, 0);
    if k < s.len() {
        &&& r == s[k]
        &&& s2.len() == s.len()
        &&& forall|j: int| 0 <= j < s.len() && j != k ==> s2[j] == s[j]
        &&& s2[k] is Some
        &&& is_tombstone_of(s2[k]->0, s[k]->0)
    } else {
        r is None && s2 == s
    }
}

/// `exit_task(pid, code)` took `s` to `s2`: the task in the first slot
/// holding `pid`, if any, is now a zombie with that exit code; nothing else
/// changed.
pub open spec fn exit_rel(s: Seq<Option<Task>>, pid: TaskId, code: i32, s2: Seq<Option<Task>>) -> bool {
    let k = pid_slot(s, pid, 0);
    &&& s2.len() == s.len()
    &&& forall|j: int| 0 <= j < s.len() && j != k ==> #[trigger] s2[j] == s[j]
    &&& k < s.len() ==> {
        &&& s2[k] is Some
        &&& s2[k]->0.state == TaskState::Zombie
        &&& s2[k]->0.exit_code == Some(code)
        &&& s2[k]->0.task_id == pid
        &&& s2[k]->0.generation == s[k]->0.generation
        &&& s2[k]->0.parent == s[k]->0.parent
        &&& s2[k]->0.threads@ == s[k]->0.threads@
        &&& s2[k]->0.children@ == s[k]->0.children@
    }
}

/// First slot at or after `i` whose task owns thread `tid`; `s.len()` when
/// none.
pub open spec fn owner_slot(s: Seq<Option<Task>>, tid: ThreadId, i: int) -> int
    decreases s.len() - i,
{
    if 0 <= i < s.len() {
        if s[i] is Some && s[i]->0.threads@.contains(tid) {
            i
        } else {
            owner_slot(s, tid, i + 1)
        }
    } else {
        s.len() as int
    }
}

/// The task owning thread `tid`: the first in slot order listing it.
pub open spec fn owner_model(s: Seq<Option<Task>>, tid: ThreadId) -> Option<TaskId> {
    let k = owner_slot(s, tid, 0);
    if 0 <= k < s.len() {
        Some(s[k]->0.task_id)
    } else {
        None
    }
}

/// The children of `parent` that have not been reaped, in slot order.
pub open spec fn children_model(s: Seq<Option<Task>>, parent: TaskId) -> Seq<TaskId>
    decreases s.len(),
{
    if s.len() == 0 {
        Seq::empty()
    } else {
        let rest = children_model(s.drop_last(), parent);
        match s.last() {
            Some(t) => if t.parent == Some(parent) && t.state != TaskState::Exited {
                rest.push(t.task_id)
            } else {
                rest
            },
            None => rest,
        }
    }
}

/// The tasks present (live or tombstone), in slot order.
pub open spec fn present_tasks(s: Seq<Option<Task>>) -> Seq<Task>
    decreases s.len(),
{
    if s.len() == 0 {
        Seq::empty()
    } else {
        let rest = present_tasks(s.drop_last());
        match s.last() {
            Some(t) => rest.push(t),
            None => rest,
        }
    }
}

/// The table invariant: every pid present was handed out (is below the next
/// pid, which is at least 1) and no pid appears twice.
pub open spec fn table_wf(s: Seq<Option<Task>>, next: TaskId) -> bool {
    &&& next >= 1
    &&& forall|i: int| 0 <= i < s.len() && (#[trigger] s[i]) is Some ==> s[i]->0.task_id < next
    &&& forall|i: int, j: int|
        0 <= i < s.len() && 0 <= j < s.len() && i != j && (#[trigger] s[i]) is Some
            && (#[trigger] s[j]) is Some ==> s[i]->0.task_id != s[j]->0.task_id
}

pub proof fn lemma_pid_slot_range(s: Seq<Option<Task>>, pid: TaskId, i: int)
    requires
        0 <= i <= s.len(),
    ensures
        i <= pid_slot(s, pid, i) <= s.len(),
        pid_slot(s, pid, i) < s.len() ==> has_pid(s[pid_slot(s, pid, i)], pid),
        forall|j: int| i <= j < pid_slot(s, pid, i) ==> !has_pid(#[trigger] s[j], pid),
    decreases s.len() - i,
{
    if i < s.len() {
        lemma_pid_slot_range(s, pid, i + 1);
    }
}

pub proof fn lemma_reuse_slot_range(s: Seq<Option<Task>>, i: int)
    requires
        0 <= i <= s.len(),
    ensures
        i <= reuse_slot(s, i) <= s.len(),
        reuse_slot(s, i) < s.len() ==> reusable(s[reuse_slot(s, i)]),
        forall|j: int| i <= j < reuse_slot(s, i) ==> !reusable(#[trigger] s[j]),
    decreases s.len() - i,
{
    if i < s.len() {
        lemma_reuse_slot_range(s, i + 1);
    }
}

/// A search for `q` stops at the same slot in `s2` as in `s` when no earlier
/// slot of `s2` holds `q` and that slot still does.
pub proof fn lemma_pid_slot_kept(s: Seq<Option<Task>>, s2: Seq<Option<Task>>, q: TaskId)
    requires
        pid_slot(s, q, 0) < s.len(),
        s2.len() >= s.len(),
        has_pid(s2[pid_slot(s, q, 0)], q),
        forall|j: int| 0 <= j < pid_slot(s, q, 0) ==> !has_pid(#[trigger] s2[j], q),
    ensures
        pid_slot(s2, q, 0) == pid_slot(s, q, 0),
{
    lemma_pid_slot_range(s, q, 0);
    lemma_pid_slot_range(s2, q, 0);
    let k = pid_slot(s, q, 0);
    let m = pid_slot(s2, q, 0);
    if m < k {
        assert(!has_pid(s2[m], q));
    } else if m > k {
        assert(!has_pid(s2[k], q));
    }
}

/// A slot that does not hold `pid` is skipped by the search.
proof fn lemma_pid_slot_absent(s: Seq<Option<Task>>, pid: TaskId)
    requires
        forall|j: int| 0 <= j < s.len() ==> !has_pid(#[trigger] s[j], pid),
    ensures
        pid_slot(s, pid, 0) == s.len(),
{
    lemma_pid_slot_range(s, pid, 0);
}

/// Every live task occupies a non-reusable slot: a table with a reusable
/// slot or spare length has room to grow.
pub proof fn lemma_live_total_le(s: Seq<Option<Task>>)
    ensures
        live_total(s) <= s.len(),
    decreases s.len(),
{
    if s.len() > 0 {
        lemma_live_total_le(s.drop_last());
    }
}

pub proof fn lemma_live_update(s: Seq<Option<Task>>, k: int, o: Option<Task>)
    requires
        0 <= k < s.len(),
    ensures
        live_total(s.update(k, o)) + (if is_live(s[k]) {
            1int
        } else {
            0int
        }) == live_total(s) + (if is_live(o) {
            1int
        } else {
            0int
        }),
    decreases s.len(),
{
    let u = s.update(k, o);
    if k < s.len() - 1 {
        assert(u.drop_last() =~= s.drop_last().update(k, o));
        lemma_live_update(s.drop_last(), k, o);
    } else {
        assert(u.drop_last() =~= s.drop_last());
    }
}

/// Pids are never reused: a created task gets a pid that no task in the
/// table has, and the table invariant is kept.
pub proof fn law_created_pid_is_fresh(s: Seq<Option<Task>>, next: TaskId, task: Task)
    requires
        table_wf(s, next),
        next < u64::MAX,
    ensures
        ({
            let (s2, n2, h) = create_result(s, next, task);
            &&& h is Some ==> h->0.id == next && n2 == next + 1
            &&& h is Some ==> forall|j: int| 0 <= j < s.len() && (#[trigger] s[j]) is Some ==> s[j]->0.task_id != h->0.id
            &&& table_wf(s2, n2)
        }),
{
    let (s2, n2, h) = create_result(s, next, task);
    if live_total(s) < MAX_TASKS {
        let k = reuse_slot(s, 0);
        lemma_reuse_slot_range(s, 0);
        assert forall|i: int, j: int|
            0 <= i < s2.len() && 0 <= j < s2.len() && i != j && (#[trigger] s2[i]) is Some
                && (#[trigger] s2[j]) is Some implies s2[i]->0.task_id != s2[j]->0.task_id by {
            if i != k && j != k {
                assert(s2[i] == s[i] && s2[j] == s[j]);
            }
        }
    }
}

/// Capacity is a hard limit: creation fails exactly when `MAX_TASKS` tasks
/// are live.
pub proof fn law_create_fails_only_at_capacity(s: Seq<Option<Task>>, next: TaskId, task: Task)
    ensures
        create_result(s, next, task).2 is None <==> live_total(s) >= MAX_TASKS,
        create_result(s, next, task).2 is None ==> create_result(s, next, task).0 == s,
        create_result(s, next, task).2 is Some ==> live_total(create_result(s, next, task).0) == live_total(s) + (
        if task.state != TaskState::Exited {
            1int
        } else {
            0int
        }),
{
    if live_total(s) < MAX_TASKS {
        let k = reuse_slot(s, 0);
        lemma_reuse_slot_range(s, 0);
        if k < s.len() {
            lemma_live_update(s, k, Some(Task { task_id: next, generation: slot_generation(s[k]), ..task }));
        } else {
            assert(s.push(Some(Task { task_id: next, generation: 0, ..task })).drop_last() =~= s);
        }
    }
}

/// Reaping makes every handle to the reaped task stale, and keeps the table
/// invariant.
pub proof fn law_reap_makes_handle_stale(
    s: Seq<Option<Task>>,
    next: TaskId,
    h: ProcessHandle,
    s2: Seq<Option<Task>>,
    r: Option<Task>,
)
    requires
        table_wf(s, next),
        lookup_handle_model(s, h) is Some,
        remove_rel(s, h.id, s2, r),
    ensures
        lookup_handle_model(s2, h) is None,
        r == lookup_handle_model(s, h),
        table_wf(s2, next),
{
    let k = pid_slot(s, h.id, 0);
    lemma_pid_slot_range(s, h.id, 0);
    lemma_pid_slot_range(s2, h.id, 0);
    assert forall|j: int| 0 <= j < k implies !has_pid(#[trigger] s2[j], h.id) by {
        assert(s2[j] == s[j]);
    }
    assert(has_pid(s2[k], h.id));
    assert(pid_slot(s2, h.id, 0) == k) by {
        let f = pid_slot(s2, h.id, 0);
        assert(f < k ==> has_pid(s2[f], h.id));
    }
    assert forall|i: int, j: int|
        0 <= i < s2.len() && 0 <= j < s2.len() && i != j && (#[trigger] s2[i]) is Some
            && (#[trigger] s2[j]) is Some implies s2[i]->0.task_id != s2[j]->0.task_id by {
        if i != k && j != k {
            assert(s2[i] == s[i] && s2[j] == s[j]);
        } else if i == k {
            assert(s2[j] == s[j]);
        } else {
            assert(s2[i] == s[i]);
        }
    }
    assert forall|i: int| 0 <= i < s2.len() && (#[trigger] s2[i]) is Some implies s2[i]->0.task_id < next by {
        if i != k {
            assert(s2[i] == s[i]);
        }
    }
}

/// A stale handle stays stale when a task is created: the new task never
/// takes its id, even when it takes the reaped task's slot.
pub proof fn law_stale_handle_stays_stale(s: Seq<Option<Task>>, next: TaskId, task: Task, h: ProcessHandle)
    requires
        table_wf(s, next),
        next < u64::MAX,
        h.id < next,
        lookup_handle_model(s, h) is None,
    ensures
        lookup_handle_model(create_result(s, next, task).0, h) is None,
{
    let (s2, n2, hh) = create_result(s, next, task);
    if live_total(s) < MAX_TASKS {
        let k = reuse_slot(s, 0);
        lemma_reuse_slot_range(s, 0);
        lemma_pid_slot_range(s, h.id, 0);
        lemma_pid_slot_range(s2, h.id, 0);
        let f = pid_slot(s, h.id, 0);
        if f < s.len() {
            if f == k {
                // The tombstone of `h.id` was replaced: no slot holds it now.
                assert forall|j: int| 0 <= j < s2.len() implies !has_pid(#[trigger] s2[j], h.id) by {
                    if j != k && j < s.len() {
                        assert(s2[j] == s[j]);
                        if has_pid(s[j], h.id) {
                            assert(s[k] is Some);
                        }
                    }
                }
                lemma_pid_slot_absent(s2, h.id);
            } else {
                assert forall|j: int| 0 <= j < f implies !has_pid(#[trigger] s2[j], h.id) by {
                    if j != k {
                        assert(s2[j] == s[j]);
                    }
                }
                assert(s2[f] == s[f]);
                assert(pid_slot(s2, h.id, 0) == f) by {
                    let g = pid_slot(s2, h.id, 0);
                    assert(g < f ==> has_pid(s2[g], h.id));
                }
            }
        } else {
            assert forall|j: int| 0 <= j < s2.len() implies !has_pid(#[trigger] s2[j], h.id) by {
                if j != k && j < s.len() {
                    assert(s2[j] == s[j]);
                }
            }
            lemma_pid_slot_absent(s2, h.id);
        }
    }
}

/// Registry of all tasks.
pub struct ProcessTable {
    tasks: Vec<Option<Task>>,
    next_pid: TaskId,
}

impl ProcessTable {
    /// The slots, in order.
    pub closed spec fn slots(&self) -> Seq<Option<Task>> {
        self.tasks@
    }

    /// The pid the next `create` hands out.
    pub closed spec fn spec_next_pid(&self) -> TaskId {
        self.next_pid
    }

    /// The pid the next created task gets.
    pub fn next_pid(&self) -> (r: TaskId)
        ensures
            r == self.spec_next_pid(),
    {
        self.next_pid
    }

    pub open spec fn wf(&self) -> bool {
        table_wf(self.slots(), self.spec_next_pid())
    }

    pub fn new() -> (r: Self)
        ensures
            r.slots() == Seq::<Option<Task>>::empty(),
            r.spec_next_pid() == 1,
            r.wf(),
    {
        ProcessTable { tasks: Vec::new(), next_pid: 1 }
    }

    /// Number of live tasks (reaped tombstones are not live).
    pub fn live_count(&self) -> (n: usize)
        ensures
            n == live_total(self.slots()),
    {
        let mut n: usize = 0;
        let mut i: usize = 0;
        while i < self.tasks.len()
            invariant
                0 <= i <= self.tasks@.len(),
                n == live_total(self.tasks@.take(i as int)),
                n <= i,
            decreases self.tasks@.len() - i,
        {
            assert(self.tasks@.take(i + 1).drop_last() =~= self.tasks@.take(i as int));
            match &self.tasks[i] {
                Some(t) => {
                    if t.state != TaskState::Exited {
                        n = n + 1;
                    }
                },
                None => {},
            }
            i = i + 1;
        }
        assert(self.tasks@.take(i as int) =~= self.tasks@);
        n
    }

    /// Create a task under the next pid and return its handle; `None` at
    /// capacity. See `create_result`.
    pub fn create(&mut self, task: Task) -> (r: Option<ProcessHandle>)
        requires
            old(self).spec_next_pid() < u64::MAX,
        ensures
            old(self).wf() ==> final(self).wf(),
            ({
                let (s2, n2, h) = create_result(old(self).slots(), old(self).spec_next_pid(), task);
                &&& r == h
                &&& final(self).slots() == s2
                &&& final(self).spec_next_pid() == n2
            }),
    {
        if self.live_count() >= MAX_TASKS {
            return None;
        }
        let pid = self.next_pid;
        self.next_pid = self.next_pid + 1;
        let mut t = task;
        t.task_id = pid;
        let mut i: usize = 0;
        while i < self.tasks.len()
            invariant
                0 <= i <= self.tasks@.len(),
                self.tasks@ == old(self).tasks@,
                pid == old(self).next_pid,
                self.next_pid == pid + 1,
                live_total(self.tasks@) < MAX_TASKS,
                t == (Task { task_id: pid, ..task }),
                reuse_slot(self.tasks@, 0) == reuse_slot(self.tasks@, i as int),
            decreases self.tasks@.len() - i,
        {
            let slot_gen: Option<u32> = match &self.tasks[i] {
                None => Some(0),
                Some(x) => if x.state == TaskState::Exited {
                    Some(x.generation)
                } else {
                    None
                },
            };
            match slot_gen {
                Some(g) => {
                    t.generation = g;
                    self.tasks.set(i, Some(t));
                    return Some(ProcessHandle { id: pid, generation: g });
                },
                None => {},
            }
            i = i + 1;
        }
        t.generation = 0;
        self.tasks.push(Some(t));
        Some(ProcessHandle { id: pid, generation: 0 })
    }

    /// Index of the first slot holding `pid`, or the slot count.
    fn position(&self, pid: TaskId) -> (k: usize)
        ensures
            k == pid_slot(self.slots(), pid, 0),
    {
        let mut i: usize = 0;
        while i < self.tasks.len()
            invariant
                0 <= i <= self.tasks@.len(),
                pid_slot(self.tasks@, pid, 0) == pid_slot(self.tasks@, pid, i as int),
            decreases self.tasks@.len() - i,
        {
            match &self.tasks[i] {
                Some(t) => {
                    if t.task_id == pid {
                        return i;
                    }
                },
                None => {},
            }
            i = i + 1;
        }
        i
    }

    /// The task `pid` (live or tombstone).
    pub fn lookup(&self, pid: TaskId) -> (r: Option<&Task>)
        ensures
            r.is_some() == lookup_model(self.slots(), pid).is_some(),
            r.is_some() ==> *r.unwrap() == lookup_model(self.slots(), pid)->0,
    {
        let k = self.position(pid);
        proof {
            lemma_pid_slot_range(self.tasks@, pid, 0);
        }
        if k < self.tasks.len() {
            self.tasks[k].as_ref()
        } else {
            None
        }
    }

    /// The task `pid` (live or tombstone), for update in place; the slot
    /// takes whatever the caller leaves in it.
    pub fn lookup_mut(&mut self, pid: TaskId) -> (r: Option<&mut Task>)
        ensures
            r.is_some() == lookup_model(old(self).slots(), pid).is_some(),
            r is None ==> final(self).slots() == old(self).slots(),
            r matches Some(t) ==> *t == lookup_model(old(self).slots(), pid)->0 && final(self).slots() == old(
                self,
            ).slots().update(pid_slot(old(self).slots(), pid, 0), Some(*final(t))),
            final(self).spec_next_pid() == old(self).spec_next_pid(),
    {
        let k = self.position(pid);
        proof {
            lemma_pid_slot_range(self.tasks@, pid, 0);
        }
        if k < self.tasks.len() {
            self.tasks[k].as_mut()
        } else {
            None
        }
    }

    /// The task a handle designates, if its generation is still current.
    pub fn lookup_handle(&self, h: ProcessHandle) -> (r: Option<&Task>)
        ensures
            r.is_some() == lookup_handle_model(self.slots(), h).is_some(),
            r.is_some() ==> *r.unwrap() == lookup_handle_model(self.slots(), h)->0,
    {
        match self.lookup(h.id) {
            Some(t) => if t.generation == h.generation {
                Some(t)
            } else {
                None
            },
            None => None,
        }
    }

    /// Take the task out of slot `k`, leaving it empty.
    fn take_slot(&mut self, k: usize) -> (r: Option<Task>)
        requires
            k < old(self).slots().len(),
        ensures
            r == old(self).slots()[k as int],
            final(self).slots() == old(self).slots().update(k as int, None),
            final(self).spec_next_pid() == old(self).spec_next_pid(),
    {
        let mut slot: Option<Task> = None;
        self.tasks.set_and_swap(k, &mut slot);
        slot
    }

    /// Reap the task `pid`: return it and leave a tombstone carrying the
    /// bumped generation in its slot, so outstanding handles go stale.
    pub fn remove(&mut self, pid: TaskId) -> (r: Option<Task>)
        ensures
            old(self).wf() ==> final(self).wf(),
            remove_rel(old(self).slots(), pid, final(self).slots(), r),
            final(self).spec_next_pid() == old(self).spec_next_pid(),
    {
        let k = self.position(pid);
        proof {
            lemma_pid_slot_range(self.tasks@, pid, 0);
        }
        if k >= self.tasks.len() {
            return None;
        }
        let removed = match self.take_slot(k) {
            Some(t) => t,
            None => {
                return None;
            },
        };
        let first = if removed.threads.len() > 0 { removed.threads[0] } else { 0 };
        let mut tomb = Task::new(removed.task_id, first, removed.address_space);
        tomb.generation = removed.generation.wrapping_add(1);
        tomb.state = TaskState::Exited;
        tomb.parent = removed.parent;
        self.tasks.set(k, Some(tomb));
        Some(removed)
    }

    /// Take the task out of the first slot holding `pid`, with its index.
    fn modify_first(&mut self, pid: TaskId) -> (r: Option<(usize, Task)>)
        ensures
            ({
                let s = old(self).slots();
                let k = pid_slot(s, pid, 0);
                if k < s.len() {
                    &&& r matches Some((kk, tt)) && kk == k && Some(tt) == s[k]
                    &&& final(self).slots() == s.update(k, None)
                } else {
                    r is None && final(self).slots() == s
                }
            }),
            final(self).spec_next_pid() == old(self).spec_next_pid(),
    {
        let k = self.position(pid);
        proof {
            lemma_pid_slot_range(self.tasks@, pid, 0);
        }
        if k >= self.tasks.len() {
            return None;
        }
        match self.take_slot(k) {
            Some(t) => Some((k, t)),
            None => None,
        }
    }

    /// Mark the task `pid` as a zombie with `code`; false when absent.
    pub fn exit_task(&mut self, pid: TaskId, code: i32) -> (found: bool)
        ensures
            old(self).wf() ==> final(self).wf(),
            found == lookup_model(old(self).slots(), pid).is_some(),
            exit_rel(old(self).slots(), pid, code, final(self).slots()),
            final(self).spec_next_pid() == old(self).spec_next_pid(),
    {
        proof {
            lemma_pid_slot_range(self.tasks@, pid, 0);
        }
        match self.modify_first(pid) {
            Some((k, t)) => {
                let mut t = t;
                t.exit(code);
                self.tasks.set(k, Some(t));
                true
            },
            None => false,
        }
    }

    /// Set the state of the task `pid`; false when absent.
    pub fn set_task_state(&mut self, pid: TaskId, st: TaskState) -> (found: bool)
        ensures
            found == lookup_model(old(self).slots(), pid).is_some(),
            final(self).slots().len() == old(self).slots().len(),
            final(self).spec_next_pid() == old(self).spec_next_pid(),
            forall|j: int|
                0 <= j < old(self).slots().len() && j != pid_slot(old(self).slots(), pid, 0)
                    ==> #[trigger] final(self).slots()[j] == old(self).slots()[j],
            found ==> ({
                let k = pid_slot(old(self).slots(), pid, 0);
                let t = final(self).slots()[k];
                &&& t is Some
                &&& t->0.state == st
                &&& t->0.task_id == pid
                &&& t->0.generation == old(self).slots()[k]->0.generation
                &&& t->0.parent == old(self).slots()[k]->0.parent
                &&& t->0.threads@ == old(self).slots()[k]->0.threads@
                &&& t->0.exit_code == old(self).slots()[k]->0.exit_code
            }),
    {
        proof {
            lemma_pid_slot_range(self.tasks@, pid, 0);
        }
        match self.modify_first(pid) {
            Some((k, t)) => {
                let mut t = t;
                t.state = st;
                self.tasks.set(k, Some(t));
                true
            },
            None => false,
        }
    }

    /// Record `child` as a child of the task `pid`; false when absent.
    pub fn add_child(&mut self, pid: TaskId, child: TaskId) -> (found: bool)
        ensures
            old(self).wf() ==> final(self).wf(),
            found == lookup_model(old(self).slots(), pid).is_some(),
            final(self).slots().len() == old(self).slots().len(),
            final(self).spec_next_pid() == old(self).spec_next_pid(),
            forall|j: int|
                0 <= j < old(self).slots().len() && j != pid_slot(old(self).slots(), pid, 0)
                    ==> #[trigger] final(self).slots()[j] == old(self).slots()[j],
            found ==> ({
                let k = pid_slot(old(self).slots(), pid, 0);
                let t = final(self).slots()[k];
                &&& t is Some
                &&& t->0.children@ == old(self).slots()[k]->0.children@.push(child)
                &&& t->0.task_id == pid
                &&& t->0.state == old(self).slots()[k]->0.state
                &&& t->0.generation == old(self).slots()[k]->0.generation
                &&& t->0.parent == old(self).slots()[k]->0.parent
                &&& t->0.threads@ == old(self).slots()[k]->0.threads@
                &&& t->0.address_space == old(self).slots()[k]->0.address_space
                &&& t->0.exit_code == old(self).slots()[k]->0.exit_code
            }),
    {
        proof {
            lemma_pid_slot_range(self.tasks@, pid, 0);
        }
        match self.modify_first(pid) {
            Some((k, t)) => {
                let mut t = t;
                t.add_child(child);
                self.tasks.set(k, Some(t));
                true
            },
            None => false,
        }
    }

    /// The task owning thread `tid`, if any.
    pub fn owner_of_thread(&self, tid: ThreadId) -> (r: Option<TaskId>)
        ensures
            r == owner_model(self.slots(), tid),
    {
        let mut i: usize = 0;
        while i < self.tasks.len()
            invariant
                0 <= i <= self.tasks@.len(),
                owner_slot(self.tasks@, tid, 0) == owner_slot(self.tasks@, tid, i as int),
            decreases self.tasks@.len() - i,
        {
            match &self.tasks[i] {
                Some(t) => {
                    if t.has_thread(tid) {
                        return Some(t.task_id);
                    }
                },
                None => {},
            }
            i = i + 1;
        }
        None
    }

    /// The unreaped children of `parent`, in slot order.
    pub fn children_of(&self, parent: TaskId) -> (r: Vec<TaskId>)
        ensures
            r@ == children_model(self.slots(), parent),
    {
        let mut out: Vec<TaskId> = Vec::new();
        let mut i: usize = 0;
        while i < self.tasks.len()
            invariant
                0 <= i <= self.tasks@.len(),
                out@ == children_model(self.tasks@.take(i as int), parent),
            decreases self.tasks@.len() - i,
        {
            assert(self.tasks@.take(i + 1).drop_last() =~= self.tasks@.take(i as int));
            match &self.tasks[i] {
                Some(t) => {
                    if t.parent == Some(parent) && t.state != TaskState::Exited {
                        out.push(t.task_id);
                    }
                },
                None => {},
            }
            i = i + 1;
        }
        assert(self.tasks@.take(i as int) =~= self.tasks@);
        out
    }

    /// Number of live tasks (same definition as `live_count`).
    pub fn count(&self) -> (n: usize)
        ensures
            n == live_total(self.slots()),
    {
        self.live_count()
    }

    /// All tasks present (live and tombstones), in slot order.
    pub fn iter(&self) -> (r: Vec<&Task>)
        ensures
            r@.len() == present_tasks(self.slots()).len(),
            forall|i: int| 0 <= i < r@.len() ==> *(#[trigger] r@[i]) == present_tasks(self.slots())[i],
    {
        let mut out: Vec<&Task> = Vec::new();
        let mut i: usize = 0;
        while i < self.tasks.len()
            invariant
                0 <= i <= self.tasks@.len(),
                out@.len() == present_tasks(self.tasks@.take(i as int)).len(),
                forall|j: int| 0 <= j < out@.len() ==> *(#[trigger] out@[j]) == present_tasks(self.tasks@.take(i as int))[j],
            decreases self.tasks@.len() - i,
        {
            assert(self.tasks@.take(i + 1).drop_last() =~= self.tasks@.take(i as int));
            match &self.tasks[i] {
                Some(t) => {
                    out.push(t);
                },
                None => {},
            }
            i = i + 1;
        }
        assert(self.tasks@.take(i as int) =~= self.tasks@);
        out
    }
}

} // verus!
