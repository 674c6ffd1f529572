//! Task lifecycle on top of the process table: spawning (a thread plus the
//! task that owns it), counting, lookups and reaping of zombies.
use vstd::prelude::*;
use crate::scheduler::process_table::{
    has_pid, is_live, lemma_pid_slot_kept, lemma_pid_slot_range, lemma_reuse_slot_range, live_total,
    lookup_handle_model, lookup_model, pid_slot, present_tasks, remove_rel, reuse_slot,
};
use crate::scheduler::runqueue::{insert_model, remove_model, set_state_model};
use crate::scheduler::task::{ProcessHandle, Task, TaskId, TaskState, MAX_TASKS};
use crate::scheduler::thread::{AddressSpaceId, Priority, ThreadId, ThreadState};
use crate::scheduler::{
    create_kernel_thread, create_user_thread, kernel_thread, user_thread, Scheduler, KERNEL_STACK_SIZE,
};

verus! {

/// Ids of the tasks in state `st`, in slot order.
pub open spec fn ids_in_state(ts: Seq<Task>, st: TaskState) -> Seq<TaskId>
    decreases ts.len(),
{
    if ts.len() == 0 {
        Seq::empty()
    } else {
        let rest = ids_in_state(ts.drop_last(), st);
        if ts.last().state == st {
            rest.push(ts.last().task_id)
        } else {
            rest
        }
    }
}

/// Some slot of `pt` holds the newly created task `id`: owning just
/// `thread_id`, in `address_space`, child of `parent`, Created, with no exit
/// code.
pub open spec fn new_task_in(
    pt: Seq<Option<Task>>,
    id: TaskId,
    thread_id: ThreadId,
    address_space: AddressSpaceId,
    parent: Option<TaskId>,
) -> bool {
    exists|k: int|
        0 <= k < pt.len() && ((#[trigger] pt[k]) matches Some(t) && t.task_id == id && t.threads@ == seq![thread_id]
            && t.address_space == address_space && t.parent == parent && t.state == TaskState::Created
            && t.exit_code is None)
}

/// `t2` is `t` with `child` appended to its children.
pub open spec fn child_appended(t: Task, t2: Task, child: TaskId) -> bool {
    &&& t2.children@ == t.children@.push(child)
    &&& t2.task_id == t.task_id
    &&& t2.state == t.state
    &&& t2.generation == t.generation
    &&& t2.parent == t.parent
    &&& t2.threads@ == t.threads@
    &&& t2.address_space == t.address_space
    &&& t2.exit_code == t.exit_code
}

/// How adding task `id` (child of `parent`) to a table whose next pid was
/// `next` leaves the tasks that were there: every live task other than the
/// parent is found unchanged, and a live parent has gained `id` as its last
/// child.
pub open spec fn adopted_rel(
    pt: Seq<Option<Task>>,
    pt2: Seq<Option<Task>>,
    next: TaskId,
    id: TaskId,
    parent: Option<TaskId>,
) -> bool {
    &&& forall|q: TaskId|
        q < next && Some(q) != parent && is_live(lookup_model(pt, q)) ==> #[trigger] lookup_model(pt2, q)
            == lookup_model(pt, q)
    &&& parent matches Some(p) ==> (p < next && is_live(lookup_model(pt, p)) ==> (lookup_model(pt2, p) matches Some(
        t2,
    ) && child_appended(lookup_model(pt, p)->0, t2, id)))
}

/// Manages the lifecycle of all tasks, over the scheduler's process table.
pub struct TaskManager {}

impl TaskManager {
    pub fn new() -> Self {
        TaskManager {  }
    }

    /// Register `thread_id` and a task owning it (child of `parent`, if
    /// any); on a full table the thread is unregistered again.
    pub(crate) fn adopt(
        &mut self,
        s: &mut Scheduler,
        thread_id: ThreadId,
        address_space: AddressSpaceId,
        parent: Option<TaskId>,
    ) -> (r: Result<ProcessHandle, &'static str>)
        requires
            old(s).pt.spec_next_pid() < u64::MAX,
        ensures
            live_total(old(s).pt.slots()) >= MAX_TASKS <==> r is Err,
            r is Err ==> r == Err::<ProcessHandle, &'static str>("process table full"),
            r is Err ==> final(s).rq.slots() == remove_model(old(s).rq.slots(), thread_id)
                && final(s).pt.slots() == old(s).pt.slots(),
            r is Ok ==> {
                &&& r->Ok_0.id == old(s).pt.spec_next_pid()
                &&& final(s).rq.slots() == old(s).rq.slots()
                &&& lookup_model(final(s).pt.slots(), r->Ok_0.id) is Some
                &&& new_task_in(final(s).pt.slots(), r->Ok_0.id, thread_id, address_space, parent)
                &&& adopted_rel(old(s).pt.slots(), final(s).pt.slots(), old(s).pt.spec_next_pid(), r->Ok_0.id, parent)
            },
            final(s).current == old(s).current,
            final(s).rq.spec_next_id() == old(s).rq.spec_next_id(),
    {
        let mut task = Task::new(0, thread_id, address_space);
        match parent {
            Some(p) => task.set_parent(p),
            None => {},
        }
        let ghost pt0 = s.pt.slots();
        let ghost next = s.pt.spec_next_pid();
        let ghost t0 = task;
        let handle = match s.pt.create(task) {
            Some(h) => h,
            None => {
                let _ = s.rq.remove(thread_id);
                return Err("process table full");
            },
        };
        let ghost at: int = {
            let k = crate::scheduler::process_table::reuse_slot(pt0, 0);
            if k < pt0.len() { k } else { pt0.len() as int }
        };
        proof {
            let pt1 = s.pt.slots();
            crate::scheduler::process_table::lemma_reuse_slot_range(pt0, 0);
            assert(pt1[at] is Some && pt1[at]->0.task_id == handle.id);
            crate::scheduler::process_table::lemma_pid_slot_range(pt1, handle.id, 0);
            assert(pt1[at]->0.threads@ == seq![thread_id]);
            assert(new_task_in(pt1, handle.id, thread_id, address_space, parent));
            lemma_reuse_slot_range(pt0, 0);
            assert forall|q: TaskId| q < next && is_live(lookup_model(pt0, q)) implies pid_slot(pt1, q, 0) == pid_slot(
                pt0,
                q,
                0,
            ) && lookup_model(pt1, q) == lookup_model(pt0, q) by {
                lemma_pid_slot_range(pt0, q, 0);
                let kq = pid_slot(pt0, q, 0);
                assert(pt1[kq] == pt0[kq]);
                assert forall|j: int| 0 <= j < kq implies !has_pid(#[trigger] pt1[j], q) by {
                    if j != at {
                        assert(pt1[j] == pt0[j]);
                    }
                }
                lemma_pid_slot_kept(pt0, pt1, q);
            }
        }
        let ghost pt1 = s.pt.slots();
        match parent {
            Some(p) => {
                let _ = s.pt.add_child(p, handle.id);
                proof {
                    let pt2 = s.pt.slots();
                    lemma_pid_slot_range(pt1, p, 0);
                    let kp1 = pid_slot(pt1, p, 0);
                    assert forall|q: TaskId|
                        q < next && Some(q) != parent && is_live(lookup_model(pt0, q)) implies #[trigger] lookup_model(
                        pt2,
                        q,
                    ) == lookup_model(pt0, q) by {
                        let kq = pid_slot(pt1, q, 0);
                        lemma_pid_slot_range(pt1, q, 0);
                        assert(pt2[kq] == pt1[kq]);
                        assert forall|j: int| 0 <= j < kq implies !has_pid(#[trigger] pt2[j], q) by {
                            if j != kp1 {
                                assert(pt2[j] == pt1[j]);
                            }
                        }
                        lemma_pid_slot_kept(pt1, pt2, q);
                    }
                    if p < next && is_live(lookup_model(pt0, p)) {
                        assert forall|j: int| 0 <= j < kp1 implies !has_pid(#[trigger] pt2[j], p) by {
                            assert(pt2[j] == pt1[j]);
                        }
                        lemma_pid_slot_kept(pt1, pt2, p);
                    }
                    assert(adopted_rel(pt0, pt2, next, handle.id, parent));
                    lemma_pid_slot_range(pt1, handle.id, 0);
                    lemma_pid_slot_range(pt2, handle.id, 0);
                    let f = pid_slot(pt1, handle.id, 0);
                    if f != kp1 {
                        assert(pt2[f] == pt1[f]);
                    }
                    assert(has_pid(pt2[f], handle.id));
                    if at != kp1 {
                        assert(pt2[at] == pt1[at]);
                    }
                    assert(new_task_in(pt2, handle.id, thread_id, address_space, parent));
                }
            },
            None => {},
        }
        Ok(handle)
    }

    /// Spawn a user task: register a user thread on the kernel stack at
    /// `stack_base` (as the frame allocator handed it out, `None` when it
    /// could not) and a task owning it. On a full process table the thread
    /// is unregistered and the caller gives the stack back.
    pub fn spawn_user(
        &mut self,
        s: &mut Scheduler,
        stack_base: Option<u64>,
        address_space: AddressSpaceId,
        priority: Priority,
        parent: Option<TaskId>,
    ) -> (r: Result<ProcessHandle, &'static str>)
        requires
            old(s).rq.spec_next_id() < u64::MAX,
            old(s).pt.spec_next_pid() < u64::MAX,
            stack_base matches Some(b) ==> b + KERNEL_STACK_SIZE <= usize::MAX,
        ensures
            stack_base is None ==> r == Err::<ProcessHandle, &'static str>("kernel stack contiguous alloc failed")
                && final(s).rq.slots() == old(s).rq.slots() && final(s).pt.slots() == old(s).pt.slots(),
            stack_base is Some ==> (r is Err <==> live_total(old(s).pt.slots()) >= MAX_TASKS),
            r is Ok ==> {
                let tid = old(s).rq.spec_next_id();
                &&& r->Ok_0.id == old(s).pt.spec_next_pid()
                &&& final(s).rq.slots() == set_state_model(
                    insert_model(
                        old(s).rq.slots(),
                        user_thread(
                            tid,
                            (stack_base->0 + KERNEL_STACK_SIZE) as usize,
                            address_space,
                            priority,
                        ),
                    ),
                    tid,
                    ThreadState::Ready,
                )
                &&& lookup_model(final(s).pt.slots(), r->Ok_0.id) is Some
                &&& new_task_in(final(s).pt.slots(), r->Ok_0.id, tid, address_space, parent)
                &&& adopted_rel(old(s).pt.slots(), final(s).pt.slots(), old(s).pt.spec_next_pid(), r->Ok_0.id, parent)
            },
    {
        let base = match stack_base {
            Some(b) => b,
            None => {
                return Err("kernel stack contiguous alloc failed");
            },
        };
        let top = base as usize + KERNEL_STACK_SIZE;
        let tid = create_user_thread(s, top, address_space, priority);
        self.adopt(s, tid, address_space, parent)
    }

    /// Spawn a kernel task: register a kernel thread (entry point `entry`,
    /// stack at `stack_base`) and a task owning it.
    pub fn spawn_kernel(
        &mut self,
        s: &mut Scheduler,
        entry: usize,
        stack_base: u64,
        address_space: AddressSpaceId,
        priority: Priority,
        parent: Option<TaskId>,
    ) -> (r: Result<ProcessHandle, &'static str>)
        requires
            old(s).rq.spec_next_id() < u64::MAX,
            old(s).pt.spec_next_pid() < u64::MAX,
        ensures
            r is Err <==> live_total(old(s).pt.slots()) >= MAX_TASKS,
            r is Err ==> r == Err::<ProcessHandle, &'static str>("process table full"),
            r is Ok ==> {
                let tid = old(s).rq.spec_next_id();
                &&& r->Ok_0.id == old(s).pt.spec_next_pid()
                &&& final(s).rq.slots() == set_state_model(
                    insert_model(old(s).rq.slots(), kernel_thread(tid, entry, stack_base, address_space, priority)),
                    tid,
                    ThreadState::Ready,
                )
                &&& lookup_model(final(s).pt.slots(), r->Ok_0.id) is Some
                &&& new_task_in(final(s).pt.slots(), r->Ok_0.id, tid, address_space, parent)
                &&& adopted_rel(old(s).pt.slots(), final(s).pt.slots(), old(s).pt.spec_next_pid(), r->Ok_0.id, parent)
            },
    {
        let tid = create_kernel_thread(s, entry, stack_base, address_space, priority);
        self.adopt(s, tid, address_space, parent)
    }

    /// Number of live tasks.
    pub fn task_count(&self, s: &Scheduler) -> (n: usize)
        ensures
            n == live_total(s.pt.slots()),
    {
        s.pt.count()
    }

    /// Number of tasks in state Running.
    pub fn running_count(&self, s: &Scheduler) -> (n: usize)
        ensures
            n == ids_in_state(present_tasks(s.pt.slots()), TaskState::Running).len(),
    {
        self.in_state(s, TaskState::Running).len()
    }

    /// Ids of the tasks in state `st`, in slot order.
    fn in_state(&self, s: &Scheduler, st: TaskState) -> (r: Vec<TaskId>)
        ensures
            r@ == ids_in_state(present_tasks(s.pt.slots()), st),
    {
        let ts = s.pt.iter();
        let ghost pts = present_tasks(s.pt.slots());
        let mut out: Vec<TaskId> = Vec::new();
        let mut i: usize = 0;
        while i < ts.len()
            invariant
                0 <= i <= ts@.len(),
                ts@.len() == pts.len(),
                forall|j: int| 0 <= j < ts@.len() ==> *(#[trigger] ts@[j]) == pts[j],
                out@ == ids_in_state(pts.take(i as int), st),
            decreases ts@.len() - i,
        {
            assert(pts.take(i + 1).drop_last() =~= pts.take(i as int));
            let t: &Task = ts[i];
            if t.state == st {
                out.push(t.task_id);
            }
            i = i + 1;
        }
        assert(pts.take(i as int) =~= pts);
        out
    }

    /// The task a handle designates, if the handle is still current.
    pub fn get_handle<'a>(&self, s: &'a Scheduler, h: ProcessHandle) -> (r: Option<&'a Task>)
        ensures
            r.is_some() == lookup_handle_model(s.pt.slots(), h).is_some(),
            r.is_some() ==> *r.unwrap() == lookup_handle_model(s.pt.slots(), h)->0,
    {
        s.pt.lookup_handle(h)
    }

    /// The task `task_id` (live or tombstone).
    pub fn get<'a>(&self, s: &'a Scheduler, task_id: TaskId) -> (r: Option<&'a Task>)
        ensures
            r.is_some() == lookup_model(s.pt.slots(), task_id).is_some(),
            r.is_some() ==> *r.unwrap() == lookup_model(s.pt.slots(), task_id)->0,
    {
        s.pt.lookup(task_id)
    }

    /// Ids of the zombie tasks, awaiting reaping.
    pub fn zombies(&self, s: &Scheduler) -> (r: Vec<TaskId>)
        ensures
            r@ == ids_in_state(present_tasks(s.pt.slots()), TaskState::Zombie),
    {
        self.in_state(s, TaskState::Zombie)
    }

    /// Reap the task `task_id`: it is returned (its resources go with it)
    /// and a tombstone keeps its slot.
    pub fn reap_zombie(&mut self, s: &mut Scheduler, task_id: TaskId) -> (r: Option<Task>)
        ensures
            remove_rel(old(s).pt.slots(), task_id, final(s).pt.slots(), r),
            final(s).pt.spec_next_pid() == old(s).pt.spec_next_pid(),
            final(s).rq.slots() == old(s).rq.slots(),
    {
        s.pt.remove(task_id)
    }
}

} // verus!
