//! Process syscalls: fork, exit, waitpid, kill, getpid, getppid, execve.
//! The process id of a caller is the id of its thread.
use vstd::prelude::*;
use crate::scheduler::process_table::{children_model, live_total, lookup_model, owner_model, remove_rel};
use crate::scheduler::runqueue::{get_model, insert_model, remove_model, set_state_model};
use crate::scheduler::task::{Task, TaskId, TaskState, MAX_TASKS};
use crate::scheduler::task_manager::{adopted_rel, new_task_in, TaskManager};
use crate::scheduler::thread::{AddressSpaceId, ThreadId, ThreadState};
use crate::scheduler::{create_user_thread, thread_exit, user_thread, ExitSwitch, Scheduler, KERNEL_STACK_SIZE};
use crate::vmm::registry::{root_slot, AddressSpaces, MAX_ADDRESS_SPACES};
use crate::syscall::{EFAULT, EINVAL, ENOMEM, ENOSYS};

verus! {

/// `waitpid` option: return at once when no child has exited.
pub const WNOHANG: u64 = 1;

/// Exit the running thread with `code`; see `thread_exit`.
pub fn sys_exit(s: &mut Scheduler, code: i32) -> (r: Option<ExitSwitch>)
    requires
        crate::scheduler::runqueue::ids_unique(old(s).rq.slots()),
        get_model(old(s).rq.slots(), old(s).current) is Some,
        get_model(old(s).rq.slots(), old(s).current)->0.state == ThreadState::Terminated ==> old(s).current
            == old(s).boot_thread || old(s).current == old(s).idle_thread,
    ensures
        ({
            let s0 = old(s).rq.slots();
            let cur = old(s).current;
            let (s1, st) = crate::scheduler::reap_all(
                s0,
                crate::scheduler::doomed_ids(
                    crate::scheduler::runqueue::present(s0),
                    old(s).boot_thread,
                    old(s).idle_thread,
                ),
            );
            let s2 = set_state_model(s1, cur, ThreadState::Terminated);
            &&& match crate::scheduler::exiting_task(old(s).pt.slots(), s0, cur) {
                Some(tid) => crate::scheduler::process_table::exit_rel(
                    old(s).pt.slots(),
                    tid,
                    code,
                    final(s).pt.slots(),
                ),
                None => final(s).pt.slots() == old(s).pt.slots(),
            }
            &&& final(s).pt.spec_next_pid() == old(s).pt.spec_next_pid()
            &&& match crate::scheduler::runqueue::next_ready(s2, cur, false) {
                None => r is None && final(s).rq.slots() == s2 && final(s).current == cur,
                Some(n) => {
                    &&& n != cur
                    &&& r matches Some(x) && x.switch == (crate::scheduler::Switch {
                        from: cur,
                        to: n,
                        activate: if crate::scheduler::as_of(s2, n) != crate::scheduler::as_of(s0, cur) {
                            Some(crate::scheduler::as_of(s2, n))
                        } else {
                            None
                        },
                    }) && x.freed_stacks@ == st
                    &&& final(s).rq.slots() == set_state_model(s2, n, ThreadState::Running)
                    &&& final(s).current == n
                },
            }
        }),
        crate::scheduler::one_running(old(s).rq.slots(), old(s).current) && r is Some
            ==> crate::scheduler::one_running(final(s).rq.slots(), final(s).current),
{
    thread_exit(s, code)
}

/// The caller's process id: its thread id.
pub fn sys_getpid(s: &Scheduler) -> (r: u64)
    ensures
        r == s.current,
{
    s.current
}

/// The parent process id of the caller's task; 0 when it has none.
pub open spec fn ppid_model(pt: Seq<Option<Task>>, cur: ThreadId) -> u64 {
    match owner_model(pt, cur) {
        Some(tid) => match lookup_model(pt, tid) {
            Some(t) => match t.parent {
                Some(p) => p,
                None => 0,
            },
            None => 0,
        },
        None => 0,
    }
}

pub fn sys_getppid(s: &Scheduler) -> (r: u64)
    ensures
        r == ppid_model(s.pt.slots(), s.current),
{
    match s.pt.owner_of_thread(s.current) {
        Some(tid) => match s.pt.lookup(tid) {
            Some(t) => match t.parent {
                Some(p) => p,
                None => 0,
            },
            None => 0,
        },
        None => 0,
    }
}

/// Signal delivery is not implemented: no such process.
pub fn sys_kill(pid: u64, sig: u64) -> (r: u64)
    ensures
        r == EINVAL,
{
    EINVAL
}

/// Replacing the process image is not implemented.
pub fn sys_execve() -> (r: u64)
    ensures
        r == ENOSYS,
{
    ENOSYS
}

/// What `waitpid` decided.
#[derive(Debug, Clone, Copy, PartialEq, Eq, Structural)]
pub enum WaitOutcome {
    /// Return this value (an errno, or 0 for a live child with `WNOHANG`).
    Return(u64),
    /// The child is a zombie: write `status` to the user's status word (if
    /// one was given), then reap it with `reap_child`.
    Reap { child: TaskId, status: u32 },
    /// Block until the child exits, then ask again.
    Block(TaskId),
}

/// Task `id` is a zombie child (exited, not yet reaped).
pub open spec fn is_zombie(pt: Seq<Option<Task>>, id: TaskId) -> bool {
    lookup_model(pt, id) matches Some(t) && t.state == TaskState::Zombie
}

/// Index of the first zombie among `cs[i..]`; `cs.len()` when none.
pub open spec fn first_zombie(pt: Seq<Option<Task>>, cs: Seq<TaskId>, i: int) -> int
    decreases cs.len() - i,
{
    if 0 <= i < cs.len() {
        if is_zombie(pt, cs[i]) {
            i
        } else {
            first_zombie(pt, cs, i + 1)
        }
    } else {
        cs.len() as int
    }
}

/// The child `waitpid(pid)` waits for: for `pid == 0` any child, the first
/// zombie one if there is one, else the first child; else `pid` if it is a
/// child.
pub open spec fn wait_target(pt: Seq<Option<Task>>, children: Seq<TaskId>, pid: u64) -> Option<TaskId> {
    if pid == 0 {
        if children.len() == 0 {
            None
        } else if first_zombie(pt, children, 0) < children.len() {
            Some(children[first_zombie(pt, children, 0)])
        } else {
            Some(children[0])
        }
    } else if children.contains(pid) {
        Some(pid)
    } else {
        None
    }
}

/// The status word of an exit code: the code in bits 8 and up.
pub open spec fn wait_status(code: i32) -> u32 {
    ((code as u32) as int * 256 % 0x1_0000_0000) as u32
}

/// `waitpid(pid, options)` for the caller: `EINVAL` without a task or a
/// matching unreaped child; a zombie child is reaped with its exit code
/// (-1 when none was recorded); a live child gives 0 with `WNOHANG`, else
/// the caller blocks.
pub open spec fn waitpid_model(pt: Seq<Option<Task>>, cur: ThreadId, pid: u64, options: u64) -> WaitOutcome {
    match owner_model(pt, cur) {
        None => WaitOutcome::Return(EINVAL),
        Some(me) => match wait_target(pt, children_model(pt, me), pid) {
            None => WaitOutcome::Return(EINVAL),
            Some(child) => match lookup_model(pt, child) {
                Some(t) if t.state == TaskState::Zombie => WaitOutcome::Reap {
                    child,
                    status: wait_status(
                        match t.exit_code {
                            Some(c) => c,
                            None => -1i32,
                        },
                    ),
                },
                _ => if options & WNOHANG != 0 {
                    WaitOutcome::Return(0)
                } else {
                    WaitOutcome::Block(child)
                },
            },
        },
    }
}

proof fn lemma_first_zombie_range(pt: Seq<Option<Task>>, cs: Seq<TaskId>, i: int)
    requires
        0 <= i,
    ensures
        first_zombie(pt, cs, i) >= i || first_zombie(pt, cs, i) == cs.len(),
        first_zombie(pt, cs, i) <= cs.len() || i > cs.len(),
        first_zombie(pt, cs, i) >= 0,
        first_zombie(pt, cs, i) < cs.len() ==> is_zombie(pt, cs[first_zombie(pt, cs, i)]),
    decreases cs.len() - i,
{
    if 0 <= i < cs.len() && !is_zombie(pt, cs[i]) {
        lemma_first_zombie_range(pt, cs, i + 1);
    }
}

/// What `waitpid` may concern: only a child of the caller, and for
/// `pid != 0` only the child `pid` itself. `EINVAL` when the caller has no
/// task or no matching child; when a matching child is a zombie one is
/// reaped, and its status word carries its exit code (-1 when none was
/// recorded); otherwise 0 with `WNOHANG`, else the caller blocks on a child
/// that is not a zombie (the named one, or its first child).
pub proof fn law_waitpid_concerns_the_named_child(pt: Seq<Option<Task>>, cur: ThreadId, pid: u64, options: u64)
    ensures
        waitpid_model(pt, cur, pid, options) matches WaitOutcome::Reap { child, status } ==> ({
            &&& pid != 0 ==> child == pid
            &&& owner_model(pt, cur) is Some
            &&& children_model(pt, owner_model(pt, cur)->0).contains(child)
            &&& lookup_model(pt, child) matches Some(t) && t.state == TaskState::Zombie && status == wait_status(
                match t.exit_code {
                    Some(c) => c,
                    None => -1i32,
                },
            )
        }),
        waitpid_model(pt, cur, pid, options) matches WaitOutcome::Block(child) ==> ({
            &&& pid != 0 ==> child == pid
            &&& owner_model(pt, cur) is Some
            &&& children_model(pt, owner_model(pt, cur)->0).contains(child)
            &&& !is_zombie(pt, child)
            &&& options & WNOHANG == 0
        }),
        waitpid_model(pt, cur, pid, options) matches WaitOutcome::Return(v) ==> ({
            ||| v == EINVAL && (owner_model(pt, cur) is None || (pid != 0 && !children_model(
                pt,
                owner_model(pt, cur)->0,
            ).contains(pid)) || (pid == 0 && children_model(pt, owner_model(pt, cur)->0).len() == 0))
            ||| v == 0 && options & WNOHANG != 0
        }),
        owner_model(pt, cur) is None ==> waitpid_model(pt, cur, pid, options) == WaitOutcome::Return(EINVAL),
        owner_model(pt, cur) matches Some(me) ==> ({
            let cs = children_model(pt, me);
            &&& pid != 0 && !cs.contains(pid) ==> waitpid_model(pt, cur, pid, options) == WaitOutcome::Return(EINVAL)
            &&& pid == 0 && cs.len() == 0 ==> waitpid_model(pt, cur, pid, options) == WaitOutcome::Return(EINVAL)
            &&& pid != 0 && cs.contains(pid) && is_zombie(pt, pid) ==> waitpid_model(pt, cur, pid, options) is Reap
            &&& pid == 0 && (exists|k: int| 0 <= k < cs.len() && is_zombie(pt, #[trigger] cs[k]))
                ==> waitpid_model(pt, cur, pid, options) is Reap
            &&& (pid != 0 ==> cs.contains(pid) && !is_zombie(pt, pid)) && (pid == 0 ==> cs.len() > 0 && forall|k: int|
                0 <= k < cs.len() ==> !is_zombie(pt, #[trigger] cs[k])) ==> waitpid_model(pt, cur, pid, options)
                == (if options & WNOHANG != 0 {
                WaitOutcome::Return(0)
            } else {
                WaitOutcome::Block(if pid != 0 {
                    pid
                } else {
                    cs[0]
                })
            })
        }),
{
    if let Some(me) = owner_model(pt, cur) {
        let cs = children_model(pt, me);
        if pid == 0 && cs.len() > 0 {
            lemma_first_zombie_range(pt, cs, 0);
            let fz = first_zombie(pt, cs, 0);
            if fz < cs.len() {
                assert(cs[fz] == cs[fz]);
                assert(cs.contains(cs[fz]));
            } else {
                assert(cs.contains(cs[0]));
                lemma_first_zombie_none(pt, cs, 0);
            }
        }
    }
}

proof fn lemma_first_zombie_none(pt: Seq<Option<Task>>, cs: Seq<TaskId>, i: int)
    requires
        0 <= i,
        first_zombie(pt, cs, i) >= cs.len(),
    ensures
        forall|k: int| i <= k < cs.len() ==> !is_zombie(pt, #[trigger] cs[k]),
    decreases cs.len() - i,
{
    if i < cs.len() {
        lemma_first_zombie_none(pt, cs, i + 1);
    }
}

pub fn sys_waitpid(s: &Scheduler, pid: u64, options: u64) -> (r: WaitOutcome)
    ensures
        r == waitpid_model(s.pt.slots(), s.current, pid, options),
        pid != 0 ==> (r matches WaitOutcome::Reap { child, .. } ==> child == pid),
        pid != 0 ==> (r matches WaitOutcome::Block(child) ==> child == pid),
{
    proof {
        law_waitpid_concerns_the_named_child(s.pt.slots(), s.current, pid, options);
    }
    let me = match s.pt.owner_of_thread(s.current) {
        Some(t) => t,
        None => {
            return WaitOutcome::Return(EINVAL);
        },
    };
    let children = s.pt.children_of(me);
    let child = if pid == 0 {
        if children.len() == 0 {
            None
        } else {
            let mut i: usize = 0;
            while i < children.len()
                invariant
                    0 <= i <= children@.len(),
                    first_zombie(s.pt.slots(), children@, 0) == first_zombie(s.pt.slots(), children@, i as int),
                ensures
                    i <= children@.len(),
                    first_zombie(s.pt.slots(), children@, 0) == i,
                decreases children@.len() - i,
            {
                let z = match s.pt.lookup(children[i]) {
                    Some(t) => t.state == TaskState::Zombie,
                    None => false,
                };
                if z {
                    break;
                }
                i = i + 1;
            }
            if i < children.len() {
                Some(children[i])
            } else {
                Some(children[0])
            }
        }
    } else {
        let mut found = false;
        let mut i: usize = 0;
        while i < children.len()
            invariant
                0 <= i <= children@.len(),
                !found ==> forall|k: int| 0 <= k < i ==> children@[k] != pid,
                found ==> children@.contains(pid),
            decreases children@.len() - i,
        {
            if children[i] == pid {
                found = true;
                assert(children@[i as int] == pid);
            }
            i = i + 1;
        }
        if found {
            Some(pid)
        } else {
            None
        }
    };
    let child = match child {
        Some(c) => c,
        None => {
            return WaitOutcome::Return(EINVAL);
        },
    };
    match s.pt.lookup(child) {
        Some(t) => {
            if t.state == TaskState::Zombie {
                let code: i32 = match t.exit_code {
                    Some(c) => c,
                    None => -1,
                };
                let status: u32 = (code as u32).wrapping_mul(256);
                return WaitOutcome::Reap { child, status };
            }
        },
        None => {},
    }
    if options & WNOHANG != 0 {
        WaitOutcome::Return(0)
    } else {
        WaitOutcome::Block(child)
    }
}

/// Reap the zombie child `child` after its status was delivered; returns
/// its id (the `waitpid` result).
pub fn reap_child(s: &mut Scheduler, child: TaskId) -> (r: (u64, Option<Task>))
    ensures
        r.0 == child,
        remove_rel(old(s).pt.slots(), child, final(s).pt.slots(), r.1),
        final(s).rq.slots() == old(s).rq.slots(),
        final(s).current == old(s).current,
{
    let t = s.pt.remove(child);
    (child, t)
}

/// The parent a forked task records: the caller's task, unless it has
/// none or it is task 0.
pub open spec fn fork_parent(pt: Seq<Option<Task>>, cur: ThreadId) -> Option<TaskId> {
    match owner_model(pt, cur) {
        Some(p) => if p != 0 {
            Some(p)
        } else {
            None
        },
        None => None,
    }
}

/// What `fork` answers before anything is allocated: `EFAULT` when no
/// thread is running or no address space has the root `as_root`; `None`
/// when the allocations may go ahead.
pub fn fork_precheck(s: &Scheduler, spaces: &AddressSpaces, as_root: u64) -> (r: Option<u64>)
    requires
        spaces.wf(),
    ensures
        r == (if get_model(s.rq.slots(), s.current) is None || root_slot(spaces.slots(), as_root, 0)
            >= MAX_ADDRESS_SPACES {
            Some(EFAULT)
        } else {
            None::<u64>
        }),
{
    if s.rq.get(s.current).is_none() {
        return Some(EFAULT);
    }
    match spaces.find_by_root(as_root) {
        Some(_) => None,
        None => Some(EFAULT),
    }
}

/// What `fork` hands back: the parent's result, and the frames to give
/// back when it failed part way.
pub struct ForkResult {
    pub value: u64,
    pub free_frames: Vec<u64>,
}

/// The frames of a kernel stack at `base`.
pub open spec fn stack_frames(base: u64) -> Seq<u64> {
    seq![base, (base + 4096) as u64, (base + 8192) as u64, (base + 12288) as u64]
}

/// Fork the calling thread. The caller performed the allocations in order
/// and passes what each gave: the child's kernel stack, its root table
/// frame, and the id of the registered copy-on-write duplicate of the
/// parent's address space (after copying the register context). The first
/// failure decides: `ENOMEM`, with the frames already allocated to give
/// back. On success the child thread is registered (Ready, the parent's
/// priority, user level) with a task that is a child of the parent's task;
/// the parent gets the child's process id (the new task's id, the one
/// `waitpid` matches).
pub fn sys_fork(
    s: &mut Scheduler,
    stack: Option<u64>,
    root: Option<u64>,
    child_as: Option<AddressSpaceId>,
) -> (r: ForkResult)
    requires
        old(s).rq.spec_next_id() < u64::MAX,
        old(s).pt.spec_next_pid() < u64::MAX,
        stack matches Some(b) ==> b + KERNEL_STACK_SIZE <= u64::MAX && b + KERNEL_STACK_SIZE <= usize::MAX,
    ensures
        get_model(old(s).rq.slots(), old(s).current) is None ==> r.value == EFAULT && r.free_frames@.len() == 0
            && final(s).rq.slots() == old(s).rq.slots(),
        get_model(old(s).rq.slots(), old(s).current) is Some ==> match (stack, root, child_as) {
            (None, _, _) => r.value == ENOMEM && r.free_frames@.len() == 0 && final(s).rq.slots() == old(s).rq.slots(),
            (Some(b), None, _) => r.value == ENOMEM && r.free_frames@ == stack_frames(b) && final(s).rq.slots()
                == old(s).rq.slots(),
            (Some(b), Some(rt), None) => r.value == ENOMEM && r.free_frames@ == stack_frames(b).push(rt)
                && final(s).rq.slots() == old(s).rq.slots(),
            (Some(b), Some(rt), Some(a)) => {
                let tid = old(s).rq.spec_next_id();
                let p = get_model(old(s).rq.slots(), old(s).current)->0;
                let rq1 = set_state_model(
                    insert_model(
                        old(s).rq.slots(),
                        user_thread(tid, (b + KERNEL_STACK_SIZE) as usize, a, p.priority),
                    ),
                    tid,
                    ThreadState::Ready,
                );
                if live_total(old(s).pt.slots()) >= MAX_TASKS {
                    &&& r.value == ENOMEM
                    &&& r.free_frames@ == stack_frames(b).push(rt)
                    &&& final(s).rq.slots() == remove_model(rq1, tid)
                } else {
                    &&& r.value == old(s).pt.spec_next_pid()
                    &&& r.free_frames@.len() == 0
                    &&& final(s).rq.slots() == rq1
                    &&& lookup_model(final(s).pt.slots(), old(s).pt.spec_next_pid()) is Some
                    &&& new_task_in(
                        final(s).pt.slots(),
                        old(s).pt.spec_next_pid(),
                        tid,
                        a,
                        fork_parent(old(s).pt.slots(), old(s).current),
                    )
                    &&& adopted_rel(
                        old(s).pt.slots(),
                        final(s).pt.slots(),
                        old(s).pt.spec_next_pid(),
                        old(s).pt.spec_next_pid(),
                        fork_parent(old(s).pt.slots(), old(s).current),
                    )
                }
            },
        },
{
    let parent = match s.rq.get(s.current) {
        Some(t) => *t,
        None => {
            return ForkResult { value: EFAULT, free_frames: Vec::new() };
        },
    };
    let parent_task = s.pt.owner_of_thread(s.current);
    let b = match stack {
        Some(b) => b,
        None => {
            return ForkResult { value: ENOMEM, free_frames: Vec::new() };
        },
    };
    let mut frames: Vec<u64> = Vec::new();
    frames.push(b);
    frames.push(b + 4096);
    frames.push(b + 8192);
    frames.push(b + 12288);
    let rt = match root {
        Some(rt) => rt,
        None => {
            return ForkResult { value: ENOMEM, free_frames: frames };
        },
    };
    let a = match child_as {
        Some(a) => a,
        None => {
            frames.push(rt);
            return ForkResult { value: ENOMEM, free_frames: frames };
        },
    };
    let tid = create_user_thread(s, b as usize + KERNEL_STACK_SIZE, a, parent.priority);
    let parent_id = match parent_task {
        Some(p) => if p != 0 {
            Some(p)
        } else {
            None
        },
        None => None,
    };
    let mut tm = TaskManager::new();
    match tm.adopt(s, tid, a, parent_id) {
        Ok(h) => ForkResult { value: h.id, free_frames: Vec::new() },
        Err(_) => {
            frames.push(rt);
            ForkResult { value: ENOMEM, free_frames: frames }
        },
    }
}

} // verus!
