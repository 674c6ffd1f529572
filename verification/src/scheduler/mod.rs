//! Scheduler: threads, the run queue, tasks and the process table, and the
//! scheduling decisions taken on ticks, yields and thread exits.
//!
//! The scheduler state is one value, `Scheduler`; the functions below take
//! it explicitly. What they decide (which thread runs next, which address
//! space to activate, which kernel stacks to give back) is returned to the
//! caller, which performs the context switch and the frame releases.
pub mod process_table;
pub mod runqueue;
pub mod task;
pub mod task_manager;
pub mod thread;

use vstd::prelude::*;
use crate::scheduler::process_table::{exit_rel, lookup_model, owner_model, ProcessTable};
use crate::scheduler::runqueue::{
    count_state, free_slot, get_model, holds, ids_unique, insert_model, lemma_count_update,
    lemma_free_slot_range, lemma_next_ready_is_ready, lemma_set_state_lookup, lemma_slot_of_range,
    lemma_slot_of_unique, lemma_slot_of_update, next_ready, present, remove_model, set_state_model,
    sleep_model, slot_of, RunQueue,
};
use crate::scheduler::task::{Task, TaskId, TaskState};
use crate::scheduler::thread::{AddressSpaceId, ExecutionLevel, Priority, Thread, ThreadId, ThreadState};

verus! {

/// Size of a kernel thread's contiguous stack.
pub const KERNEL_STACK_SIZE: usize = 16384;

/// All scheduling state: the run queue, the process table and the id of the
/// running thread.
pub struct Scheduler {
    pub rq: RunQueue,
    pub pt: ProcessTable,
    /// The running thread's id (an id, never a slot index: ids are not
    /// reused, slots are).
    pub current: ThreadId,
    /// The boot and idle threads run on static stacks and are never reaped.
    pub boot_thread: ThreadId,
    pub idle_thread: ThreadId,
    /// Set by the timer tick, consumed by `maybe_reschedule`.
    pub need_reschedule: bool,
}

/// A context switch for the caller to perform: activate `activate` if the
/// address space changes, save `from`, resume `to`.
#[derive(Debug, Clone, Copy, PartialEq, Eq, Structural)]
pub struct Switch {
    pub from: ThreadId,
    pub to: ThreadId,
    pub activate: Option<AddressSpaceId>,
}

/// Address space of the thread `id`, or the kernel's (0) when absent.
pub open spec fn as_of(s: Seq<Option<Thread>>, id: ThreadId) -> AddressSpaceId {
    match get_model(s, id) {
        Some(t) => t.address_space,
        None => 0,
    }
}

/// Exactly one thread is Running, and it is `cur`.
pub open spec fn one_running(s: Seq<Option<Thread>>, cur: ThreadId) -> bool {
    &&& count_state(s, ThreadState::Running) == 1
    &&& get_model(s, cur) is Some
    &&& get_model(s, cur)->0.state == ThreadState::Running
}

/// The thread a yield switches to: the next Ready non-idle thread, unless
/// there is none or it is the current one.
pub open spec fn yield_target(s: Seq<Option<Thread>>, cur: ThreadId) -> Option<ThreadId> {
    match next_ready(s, cur, true) {
        Some(n) => if n != cur {
            Some(n)
        } else {
            None
        },
        None => None,
    }
}

/// The run queue after switching from `cur` (back to Ready) to `next`
/// (Running).
pub open spec fn switch_slots(s: Seq<Option<Thread>>, cur: ThreadId, next: ThreadId) -> Seq<Option<Thread>> {
    set_state_model(set_state_model(s, cur, ThreadState::Ready), next, ThreadState::Running)
}

/// The switch record for going from `cur` to `next`.
pub open spec fn switch_of(s: Seq<Option<Thread>>, cur: ThreadId, next: ThreadId) -> Switch {
    Switch {
        from: cur,
        to: next,
        activate: if as_of(s, next) != as_of(s, cur) {
            Some(as_of(s, next))
        } else {
            None
        },
    }
}

/// Switching from the running thread to the thread a yield picks keeps the
/// scheduler's running invariant: exactly one thread is Running, and it is
/// the one switched to.
pub proof fn law_yield_keeps_one_running(s: Seq<Option<Thread>>, cur: ThreadId)
    requires
        ids_unique(s),
        one_running(s, cur),
    ensures
        yield_target(s, cur) matches Some(n) ==> one_running(switch_slots(s, cur, n), n) && ids_unique(
            switch_slots(s, cur, n),
        ),
{
    if let Some(n) = yield_target(s, cur) {
        lemma_next_ready_is_ready(s, cur, true);
        lemma_switch_keeps_one_running(s, cur, n);
    }
}

/// Moving the Running mark from `cur` to a Ready thread `n`.
proof fn lemma_switch_keeps_one_running(s: Seq<Option<Thread>>, cur: ThreadId, n: ThreadId)
    requires
        ids_unique(s),
        one_running(s, cur),
        n != cur,
        exists|j: int|
            0 <= j < s.len() && (#[trigger] s[j]) is Some && s[j]->0.state == ThreadState::Ready
                && s[j]->0.id == n,
    ensures
        one_running(switch_slots(s, cur, n), n),
        ids_unique(switch_slots(s, cur, n)),
{
    let j = choose|j: int|
        0 <= j < s.len() && (#[trigger] s[j]) is Some && s[j]->0.state == ThreadState::Ready
            && s[j]->0.id == n;
    lemma_slot_of_unique(s, j);
    lemma_slot_of_range(s, cur, 0);
    let kc = slot_of(s, cur, 0);
    let s1 = set_state_model(s, cur, ThreadState::Ready);
    assert(s1 == s.update(kc, Some(Thread { state: ThreadState::Ready, ..s[kc]->0 })));
    lemma_count_update(s, kc, Some(Thread { state: ThreadState::Ready, ..s[kc]->0 }), ThreadState::Running);
    lemma_set_state_lookup(s, cur, ThreadState::Ready, n);
    assert(s1[j] == s[j]);
    let s2 = set_state_model(s1, n, ThreadState::Running);
    assert(s2 == s1.update(j, Some(Thread { state: ThreadState::Running, ..s1[j]->0 })));
    lemma_count_update(s1, j, Some(Thread { state: ThreadState::Running, ..s1[j]->0 }), ThreadState::Running);
    lemma_set_state_lookup(s1, n, ThreadState::Running, n);
    assert forall|a: int, b: int|
        0 <= a < s2.len() && 0 <= b < s2.len() && a != b && (#[trigger] s2[a]) is Some
            && (#[trigger] s2[b]) is Some implies s2[a]->0.id != s2[b]->0.id by {
        assert(s2[a]->0.id == s[a]->0.id && s2[b]->0.id == s[b]->0.id);
    }
}

impl Scheduler {
    /// An empty scheduler; `init_boot` registers the boot and idle threads.
    pub fn new() -> (r: Self)
        ensures
            r.rq.slots().len() == 0,
            r.rq.spec_next_id() == 0,
            r.pt.slots().len() == 0,
            r.pt.spec_next_pid() == 1,
            r.current == 0,
            !r.need_reschedule,
    {
        Scheduler {
            rq: RunQueue::new(),
            pt: ProcessTable::new(),
            current: 0,
            boot_thread: 0,
            idle_thread: 0,
            need_reschedule: false,
        }
    }
}

/// The running thread's id.
pub fn current_thread_id(s: &Scheduler) -> (r: ThreadId)
    ensures
        r == s.current,
{
    s.current
}

/// How many threads are Running (the invariant wants exactly one).
pub fn running_thread_count(s: &Scheduler) -> (r: usize)
    ensures
        r == count_state(s.rq.slots(), ThreadState::Running),
{
    s.rq.count_in_state(ThreadState::Running)
}

/// Set the state of the thread `id`, which must be registered.
pub fn thread_set_state(s: &mut Scheduler, id: ThreadId, new_state: ThreadState)
    requires
        get_model(old(s).rq.slots(), id) is Some,
    ensures
        final(s).rq.slots() == set_state_model(old(s).rq.slots(), id, new_state),
        final(s).rq.spec_next_id() == old(s).rq.spec_next_id(),
        final(s).pt == old(s).pt,
        final(s).current == old(s).current,
        final(s).boot_thread == old(s).boot_thread,
        final(s).idle_thread == old(s).idle_thread,
        final(s).need_reschedule == old(s).need_reschedule,
{
    let _ = s.rq.set_state(id, new_state);
}

/// Address space of the running thread (the kernel's when it is unknown).
pub fn current_thread_address_space(s: &Scheduler) -> (r: AddressSpaceId)
    ensures
        r == as_of(s.rq.slots(), s.current),
{
    match s.rq.get(s.current) {
        Some(t) => t.address_space,
        None => 0,
    }
}

/// Switch to the next Ready thread (idle threads excluded), if there is one
/// other than the running thread: the running thread goes back to Ready,
/// the next one becomes Running and current.
pub fn yield_now(s: &mut Scheduler) -> (r: Option<Switch>)
    requires
        yield_target(old(s).rq.slots(), old(s).current) is Some ==> get_model(
            old(s).rq.slots(),
            old(s).current,
        ) is Some,
    ensures
        final(s).pt == old(s).pt,
        final(s).rq.spec_next_id() == old(s).rq.spec_next_id(),
        final(s).boot_thread == old(s).boot_thread,
        final(s).idle_thread == old(s).idle_thread,
        final(s).need_reschedule == old(s).need_reschedule,
        match yield_target(old(s).rq.slots(), old(s).current) {
            None => {
                &&& r is None
                &&& final(s).rq.slots() == old(s).rq.slots()
                &&& final(s).current == old(s).current
            },
            Some(n) => {
                &&& r == Some(switch_of(old(s).rq.slots(), old(s).current, n))
                &&& final(s).rq.slots() == switch_slots(old(s).rq.slots(), old(s).current, n)
                &&& final(s).current == n
            },
        },
{
    let cur = s.current;
    let cur_as = current_thread_address_space(s);
    let next = match s.rq.find_next_ready(cur, true) {
        Some(id) => id,
        None => {
            return None;
        },
    };
    if next == cur {
        return None;
    }
    proof {
        lemma_next_ready_is_ready(s.rq.slots(), cur, true);
        let j = choose|j: int|
            0 <= j < s.rq.slots().len() && (#[trigger] s.rq.slots()[j]) is Some
                && s.rq.slots()[j]->0.state == ThreadState::Ready && s.rq.slots()[j]->0.id == next;
        lemma_slot_of_range(s.rq.slots(), next, 0);
        assert(slot_of(s.rq.slots(), next, 0) <= j);
        lemma_set_state_lookup(s.rq.slots(), cur, ThreadState::Ready, next);
    }
    let ghost s0 = s.rq.slots();
    thread_set_state(s, cur, ThreadState::Ready);
    thread_set_state(s, next, ThreadState::Running);
    proof {
        lemma_set_state_lookup(set_state_model(s0, cur, ThreadState::Ready), next, ThreadState::Running, next);
    }
    s.current = next;
    let next_as = current_thread_address_space(s);
    let activate = if next_as != cur_as {
        Some(next_as)
    } else {
        None
    };
    Some(Switch { from: cur, to: next, activate })
}

/// `wake(id)`: a Sleeping thread becomes Ready with no wake-up tick; any
/// other thread is left alone.
pub open spec fn wake_model(s: Seq<Option<Thread>>, id: ThreadId) -> Seq<Option<Thread>> {
    match get_model(s, id) {
        Some(t) => if t.state == ThreadState::Sleeping {
            sleep_model(s, id, ThreadState::Ready, None)
        } else {
            s
        },
        None => s,
    }
}

/// Ids of the Sleeping threads whose wake-up tick has come at `now`.
pub open spec fn due_ids(ts: Seq<Thread>, now: u64) -> Seq<ThreadId>
    decreases ts.len(),
{
    if ts.len() == 0 {
        Seq::empty()
    } else {
        let rest = due_ids(ts.drop_last(), now);
        let t = ts.last();
        if t.state == ThreadState::Sleeping && (t.sleep_until matches Some(u) && now >= u) {
            rest.push(t.id)
        } else {
            rest
        }
    }
}

/// Wake the threads `ids`, in order.
pub open spec fn wake_all(s: Seq<Option<Thread>>, ids: Seq<ThreadId>) -> Seq<Option<Thread>>
    decreases ids.len(),
{
    if ids.len() == 0 {
        s
    } else {
        wake_model(wake_all(s, ids.drop_last()), ids.last())
    }
}

/// Ids of the Terminated threads to reap: all but the boot and idle threads.
pub open spec fn doomed_ids(ts: Seq<Thread>, boot: ThreadId, idle: ThreadId) -> Seq<ThreadId>
    decreases ts.len(),
{
    if ts.len() == 0 {
        Seq::empty()
    } else {
        let rest = doomed_ids(ts.drop_last(), boot, idle);
        let t = ts.last();
        if t.state == ThreadState::Terminated && t.id != boot && t.id != idle {
            rest.push(t.id)
        } else {
            rest
        }
    }
}

/// Remove the threads `ids` in order; also the kernel stacks of the removed
/// threads that own one, in removal order.
pub open spec fn reap_all(s: Seq<Option<Thread>>, ids: Seq<ThreadId>) -> (Seq<Option<Thread>>, Seq<u64>)
    decreases ids.len(),
{
    if ids.len() == 0 {
        (s, Seq::empty())
    } else {
        let (s1, st) = reap_all(s, ids.drop_last());
        let id = ids.last();
        (
            remove_model(s1, id),
            match get_model(s1, id) {
                Some(t) => match t.kernel_stack_pa {
                    Some(pa) => st.push(pa),
                    None => st,
                },
                None => st,
            },
        )
    }
}

/// Number of the threads of a task, other than `cur`, still registered.
pub open spec fn remaining_threads(ths: Seq<ThreadId>, cur: ThreadId, rq: Seq<Option<Thread>>) -> nat
    decreases ths.len(),
{
    if ths.len() == 0 {
        0
    } else {
        remaining_threads(ths.drop_last(), cur, rq) + (if ths.last() != cur && get_model(rq, ths.last()) is Some {
            1nat
        } else {
            0nat
        })
    }
}

/// The task whose exit code a thread exit records: the owner of `cur`, when
/// `cur` is its last registered thread and it has not been reaped.
pub open spec fn exiting_task(pt: Seq<Option<Task>>, rq: Seq<Option<Thread>>, cur: ThreadId) -> Option<TaskId> {
    match owner_model(pt, cur) {
        Some(tid) => match lookup_model(pt, tid) {
            Some(t) => if remaining_threads(t.threads@, cur, rq) == 0 && t.state != TaskState::Exited {
                Some(tid)
            } else {
                None
            },
            None => None,
        },
        None => None,
    }
}

/// What `thread_exit` hands back: the switch to perform and the kernel
/// stacks (physical bases) of the reaped threads, to give back to the frame
/// allocator.
pub struct ExitSwitch {
    pub switch: Switch,
    pub freed_stacks: Vec<u64>,
}

/// The slot update a thread registration makes, seen through lookups: the
/// registered id is found afterwards.
proof fn lemma_insert_found(s: Seq<Option<Thread>>, t: Thread)
    ensures
        get_model(insert_model(s, t), t.id) is Some,
{
    lemma_free_slot_range(s, 0);
    let u = insert_model(s, t);
    let k = free_slot(s, 0);
    let at = if k < s.len() { k } else { s.len() as int };
    assert(holds(u[at], t.id));
    lemma_slot_of_range(u, t.id, 0);
}

/// Put thread `id` back to Ready if it is Sleeping.
pub fn wake(s: &mut Scheduler, id: ThreadId)
    ensures
        final(s).rq.slots() == wake_model(old(s).rq.slots(), id),
        final(s).rq.spec_next_id() == old(s).rq.spec_next_id(),
        final(s).pt == old(s).pt,
        final(s).current == old(s).current,
        final(s).boot_thread == old(s).boot_thread,
        final(s).idle_thread == old(s).idle_thread,
        final(s).need_reschedule == old(s).need_reschedule,
{
    let sleeping = match s.rq.get(id) {
        Some(t) => t.state == ThreadState::Sleeping,
        None => false,
    };
    if sleeping {
        let _ = s.rq.set_sleep(id, ThreadState::Ready, None);
    }
}

/// Put the running thread to sleep until tick `now + ticks`, then yield.
pub fn sleep(s: &mut Scheduler, now: u64, ticks: u64) -> (r: Option<Switch>)
    requires
        now + ticks <= u64::MAX,
        get_model(old(s).rq.slots(), old(s).current) is Some,
    ensures
        ({
            let s1 = sleep_model(
                old(s).rq.slots(),
                old(s).current,
                ThreadState::Sleeping,
                Some((now + ticks) as u64),
            );
            match yield_target(s1, old(s).current) {
                None => r is None && final(s).rq.slots() == s1 && final(s).current == old(s).current,
                Some(n) => {
                    &&& r == Some(switch_of(s1, old(s).current, n))
                    &&& final(s).rq.slots() == switch_slots(s1, old(s).current, n)
                    &&& final(s).current == n
                },
            }
        }),
        final(s).pt == old(s).pt,
{
    let cur = s.current;
    let _ = s.rq.set_sleep(cur, ThreadState::Sleeping, Some(now + ticks));
    proof {
        lemma_slot_of_range(old(s).rq.slots(), cur, 0);
        lemma_slot_of_update(
            old(s).rq.slots(),
            slot_of(old(s).rq.slots(), cur, 0),
            Some(
                Thread {
                    state: ThreadState::Sleeping,
                    sleep_until: Some((now + ticks) as u64),
                    ..get_model(old(s).rq.slots(), cur)->0
                },
            ),
            cur,
        );
    }
    yield_now(s)
}

/// Wake every Sleeping thread whose wake-up tick has come at `now`.
pub fn check_sleeping_threads(s: &mut Scheduler, now: u64)
    ensures
        final(s).rq.slots() == wake_all(old(s).rq.slots(), due_ids(present(old(s).rq.slots()), now)),
        final(s).rq.spec_next_id() == old(s).rq.spec_next_id(),
        final(s).pt == old(s).pt,
        final(s).current == old(s).current,
        final(s).boot_thread == old(s).boot_thread,
        final(s).idle_thread == old(s).idle_thread,
        final(s).need_reschedule == old(s).need_reschedule,
{
    let ts = s.rq.iter();
    let mut to_wake: Vec<ThreadId> = Vec::new();
    let mut i: usize = 0;
    while i < ts.len()
        invariant
            0 <= i <= ts@.len(),
            to_wake@ == due_ids(ts@.take(i as int), now),
        decreases ts@.len() - i,
    {
        assert(ts@.take(i + 1).drop_last() =~= ts@.take(i as int));
        let t = ts[i];
        let due = match t.sleep_until {
            Some(until) => now >= until,
            None => false,
        };
        if t.state == ThreadState::Sleeping && due {
            to_wake.push(t.id);
        }
        i = i + 1;
    }
    assert(ts@.take(i as int) =~= ts@);
    let ghost s0 = s.rq.slots();
    let mut j: usize = 0;
    while j < to_wake.len()
        invariant
            0 <= j <= to_wake@.len(),
            s.rq.slots() == wake_all(s0, to_wake@.take(j as int)),
            s.rq.spec_next_id() == old(s).rq.spec_next_id(),
            s.pt == old(s).pt,
            s.current == old(s).current,
            s.boot_thread == old(s).boot_thread,
            s.idle_thread == old(s).idle_thread,
            s.need_reschedule == old(s).need_reschedule,
        decreases to_wake@.len() - j,
    {
        assert(to_wake@.take(j + 1).drop_last() =~= to_wake@.take(j as int));
        wake(s, to_wake[j]);
        j = j + 1;
    }
    assert(to_wake@.take(j as int) =~= to_wake@);
}

/// Register a thread with the run queue.
pub fn register(s: &mut Scheduler, thread: Thread)
    ensures
        final(s).rq.slots() == insert_model(old(s).rq.slots(), thread),
        final(s).rq.spec_next_id() == old(s).rq.spec_next_id(),
        final(s).pt == old(s).pt,
        final(s).current == old(s).current,
        final(s).boot_thread == old(s).boot_thread,
        final(s).idle_thread == old(s).idle_thread,
        final(s).need_reschedule == old(s).need_reschedule,
{
    let _ = s.rq.insert(thread);
}

/// The thread record of a new user thread whose kernel stack ends at
/// `kernel_stack_top`.
pub open spec fn user_thread(id: ThreadId, kernel_stack_top: usize, address_space: AddressSpaceId, priority: Priority) -> Thread {
    Thread {
        id,
        state: ThreadState::Created,
        priority,
        entry: None,
        address_space,
        level: ExecutionLevel::User,
        sleep_until: None,
        kernel_stack_pa: Some((kernel_stack_top - KERNEL_STACK_SIZE) as u64),
    }
}

/// The thread record of a new kernel thread with entry point `entry` and
/// kernel stack at `stack_base`.
pub open spec fn kernel_thread(id: ThreadId, entry: usize, stack_base: u64, address_space: AddressSpaceId, priority: Priority) -> Thread {
    Thread {
        id,
        state: ThreadState::Created,
        priority,
        entry: Some(entry),
        address_space,
        level: ExecutionLevel::Kernel,
        sleep_until: None,
        kernel_stack_pa: Some(stack_base),
    }
}

/// Register a new user thread under a fresh id and make it Ready. Its
/// register context is set up by the caller under the returned id.
pub fn create_user_thread(
    s: &mut Scheduler,
    kernel_stack_top: usize,
    address_space: AddressSpaceId,
    priority: Priority,
) -> (id: ThreadId)
    requires
        old(s).rq.spec_next_id() < u64::MAX,
        kernel_stack_top >= KERNEL_STACK_SIZE,
    ensures
        id == old(s).rq.spec_next_id(),
        final(s).rq.spec_next_id() == id + 1,
        final(s).rq.slots() == set_state_model(
            insert_model(old(s).rq.slots(), user_thread(id, kernel_stack_top, address_space, priority)),
            id,
            ThreadState::Ready,
        ),
        final(s).pt == old(s).pt,
        final(s).current == old(s).current,
{
    let id = s.rq.alloc_id();
    let thread = Thread {
        id,
        state: ThreadState::Created,
        priority,
        entry: None,
        address_space,
        level: ExecutionLevel::User,
        sleep_until: None,
        kernel_stack_pa: Some((kernel_stack_top - KERNEL_STACK_SIZE) as u64),
    };
    register(s, thread);
    proof {
        lemma_insert_found(old(s).rq.slots(), thread);
    }
    thread_set_state(s, id, ThreadState::Ready);
    id
}

/// Register a new kernel thread (entry point `entry`, stack at `stack_base`)
/// under a fresh id and make it Ready.
pub fn create_kernel_thread(
    s: &mut Scheduler,
    entry: usize,
    stack_base: u64,
    address_space: AddressSpaceId,
    priority: Priority,
) -> (id: ThreadId)
    requires
        old(s).rq.spec_next_id() < u64::MAX,
    ensures
        id == old(s).rq.spec_next_id(),
        final(s).rq.spec_next_id() == id + 1,
        final(s).rq.slots() == set_state_model(
            insert_model(old(s).rq.slots(), kernel_thread(id, entry, stack_base, address_space, priority)),
            id,
            ThreadState::Ready,
        ),
        final(s).pt == old(s).pt,
        final(s).current == old(s).current,
{
    let id = s.rq.alloc_id();
    let thread = Thread {
        id,
        state: ThreadState::Created,
        priority,
        entry: Some(entry),
        address_space,
        level: ExecutionLevel::Kernel,
        sleep_until: None,
        kernel_stack_pa: Some(stack_base),
    };
    register(s, thread);
    proof {
        lemma_insert_found(old(s).rq.slots(), thread);
    }
    thread_set_state(s, id, ThreadState::Ready);
    id
}

/// Timer tick at `now`: wake the due sleepers and request a reschedule.
pub fn schedule_tick(s: &mut Scheduler, now: u64)
    ensures
        final(s).rq.slots() == wake_all(old(s).rq.slots(), due_ids(present(old(s).rq.slots()), now)),
        final(s).pt == old(s).pt,
        final(s).current == old(s).current,
        final(s).need_reschedule,
{
    check_sleeping_threads(s, now);
    s.need_reschedule = true;
}

/// On interrupt return: yield if a reschedule was requested (consuming the
/// request).
pub fn maybe_reschedule(s: &mut Scheduler) -> (r: Option<Switch>)
    requires
        old(s).need_reschedule ==> (yield_target(old(s).rq.slots(), old(s).current) is Some ==> get_model(
            old(s).rq.slots(),
            old(s).current,
        ) is Some),
    ensures
        !final(s).need_reschedule,
        final(s).pt == old(s).pt,
        !old(s).need_reschedule ==> r is None && final(s).rq.slots() == old(s).rq.slots()
            && final(s).current == old(s).current,
        old(s).need_reschedule ==> match yield_target(old(s).rq.slots(), old(s).current) {
            None => r is None && final(s).rq.slots() == old(s).rq.slots() && final(s).current
                == old(s).current,
            Some(n) => {
                &&& r == Some(switch_of(old(s).rq.slots(), old(s).current, n))
                &&& final(s).rq.slots() == switch_slots(old(s).rq.slots(), old(s).current, n)
                &&& final(s).current == n
            },
        },
{
    if !s.need_reschedule {
        return None;
    }
    s.need_reschedule = false;
    yield_now(s)
}

/// The task owning thread `tid`, if any.
pub fn task_for_thread(s: &Scheduler, tid: ThreadId) -> (r: Option<TaskId>)
    ensures
        r == owner_model(s.pt.slots(), tid),
{
    s.pt.owner_of_thread(tid)
}

/// The boot thread record (running on its static stack).
pub open spec fn boot_thread_rec(id: ThreadId) -> Thread {
    Thread {
        id,
        state: ThreadState::Running,
        priority: Priority::Normal,
        entry: None,
        address_space: 0,
        level: ExecutionLevel::Kernel,
        sleep_until: None,
        kernel_stack_pa: None,
    }
}

/// The idle thread record (static stack, lowest priority).
pub open spec fn idle_thread_rec(id: ThreadId) -> Thread {
    Thread {
        id,
        state: ThreadState::Ready,
        priority: Priority::Idle,
        entry: None,
        address_space: 0,
        level: ExecutionLevel::Kernel,
        sleep_until: None,
        kernel_stack_pa: None,
    }
}

/// Register the running boot thread (which becomes current) and the idle
/// thread, both in the kernel address space.
pub fn init_boot(s: &mut Scheduler)
    requires
        old(s).rq.spec_next_id() + 2 <= u64::MAX,
    ensures
        final(s).boot_thread == old(s).rq.spec_next_id(),
        final(s).idle_thread == old(s).rq.spec_next_id() + 1,
        final(s).current == final(s).boot_thread,
        final(s).rq.spec_next_id() == old(s).rq.spec_next_id() + 2,
        final(s).rq.slots() == insert_model(
            insert_model(old(s).rq.slots(), boot_thread_rec(final(s).boot_thread)),
            idle_thread_rec(final(s).idle_thread),
        ),
        final(s).pt == old(s).pt,
{
    let boot_id = s.rq.alloc_id();
    let _ = s.rq.insert(
        Thread {
            id: boot_id,
            state: ThreadState::Running,
            priority: Priority::Normal,
            entry: None,
            address_space: 0,
            level: ExecutionLevel::Kernel,
            sleep_until: None,
            kernel_stack_pa: None,
        },
    );
    s.boot_thread = boot_id;
    s.current = boot_id;
    let idle_id = s.rq.alloc_id();
    let _ = s.rq.insert(
        Thread {
            id: idle_id,
            state: ThreadState::Ready,
            priority: Priority::Idle,
            entry: None,
            address_space: 0,
            level: ExecutionLevel::Kernel,
            sleep_until: None,
            kernel_stack_pa: None,
        },
    );
    s.idle_thread = idle_id;
}

/// Every element of `present(s)` is the thread of some slot.
proof fn lemma_present_from_slots(s: Seq<Option<Thread>>)
    ensures
        forall|m: int|
            0 <= m < present(s).len() ==> exists|j: int|
                0 <= j < s.len() && #[trigger] s[j] == Some(#[trigger] present(s)[m]),
    decreases s.len(),
{
    if s.len() > 0 {
        let d = s.drop_last();
        lemma_present_from_slots(d);
        assert forall|m: int| 0 <= m < present(s).len() implies exists|j: int|
            0 <= j < s.len() && #[trigger] s[j] == Some(#[trigger] present(s)[m]) by {
            if m < present(d).len() {
                let j = choose|j: int| 0 <= j < d.len() && #[trigger] d[j] == Some(present(d)[m]);
                assert(s[j] == d[j]);
            } else {
                assert(s[s.len() - 1] == Some(present(s)[m]));
            }
        }
    }
}

/// An id none of whose threads is a reapable Terminated thread is not
/// doomed.
proof fn lemma_doomed_excludes(ts: Seq<Thread>, boot: ThreadId, idle: ThreadId, x: ThreadId)
    requires
        forall|m: int|
            0 <= m < ts.len() && (#[trigger] ts[m]).id == x ==> !(ts[m].state == ThreadState::Terminated
                && ts[m].id != boot && ts[m].id != idle),
    ensures
        forall|k: int| 0 <= k < doomed_ids(ts, boot, idle).len() ==> #[trigger] doomed_ids(ts, boot, idle)[k] != x,
    decreases ts.len(),
{
    if ts.len() > 0 {
        let d = ts.drop_last();
        assert forall|m: int|
            0 <= m < d.len() && (#[trigger] d[m]).id == x implies !(d[m].state == ThreadState::Terminated
                && d[m].id != boot && d[m].id != idle) by {
            assert(d[m] == ts[m]);
        }
        lemma_doomed_excludes(d, boot, idle, x);
        let t = ts.last();
        assert(t == ts[ts.len() - 1]);
        let rest = doomed_ids(d, boot, idle);
        assert forall|k: int| 0 <= k < doomed_ids(ts, boot, idle).len() implies #[trigger] doomed_ids(
            ts,
            boot,
            idle,
        )[k] != x by {
            if k < rest.len() {
                assert(rest[k] != x);
            }
        }
    }
}

/// Reaping Terminated threads other than `cur` keeps `cur`, the count of
/// Running threads and the uniqueness of ids, and only empties slots.
proof fn lemma_reap_all(s: Seq<Option<Thread>>, ids: Seq<ThreadId>, cur: ThreadId)
    requires
        ids_unique(s),
        forall|k: int| 0 <= k < ids.len() ==> #[trigger] ids[k] != cur,
        forall|k: int, j: int|
            0 <= k < ids.len() && 0 <= j < s.len() && holds(#[trigger] s[j], #[trigger] ids[k]) ==> s[j]->0.state
                == ThreadState::Terminated,
    ensures
        ids_unique(reap_all(s, ids).0),
        reap_all(s, ids).0.len() == s.len(),
        forall|j: int| 0 <= j < s.len() && (#[trigger] reap_all(s, ids).0[j]) is Some ==> reap_all(s, ids).0[j] == s[j],
        get_model(reap_all(s, ids).0, cur) == get_model(s, cur),
        count_state(reap_all(s, ids).0, ThreadState::Running) == count_state(s, ThreadState::Running),
    decreases ids.len(),
{
    if ids.len() > 0 {
        let d = ids.drop_last();
        assert forall|k: int| 0 <= k < d.len() implies #[trigger] d[k] != cur by {
            assert(d[k] == ids[k]);
        }
        assert forall|k: int, j: int|
            0 <= k < d.len() && 0 <= j < s.len() && holds(#[trigger] s[j], #[trigger] d[k]) implies s[j]->0.state
                == ThreadState::Terminated by {
            assert(d[k] == ids[k]);
        }
        lemma_reap_all(s, d, cur);
        let s1 = reap_all(s, d).0;
        let id = ids.last();
        assert(id == ids[ids.len() - 1]);
        lemma_slot_of_range(s1, id, 0);
        let k = slot_of(s1, id, 0);
        if k < s1.len() {
            assert(s1[k] == s[k]);
            assert(holds(s[k], id));
            lemma_count_update(s1, k, None, ThreadState::Running);
            lemma_slot_of_update(s1, k, None, cur);
            lemma_slot_of_range(s1, cur, 0);
            if slot_of(s1, cur, 0) < s1.len() {
                assert(slot_of(s1, cur, 0) != k);
            }
        }
    }
}

/// The threads a thread exit reaps are Terminated ones other than the
/// running thread: reaping keeps the running thread, the Running count and
/// unique ids.
proof fn lemma_exit_reap(s0: Seq<Option<Thread>>, boot: ThreadId, idle: ThreadId, cur: ThreadId)
    requires
        ids_unique(s0),
        get_model(s0, cur) is Some,
        get_model(s0, cur)->0.state == ThreadState::Terminated ==> cur == boot || cur == idle,
    ensures
        ({
            let s1 = reap_all(s0, doomed_ids(present(s0), boot, idle)).0;
            &&& ids_unique(s1)
            &&& get_model(s1, cur) == get_model(s0, cur)
            &&& count_state(s1, ThreadState::Running) == count_state(s0, ThreadState::Running)
        }),
{
    let ts = present(s0);
    let ids = doomed_ids(ts, boot, idle);
    lemma_present_from_slots(s0);
    lemma_slot_of_range(s0, cur, 0);
    // A thread of `ts` with the id found in slot `j` is that slot's thread.
    assert forall|j: int, m: int|
        0 <= j < s0.len() && (#[trigger] s0[j]) is Some && 0 <= m < ts.len() && (#[trigger] ts[m]).id
            == s0[j]->0.id implies ts[m] == s0[j]->0 by {
        let j2 = choose|j2: int| 0 <= j2 < s0.len() && #[trigger] s0[j2] == Some(ts[m]);
        lemma_slot_of_unique(s0, j);
        lemma_slot_of_unique(s0, j2);
    }
    lemma_doomed_excludes(ts, boot, idle, cur);
    assert forall|k: int| 0 <= k < ids.len() implies #[trigger] ids[k] != cur by {}
    assert forall|k: int, j: int|
        0 <= k < ids.len() && 0 <= j < s0.len() && holds(#[trigger] s0[j], #[trigger] ids[k]) implies s0[j]->0.state
            == ThreadState::Terminated by {
        if s0[j]->0.state != ThreadState::Terminated {
            lemma_doomed_excludes(ts, boot, idle, s0[j]->0.id);
        }
    }
    lemma_reap_all(s0, ids, cur);
}

/// After the running thread is marked Terminated, the thread picked next is
/// another one, and switching to it leaves exactly one Running thread.
proof fn lemma_exit_switch(s0: Seq<Option<Thread>>, s1: Seq<Option<Thread>>, cur: ThreadId, next: ThreadId)
    requires
        ids_unique(s1),
        get_model(s1, cur) is Some,
        count_state(s1, ThreadState::Running) == count_state(s0, ThreadState::Running),
        get_model(s1, cur) == get_model(s0, cur),
        next_ready(set_state_model(s1, cur, ThreadState::Terminated), cur, false) == Some(next),
    ensures
        next != cur,
        get_model(set_state_model(s1, cur, ThreadState::Terminated), next) is Some,
        one_running(s0, cur) ==> one_running(
            set_state_model(set_state_model(s1, cur, ThreadState::Terminated), next, ThreadState::Running),
            next,
        ) && ids_unique(
            set_state_model(set_state_model(s1, cur, ThreadState::Terminated), next, ThreadState::Running),
        ),
{
    let s2 = set_state_model(s1, cur, ThreadState::Terminated);
    lemma_next_ready_is_ready(s2, cur, false);
    let j = choose|j: int|
        0 <= j < s2.len() && (#[trigger] s2[j]) is Some && s2[j]->0.state == ThreadState::Ready
            && s2[j]->0.id == next;
    lemma_slot_of_range(s2, next, 0);
    lemma_set_state_lookup(s1, cur, ThreadState::Terminated, cur);
    lemma_set_state_lookup(s1, cur, ThreadState::Terminated, next);
    lemma_slot_of_range(s1, cur, 0);
    assert forall|a: int, b: int|
        0 <= a < s2.len() && 0 <= b < s2.len() && a != b && (#[trigger] s2[a]) is Some
            && (#[trigger] s2[b]) is Some implies s2[a]->0.id != s2[b]->0.id by {
        assert(s2[a]->0.id == s1[a]->0.id && s2[b]->0.id == s1[b]->0.id);
    }
    lemma_slot_of_unique(s2, j);
    if one_running(s0, cur) {
        let kc = slot_of(s1, cur, 0);
        lemma_count_update(
            s1,
            kc,
            Some(Thread { state: ThreadState::Terminated, ..s1[kc]->0 }),
            ThreadState::Running,
        );
        lemma_count_update(
            s2,
            j,
            Some(Thread { state: ThreadState::Running, ..s2[j]->0 }),
            ThreadState::Running,
        );
        lemma_set_state_lookup(s2, next, ThreadState::Running, next);
        let s3 = set_state_model(s2, next, ThreadState::Running);
        assert forall|a: int, b: int|
            0 <= a < s3.len() && 0 <= b < s3.len() && a != b && (#[trigger] s3[a]) is Some
                && (#[trigger] s3[b]) is Some implies s3[a]->0.id != s3[b]->0.id by {
            assert(s3[a]->0.id == s2[a]->0.id && s3[b]->0.id == s2[b]->0.id);
        }
    }
}

/// Number of `ths`, other than `cur`, still registered in `rq`.
fn count_remaining(rq: &RunQueue, ths: &Vec<ThreadId>, cur: ThreadId) -> (n: usize)
    ensures
        n == remaining_threads(ths@, cur, rq.slots()),
{
    let mut n: usize = 0;
    let mut i: usize = 0;
    while i < ths.len()
        invariant
            0 <= i <= ths@.len(),
            n == remaining_threads(ths@.take(i as int), cur, rq.slots()),
            n <= i,
        decreases ths@.len() - i,
    {
        assert(ths@.take(i + 1).drop_last() =~= ths@.take(i as int));
        let th = ths[i];
        if th != cur && rq.get(th).is_some() {
            n = n + 1;
        }
        i = i + 1;
    }
    assert(ths@.take(i as int) =~= ths@);
    n
}

/// Reap every Terminated thread but the boot and idle threads; return the
/// kernel stacks of the reaped threads (physical bases, in reap order).
fn cleanup(s: &mut Scheduler) -> (stacks: Vec<u64>)
    ensures
        ({
            let (s1, st) = reap_all(
                old(s).rq.slots(),
                doomed_ids(present(old(s).rq.slots()), old(s).boot_thread, old(s).idle_thread),
            );
            final(s).rq.slots() == s1 && stacks@ == st
        }),
        final(s).rq.spec_next_id() == old(s).rq.spec_next_id(),
        final(s).pt == old(s).pt,
        final(s).current == old(s).current,
        final(s).boot_thread == old(s).boot_thread,
        final(s).idle_thread == old(s).idle_thread,
        final(s).need_reschedule == old(s).need_reschedule,
{
    let ts = s.rq.iter();
    let boot = s.boot_thread;
    let idle = s.idle_thread;
    let mut ids: Vec<ThreadId> = Vec::new();
    let mut i: usize = 0;
    while i < ts.len()
        invariant
            0 <= i <= ts@.len(),
            ids@ == doomed_ids(ts@.take(i as int), boot, idle),
        decreases ts@.len() - i,
    {
        assert(ts@.take(i + 1).drop_last() =~= ts@.take(i as int));
        let t = ts[i];
        if t.state == ThreadState::Terminated && t.id != boot && t.id != idle {
            ids.push(t.id);
        }
        i = i + 1;
    }
    assert(ts@.take(i as int) =~= ts@);
    let ghost s0 = s.rq.slots();
    let mut stacks: Vec<u64> = Vec::new();
    let mut j: usize = 0;
    while j < ids.len()
        invariant
            0 <= j <= ids@.len(),
            (s.rq.slots(), stacks@) == reap_all(s0, ids@.take(j as int)),
            s.rq.spec_next_id() == old(s).rq.spec_next_id(),
            s.pt == old(s).pt,
            s.current == old(s).current,
            s.boot_thread == old(s).boot_thread,
            s.idle_thread == old(s).idle_thread,
            s.need_reschedule == old(s).need_reschedule,
        decreases ids@.len() - j,
    {
        assert(ids@.take(j + 1).drop_last() =~= ids@.take(j as int));
        let removed = s.rq.remove(ids[j]);
        match removed {
            Some(t) => match t.kernel_stack_pa {
                Some(pa) => {
                    stacks.push(pa);
                },
                None => {},
            },
            None => {},
        }
        j = j + 1;
    }
    assert(ids@.take(j as int) =~= ids@);
    stacks
}

/// Terminate the running thread: record the exit code on its task when it
/// was the task's last thread, reap previously terminated threads, mark the
/// running thread Terminated and switch to the next Ready thread (idle
/// included). `None` when no thread is left to run.
pub fn thread_exit(s: &mut Scheduler, exit_code: i32) -> (r: Option<ExitSwitch>)
    requires
        ids_unique(old(s).rq.slots()),
        get_model(old(s).rq.slots(), old(s).current) is Some,
        get_model(old(s).rq.slots(), old(s).current)->0.state == ThreadState::Terminated ==> old(s).current
            == old(s).boot_thread || old(s).current == old(s).idle_thread,
    ensures
        ({
            let s0 = old(s).rq.slots();
            let cur = old(s).current;
            let (s1, st) = reap_all(s0, doomed_ids(present(s0), old(s).boot_thread, old(s).idle_thread));
            let s2 = set_state_model(s1, cur, ThreadState::Terminated);
            &&& match exiting_task(old(s).pt.slots(), s0, cur) {
                Some(tid) => exit_rel(old(s).pt.slots(), tid, exit_code, final(s).pt.slots()),
                None => final(s).pt.slots() == old(s).pt.slots(),
            }
            &&& final(s).pt.spec_next_pid() == old(s).pt.spec_next_pid()
            &&& match next_ready(s2, cur, false) {
                None => r is None && final(s).rq.slots() == s2 && final(s).current == cur,
                Some(n) => {
                    &&& n != cur
                    &&& r matches Some(x) && x.switch == (Switch {
                        from: cur,
                        to: n,
                        activate: if as_of(s2, n) != as_of(s0, cur) {
                            Some(as_of(s2, n))
                        } else {
                            None
                        },
                    }) && x.freed_stacks@ == st
                    &&& final(s).rq.slots() == set_state_model(s2, n, ThreadState::Running)
                    &&& final(s).current == n
                },
            }
        }),
        one_running(old(s).rq.slots(), old(s).current) && r is Some ==> one_running(
            final(s).rq.slots(),
            final(s).current,
        ) && ids_unique(final(s).rq.slots()),
{
    let cur = s.current;
    let cur_as = current_thread_address_space(s);
    let ghost s0 = s.rq.slots();
    match task_for_thread(s, cur) {
        Some(tid) => {
            let remaining = match s.pt.lookup(tid) {
                Some(t) => count_remaining(&s.rq, &t.threads, cur),
                None => 0,
            };
            if remaining == 0 {
                let exited = match s.pt.lookup(tid) {
                    Some(t) => t.state == TaskState::Exited,
                    None => true,
                };
                if !exited {
                    let _ = s.pt.exit_task(tid, exit_code);
                }
            }
        },
        None => {},
    }
    proof {
        lemma_exit_reap(s0, s.boot_thread, s.idle_thread, cur);
    }
    let stacks = cleanup(s);
    let ghost s1 = s.rq.slots();
    thread_set_state(s, cur, ThreadState::Terminated);
    let ghost s2 = s.rq.slots();
    let next = match s.rq.find_next_ready(cur, false) {
        Some(id) => id,
        None => {
            return None;
        },
    };
    proof {
        lemma_exit_switch(s0, s1, cur, next);
    }
    thread_set_state(s, next, ThreadState::Running);
    s.current = next;
    let next_as = current_thread_address_space(s);
    proof {
        lemma_set_state_lookup(s2, next, ThreadState::Running, next);
    }
    let activate = if next_as != cur_as {
        Some(next_as)
    } else {
        None
    };
    Some(ExitSwitch { switch: Switch { from: cur, to: next, activate }, freed_stacks: stacks })
}

} // verus!

verus! {

/// The first entry of a kernel thread: when its task is still Created the
/// task becomes Running, the thread is marked Running, and its entry point
/// is returned for the caller to run. The running thread must be
/// registered with an entry point.
pub fn thread_start(s: &mut Scheduler) -> (entry: usize)
    requires
        get_model(old(s).rq.slots(), old(s).current) matches Some(t) && t.entry is Some,
    ensures
        entry == get_model(old(s).rq.slots(), old(s).current)->0.entry->0,
        final(s).rq.slots() == set_state_model(old(s).rq.slots(), old(s).current, ThreadState::Running),
        final(s).current == old(s).current,
        final(s).pt.spec_next_pid() == old(s).pt.spec_next_pid(),
        ({
            let pt0 = old(s).pt.slots();
            match owner_model(pt0, old(s).current) {
                Some(tid) => match lookup_model(pt0, tid) {
                    Some(t) => if t.state == TaskState::Created {
                        final(s).pt.slots() == pt0.update(
                            crate::scheduler::process_table::pid_slot(pt0, tid, 0),
                            Some(Task { state: TaskState::Running, ..t }),
                        )
                    } else {
                        final(s).pt.slots() == pt0
                    },
                    None => final(s).pt.slots() == pt0,
                },
                None => final(s).pt.slots() == pt0,
            }
        }),
{
    let cur = s.current;
    match task_for_thread(s, cur) {
        Some(tid) => {
            match s.pt.lookup_mut(tid) {
                Some(task) => {
                    if task.state == TaskState::Created {
                        task.state = TaskState::Running;
                    }
                },
                None => {},
            }
        },
        None => {},
    }
    let entry = match s.rq.get(cur) {
        Some(t) => match t.entry {
            Some(e) => e,
            None => vstd::pervasive::unreached(),
        },
        None => vstd::pervasive::unreached(),
    };
    thread_set_state(s, cur, ThreadState::Running);
    entry
}

} // verus!
