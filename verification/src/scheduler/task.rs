//! Tasks: the unit of resource ownership. A task owns its threads' ids, its
//! memory objects, its signal state and its place in the process tree.
use vstd::prelude::*;
use crate::memory::object::MemoryObject;
use crate::scheduler::thread::{AddressSpaceId, ThreadId};
use crate::signal::{SigAction, SignalState, MAX_SIG, SIG_DFL};

verus! {

pub type TaskId = u64;

/// Generation-protected process handle: a generation increments every time
/// a task id is reaped, so a stale handle never resolves to a newer process.
#[derive(Debug, Clone, Copy, PartialEq, Eq, Structural)]
pub struct ProcessHandle {
    pub id: TaskId,
    pub generation: u32,
}

/// Hard cap on simultaneously live tasks.
pub const MAX_TASKS: usize = 64;

#[derive(Debug, Clone, Copy, PartialEq, Eq, Structural)]
pub enum TaskState {
    Created,
    Running,
    /// Reaped: a resource-free tombstone kept for its generation.
    Exited,
    /// Exited but not yet reaped.
    Zombie,
}

/// Signal state as a task starts with it: nothing pending, nothing
/// blocked, every disposition the default.
pub open spec fn fresh_signals(s: SignalState) -> bool {
    &&& s.pending is None
    &&& s.blocked == 0
    &&& forall|i: int| 0 <= i < MAX_SIG ==> #[trigger] s.handlers@[i] == (SigAction {
        handler: SIG_DFL,
        mask: 0,
        flags: 0,
    })
}

/// A task: its threads, the memory objects it owns, and its process-tree
/// links. Dropping it releases its resources.
pub struct Task {
    pub task_id: TaskId,
    /// Bumped on reap; checked by handle lookups.
    pub generation: u32,
    pub address_space: AddressSpaceId,
    pub threads: Vec<ThreadId>,
    pub owned_objects: Vec<MemoryObject>,
    pub state: TaskState,
    pub parent: Option<TaskId>,
    pub children: Vec<TaskId>,
    pub exit_code: Option<i32>,
    pub signals: SignalState,
}

impl Task {
    /// A task with one thread, no parent, no children and no objects.
    pub fn new(task_id: TaskId, thread_id: ThreadId, address_space: AddressSpaceId) -> (r: Self)
        ensures
            r.task_id == task_id,
            r.generation == 0,
            r.address_space == address_space,
            r.threads@ == seq![thread_id],
            r.owned_objects@.len() == 0,
            r.state == TaskState::Created,
            r.parent is None,
            r.children@.len() == 0,
            r.exit_code is None,
            fresh_signals(r.signals),
    {
        let mut threads: Vec<ThreadId> = Vec::new();
        threads.push(thread_id);
        Task {
            task_id,
            generation: 0,
            address_space,
            threads,
            owned_objects: Vec::new(),
            state: TaskState::Created,
            parent: None,
            children: Vec::new(),
            exit_code: None,
            signals: SignalState::new(),
        }
    }

    pub fn add_thread(&mut self, thread_id: ThreadId)
        ensures
            final(self).threads@ == old(self).threads@.push(thread_id),
            final(self).task_id == old(self).task_id,
            final(self).generation == old(self).generation,
            final(self).address_space == old(self).address_space,
            final(self).owned_objects@ == old(self).owned_objects@,
            final(self).state == old(self).state,
            final(self).parent == old(self).parent,
            final(self).children@ == old(self).children@,
            final(self).exit_code == old(self).exit_code,
    {
        self.threads.push(thread_id);
    }

    pub fn add_object(&mut self, obj: MemoryObject)
        ensures
            final(self).owned_objects@ == old(self).owned_objects@.push(obj),
            final(self).task_id == old(self).task_id,
            final(self).generation == old(self).generation,
            final(self).threads@ == old(self).threads@,
            final(self).state == old(self).state,
            final(self).parent == old(self).parent,
            final(self).children@ == old(self).children@,
            final(self).exit_code == old(self).exit_code,
    {
        self.owned_objects.push(obj);
    }

    /// Mark the task as exited-but-unreaped (a zombie) with `code`.
    pub fn exit(&mut self, code: i32)
        ensures
            final(self).state == TaskState::Zombie,
            final(self).exit_code == Some(code),
            final(self).task_id == old(self).task_id,
            final(self).generation == old(self).generation,
            final(self).threads@ == old(self).threads@,
            final(self).parent == old(self).parent,
            final(self).children@ == old(self).children@,
            final(self).address_space == old(self).address_space,
            final(self).owned_objects@ == old(self).owned_objects@,
            final(self).signals == old(self).signals,
    {
        self.state = TaskState::Zombie;
        self.exit_code = Some(code);
    }

    pub fn set_parent(&mut self, parent_id: TaskId)
        ensures
            final(self).parent == Some(parent_id),
            final(self).task_id == old(self).task_id,
            final(self).address_space == old(self).address_space,
            final(self).generation == old(self).generation,
            final(self).threads@ == old(self).threads@,
            final(self).state == old(self).state,
            final(self).children@ == old(self).children@,
            final(self).exit_code == old(self).exit_code,
    {
        self.parent = Some(parent_id);
    }

    pub fn add_child(&mut self, child_id: TaskId)
        ensures
            final(self).children@ == old(self).children@.push(child_id),
            final(self).task_id == old(self).task_id,
            final(self).address_space == old(self).address_space,
            final(self).generation == old(self).generation,
            final(self).threads@ == old(self).threads@,
            final(self).state == old(self).state,
            final(self).parent == old(self).parent,
            final(self).exit_code == old(self).exit_code,
    {
        self.children.push(child_id);
    }

    /// Whether `tid` is one of the task's threads.
    pub fn has_thread(&self, tid: ThreadId) -> (r: bool)
        ensures
            r == self.threads@.contains(tid),
    {
        let mut i: usize = 0;
        while i < self.threads.len()
            invariant
                0 <= i <= self.threads@.len(),
                forall|j: int| 0 <= j < i ==> self.threads@[j] != tid,
            decreases self.threads@.len() - i,
        {
            if self.threads[i] == tid {
                return true;
            }
            i = i + 1;
        }
        false
    }
}

} // verus!
