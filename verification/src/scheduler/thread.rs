//! Threads: the schedulable unit. The saved register context of a thread is
//! architecture state kept by the context-switch layer, keyed by the
//! thread's id; everything the scheduling policy reads lives here.
use vstd::prelude::*;

verus! {

pub type ThreadId = u64;

/// Identifier of an address space (0 is the kernel's).
pub type AddressSpaceId = u64;

/// Scheduling priority; `Realtime` is served first, `Idle` last.
#[derive(Debug, Clone, Copy, PartialEq, Eq, Structural, PartialOrd, Ord)]
pub enum Priority {
    Realtime,
    High,
    Normal,
    Low,
    Idle,
}

#[derive(Debug, Clone, Copy, PartialEq, Eq, Structural)]
pub enum ThreadState {
    Created,
    Ready,
    Running,
    Blocked,
    Sleeping,
    Terminated,
}

/// Privilege level a thread executes at.
#[derive(Debug, Clone, Copy, PartialEq, Eq, Structural)]
pub enum ExecutionLevel {
    Kernel,
    User,
}

#[derive(Debug, Clone, Copy, PartialEq, Eq, Structural)]
pub struct Thread {
    pub id: ThreadId,
    pub state: ThreadState,
    pub priority: Priority,
    /// Entry point of a kernel thread.
    pub entry: Option<usize>,
    pub address_space: AddressSpaceId,
    pub level: ExecutionLevel,
    /// Tick count at which a sleeping thread wakes up.
    pub sleep_until: Option<u64>,
    /// Physical base of the contiguous kernel stack; `None` for the boot and
    /// idle threads, whose stacks are static and never freed.
    pub kernel_stack_pa: Option<u64>,
}

} // verus!
