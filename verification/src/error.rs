//! Kernel error infrastructure: one error enum per subsystem, folded into
//! [`KernelError`].
use vstd::prelude::*;

verus! {

pub type KernelResult<T> = Result<T, KernelError>;

pub type PmmResult<T> = Result<T, PmmError>;

pub type MmuResult<T> = Result<T, MmuError>;

pub type SchedulerResult<T> = Result<T, SchedulerError>;

pub type MemoryResult<T> = Result<T, MemoryError>;

#[derive(Debug, Clone, Copy, PartialEq, Eq, Structural)]
pub enum KernelError {
    Pmm(PmmError),
    Mmu(MmuError),
    Scheduler(SchedulerError),
    Memory(MemoryError),
    InvalidCapability,
    InvalidAddress,
    DeviceUnavailable,
    InternalInvariant,
}

#[derive(Debug, Clone, Copy, PartialEq, Eq, Structural)]
pub enum PmmError {
    OutOfMemory,
    InvalidAddress,
    DoubleFree,
    BitmapCorrupted,
    InvalidRegion,
}

#[derive(Debug, Clone, Copy, PartialEq, Eq, Structural)]
pub enum MmuError {
    TranslationFault,
    PageTableAllocationFailed,
    InvalidMappingFlags,
    AlreadyMapped,
}

#[derive(Debug, Clone, Copy, PartialEq, Eq, Structural)]
pub enum SchedulerError {
    RunQueueFull,
    ThreadNotFound,
    InvalidStateTransition,
}

#[derive(Debug, Clone, Copy, PartialEq, Eq, Structural)]
pub enum MemoryError {
    AllocationFailed,
    NoPhysAddr,
    MappingFailed,
    UnmappingFailed,
}

impl From<PmmError> for KernelError {
    fn from(err: PmmError) -> (r: Self) {
        KernelError::Pmm(err)
    }
}

impl vstd::std_specs::convert::FromSpecImpl<PmmError> for KernelError {
    open spec fn obeys_from_spec() -> bool {
        true
    }

    open spec fn from_spec(err: PmmError) -> Self {
        KernelError::Pmm(err)
    }
}

impl From<MmuError> for KernelError {
    fn from(err: MmuError) -> (r: Self) {
        KernelError::Mmu(err)
    }
}

impl vstd::std_specs::convert::FromSpecImpl<MmuError> for KernelError {
    open spec fn obeys_from_spec() -> bool {
        true
    }

    open spec fn from_spec(err: MmuError) -> Self {
        KernelError::Mmu(err)
    }
}

impl From<SchedulerError> for KernelError {
    fn from(err: SchedulerError) -> (r: Self) {
        KernelError::Scheduler(err)
    }
}

impl vstd::std_specs::convert::FromSpecImpl<SchedulerError> for KernelError {
    open spec fn obeys_from_spec() -> bool {
        true
    }

    open spec fn from_spec(err: SchedulerError) -> Self {
        KernelError::Scheduler(err)
    }
}

impl From<MemoryError> for KernelError {
    fn from(err: MemoryError) -> (r: Self) {
        KernelError::Memory(err)
    }
}

impl vstd::std_specs::convert::FromSpecImpl<MemoryError> for KernelError {
    open spec fn obeys_from_spec() -> bool {
        true
    }

    open spec fn from_spec(err: MemoryError) -> Self {
        KernelError::Memory(err)
    }
}

} // verus!
