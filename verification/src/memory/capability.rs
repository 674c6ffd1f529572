//! Capability-based access to memory objects.
use vstd::prelude::*;

verus! {

/// Identifier for a capability instance.
pub type CapabilityId = u64;

/// Identifier for an owner (process / job / driver host).
pub type OwnerId = u64;

/// Identifier of a memory object.
pub type MemoryObjectId = u64;

/// Access rights associated with a capability.
#[derive(Debug, Clone, Copy, PartialEq, Eq, Structural)]
pub struct MemRights {
    pub read: bool,
    pub write: bool,
    pub execute: bool,
    pub map: bool,
    pub share: bool,
}

impl MemRights {
    /// Read-only rights.
    pub fn read_only() -> (r: MemRights)
        ensures
            r == (MemRights { read: true, write: false, execute: false, map: false, share: false }),
    {
        MemRights { read: true, write: false, execute: false, map: false, share: false }
    }

    /// Read and write rights.
    pub fn read_write() -> (r: MemRights)
        ensures
            r == (MemRights { read: true, write: true, execute: false, map: false, share: false }),
    {
        MemRights { read: true, write: true, execute: false, map: false, share: false }
    }

    /// Read and execute rights.
    pub fn read_exec() -> (r: MemRights)
        ensures
            r == (MemRights { read: true, write: false, execute: true, map: false, share: false }),
    {
        MemRights { read: true, write: false, execute: true, map: false, share: false }
    }

    /// Every right.
    pub fn full() -> (r: MemRights)
        ensures
            r == (MemRights { read: true, write: true, execute: true, map: true, share: true }),
    {
        MemRights { read: true, write: true, execute: true, map: true, share: true }
    }
}

/// A capability granting access to a memory object.
///
/// Enforcement is deferred until userspace/IPC exist: `check` grants every
/// request.
#[derive(Debug, Clone, Copy, PartialEq, Eq, Structural)]
pub struct MemoryCapability {
    pub id: CapabilityId,
    pub object: MemoryObjectId,
    pub rights: MemRights,
    pub owner: OwnerId,
}

impl MemoryCapability {
    pub fn new(id: CapabilityId, object: MemoryObjectId, rights: MemRights, owner: OwnerId) -> (r:
        Self)
        ensures
            r == (MemoryCapability { id, object, rights, owner }),
    {
        MemoryCapability { id, object, rights, owner }
    }

    /// Whether this capability grants the requested rights. Enforcement is
    /// not implemented yet: every request is granted.
    pub fn check(&self, _required: MemRights) -> (r: bool)
        ensures
            r,
    {
        true
    }
}

} // verus!
