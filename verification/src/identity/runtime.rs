//! Runtime identity: the identity active during kernel execution.
use vstd::prelude::*;
use crate::identity::boot::BootIdentity;
use crate::identity::uuid::{v4_bytes, Uuid, UuidSource};

verus! {

/// Identity active during kernel runtime, created on the transition from
/// boot to runtime.
#[derive(Debug, Clone, Copy, PartialEq, Eq)]
pub struct RuntimeIdentity {
    /// Unique identifier for this runtime session.
    pub id: Uuid,
    /// Generation number; increments on each runtime initialization.
    pub generation: u64,
    /// The boot identity that created this runtime.
    pub boot_id: Uuid,
}

impl RuntimeIdentity {
    /// A runtime identity with a fresh id, linked to `boot`.
    pub fn from_boot(boot: &BootIdentity, generation: u64, ids: &mut UuidSource) -> (r: Self)
        ensures
            r.id.bytes@ == v4_bytes(old(ids).counter),
            r.generation == generation,
            r.boot_id == boot.boot_id,
            final(ids).counter == (if old(ids).counter == u64::MAX {
                0
            } else {
                old(ids).counter + 1
            }),
    {
        RuntimeIdentity { id: Uuid::new_v4(ids), generation, boot_id: boot.boot_id }
    }

    /// The default runtime identity: a fresh id, generation 1, linked to no
    /// boot (the nil id).
    pub fn default_from(ids: &mut UuidSource) -> (r: Self)
        ensures
            r.id.bytes@ == v4_bytes(old(ids).counter),
            r.generation == 1,
            forall|i: int| 0 <= i < 16 ==> #[trigger] r.boot_id.bytes@[i] == 0,
            final(ids).counter == (if old(ids).counter == u64::MAX {
                0
            } else {
                old(ids).counter + 1
            }),
    {
        RuntimeIdentity { id: Uuid::new_v4(ids), generation: 1, boot_id: Uuid::nil() }
    }

    pub fn with_id(id: Uuid, generation: u64, boot_id: Uuid) -> (r: Self)
        ensures
            r == (RuntimeIdentity { id, generation, boot_id }),
    {
        RuntimeIdentity { id, generation, boot_id }
    }

    /// The next generation: fresh id, generation + 1, same boot link.
    pub fn next_generation(&self, ids: &mut UuidSource) -> (r: Self)
        requires
            self.generation < u64::MAX,
        ensures
            r.id.bytes@ == v4_bytes(old(ids).counter),
            r.generation == self.generation + 1,
            r.boot_id == self.boot_id,
            final(ids).counter == (if old(ids).counter == u64::MAX {
                0
            } else {
                old(ids).counter + 1
            }),
    {
        RuntimeIdentity { id: Uuid::new_v4(ids), generation: self.generation + 1, boot_id: self.boot_id }
    }
}

} // verus!
