//! Persistent identity: survives reboots; stored in persistent storage.
use vstd::prelude::*;
use crate::identity::uuid::{v4_bytes, Uuid, UuidSource};

verus! {

/// The long-term identity of the system and its lifecycle metadata.
#[derive(Debug, Clone, PartialEq, Eq)]
pub struct PersistentIdentity {
    /// Unique identifier for this system, constant across reboots.
    pub id: Uuid,
    /// Version of the persistent identity format.
    pub version: u64,
    /// Timestamp when this identity was first created.
    pub created_at: u64,
    /// Timestamp when this identity was last updated.
    pub last_updated: u64,
    /// Signature of the hardware this identity is associated with; used to
    /// detect hardware changes.
    pub hardware_signature: Vec<u8>,
}

impl PersistentIdentity {
    pub fn new(
        id: Uuid,
        version: u64,
        created_at: u64,
        last_updated: u64,
        hardware_signature: Vec<u8>,
    ) -> (r: Self)
        ensures
            r.id == id,
            r.version == version,
            r.created_at == created_at,
            r.last_updated == last_updated,
            r.hardware_signature@ == hardware_signature@,
    {
        PersistentIdentity { id, version, created_at, last_updated, hardware_signature }
    }

    /// The default persistent identity: a fresh id, format version 1, never
    /// created or updated (timestamps 0), no hardware signature.
    pub fn default_from(ids: &mut UuidSource) -> (r: Self)
        ensures
            r.id.bytes@ == v4_bytes(old(ids).counter),
            r.version == 1,
            r.created_at == 0,
            r.last_updated == 0,
            r.hardware_signature@.len() == 0,
            final(ids).counter == (if old(ids).counter == u64::MAX {
                0
            } else {
                old(ids).counter + 1
            }),
    {
        PersistentIdentity {
            id: Uuid::new_v4(ids),
            version: 1,
            created_at: 0,
            last_updated: 0,
            hardware_signature: Vec::new(),
        }
    }

    /// A new identity created and updated at `timestamp`.
    pub fn new_now(id: Uuid, version: u64, hardware_signature: Vec<u8>, timestamp: u64) -> (r: Self)
        ensures
            r.id == id,
            r.version == version,
            r.created_at == timestamp,
            r.last_updated == timestamp,
            r.hardware_signature@ == hardware_signature@,
    {
        PersistentIdentity {
            id,
            version,
            created_at: timestamp,
            last_updated: timestamp,
            hardware_signature,
        }
    }

    /// Record an update at `timestamp`.
    pub fn touch(&mut self, timestamp: u64)
        ensures
            final(self).last_updated == timestamp,
            final(self).id == old(self).id,
            final(self).version == old(self).version,
            final(self).created_at == old(self).created_at,
            final(self).hardware_signature@ == old(self).hardware_signature@,
    {
        self.last_updated = timestamp;
    }

    /// Replace the hardware signature, recording the update at `timestamp`.
    pub fn update_hardware_signature(&mut self, signature: Vec<u8>, timestamp: u64)
        ensures
            final(self).hardware_signature@ == signature@,
            final(self).last_updated == timestamp,
            final(self).id == old(self).id,
            final(self).version == old(self).version,
            final(self).created_at == old(self).created_at,
    {
        self.hardware_signature = signature;
        self.last_updated = timestamp;
    }

    /// last_updated - created_at, or 0 if updated before created.
    pub fn age(&self) -> (r: u64)
        ensures
            r == (if self.last_updated >= self.created_at {
                self.last_updated - self.created_at
            } else {
                0
            }),
    {
        self.last_updated.saturating_sub(self.created_at)
    }
}

} // verus!
