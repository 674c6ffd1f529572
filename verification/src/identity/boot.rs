//! Boot identity: established during boot, valid only during initialization.
use vstd::prelude::*;
use crate::identity::state::BootSource;
use crate::identity::uuid::{v4_bytes, Uuid, UuidSource};

verus! {

/// Identity established during the boot process. Ephemeral: it does not
/// persist beyond boot.
#[derive(Debug, Clone, Copy, PartialEq, Eq)]
pub struct BootIdentity {
    /// Unique identifier for this boot session.
    pub boot_id: Uuid,
    /// Timestamp when boot started (monotonic counter or timestamp).
    pub boot_timestamp: u64,
    /// Source of the boot.
    pub source: BootSource,
}

impl BootIdentity {
    pub fn new(boot_id: Uuid, boot_timestamp: u64, source: BootSource) -> (r: Self)
        ensures
            r == (BootIdentity { boot_id, boot_timestamp, source }),
    {
        BootIdentity { boot_id, boot_timestamp, source }
    }

    /// A boot identity with a freshly generated id.
    pub fn with_timestamp(timestamp: u64, source: BootSource, ids: &mut UuidSource) -> (r: Self)
        ensures
            r.boot_id.bytes@ == v4_bytes(old(ids).counter),
            r.boot_timestamp == timestamp,
            r.source == source,
            final(ids).counter == (if old(ids).counter == u64::MAX {
                0
            } else {
                old(ids).counter + 1
            }),
    {
        BootIdentity { boot_id: Uuid::new_v4(ids), boot_timestamp: timestamp, source }
    }

    /// Boot identity for a cold start.
    pub fn cold_start(timestamp: u64, ids: &mut UuidSource) -> (r: Self)
        ensures
            r.boot_id.bytes@ == v4_bytes(old(ids).counter),
            r.boot_timestamp == timestamp,
            r.source == BootSource::ColdStart,
            final(ids).counter == (if old(ids).counter == u64::MAX {
                0
            } else {
                old(ids).counter + 1
            }),
    {
        Self::with_timestamp(timestamp, BootSource::ColdStart, ids)
    }

    /// Boot identity for a warm reset.
    pub fn warm_reset(timestamp: u64, ids: &mut UuidSource) -> (r: Self)
        ensures
            r.boot_id.bytes@ == v4_bytes(old(ids).counter),
            r.boot_timestamp == timestamp,
            r.source == BootSource::WarmReset,
            final(ids).counter == (if old(ids).counter == u64::MAX {
                0
            } else {
                old(ids).counter + 1
            }),
    {
        Self::with_timestamp(timestamp, BootSource::WarmReset, ids)
    }
}

} // verus!
