//! The identity state of the system and the source of the boot.
use vstd::prelude::*;
use crate::identity::boot::BootIdentity;
use crate::identity::persistent::PersistentIdentity;
use crate::identity::runtime::RuntimeIdentity;
use crate::identity::uuid::Uuid;

verus! {

/// Source of the boot.
#[derive(Debug, Clone, Copy, PartialEq, Eq, Structural)]
pub enum BootSource {
    /// Booted from firmware/bootloader.
    Firmware,
    /// Cold start (power on).
    ColdStart,
    /// Warm reset.
    WarmReset,
    /// Resumed from hibernation.
    Hibernation,
}

impl Default for BootSource {
    fn default() -> (r: Self)
        ensures
            r == BootSource::ColdStart,
    {
        BootSource::ColdStart
    }
}

/// The current state of the system's identity.
#[derive(Debug, Clone, PartialEq)]
pub enum IdentityState {
    /// System is booting; only the boot identity is available.
    Booting(BootIdentity),
    /// System is running with a runtime identity.
    Runtime(RuntimeIdentity),
    /// Persistent identity loaded, runtime identity active.
    Persistent(PersistentIdentity, RuntimeIdentity),
}

impl IdentityState {
    /// The boot id: the boot identity's while booting, else the runtime
    /// identity's link.
    pub fn boot_id(&self) -> (r: Option<Uuid>)
        ensures
            r == Some(match self {
                IdentityState::Booting(b) => b.boot_id,
                IdentityState::Runtime(rt) => rt.boot_id,
                IdentityState::Persistent(_, rt) => rt.boot_id,
            }),
    {
        match self {
            IdentityState::Booting(boot) => Some(boot.boot_id),
            IdentityState::Runtime(runtime) => Some(runtime.boot_id),
            IdentityState::Persistent(_, runtime) => Some(runtime.boot_id),
        }
    }

    /// The runtime identity, once past boot.
    pub fn runtime(&self) -> (r: Option<&RuntimeIdentity>)
        ensures
            r == match self {
                IdentityState::Booting(_) => None,
                IdentityState::Runtime(rt) => Some(rt),
                IdentityState::Persistent(_, rt) => Some(rt),
            },
    {
        match self {
            IdentityState::Booting(_) => None,
            IdentityState::Runtime(r) => Some(r),
            IdentityState::Persistent(_, r) => Some(r),
        }
    }

    /// The persistent identity, once loaded.
    pub fn persistent(&self) -> (r: Option<&PersistentIdentity>)
        ensures
            r == match self {
                IdentityState::Persistent(p, _) => Some(p),
                _ => None,
            },
    {
        match self {
            IdentityState::Booting(_) => None,
            IdentityState::Runtime(_) => None,
            IdentityState::Persistent(p, _) => Some(p),
        }
    }

    /// The current system id: boot id while booting, runtime id at runtime,
    /// persistent id once loaded.
    pub fn current_id(&self) -> (r: Uuid)
        ensures
            r == match self {
                IdentityState::Booting(b) => b.boot_id,
                IdentityState::Runtime(rt) => rt.id,
                IdentityState::Persistent(p, _) => p.id,
            },
    {
        match self {
            IdentityState::Booting(boot) => boot.boot_id,
            IdentityState::Runtime(runtime) => runtime.id,
            IdentityState::Persistent(persistent, _) => persistent.id,
        }
    }

    /// The current generation: 0 while booting, else the runtime's.
    pub fn generation(&self) -> (r: u64)
        ensures
            r == match self {
                IdentityState::Booting(_) => 0,
                IdentityState::Runtime(rt) => rt.generation,
                IdentityState::Persistent(_, rt) => rt.generation,
            },
    {
        match self {
            IdentityState::Booting(_) => 0,
            IdentityState::Runtime(runtime) => runtime.generation,
            IdentityState::Persistent(_, runtime) => runtime.generation,
        }
    }
}

} // verus!
