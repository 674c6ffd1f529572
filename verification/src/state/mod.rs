//! The complete state of the system: identity, hardware and memory manager.
use vstd::prelude::*;
use crate::boot::boot_info::BootInfo;
use crate::identity::boot::BootIdentity;
use crate::identity::runtime::RuntimeIdentity;
use crate::identity::state::IdentityState;
use crate::identity::uuid::{v4_bytes, Uuid, UuidSource};
use crate::memory::manager::MemoryResourceManager;
use crate::memory::resource::{MemoryBackend, ResourceId};

pub mod hardware;
pub mod identity;

use self::hardware::HardwareState;

verus! {

/// The counter value that follows `c` (wrapping).
pub open spec fn next_count(c: u64) -> u64 {
    if c == u64::MAX {
        0
    } else {
        (c + 1) as u64
    }
}

/// The complete state of the system. Fields are private; use the getters.
pub struct SystemState<B> {
    identity: IdentityState,
    hardware: HardwareState,
    memory_manager: Option<MemoryResourceManager<B>>,
    is_initialized: bool,
}

impl<B: MemoryBackend> SystemState<B> {
    pub closed spec fn spec_identity(&self) -> IdentityState {
        self.identity
    }

    pub closed spec fn spec_hardware(&self) -> HardwareState {
        self.hardware
    }

    pub closed spec fn spec_memory_manager(&self) -> Option<MemoryResourceManager<B>> {
        self.memory_manager
    }

    pub closed spec fn spec_initialized(&self) -> bool {
        self.is_initialized
    }

    /// The state built from the boot hand-over record: a cold-start boot
    /// identity (timestamp 0), a runtime identity of generation 1 linked to
    /// it, the hardware described by `boot_info`, no memory manager yet, not
    /// initialized. The boot id is generated first, then the runtime id.
    pub fn from_boot_info(boot_info: &BootInfo, ids: &mut UuidSource) -> (r: Self)
        ensures
            r.spec_identity() matches IdentityState::Runtime(rt) && rt.generation == 1
                && rt.boot_id.bytes@ == v4_bytes(old(ids).counter)
                && rt.id.bytes@ == v4_bytes(next_count(old(ids).counter)),
            r.spec_hardware() == HardwareState::from_boot_info_spec(boot_info),
            r.spec_memory_manager() is None,
            !r.spec_initialized(),
            final(ids).counter == next_count(next_count(old(ids).counter)),
    {
        let boot_identity = BootIdentity::cold_start(0, ids);
        let runtime_identity = RuntimeIdentity::from_boot(&boot_identity, 1, ids);
        SystemState {
            identity: IdentityState::Runtime(runtime_identity),
            hardware: HardwareState::from_boot_info(boot_info),
            memory_manager: None,
            is_initialized: false,
        }
    }

    /// Install a memory resource manager with `backend` as its only
    /// backend (resource id 0). Identity, hardware and the initialized flag
    /// are unchanged.
    pub fn init_memory(&mut self, backend: B)
        ensures
            final(self).spec_memory_manager() matches Some(m) && m.wf() && m.resource_ids()
                == seq![0u64] && m.spec_next_resource_id() == 1 && m.spec_next_object_id() == 1
                && m.spec_next_cap_id() == 1,
            final(self).spec_identity() == old(self).spec_identity(),
            final(self).spec_hardware() == old(self).spec_hardware(),
            final(self).spec_initialized() == old(self).spec_initialized(),
    {
        let mut mrm = MemoryResourceManager::new();
        let _id: Option<ResourceId> = mrm.register(backend);
        self.memory_manager = Some(mrm);
    }

    /// Mark the system initialized.
    pub fn initialize(&mut self)
        ensures
            final(self).spec_initialized(),
            final(self).spec_identity() == old(self).spec_identity(),
            final(self).spec_hardware() == old(self).spec_hardware(),
            final(self).spec_memory_manager() == old(self).spec_memory_manager(),
    {
        self.is_initialized = true;
    }

    pub fn is_initialized(&self) -> (r: bool)
        ensures
            r == self.spec_initialized(),
    {
        self.is_initialized
    }

    pub fn identity(&self) -> (r: &IdentityState)
        ensures
            *r == self.spec_identity(),
    {
        &self.identity
    }

    pub fn hardware(&self) -> (r: &HardwareState)
        ensures
            *r == self.spec_hardware(),
    {
        &self.hardware
    }

    /// The memory resource manager; it must have been installed.
    pub fn memory_manager(&self) -> (r: &MemoryResourceManager<B>)
        requires
            self.spec_memory_manager() is Some,
        ensures
            Some(*r) == self.spec_memory_manager(),
    {
        match &self.memory_manager {
            Some(m) => m,
            None => vstd::pervasive::unreached(),
        }
    }

    /// The memory resource manager for updates; it must have been installed.
    pub fn memory_manager_mut(&mut self) -> (r: &mut MemoryResourceManager<B>)
        requires
            old(self).spec_memory_manager() is Some,
        ensures
            Some(*r) == old(self).spec_memory_manager(),
            final(self).spec_memory_manager() == Some(*final(r)),
            final(self).spec_identity() == old(self).spec_identity(),
            final(self).spec_hardware() == old(self).spec_hardware(),
            final(self).spec_initialized() == old(self).spec_initialized(),
    {
        match &mut self.memory_manager {
            Some(m) => m,
            None => vstd::pervasive::unreached(),
        }
    }

    /// The runtime identity, once past boot.
    pub fn runtime_identity(&self) -> (r: Option<&RuntimeIdentity>)
        ensures
            r == match self.spec_identity() {
                IdentityState::Booting(_) => None,
                IdentityState::Runtime(rt) => Some(&rt),
                IdentityState::Persistent(_, rt) => Some(&rt),
            },
    {
        self.identity.runtime()
    }

    /// The current system id.
    pub fn current_id(&self) -> (r: Uuid)
        ensures
            r == match self.spec_identity() {
                IdentityState::Booting(b) => b.boot_id,
                IdentityState::Runtime(rt) => rt.id,
                IdentityState::Persistent(p, _) => p.id,
            },
    {
        self.identity.current_id()
    }

    /// The current generation.
    pub fn generation(&self) -> (r: u64)
        ensures
            r == match self.spec_identity() {
                IdentityState::Booting(_) => 0,
                IdentityState::Runtime(rt) => rt.generation,
                IdentityState::Persistent(_, rt) => rt.generation,
            },
    {
        self.identity.generation()
    }
}

} // verus!
