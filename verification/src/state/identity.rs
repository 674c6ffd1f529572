//! The earlier identity types: a runtime identity numbered by a boot counter.
//! Superseded by the types of `crate::identity`.
use vstd::prelude::*;

verus! {

/// An identity numbered by the boot counter, with an (all-zero) public key.
#[derive(Debug, Clone, Copy, PartialEq, Eq)]
pub struct RuntimeIdentity {
    pub public_key: [u8; 32],
    pub boot_id: u64,
}

impl RuntimeIdentity {
    /// A new identity: zero key, and the counter's current value as boot id;
    /// the counter advances by one (wrapping).
    pub fn generate(counter: &mut u64) -> (r: Self)
        ensures
            r.boot_id == *old(counter),
            forall|i: int| 0 <= i < 32 ==> r.public_key@[i] == 0u8,
            *final(counter) == (if *old(counter) == u64::MAX {
                0
            } else {
                (*old(counter) + 1) as u64
            }),
    {
        let boot_id = *counter;
        *counter = counter.wrapping_add(1);
        RuntimeIdentity { public_key: [0u8; 32], boot_id }
    }
}

/// Whether the identity lives only for this boot or is kept across boots.
#[derive(Debug, Clone, Copy, PartialEq, Eq)]
pub enum IdentityState {
    Volatile(RuntimeIdentity),
    Persistent(RuntimeIdentity),
}

} // verus!
