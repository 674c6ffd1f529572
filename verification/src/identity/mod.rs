//! Identity model: boot-time, runtime and persistent identity kept apart.
//!
//! - `BootIdentity`: identity established during boot
//! - `RuntimeIdentity`: identity active during kernel execution
//! - `PersistentIdentity`: identity that survives across reboots
pub mod boot;
pub mod persistent;
pub mod runtime;
pub mod state;
pub mod uuid;

pub use boot::BootIdentity;
pub use persistent::PersistentIdentity;
pub use runtime::RuntimeIdentity;
pub use state::{BootSource, IdentityState};
pub use uuid::{Uuid, UuidSource};
