use vstd::prelude::*;

pub mod boot;
pub mod elf;
pub mod error;
pub mod exec;
pub mod identity;
pub mod memory;
pub mod pmm;
pub mod scheduler;
pub mod signal;
pub mod state;
pub mod syscall;
pub mod usercopy;
pub mod verify;
pub mod vmm;

verus! {

} // verus!
