//! Resource-oriented memory model: capabilities, backend descriptions, the
//! placement policy engine, memory objects and the resource manager.
pub mod capability;
pub mod manager;
pub mod kernel_heap;

pub mod object;
pub mod object_vm;
pub mod pmm_backend;
pub mod policy;
pub mod resource;
