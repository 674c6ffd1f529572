//! Virtual memory manager: the software shadow of each address space (its
//! mapping set), the copy-on-write frame registry and the page-table frame
//! registry. The hardware page tables are programmed by the caller from the
//! plans these functions return.
pub mod cow_refcount;
pub mod mapping;
pub mod address_space;
pub mod registry;
pub mod tables;
pub mod faults;
pub mod laws;
pub mod map_laws;
pub mod audit;
pub mod runs;
