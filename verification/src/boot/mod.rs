//! Boot-time platform description: memory maps, memory discovery, the
//! hardware description IR, the early UARTs and the flattened device tree
//! scanner.
pub mod boot_info;
pub mod hardware;
pub mod memory_discovery;
pub mod platform;
pub mod uart;
pub mod fdt;
pub mod fdt_names;
pub mod fdt_tree;
pub mod console_select;
pub mod utf8;
