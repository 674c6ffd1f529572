//! Hardware state of the system.
use vstd::prelude::*;
use crate::boot::boot_info::BootInfo;

verus! {

/// The hardware state of the system.
#[derive(Debug, Clone, Copy, PartialEq, Eq, Structural)]
pub struct HardwareState {
    /// Physical address of the device tree, 0 when none was passed.
    pub dtb_ptr: usize,
}

impl HardwareState {
    /// The hardware state that `boot_info` describes.
    pub open spec fn from_boot_info_spec(boot_info: &BootInfo) -> HardwareState {
        HardwareState {
            dtb_ptr: match boot_info.dtb {
                Some(p) => p,
                None => 0,
            },
        }
    }

    /// A hardware state with no device tree.
    pub fn new() -> (r: Self)
        ensures
            r.dtb_ptr == 0,
    {
        HardwareState { dtb_ptr: 0 }
    }

    /// The hardware state described by the boot hand-over record.
    pub fn from_boot_info(boot_info: &BootInfo) -> (r: Self)
        ensures
            r == Self::from_boot_info_spec(boot_info),
    {
        HardwareState { dtb_ptr: boot_info.dtb.unwrap_or(0) }
    }
}

} // verus!
