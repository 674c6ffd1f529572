//! Early-boot platform description: what the boot adapter hands over before
//! the console exists, and the diagnostic enums printed during bring-up.
use vstd::prelude::*;

verus! {

/// Platform-provided constants for early boot debug output.
#[derive(Debug, Clone, Copy, PartialEq, Eq, Structural)]
pub struct EarlyPlatformInfo {
    pub uart_base: usize,
}

/// Entry information passed from the bootloader to the kernel.
#[derive(Debug, Clone, Copy, PartialEq, Eq, Structural)]
pub struct BootContext {
    /// Physical address of the device tree blob.
    pub dtb: usize,
    pub flags: usize,
}

/// AArch32 translation scheme.
#[derive(Debug, Clone, Copy, PartialEq, Eq, Structural)]
pub enum LpaeMode {
    Short,
    Lpae,
}

/// CPU architecture the kernel was booted on (diagnostics only).
#[derive(Debug, Clone, Copy, PartialEq, Eq, Structural)]
#[non_exhaustive]
pub enum Architecture {
    AArch64,
    AArch32(LpaeMode),
    X86_64,
    Riscv64,
    Riscv32,
}

/// Firmware or loader that started the kernel (diagnostics only).
#[derive(Debug, Clone, Copy, PartialEq, Eq, Structural)]
#[non_exhaustive]
pub enum BootSource {
    Uefi,
    Bios,
    Uboot,
    OpenSbi,
    QemuKernel,
    Raw,
    ArmTrustedFirmware,
}

/// Page-table geometry of the running architecture.
#[derive(Debug, Clone, Copy)]
pub struct MemoryGeometry {
    pub page_size: usize,
    pub page_shift: u8,
    pub page_mask: usize,
    pub table_levels: u8,
    pub supported_block_sizes: &'static [usize],
}

/// Byte sink for early diagnostic output.
pub trait Console {
    fn write_str(&self, s: &str);
}

} // verus!
