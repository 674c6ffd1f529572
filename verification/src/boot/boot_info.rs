//! Boot-information contract types: the physical memory map handed over by
//! the boot adapter.
use vstd::prelude::*;

verus! {

/// What a physical memory region is used for.
#[derive(Debug, Clone, Copy, PartialEq, Eq, Structural)]
pub enum MemoryRegionKind {
    /// Free RAM the kernel may use.
    Usable,
    /// RAM that must not be touched (firmware, reserved-memory nodes).
    Reserved,
    /// Memory-mapped device registers.
    Mmio,
    /// Memory the bootloader used that may be reclaimed once its data is no
    /// longer needed (not usable before then).
    BootloaderReclaimable,
    /// The kernel image itself.
    KernelImage,
    /// Memory owned by a device.
    DeviceMemory,
    /// A framebuffer.
    Framebuffer,
}

/// One region of the physical memory map.
#[derive(Debug, Clone, Copy, PartialEq, Eq, Structural)]
pub struct MemoryRegion {
    pub start: u64,
    pub size: u64,
    pub kind: MemoryRegionKind,
}

/// The physical memory map, in discovery order.
pub struct MemoryMap {
    regions: Vec<MemoryRegion>,
}

impl MemoryMap {
    /// The regions, in discovery order.
    pub closed spec fn spec_regions(&self) -> Seq<MemoryRegion> {
        self.regions@
    }

    pub fn new() -> (r: Self)
        ensures
            r.spec_regions() == Seq::<MemoryRegion>::empty(),
    {
        MemoryMap { regions: Vec::new() }
    }

    /// Append a region.
    pub fn push(&mut self, region: MemoryRegion)
        ensures
            final(self).spec_regions() == old(self).spec_regions().push(region),
    {
        self.regions.push(region);
    }

    /// The regions, in discovery order.
    pub fn regions(&self) -> (r: &[MemoryRegion])
        ensures
            r@ == self.spec_regions(),
    {
        self.regions.as_slice()
    }
}

/// What the kernel reads of the hand-over record from the boot adapter.
#[derive(Debug, Clone, Copy, PartialEq, Eq, Structural)]
pub struct BootInfo {
    /// Physical address of the flattened device tree, when one was passed.
    pub dtb: Option<usize>,
}

} // verus!
