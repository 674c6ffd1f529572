//! Memory backends: descriptions of heterogeneous physical memory resources.
use vstd::prelude::*;

verus! {

/// Physical address returned by a backend allocation.
pub type PhysAddr = u64;

/// Resource identifier: opaque handle used by the resource manager and by
/// memory objects.
pub type ResourceId = u64;

/// Backend allocation failures.
#[derive(Debug, Clone, Copy, PartialEq, Eq, Structural)]
pub enum AllocError {
    OutOfCapacity,
    AlignmentNotSupported,
    ResourceUnavailable,
}

/// Classification of memory latency.
#[derive(Debug, Clone, Copy, PartialEq, Eq, Structural)]
pub enum LatencyClass {
    /// e.g. on-package HBM, LLC
    Near,
    /// e.g. DDR4/5
    Main,
    /// e.g. CXL-attached, NUMA remote
    Far,
    /// e.g. SSD, persistent memory
    Storage,
}

/// Classification of memory bandwidth.
#[derive(Debug, Clone, Copy, PartialEq, Eq, Structural)]
pub enum BandwidthClass {
    /// e.g. HBM (>500 GB/s)
    Extreme,
    /// e.g. DDR5 (>50 GB/s)
    High,
    /// e.g. DDR4, CXL (>10 GB/s)
    Medium,
    /// e.g. SSD
    Low,
}

/// Persistence type.
#[derive(Debug, Clone, Copy, PartialEq, Eq, Structural)]
pub enum PersistenceType {
    Volatile,
    Persistent,
}

/// Coherence model.
#[derive(Debug, Clone, Copy, PartialEq, Eq, Structural)]
pub enum CoherenceModel {
    FullyCoherent,
    IoCoherent,
    NonCoherent,
}

/// Reliability class.
#[derive(Debug, Clone, Copy, PartialEq, Eq, Structural)]
pub enum ReliabilityClass {
    /// ECC protected
    Server,
    /// no ECC
    Consumer,
}

/// Power cost class.
#[derive(Debug, Clone, Copy, PartialEq, Eq, Structural)]
pub enum PowerClass {
    Low,
    Medium,
    High,
}

/// Static properties of a memory backend.
#[derive(Debug, Clone, Copy, PartialEq, Eq, Structural)]
pub struct MemoryProperties {
    pub capacity: usize,
    pub latency_ns: u32,
    pub bandwidth_mb_s: u64,
    pub persistence: PersistenceType,
    pub coherence: CoherenceModel,
    pub reliability: ReliabilityClass,
    pub power: PowerClass,
    pub latency_class: LatencyClass,
    pub bandwidth_class: BandwidthClass,
}

impl MemoryProperties {
    /// The properties of typical 4 GiB system DRAM.
    pub open spec fn dram_4gb_spec() -> Self {
        MemoryProperties {
                capacity: 0x1_0000_0000u64 as usize,
                latency_ns: 80,
                bandwidth_mb_s: 25000,
                persistence: PersistenceType::Volatile,
                coherence: CoherenceModel::FullyCoherent,
                reliability: ReliabilityClass::Consumer,
                power: PowerClass::Medium,
                latency_class: LatencyClass::Main,
                bandwidth_class: BandwidthClass::High,
            }
    }

    pub fn dram_4gb() -> (r: Self)
        ensures
            r == Self::dram_4gb_spec(),
    {
        MemoryProperties {
            capacity: 0x1_0000_0000u64 as usize,
            latency_ns: 80,
            bandwidth_mb_s: 25000,
            persistence: PersistenceType::Volatile,
            coherence: CoherenceModel::FullyCoherent,
            reliability: ReliabilityClass::Consumer,
            power: PowerClass::Medium,
            latency_class: LatencyClass::Main,
            bandwidth_class: BandwidthClass::High,
        }
    }
}

/// A backend that provides physical memory pages.
///
/// Each backend corresponds to a single type of hardware memory resource
/// (system RAM, CXL-attached memory, VRAM, persistent memory). Each backend
/// states of itself what an allocation answers and leaves behind
/// ([`MemoryBackend::allocate_outcome`]); its properties are static.
pub trait MemoryBackend: Sized {
    /// An `allocate(size, align)` call on `self` may answer `r` and leave the
    /// backend as `after`.
    spec fn allocate_outcome(&self, size: u64, align: u64, r: Result<PhysAddr, AllocError>, after: Self) -> bool;

    /// Allocate a contiguous region of physical memory.
    fn allocate(&mut self, size: u64, align: u64) -> (r: Result<PhysAddr, AllocError>)
        ensures
            old(self).allocate_outcome(size, align, r, *final(self)),
            final(self).backend_properties() == old(self).backend_properties(),
    ;

    /// Deallocate a previously allocated region.
    fn deallocate(&mut self, addr: PhysAddr, size: u64);

    /// The static properties of this backend, as a value.
    spec fn backend_properties(&self) -> MemoryProperties;

    /// The static properties of this backend.
    fn properties(&self) -> (r: MemoryProperties)
        ensures
            r == self.backend_properties(),
    ;

    /// Human-readable name (for diagnostics).
    fn name(&self) -> &'static str;
}

} // verus!
