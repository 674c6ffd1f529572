//! Hardware description IR: a flat, normalised view of the FDT for boot-time
//! driver initialisation. Not a device lifecycle or resource model.
use vstd::prelude::*;
use vstd::string::StringSliceAdditionalSpecFns;

verus! {

/// MMIO region discovered from the FDT.
#[derive(Debug, Clone, Copy, PartialEq, Eq, Structural)]
pub struct MmioRegion {
    pub addr: u64,
    pub size: u64,
}

/// A single hardware node discovered from the FDT: the minimum needed to
/// initialise a driver during early boot.
#[derive(Debug, Clone, PartialEq, Eq)]
pub struct HardwareNode {
    /// First compatible string (e.g. "arm,pl011", "ns16550a"), as bytes.
    pub compatible: Vec<u8>,
    /// MMIO range (reg property).
    pub reg: Option<MmioRegion>,
    /// First interrupt number.
    pub irq: Option<u32>,
    /// reg-shift property (NS16550-specific).
    pub reg_shift: Option<u32>,
    /// reg-io-width property.
    pub reg_io_width: Option<u32>,
    /// clock-frequency property.
    pub clock_frequency: Option<u32>,
    /// current-speed property.
    pub current_speed: Option<u32>,
}

/// Discovered interrupt controller at boot time.
#[derive(Debug, Clone, PartialEq, Eq)]
pub struct InterruptControllerInfo {
    /// First compatible string, as bytes.
    pub compatible: Vec<u8>,
    pub distributor: MmioRegion,
    pub redistributor: Option<MmioRegion>,
}

/// Known NS16550-family UART compatible strings observed on real hardware.
pub const NS16550_FAMILY: [&'static str; 4] = ["ns16550", "ns16550a", "snps,dw-apb-uart", "rockchip,rk3568-uart"];

/// `needle` occurs in `hay` as a contiguous run of bytes.
pub open spec fn bytes_contain(hay: Seq<u8>, needle: Seq<u8>) -> bool {
    exists|i: int| 0 <= i <= hay.len() - needle.len() && #[trigger] hay.subrange(i, i + needle.len()) == needle
}

/// Whether `needle` occurs in `hay`.
pub fn contains_bytes(hay: &[u8], needle: &[u8]) -> (r: bool)
    ensures
        r == bytes_contain(hay@, needle@),
{
    if needle.len() > hay.len() {
        return false;
    }
    let n = needle.len();
    let hl = hay.len();
    let last = hl - n;
    let mut i: usize = 0;
    while i <= last
        invariant
            n == needle@.len(),
            hl == hay@.len(),
            last == hay@.len() - n,
            0 <= i <= last + 1,
            forall|k: int| 0 <= k < i ==> #[trigger] hay@.subrange(k, k + n) != needle@,
        decreases last + 1 - i,
    {
        let mut j: usize = 0;
        let mut same = true;
        while j < n
            invariant
                n == needle@.len(),
                hl == hay@.len(),
                i + n <= hl,
                0 <= j <= n,
                same <==> forall|m: int| 0 <= m < j ==> hay@[i + m] == #[trigger] needle@[m],
            decreases n - j,
        {
            if hay[i + j] != needle[j] {
                same = false;
            }
            j = j + 1;
        }
        if same {
            assert(hay@.subrange(i as int, i + n) =~= needle@);
            return true;
        }
        assert(hay@.subrange(i as int, i + n) != needle@) by {
            let m = choose|m: int| 0 <= m < n && !(hay@[i + m] == needle@[m]);
            assert(hay@.subrange(i as int, i + n)[m] == hay@[i + m]);
        }
        if i == last {
            return false;
        }
        i = i + 1;
    }
    false
}

impl HardwareNode {
    /// A node with no properties.
    pub fn empty() -> (r: Self)
        ensures
            r.compatible@.len() == 0,
            r.reg is None,
            r.irq is None,
            r.reg_shift is None,
            r.reg_io_width is None,
            r.clock_frequency is None,
            r.current_speed is None,
    {
        HardwareNode {
            compatible: Vec::new(),
            reg: None,
            irq: None,
            reg_shift: None,
            reg_io_width: None,
            clock_frequency: None,
            current_speed: None,
        }
    }

    /// Whether the compatible string contains any of the family patterns.
    /// Deliberately not a driver-binding system: a flat list that grows when
    /// a new physical UART variant is met on real hardware.
    pub fn matches_any(&self, patterns: &[&str]) -> (r: bool)
        ensures
            r == exists|k: int|
                0 <= k < patterns@.len() && bytes_contain(
                    self.compatible@,
                    #[trigger] patterns@[k].spec_bytes(),
                ),
    {
        let mut k: usize = 0;
        while k < patterns.len()
            invariant
                0 <= k <= patterns@.len(),
                forall|m: int| 0 <= m < k ==> !bytes_contain(self.compatible@, #[trigger] patterns@[m].spec_bytes()),
            decreases patterns@.len() - k,
        {
            if contains_bytes(self.compatible.as_slice(), patterns[k].as_bytes()) {
                return true;
            }
            k = k + 1;
        }
        false
    }
}

} // verus!
