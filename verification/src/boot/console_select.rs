//! Which UART a platform drives as its console: the decision the platform
//! adapters take from the device tree's console node. Programming the
//! UART is left to the caller.
use vstd::prelude::*;
use vstd::string::StringSliceAdditionalSpecFns;
use crate::boot::hardware::{bytes_contain, contains_bytes, HardwareNode, NS16550_FAMILY};

verus! {

/// The console UART to drive.
#[derive(Debug, Clone, Copy, PartialEq, Eq, Structural)]
pub enum ConsoleDevice {
    /// PL011 at `base`, programmed for `baud` from a `clock_hz` reference.
    Pl011 { base: usize, clock_hz: u32, baud: u32 },
    /// NS16550 at `base` with registers `1 << reg_shift` bytes apart.
    Ns16550 { base: usize, reg_shift: u8 },
}

/// Reference clock of the PL011 on QEMU `virt`.
pub const QEMU_PL011_CLOCK: u32 = 24_000_000;
/// Console baud rate.
pub const CONSOLE_BAUD: u32 = 115200;
/// RK3568 UART2 (debug console) base.
pub const RK3568_UART_BASE: usize = 0xFE66_0000;
/// Allwinner H616 UART0 base.
pub const H616_UART0_BASE: usize = 0x0500_0000;

/// The bytes of "pl011".
pub open spec fn pl011_name() -> Seq<u8> {
    seq![0x70u8, 0x6cu8, 0x30u8, 0x31u8, 0x31u8]
}

/// The bytes of "allwinner".
pub open spec fn allwinner_name() -> Seq<u8> {
    seq![0x61u8, 0x6cu8, 0x6cu8, 0x77u8, 0x69u8, 0x6eu8, 0x6eu8, 0x65u8, 0x72u8]
}

/// The compatible string names a member of the NS16550 family.
pub open spec fn ns16550_compatible(c: Seq<u8>) -> bool {
    exists|k: int| 0 <= k < 4 && bytes_contain(c, #[trigger] NS16550_FAMILY[k].spec_bytes())
}

/// Whether the node's compatible names an NS16550-family UART.
pub fn is_ns16550(node: &HardwareNode) -> (r: bool)
    ensures
        r == ns16550_compatible(node.compatible@),
{
    let fam = NS16550_FAMILY;
    let r = node.matches_any(&fam);
    assert(fam@ == NS16550_FAMILY@);
    r
}

/// Whether the node's compatible names a PL011.
pub fn is_pl011(node: &HardwareNode) -> (r: bool)
    ensures
        r == bytes_contain(node.compatible@, pl011_name()),
{
    let pl011: [u8; 5] = [0x70, 0x6c, 0x30, 0x31, 0x31];
    assert(pl011@ == pl011_name());
    contains_bytes(node.compatible.as_slice(), &pl011)
}

/// Whether the node's compatible names an Allwinner part.
pub fn is_allwinner(node: &HardwareNode) -> (r: bool)
    ensures
        r == bytes_contain(node.compatible@, allwinner_name()),
{
    let aw: [u8; 9] = [0x61, 0x6c, 0x6c, 0x77, 0x69, 0x6e, 0x6e, 0x65, 0x72];
    assert(aw@ == allwinner_name());
    contains_bytes(node.compatible.as_slice(), &aw)
}

/// QEMU `virt`: a PL011 console (24 MHz reference, 115200 baud) when the
/// node's compatible names a PL011, else an NS16550-family UART with the
/// node's register shift (0 by default). The node must have a `reg` range
/// and one of those compatibles.
pub fn qemu_console(node: &HardwareNode) -> (r: ConsoleDevice)
    requires
        node.reg is Some,
        bytes_contain(node.compatible@, pl011_name()) || ns16550_compatible(node.compatible@),
    ensures
        bytes_contain(node.compatible@, pl011_name()) ==> r == (ConsoleDevice::Pl011 {
            base: node.reg->0.addr as usize,
            clock_hz: QEMU_PL011_CLOCK,
            baud: CONSOLE_BAUD,
        }),
        !bytes_contain(node.compatible@, pl011_name()) ==> r == (ConsoleDevice::Ns16550 {
            base: node.reg->0.addr as usize,
            reg_shift: match node.reg_shift {
                Some(s) => s as u8,
                None => 0u8,
            },
        }),
{
    let base = match node.reg {
        Some(r) => r.addr as usize,
        None => vstd::pervasive::unreached(),
    };
    if is_pl011(node) {
        ConsoleDevice::Pl011 { base, clock_hz: QEMU_PL011_CLOCK, baud: CONSOLE_BAUD }
    } else {
        let shift: u32 = match node.reg_shift {
            Some(s) => s,
            None => 0,
        };
        ConsoleDevice::Ns16550 { base, reg_shift: shift as u8 }
    }
}

/// RK3568: the device tree's console when it is an NS16550-family UART
/// (register shift 2 by default), else the UART at `RK3568_UART_BASE`.
/// True when the device tree's console was taken. A taken node must have a
/// `reg` range.
pub fn rk3568_console(node: Option<&HardwareNode>) -> (r: (ConsoleDevice, bool))
    requires
        node matches Some(n) ==> (ns16550_compatible(n.compatible@) ==> n.reg is Some),
    ensures
        (node matches Some(n) && ns16550_compatible(n.compatible@)) ==> r == (
            ConsoleDevice::Ns16550 {
                base: node->0.reg->0.addr as usize,
                reg_shift: match node->0.reg_shift {
                    Some(s) => s as u8,
                    None => 2u8,
                },
            },
            true,
        ),
        !(node matches Some(n) && ns16550_compatible(n.compatible@)) ==> r == (
            ConsoleDevice::Ns16550 { base: RK3568_UART_BASE, reg_shift: 2 },
            false,
        ),
{
    match node {
        Some(n) => {
            if is_ns16550(n) {
                let base = match n.reg {
                    Some(r) => r.addr as usize,
                    None => vstd::pervasive::unreached(),
                };
                let shift: u32 = match n.reg_shift {
                    Some(s) => s,
                    None => 2,
                };
                return (ConsoleDevice::Ns16550 { base, reg_shift: shift as u8 }, true);
            }
        },
        None => {},
    }
    (ConsoleDevice::Ns16550 { base: RK3568_UART_BASE, reg_shift: 2 }, false)
}

/// Allwinner H616 family: the device tree's console when it is an
/// NS16550-family or Allwinner UART (register shift 2 by default), else
/// UART0 at `H616_UART0_BASE`. True when the device tree's console was
/// taken. A taken node must have a `reg` range.
pub fn h616_console(node: Option<&HardwareNode>) -> (r: (ConsoleDevice, bool))
    requires
        node matches Some(n) ==> ((ns16550_compatible(n.compatible@) || bytes_contain(n.compatible@, allwinner_name()))
            ==> n.reg is Some),
    ensures
        (node matches Some(n) && (ns16550_compatible(n.compatible@) || bytes_contain(n.compatible@, allwinner_name())))
            ==> r == (
            ConsoleDevice::Ns16550 {
                base: node->0.reg->0.addr as usize,
                reg_shift: match node->0.reg_shift {
                    Some(s) => s as u8,
                    None => 2u8,
                },
            },
            true,
        ),
        !(node matches Some(n) && (ns16550_compatible(n.compatible@) || bytes_contain(
            n.compatible@,
            allwinner_name(),
        ))) ==> r == (ConsoleDevice::Ns16550 { base: H616_UART0_BASE, reg_shift: 2 }, false),
{
    match node {
        Some(n) => {
            let allwinner = is_allwinner(n);
            if is_ns16550(n) || allwinner {
                let base = match n.reg {
                    Some(r) => r.addr as usize,
                    None => vstd::pervasive::unreached(),
                };
                let shift: u32 = match n.reg_shift {
                    Some(s) => s,
                    None => 2,
                };
                return (ConsoleDevice::Ns16550 { base, reg_shift: shift as u8 }, true);
            }
        },
        None => {},
    }
    (ConsoleDevice::Ns16550 { base: H616_UART0_BASE, reg_shift: 2 }, false)
}

} // verus!
