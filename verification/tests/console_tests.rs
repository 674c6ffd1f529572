use vivanta::boot::console_select::{
    h616_console, qemu_console, rk3568_console, ConsoleDevice, H616_UART0_BASE, RK3568_UART_BASE,
};
use vivanta::boot::hardware::{HardwareNode, MmioRegion};

fn node(compatible: &[u8], addr: u64, reg_shift: Option<u32>) -> HardwareNode {
    let mut n = HardwareNode::empty();
    n.compatible = compatible.to_vec();
    n.reg = Some(MmioRegion { addr, size: 0x1000 });
    n.reg_shift = reg_shift;
    n
}

#[test]
fn qemu_prefers_pl011() {
    assert_eq!(
        qemu_console(&node(b"arm,pl011", 0x0900_0000, None)),
        ConsoleDevice::Pl011 { base: 0x0900_0000, clock_hz: 24_000_000, baud: 115200 }
    );
    assert_eq!(
        qemu_console(&node(b"ns16550a", 0x1000_0000, None)),
        ConsoleDevice::Ns16550 { base: 0x1000_0000, reg_shift: 0 }
    );
    assert_eq!(
        qemu_console(&node(b"snps,dw-apb-uart", 0x1000_0000, Some(2))),
        ConsoleDevice::Ns16550 { base: 0x1000_0000, reg_shift: 2 }
    );
}

#[test]
fn rk3568_falls_back_to_uart2() {
    let n = node(b"rockchip,rk3568-uart", 0xFE66_0000, None);
    assert_eq!(rk3568_console(Some(&n)), (ConsoleDevice::Ns16550 { base: 0xFE66_0000, reg_shift: 2 }, true));
    let other = node(b"arm,pl011", 0x1234_0000, None);
    assert_eq!(rk3568_console(Some(&other)), (ConsoleDevice::Ns16550 { base: RK3568_UART_BASE, reg_shift: 2 }, false));
    assert_eq!(rk3568_console(None).1, false);
}

#[test]
fn h616_accepts_allwinner_uarts() {
    let n = node(b"allwinner,sun50i-h616-uart", 0x0500_0000, Some(2));
    assert_eq!(h616_console(Some(&n)), (ConsoleDevice::Ns16550 { base: 0x0500_0000, reg_shift: 2 }, true));
    assert_eq!(h616_console(None), (ConsoleDevice::Ns16550 { base: H616_UART0_BASE, reg_shift: 2 }, false));
}
