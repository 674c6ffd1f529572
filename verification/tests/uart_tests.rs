use vivanta::boot::hardware::contains_bytes;
use vivanta::boot::uart::{console_bytes, Ns16550, Pl011};

#[test]
fn console_bytes_expand_newlines() {
    assert_eq!(console_bytes(b"a\nb"), b"a\r\nb".to_vec());
    assert_eq!(console_bytes(b""), Vec::<u8>::new());
}

#[test]
fn ns16550_register_layout() {
    let u = Ns16550::new(0x1000, 2);
    assert_eq!(u.reg_addr(0), 0x1000);
    assert_eq!(u.reg_addr(5), 0x1000 + 20);
    assert!(Ns16550::tx_ready(0x20));
    assert!(!Ns16550::tx_ready(0x01));
}

#[test]
fn pl011_registers_and_divisors() {
    let u = Pl011::new(0x0900_0000);
    assert_eq!(u.reg_addr(0x18), 0x0900_0018);
    assert!(Pl011::tx_full(1 << 5));
    assert!(!Pl011::tx_full(0));
    assert_eq!(Pl011::divisors(24_000_000, 115_200), (13, 1));
}

#[test]
fn contains_bytes_finds_substrings() {
    assert!(contains_bytes(b"arm,gic-v3", b"gic-v3"));
    assert!(contains_bytes(b"abc", b""));
    assert!(!contains_bytes(b"gic", b"gic-v3"));
}

#[test]
fn pl011_init_sequence() {
    assert_eq!(
        Pl011::init_writes(24_000_000, 115_200),
        vec![(0x30, 0), (0x24, 13), (0x28, 1), (0x2C, 0x70), (0x30, 0x301)]
    );
}
