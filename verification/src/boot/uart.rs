//! Register-level logic of the two early UARTs (NS16550 family and ARM
//! PL011): register addresses, status bits, baud divisors and the byte
//! stream a console write produces. The volatile accesses themselves are
//! performed by the caller.
use vstd::prelude::*;

verus! {

/// The bytes a console write sends to the line: every `\n` becomes `\r\n`.
pub open spec fn crlf(s: Seq<u8>) -> Seq<u8>
    decreases s.len(),
{
    if s.len() == 0 {
        Seq::empty()
    } else if s.last() == 10u8 {
        crlf(s.drop_last()) + seq![13u8, 10u8]
    } else {
        crlf(s.drop_last()).push(s.last())
    }
}

/// The line bytes for writing `s` to a UART console.
pub fn console_bytes(s: &[u8]) -> (r: Vec<u8>)
    ensures
        r@ == crlf(s@),
{
    let mut out: Vec<u8> = Vec::new();
    let mut i: usize = 0;
    while i < s.len()
        invariant
            0 <= i <= s@.len(),
            out@ == crlf(s@.take(i as int)),
        decreases s@.len() - i,
    {
        let b = s[i];
        assert(s@.take(i + 1).drop_last() =~= s@.take(i as int));
        if b == 10u8 {
            out.push(13u8);
            out.push(10u8);
        } else {
            out.push(b);
        }
        i = i + 1;
    }
    assert(s@.take(s@.len() as int) =~= s@);
    out
}

/// NS16550-compatible UART with 32-bit wide, `reg_shift`-spaced registers.
#[derive(Debug, Clone, Copy, PartialEq, Eq, Structural)]
pub struct Ns16550 {
    pub base: usize,
    pub reg_shift: u8,
}

/// Transmit holding register index.
pub const NS16550_THR: u8 = 0;
/// Line status register index.
pub const NS16550_LSR: u8 = 5;

impl Ns16550 {
    pub fn new(base: usize, reg_shift: u8) -> (r: Self)
        ensures
            r.base == base,
            r.reg_shift == reg_shift,
    {
        Ns16550 { base, reg_shift }
    }

    /// Address of register number `reg`: registers are `1 << reg_shift`
    /// bytes apart.
    pub fn reg_addr(&self, reg: u8) -> (r: usize)
        requires
            self.reg_shift < 32,
            self.base + ((reg as usize) << (self.reg_shift as usize)) <= usize::MAX,
        ensures
            r == self.base + ((reg as usize) << (self.reg_shift as usize)),
    {
        self.base + ((reg as usize) << (self.reg_shift as usize))
    }

    /// Whether the line status value reports an empty transmitter (bit 5).
    pub fn tx_ready(lsr: u32) -> (r: bool)
        ensures
            r == (lsr & 0x20 != 0),
    {
        lsr & 0x20 != 0
    }
}

/// ARM PL011 UART.
#[derive(Debug, Clone, Copy, PartialEq, Eq, Structural)]
pub struct Pl011 {
    pub base: usize,
}

/// Data register offset.
pub const PL011_DR: u32 = 0x00;
/// Flag register offset.
pub const PL011_FR: u32 = 0x18;
/// Integer baud-rate divisor register offset.
pub const PL011_IBRD: u32 = 0x24;
/// Fractional baud-rate divisor register offset.
pub const PL011_FBRD: u32 = 0x28;
/// Line control register offset.
pub const PL011_LCR_H: u32 = 0x2C;
/// Control register offset.
pub const PL011_CR: u32 = 0x30;

/// Integer and fractional baud divisors for a reference clock and baud rate.
pub open spec fn pl011_divisors(clock_hz: u32, baud: u32) -> (u32, u32) {
    let div: int = 16 * baud;
    let ibrd: int = clock_hz as int / div;
    let rem: int = clock_hz as int % div;
    (ibrd as u32, ((rem * 64 + div / 2) / div) as u32)
}

impl Pl011 {
    pub fn new(base: usize) -> (r: Self)
        ensures
            r.base == base,
    {
        Pl011 { base }
    }

    /// Address of the register at byte `offset` (offsets are word aligned).
    pub fn reg_addr(&self, offset: u32) -> (r: usize)
        requires
            self.base + offset <= usize::MAX,
        ensures
            r == self.base + (offset / 4) * 4,
    {
        self.base + (offset / 4) as usize * 4
    }

    /// Whether the flag register reports a full transmit FIFO (bit 5).
    pub fn tx_full(fr: u32) -> (r: bool)
        ensures
            r == (fr & 0x20 != 0),
    {
        fr & 0x20 != 0
    }

    /// The baud divisors `(IBRD, FBRD)` programmed by `init`.
    pub fn divisors(clock_hz: u32, baud: u32) -> (r: (u32, u32))
        requires
            0 < baud,
            16 * baud <= u32::MAX,
            (clock_hz as int % (16 * baud as int)) * 64 + 8 * baud <= u32::MAX,
        ensures
            r == pl011_divisors(clock_hz, baud),
    {
        let div = 16 * baud;
        let ibrd = clock_hz / div;
        let rem = clock_hz % div;
        let fbrd = (rem * 64 + div / 2) / div;
        (ibrd, fbrd)
    }

    /// The register writes of `init`, in order, as `(offset, value)`:
    /// disable, program the divisors, 8N1 with FIFOs, enable TX/RX.
    pub fn init_writes(clock_hz: u32, baud: u32) -> (r: Vec<(u32, u32)>)
        requires
            0 < baud,
            16 * baud <= u32::MAX,
            (clock_hz as int % (16 * baud as int)) * 64 + 8 * baud <= u32::MAX,
        ensures
            r@ == seq![
                (PL011_CR, 0u32),
                (PL011_IBRD, pl011_divisors(clock_hz, baud).0),
                (PL011_FBRD, pl011_divisors(clock_hz, baud).1),
                (PL011_LCR_H, 0x70u32),
                (PL011_CR, 0x301u32),
            ],
    {
        let (ibrd, fbrd) = Self::divisors(clock_hz, baud);
        let mut w: Vec<(u32, u32)> = Vec::new();
        w.push((PL011_CR, 0));
        w.push((PL011_IBRD, ibrd));
        w.push((PL011_FBRD, fbrd));
        w.push((PL011_LCR_H, 0x70));
        w.push((PL011_CR, 0x301));
        w
    }
}

} // verus!
