//! Simple counter-based UUID v4 generator for environments without a
//! random source.
use vstd::prelude::*;

verus! {

/// A 128-bit UUID.
#[derive(Debug, Clone, Copy, PartialEq, Eq)]
pub struct Uuid {
    pub bytes: [u8; 16],
}

/// The counter that numbers generated UUIDs; each generation takes the next
/// value (wrapping).
#[derive(Debug, Clone, Copy, PartialEq, Eq, Structural)]
pub struct UuidSource {
    pub counter: u64,
}

/// The bytes of the UUID generated from counter value `c`: `c` little-endian
/// in bytes 0..8 with the version nibble (4) in the high half of byte 6, the
/// RFC 4122 variant (0x80) in byte 8, zeros elsewhere.
pub open spec fn v4_bytes(c: u64) -> Seq<u8> {
    seq![
        c as u8,
        (c >> 8u64) as u8,
        (c >> 16u64) as u8,
        (c >> 24u64) as u8,
        (c >> 32u64) as u8,
        (c >> 40u64) as u8,
        (((c >> 48u64) as u8) & 0x0fu8) | 0x40u8,
        (c >> 56u64) as u8,
        0x80u8,
        0u8,
        0u8,
        0u8,
        0u8,
        0u8,
        0u8,
        0u8,
    ]
}

/// Lowercase ASCII hex digit of `n` (`n < 16`).
pub open spec fn hex_digit(n: u8) -> u8 {
    if n < 10 {
        (48 + n) as u8
    } else {
        (87 + n) as u8
    }
}

/// A group boundary of the hyphenated form falls before bytes 4, 6, 8, 10.
pub open spec fn starts_group(i: int) -> bool {
    i == 4 || i == 6 || i == 8 || i == 10
}

/// Hyphenated text of the first `n` bytes of `b`: each byte as two
/// lowercase hex digits, high nibble first, with a `-` before each group.
pub open spec fn hyphenated_prefix(b: Seq<u8>, n: int) -> Seq<u8>
    decreases n,
{
    if n <= 0 {
        Seq::empty()
    } else {
        let before = hyphenated_prefix(b, n - 1);
        let sep: Seq<u8> = if starts_group(n - 1) {
            seq![45u8]
        } else {
            Seq::empty()
        };
        before + sep + seq![hex_digit(b[n - 1] / 16), hex_digit(b[n - 1] % 16)]
    }
}

/// The canonical 8-4-4-4-12 text of a UUID, as ASCII bytes.
pub open spec fn hyphenated(b: Seq<u8>) -> Seq<u8> {
    hyphenated_prefix(b, 16)
}

fn hex_digit_exec(n: u8) -> (r: u8)
    requires
        n < 16,
    ensures
        r == hex_digit(n),
{
    if n < 10 {
        48 + n
    } else {
        87 + n
    }
}

impl UuidSource {
    /// A source whose first UUID uses counter value 0.
    pub fn new() -> (r: Self)
        ensures
            r.counter == 0,
    {
        UuidSource { counter: 0 }
    }
}

impl Uuid {
    /// Generate the next UUID v4 from `source`.
    pub fn new_v4(source: &mut UuidSource) -> (r: Self)
        ensures
            r.bytes@ == v4_bytes(old(source).counter),
            final(source).counter == (if old(source).counter == u64::MAX {
                0
            } else {
                old(source).counter + 1
            }),
    {
        let c = source.counter;
        source.counter = c.wrapping_add(1);
        let mut bytes = [0u8; 16];
        bytes[0] = c as u8;
        bytes[1] = (c >> 8u64) as u8;
        bytes[2] = (c >> 16u64) as u8;
        bytes[3] = (c >> 24u64) as u8;
        bytes[4] = (c >> 32u64) as u8;
        bytes[5] = (c >> 40u64) as u8;
        bytes[6] = (((c >> 48u64) as u8) & 0x0fu8) | 0x40u8;
        bytes[7] = (c >> 56u64) as u8;
        bytes[8] = 0x80;
        let r = Uuid { bytes };
        assert(r.bytes@ =~= v4_bytes(c));
        r
    }

    /// The nil UUID (all zeros).
    pub fn nil() -> (r: Self)
        ensures
            forall|i: int| 0 <= i < 16 ==> #[trigger] r.bytes@[i] == 0,
    {
        Uuid { bytes: [0u8; 16] }
    }

    /// The canonical text `xxxxxxxx-xxxx-xxxx-xxxx-xxxxxxxxxxxx` in
    /// lowercase hex, as ASCII bytes.
    pub fn hyphenated(&self) -> (r: Vec<u8>)
        ensures
            r@ == hyphenated(self.bytes@),
    {
        let mut out: Vec<u8> = Vec::new();
        let mut i: usize = 0;
        while i < 16
            invariant
                0 <= i <= 16,
                out@ == hyphenated_prefix(self.bytes@, i as int),
            decreases 16 - i,
        {
            if i == 4 || i == 6 || i == 8 || i == 10 {
                out.push(45u8);
            }
            let b = self.bytes[i];
            out.push(hex_digit_exec(b / 16));
            out.push(hex_digit_exec(b % 16));
            i = i + 1;
            assert(out@ =~= hyphenated_prefix(self.bytes@, i as int));
        }
        out
    }

    /// True if every byte is zero.
    pub fn is_nil(&self) -> (r: bool)
        ensures
            r == (forall|i: int| 0 <= i < 16 ==> #[trigger] self.bytes@[i] == 0),
    {
        let mut i: usize = 0;
        while i < 16
            invariant
                0 <= i <= 16,
                forall|j: int| 0 <= j < i ==> #[trigger] self.bytes@[j] == 0,
            decreases 16 - i,
        {
            if self.bytes[i] != 0 {
                return false;
            }
            i = i + 1;
        }
        true
    }
}

impl Default for Uuid {
    fn default() -> (r: Self)
        ensures
            forall|i: int| 0 <= i < 16 ==> #[trigger] r.bytes@[i] == 0,
    {
        Uuid::nil()
    }
}

/// Generated UUIDs carry the version-4 nibble and the RFC 4122 variant, so
/// they are never nil.
pub proof fn law_v4_not_nil(c: u64)
    ensures
        v4_bytes(c)[8] == 0x80,
        v4_bytes(c)[6] & 0xf0u8 == 0x40,
        !(forall|i: int| 0 <= i < 16 ==> #[trigger] v4_bytes(c)[i] == 0),
{
    let b = (c >> 48u64) as u8;
    assert((b & 0x0fu8 | 0x40u8) & 0xf0u8 == 0x40u8) by (bit_vector);
    assert(v4_bytes(c)[8] != 0);
}

/// Two counter values that differ in their low 52 bits (the bits that are
/// not overwritten by the version nibble) give different UUIDs; so a source
/// hands out 2^52 distinct UUIDs in a row.
pub proof fn law_v4_distinct(a: u64, b: u64)
    requires
        a % 0x10_0000_0000_0000 != b % 0x10_0000_0000_0000,
    ensures
        v4_bytes(a) != v4_bytes(b),
{
    if v4_bytes(a) == v4_bytes(b) {
        assert(v4_bytes(a)[0] == v4_bytes(b)[0]);
        assert(v4_bytes(a)[1] == v4_bytes(b)[1]);
        assert(v4_bytes(a)[2] == v4_bytes(b)[2]);
        assert(v4_bytes(a)[3] == v4_bytes(b)[3]);
        assert(v4_bytes(a)[4] == v4_bytes(b)[4]);
        assert(v4_bytes(a)[5] == v4_bytes(b)[5]);
        assert(v4_bytes(a)[6] == v4_bytes(b)[6]);
        assert(a % 0x10_0000_0000_0000 == b % 0x10_0000_0000_0000) by (bit_vector)
            requires
                a as u8 == b as u8,
                (a >> 8u64) as u8 == (b >> 8u64) as u8,
                (a >> 16u64) as u8 == (b >> 16u64) as u8,
                (a >> 24u64) as u8 == (b >> 24u64) as u8,
                (a >> 32u64) as u8 == (b >> 32u64) as u8,
                (a >> 40u64) as u8 == (b >> 40u64) as u8,
                (((a >> 48u64) as u8) & 0x0fu8) | 0x40u8 == (((b >> 48u64) as u8) & 0x0fu8) | 0x40u8,
        ;
    }
}

} // verus!
