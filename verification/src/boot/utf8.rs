//! Well-formed UTF-8, as the standard library's string conversion checks it
//! (no overlong forms, no surrogates, nothing above U+10FFFF).
use vstd::prelude::*;

verus! {

/// A continuation byte.
pub open spec fn cont(x: u8) -> bool {
    0x80 <= x <= 0xBF
}

/// Length of the well-formed character that starts at `s[i]` and ends
/// before `end`; 0 when none does.
pub open spec fn char_len(s: Seq<u8>, i: int, end: int) -> int {
    let b0 = s[i];
    if b0 < 0x80 {
        1
    } else if 0xC2 <= b0 <= 0xDF {
        if i + 1 < end && cont(s[i + 1]) {
            2
        } else {
            0
        }
    } else if 0xE0 <= b0 <= 0xEF {
        let lo: u8 = if b0 == 0xE0 { 0xA0 } else { 0x80 };
        let hi: u8 = if b0 == 0xED { 0x9F } else { 0xBF };
        if end - i > 2 && lo <= s[i + 1] <= hi && cont(s[i + 2]) {
            3
        } else {
            0
        }
    } else if 0xF0 <= b0 <= 0xF4 {
        let lo: u8 = if b0 == 0xF0 { 0x90 } else { 0x80 };
        let hi: u8 = if b0 == 0xF4 { 0x8F } else { 0xBF };
        if end - i > 3 && lo <= s[i + 1] <= hi && cont(s[i + 2]) && cont(s[i + 3]) {
            4
        } else {
            0
        }
    } else {
        0
    }
}

/// The bytes `s[i..end)` are well-formed UTF-8.
pub open spec fn utf8_from(s: Seq<u8>, i: int, end: int) -> bool
    decreases end - i,
{
    if i >= end {
        true
    } else {
        let n = char_len(s, i, end);
        if n > 0 {
            utf8_from(s, i + n, end)
        } else {
            false
        }
    }
}

fn char_len_at(b: &[u8], i: usize, end: usize) -> (r: usize)
    requires
        i < end <= b@.len(),
    ensures
        r == char_len(b@, i as int, end as int),
{
    let b0 = b[i];
    if b0 < 0x80 {
        1
    } else if 0xC2 <= b0 && b0 <= 0xDF {
        if end - i > 1 && 0x80 <= b[i + 1] && b[i + 1] <= 0xBF {
            2
        } else {
            0
        }
    } else if 0xE0 <= b0 && b0 <= 0xEF {
        let lo: u8 = if b0 == 0xE0 { 0xA0 } else { 0x80 };
        let hi: u8 = if b0 == 0xED { 0x9F } else { 0xBF };
        if end - i > 2 && lo <= b[i + 1] && b[i + 1] <= hi && 0x80 <= b[i + 2] && b[i + 2] <= 0xBF {
            3
        } else {
            0
        }
    } else if 0xF0 <= b0 && b0 <= 0xF4 {
        let lo: u8 = if b0 == 0xF0 { 0x90 } else { 0x80 };
        let hi: u8 = if b0 == 0xF4 { 0x8F } else { 0xBF };
        if end - i > 3 && lo <= b[i + 1] && b[i + 1] <= hi && 0x80 <= b[i + 2] && b[i + 2] <= 0xBF
            && 0x80 <= b[i + 3] && b[i + 3] <= 0xBF {
            4
        } else {
            0
        }
    } else {
        0
    }
}

/// Whether `b[start..end)` is well-formed UTF-8.
pub fn is_utf8(b: &[u8], start: usize, end: usize) -> (r: bool)
    requires
        start <= end <= b@.len(),
    ensures
        r == utf8_from(b@, start as int, end as int),
{
    let mut i = start;
    while i < end
        invariant
            start <= i <= end,
            end <= b@.len(),
            utf8_from(b@, start as int, end as int) == utf8_from(b@, i as int, end as int),
        decreases end - i,
    {
        let n = char_len_at(b, i, end);
        if n == 0 {
            return false;
        }
        i = i + n;
    }
    true
}

} // verus!
