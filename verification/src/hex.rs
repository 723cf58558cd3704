//! Two-character upper-case hexadecimal expansion of a byte.

use vstd::prelude::*;

verus! {

/// ASCII `0`, the first of the ten decimal digits.
pub const ASCII_ZERO: u8 = 0x30;

/// ASCII `A`, the first of the six letters that follow the decimal digits.
pub const ASCII_UPPER_A: u8 = 0x41;

/// The ASCII code of the upper-case hexadecimal digit that stands for `n`.
pub open spec fn hex_digit(n: int) -> u8
    recommends
        0 <= n < 16,
{
    if n < 10 {
        (ASCII_ZERO + n) as u8
    } else {
        (ASCII_UPPER_A + (n - 10)) as u8
    }
}

/// The character for the upper four bits of `b`.
pub open spec fn hex_high(b: u8) -> u8 {
    hex_digit(b as int / 16)
}

/// The character for the lower four bits of `b`.
pub open spec fn hex_low(b: u8) -> u8 {
    hex_digit(b as int % 16)
}

/// `c` is one of the sixteen characters `0`-`9`, `A`-`F`.
pub open spec fn is_hex_char(c: u8) -> bool {
    (ASCII_ZERO <= c <= ASCII_ZERO + 9) || (ASCII_UPPER_A <= c <= ASCII_UPPER_A + 5)
}

/// The number that the hexadecimal character `c` stands for.
pub open spec fn hex_value(c: u8) -> int
    recommends
        is_hex_char(c),
{
    if c <= ASCII_ZERO + 9 {
        c - ASCII_ZERO
    } else {
        c - ASCII_UPPER_A + 10
    }
}

fn nibble_to_hex(n: u8) -> (c: u8)
    requires
        n < 16,
    ensures
        c == hex_digit(n as int),
{
    if n < 10 {
        ASCII_ZERO + n
    } else {
        ASCII_UPPER_A + (n - 10)
    }
}

/// Turns one byte into its two upper-case hexadecimal characters, the upper
/// four bits first.
pub fn byte_to_hex(b: &u8) -> (pair: [u8; 2])
    ensures
        pair[0] == hex_high(*b),
        pair[1] == hex_low(*b),
        is_hex_char(pair[0]),
        is_hex_char(pair[1]),
        16 * hex_value(pair[0]) + hex_value(pair[1]) == *b,
{
    let high: u8 = (*b & 0xf0) >> 4;
    let low: u8 = *b & 0xf;
    assert(high == *b / 16 && low == *b % 16) by (bit_vector)
        requires
            high == (*b & 0xf0) >> 4,
            low == *b & 0xf,
    ;
    [nibble_to_hex(high), nibble_to_hex(low)]
}

/// Both characters of an expanded byte are hexadecimal digits in upper case,
/// and read as a two-digit hexadecimal number they give the byte back.
pub proof fn lemma_hex_round_trip(b: u8)
    ensures
        is_hex_char(hex_high(b)),
        is_hex_char(hex_low(b)),
        16 * hex_value(hex_high(b)) + hex_value(hex_low(b)) == b,
{
}

/// Different bytes expand to different character pairs.
pub proof fn lemma_hex_injective(a: u8, b: u8)
    requires
        hex_high(a) == hex_high(b),
        hex_low(a) == hex_low(b),
    ensures
        a == b,
{
    lemma_hex_round_trip(a);
    lemma_hex_round_trip(b);
}

} // verus!
