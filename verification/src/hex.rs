//! Hexadecimal digits: the spec-level meaning of a hex digit character and a
//! hex digit byte, and the executable conversions proved against it.

use vstd::prelude::*;

verus! {

/// A character that may stand in a hexadecimal pair: `0-9`, `a-f`, `A-F`.
pub open spec fn is_hex_digit(c: char) -> bool {
    ('0' <= c && c <= '9') || ('a' <= c && c <= 'f') || ('A' <= c && c <= 'F')
}

/// The numeric value of a hex digit character.
pub open spec fn hex_digit_value(c: char) -> u8
    recommends
        is_hex_digit(c),
{
    if '0' <= c && c <= '9' {
        (c as u8 - '0' as u8) as u8
    } else if 'a' <= c && c <= 'f' {
        (c as u8 - 'a' as u8 + 10) as u8
    } else {
        (c as u8 - 'A' as u8 + 10) as u8
    }
}

/// The byte written by a pair of hex digit characters, high digit first.
pub open spec fn hex_pair_value(hi: char, lo: char) -> u8
    recommends
        is_hex_digit(hi),
        is_hex_digit(lo),
{
    (hex_digit_value(hi) * 16 + hex_digit_value(lo)) as u8
}

/// A byte whose ASCII character is a hexadecimal digit.
pub open spec fn is_hex_byte(b: u8) -> bool {
    (48 <= b && b <= 57) || (97 <= b && b <= 102) || (65 <= b && b <= 70)
}

/// The numeric value of a hex digit byte.
pub open spec fn hex_byte_value(b: u8) -> u8
    recommends
        is_hex_byte(b),
{
    if 48 <= b && b <= 57 {
        (b - 48) as u8
    } else if 97 <= b && b <= 102 {
        (b - 97 + 10) as u8
    } else {
        (b - 65 + 10) as u8
    }
}

/// The byte written by a pair of hex digit bytes, high digit first.
pub open spec fn hex_byte_pair_value(hi: u8, lo: u8) -> u8
    recommends
        is_hex_byte(hi),
        is_hex_byte(lo),
{
    (hex_byte_value(hi) * 16 + hex_byte_value(lo)) as u8
}

/// Whether `c` is a hex digit, decided in executable code.
pub fn char_is_hex_digit(c: char) -> (r: bool)
    ensures
        r == is_hex_digit(c),
{
    ('0' <= c && c <= '9') || ('a' <= c && c <= 'f') || ('A' <= c && c <= 'F')
}

/// The value of a hex digit character, in executable code.
pub fn char_hex_value(c: char) -> (r: u8)
    requires
        is_hex_digit(c),
    ensures
        r == hex_digit_value(c),
{
    if '0' <= c && c <= '9' {
        c as u8 - '0' as u8
    } else if 'a' <= c && c <= 'f' {
        c as u8 - 'a' as u8 + 10
    } else {
        c as u8 - 'A' as u8 + 10
    }
}

} // verus!
