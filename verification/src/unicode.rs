//! `\uXXXX` escapes: hex digits, UTF-16 surrogates, and the UTF-8 encoding
//! of the decoded code point.
use vstd::prelude::*;
use vstd::utf8::{encode_scalar, is_scalar};

verus! {

/// The value of a hexadecimal digit, or `None` if the byte is none.
pub open spec fn hex_value(b: u8) -> Option<u8> {
    if 0x30 <= b <= 0x39 {
        Some((b - 0x30) as u8)
    } else if 0x61 <= b <= 0x66 {
        Some((b - 0x61 + 10) as u8)
    } else if 0x41 <= b <= 0x46 {
        Some((b - 0x41 + 10) as u8)
    } else {
        None
    }
}

/// The 16-bit code unit that four hexadecimal digits spell, most
/// significant digit first, or `None` if one of the bytes is no such digit.
pub open spec fn hex4(d3: u8, d2: u8, d1: u8, d0: u8) -> Option<u16> {
    match (hex_value(d3), hex_value(d2), hex_value(d1), hex_value(d0)) {
        (Some(v3), Some(v2), Some(v1), Some(v0)) => Some(
            (v3 * 4096 + v2 * 256 + v1 * 16 + v0) as u16,
        ),
        _ => None,
    }
}

/// Whether a code unit is the first half of a UTF-16 surrogate pair.
pub open spec fn is_high_surrogate(unit: u16) -> bool {
    0xD800 <= unit <= 0xDBFF
}

/// Whether a code unit is the second half of a UTF-16 surrogate pair.
pub open spec fn is_low_surrogate(unit: u16) -> bool {
    0xDC00 <= unit <= 0xDFFF
}

/// The code point that a surrogate pair stands for.
pub open spec fn combine_surrogates(high: u16, low: u16) -> u32 {
    (0x10000 + (high - 0xD800) * 0x400 + (low - 0xDC00)) as u32
}

/// The value of a hexadecimal digit.
pub fn hex_digit(b: u8) -> (r: Option<u8>)
    ensures
        r == hex_value(b),
{
    if 0x30 <= b && b <= 0x39 {
        Some(b - 0x30)
    } else if 0x61 <= b && b <= 0x66 {
        Some(b - 0x61 + 10)
    } else if 0x41 <= b && b <= 0x46 {
        Some(b - 0x41 + 10)
    } else {
        None
    }
}

/// Read four hexadecimal digits as a 16-bit code unit.
pub fn parse_hex4(d3: u8, d2: u8, d1: u8, d0: u8) -> (r: Option<u16>)
    ensures
        r == hex4(d3, d2, d1, d0),
{
    let v3: u16 = match hex_digit(d3) {
        Some(v) => v as u16,
        None => {
            return None;
        },
    };
    let v2: u16 = match hex_digit(d2) {
        Some(v) => v as u16,
        None => {
            return None;
        },
    };
    let v1: u16 = match hex_digit(d1) {
        Some(v) => v as u16,
        None => {
            return None;
        },
    };
    let v0: u16 = match hex_digit(d0) {
        Some(v) => v as u16,
        None => {
            return None;
        },
    };
    Some(v3 * 4096 + v2 * 256 + v1 * 16 + v0)
}

/// Whether a code unit is the first half of a surrogate pair.
pub fn high_surrogate(unit: u16) -> (r: bool)
    ensures
        r == is_high_surrogate(unit),
{
    0xD800 <= unit && unit <= 0xDBFF
}

/// Whether a code unit is the second half of a surrogate pair.
pub fn low_surrogate(unit: u16) -> (r: bool)
    ensures
        r == is_low_surrogate(unit),
{
    0xDC00 <= unit && unit <= 0xDFFF
}

/// Combine the two halves of a surrogate pair into the code point that
/// they stand for, which lies beyond the basic plane.
pub fn combine(high: u16, low: u16) -> (r: u32)
    requires
        is_high_surrogate(high),
        is_low_surrogate(low),
    ensures
        r == combine_surrogates(high, low),
        0x10000 <= r <= 0x10FFFF,
        is_scalar(r),
{
    let h: u32 = (high - 0xD800) as u32;
    let l: u32 = (low - 0xDC00) as u32;
    0x10000 + h * 0x400 + l
}

/// Append the UTF-8 encoding of a Unicode scalar value to `buf`.
pub fn push_utf8(buf: &mut Vec<u8>, scalar: u32)
    requires
        is_scalar(scalar),
    ensures
        final(buf)@ == old(buf)@ + encode_scalar(scalar),
{
    if scalar <= 0x7F {
        assert(scalar & 0x7F < 0x100) by (bit_vector);
        buf.push((scalar & 0x7F) as u8);
        assert(buf@ =~= old(buf)@ + encode_scalar(scalar));
    } else if scalar <= 0x7FF {
        assert((scalar >> 6) & 0x1F < 0x100 && scalar & 0x3F < 0x100) by (bit_vector);
        buf.push(0xC0 | (((scalar >> 6) & 0x1F) as u8));
        buf.push(0x80 | ((scalar & 0x3F) as u8));
        assert(buf@ =~= old(buf)@ + encode_scalar(scalar));
    } else if scalar <= 0xFFFF {
        assert((scalar >> 12) & 0x0F < 0x100 && (scalar >> 6) & 0x3F < 0x100 && scalar & 0x3F
            < 0x100) by (bit_vector);
        buf.push(0xE0 | (((scalar >> 12) & 0x0F) as u8));
        buf.push(0x80 | (((scalar >> 6) & 0x3F) as u8));
        buf.push(0x80 | ((scalar & 0x3F) as u8));
        assert(buf@ =~= old(buf)@ + encode_scalar(scalar));
    } else {
        assert((scalar >> 18) & 0x7 < 0x100 && (scalar >> 12) & 0x3F < 0x100 && (scalar >> 6)
            & 0x3F < 0x100 && scalar & 0x3F < 0x100) by (bit_vector);
        buf.push(0xF0 | (((scalar >> 18) & 0x7) as u8));
        buf.push(0x80 | (((scalar >> 12) & 0x3F) as u8));
        buf.push(0x80 | (((scalar >> 6) & 0x3F) as u8));
        buf.push(0x80 | ((scalar & 0x3F) as u8));
        assert(buf@ =~= old(buf)@ + encode_scalar(scalar));
    }
}

} // verus!
