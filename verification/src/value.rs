//! Reading the bytes of a scalar value: as a string, and as an integer.
use btoi::ParseIntegerError;
use vstd::prelude::*;
use vstd::utf8::{encode_utf8, valid_utf8};

verus! {

/// `btoi::ParseIntegerError`, the error of `btoi::btoi`. Nothing is known
/// of what it holds.
#[verifier::external_type_specification]
#[verifier::external_body]
pub struct ExParseIntegerError(ParseIntegerError);

/// The error of reading the current value as an integer: its bytes are not
/// the decimal digits of an integer, or the integer does not fit.
#[derive(Debug)]
pub struct InvalidIntValueError(pub ParseIntegerError);

/// Whether every byte is a decimal digit.
pub open spec fn all_digits(s: Seq<u8>) -> bool {
    forall|i: int| 0 <= i < s.len() ==> 0x30 <= #[trigger] s[i] <= 0x39
}

/// The number that a sequence of decimal digits spells.
pub open spec fn decimal_value(digits: Seq<u8>) -> nat
    decreases digits.len(),
{
    if digits.len() == 0 {
        0
    } else {
        (decimal_value(digits.drop_last()) * 10 + (digits.last() - 0x30)) as nat
    }
}

/// The integer that the bytes spell: decimal digits, at least one, after an
/// optional sign `-` or `+`. `None` if the bytes are of another form.
pub open spec fn integer_text(s: Seq<u8>) -> Option<int> {
    if s.len() > 0 && (s[0] == 0x2D || s[0] == 0x2B) {
        if s.len() > 1 && all_digits(s.skip(1)) {
            if s[0] == 0x2D {
                Some(-(decimal_value(s.skip(1)) as int))
            } else {
                Some(decimal_value(s.skip(1)) as int)
            }
        } else {
            None
        }
    } else if s.len() > 0 && all_digits(s) {
        Some(decimal_value(s) as int)
    } else {
        None
    }
}

/// `btoi::btoi` at the type `i64`: the integer that the bytes spell in
/// decimal digits after an optional sign. It fails if there is no digit, if
/// a byte after the sign is no digit, and if the number does not fit in an
/// `i64`.
#[verifier::external_body]
pub(crate) fn btoi_i64(bytes: &[u8]) -> (r: Result<i64, ParseIntegerError>)
    ensures
        r matches Ok(v) ==> integer_text(bytes@) == Some(v as int),
        r is Err ==> match integer_text(bytes@) {
            Some(v) => v < i64::MIN || v > i64::MAX,
            None => true,
        },
{
    btoi::btoi::<i64>(bytes)
}

/// `std::str::from_utf8`: the bytes as a string slice, if they are valid
/// UTF-8; else the length of the longest prefix that is valid UTF-8.
#[verifier::external_body]
pub(crate) fn str_from_utf8(bytes: &[u8]) -> (r: Result<&str, usize>)
    ensures
        r is Ok <==> valid_utf8(bytes@),
        r matches Ok(s) ==> encode_utf8(s@) == bytes@,
        r matches Err(n) ==> n <= bytes@.len() && valid_utf8(bytes@.take(n as int)) && forall|
            k: int,
        |
            n < k <= bytes@.len() ==> !valid_utf8(#[trigger] bytes@.take(k)),
{
    match core::str::from_utf8(bytes) {
        Ok(s) => Ok(s),
        Err(e) => Err(e.valid_up_to()),
    }
}

} // verus!
