//! IEEE-754 binary64 numbers, held as their bit patterns.
//!
//! Arithmetic and decimal conversion are delegated to `rustc_apfloat`, a
//! software implementation of IEEE-754; the ordering and sign operations,
//! whose behaviour fits in a few lines, are written and proved here.

use rustc_apfloat::ieee::Double;
use rustc_apfloat::Float;
use vstd::prelude::*;

verus! {

/// Mask of the sign bit of a binary64 bit pattern.
pub const SIGN_BIT: u64 = 0x8000_0000_0000_0000;

/// Mask of the exponent and fraction bits of a binary64 bit pattern.
pub const MAGNITUDE_BITS: u64 = 0x7fff_ffff_ffff_ffff;

/// The bit pattern of positive infinity: every larger magnitude is a NaN.
pub const INFINITY_BITS: u64 = 0x7ff0_0000_0000_0000;

/// IEEE-754 addition, rounding to nearest with ties to even.
pub uninterp spec fn double_sum(a: u64, b: u64) -> u64;

/// IEEE-754 subtraction, rounding to nearest with ties to even.
pub uninterp spec fn double_difference(a: u64, b: u64) -> u64;

/// IEEE-754 multiplication, rounding to nearest with ties to even.
pub uninterp spec fn double_product(a: u64, b: u64) -> u64;

/// IEEE-754 division, rounding to nearest with ties to even.
pub uninterp spec fn double_quotient(a: u64, b: u64) -> u64;

/// The binary64 nearest to a decimal numeral (ties to even).
pub uninterp spec fn decimal_double(text: Seq<char>) -> u64;

pub open spec fn is_decimal_digit(c: char) -> bool {
    '0' <= c && c <= '9'
}

pub open spec fn all_digits(t: Seq<char>) -> bool {
    forall|i: int| 0 <= i < t.len() ==> is_decimal_digit(#[trigger] t[i])
}

/// A numeral of the language: one or more digits, optionally followed by a
/// dot and one or more digits.
pub open spec fn is_numeral(t: Seq<char>) -> bool {
    (t.len() > 0 && all_digits(t)) || exists|k: int|
        0 < k < t.len() - 1 && t[k] == '.' && all_digits(#[trigger] t.subrange(0, k))
            && all_digits(t.subrange(k + 1, t.len() as int))
}

/// Whether a bit pattern encodes a NaN.
pub open spec fn is_nan(b: u64) -> bool {
    b & MAGNITUDE_BITS > INFINITY_BITS
}

/// Where a non-NaN value stands on the number line: magnitudes grow with
/// their bit patterns, and both zeros stand at 0.
pub open spec fn rank(b: u64) -> int {
    if b & SIGN_BIT == 0 {
        (b & MAGNITUDE_BITS) as int
    } else {
        -((b & MAGNITUDE_BITS) as int)
    }
}

/// IEEE-754 `a < b`: false whenever either side is a NaN.
pub open spec fn double_lt(a: u64, b: u64) -> bool {
    !is_nan(a) && !is_nan(b) && rank(a) < rank(b)
}

/// IEEE-754 `a <= b`: false whenever either side is a NaN.
pub open spec fn double_le(a: u64, b: u64) -> bool {
    !is_nan(a) && !is_nan(b) && rank(a) <= rank(b)
}

/// IEEE-754 `a == b`: a NaN equals nothing, and the two zeros are equal.
pub open spec fn double_eq(a: u64, b: u64) -> bool {
    !is_nan(a) && !is_nan(b) && rank(a) == rank(b)
}

/// IEEE-754 negation: the sign bit flips, everything else stays.
pub open spec fn double_neg(a: u64) -> u64 {
    a ^ SIGN_BIT
}

/// Relies on `Add` for `rustc_apfloat::ieee::Double`: the correctly rounded sum.
#[verifier::external_body]
pub(crate) fn sum(a: u64, b: u64) -> (r: u64)
    ensures
        r == double_sum(a, b),
{
    (Double::from_bits(a as u128) + Double::from_bits(b as u128)).value.to_bits() as u64
}

/// Relies on `Sub` for `rustc_apfloat::ieee::Double`: the correctly rounded difference.
#[verifier::external_body]
pub(crate) fn difference(a: u64, b: u64) -> (r: u64)
    ensures
        r == double_difference(a, b),
{
    (Double::from_bits(a as u128) - Double::from_bits(b as u128)).value.to_bits() as u64
}

/// Relies on `Mul` for `rustc_apfloat::ieee::Double`: the correctly rounded product.
#[verifier::external_body]
pub(crate) fn product(a: u64, b: u64) -> (r: u64)
    ensures
        r == double_product(a, b),
{
    (Double::from_bits(a as u128) * Double::from_bits(b as u128)).value.to_bits() as u64
}

/// Relies on `Div` for `rustc_apfloat::ieee::Double`: the correctly rounded
/// quotient; a zero divisor gives an infinity or a NaN, never a panic.
#[verifier::external_body]
pub(crate) fn quotient(a: u64, b: u64) -> (r: u64)
    ensures
        r == double_quotient(a, b),
{
    (Double::from_bits(a as u128) / Double::from_bits(b as u128)).value.to_bits() as u64
}

/// Relies on `FromStr` for `rustc_apfloat::ieee::Double`, which accepts every
/// string of digits with at most one dot and at least one digit.
#[verifier::external_body]
pub(crate) fn parse_numeral(text: &str) -> (r: u64)
    requires
        is_numeral(text@),
    ensures
        r == decimal_double(text@),
{
    text.parse::<Double>().unwrap().to_bits() as u64
}

/// The decimal text that `rustc_apfloat` writes for a binary64.
pub uninterp spec fn double_text(b: u64) -> Seq<char>;

/// Relies on `Display` for `rustc_apfloat::ieee::Double`: its text depends
/// on the value alone.
#[verifier::external_body]
pub(crate) fn number_text(b: u64) -> (r: String)
    ensures
        r@ == double_text(b),
{
    format!("{}", Double::from_bits(b as u128))
}

/// Whether `c` is one of the ten ASCII digits.
pub fn is_digit(c: char) -> (r: bool)
    ensures
        r == is_decimal_digit(c),
{
    '0' <= c && c <= '9'
}

/// Whether `b` encodes a NaN.
pub fn nan(b: u64) -> (r: bool)
    ensures
        r == is_nan(b),
{
    b & MAGNITUDE_BITS > INFINITY_BITS
}

/// Arithmetic negation.
pub fn negate(a: u64) -> (r: u64)
    ensures
        r == double_neg(a),
{
    a ^ SIGN_BIT
}

/// Compares two non-NaN values by their place on the number line:
/// -1, 0 or 1 as `a` is below, level with or above `b`.
fn compare_ranks(a: u64, b: u64) -> (r: i8)
    ensures
        r == -1 <==> rank(a) < rank(b),
        r == 0 <==> rank(a) == rank(b),
        r == 1 <==> rank(a) > rank(b),
{
    let ma = a & MAGNITUDE_BITS;
    let mb = b & MAGNITUDE_BITS;
    let na = a & SIGN_BIT != 0;
    let nb = b & SIGN_BIT != 0;
    if !na && !nb {
        if ma < mb { -1 } else if ma == mb { 0 } else { 1 }
    } else if na && nb {
        if ma > mb { -1 } else if ma == mb { 0 } else { 1 }
    } else if na {
        if ma == 0 && mb == 0 { 0 } else { -1 }
    } else {
        if ma == 0 && mb == 0 { 0 } else { 1 }
    }
}

/// IEEE-754 `a < b`.
pub fn less(a: u64, b: u64) -> (r: bool)
    ensures
        r == double_lt(a, b),
{
    !nan(a) && !nan(b) && compare_ranks(a, b) == -1
}

/// IEEE-754 `a <= b`.
pub fn less_equal(a: u64, b: u64) -> (r: bool)
    ensures
        r == double_le(a, b),
{
    !nan(a) && !nan(b) && compare_ranks(a, b) != 1
}

/// IEEE-754 `a == b`.
pub fn equal(a: u64, b: u64) -> (r: bool)
    ensures
        r == double_eq(a, b),
{
    !nan(a) && !nan(b) && compare_ranks(a, b) == 0
}

} // verus!
