//! Double-precision numbers, carried as IEEE 754 binary64 bit patterns.
//!
//! The interpreter never holds a hardware float: a `Float` value is the `u64`
//! that encodes it. What depends only on the encoding (sign, zero, NaN, order)
//! is computed and proved here. Rounding arithmetic, conversions and the
//! decimal notation are done by the software floating-point crate
//! `rustc_apfloat`, behind small functions whose results are only named.
use rustc_apfloat::ieee::Double;
use rustc_apfloat::Float;
use rustc_apfloat::Round;
use rustc_apfloat::Status;
use vstd::prelude::*;
use crate::text::is_digit;

verus! {

/// The bit that holds the sign.
pub const FLOAT_SIGN: u64 = 0x8000_0000_0000_0000;

/// The encoding of positive infinity; every larger magnitude is a NaN.
pub const FLOAT_INFINITY: u64 = 0x7ff0_0000_0000_0000;

/// The encoding of 2 to the power of 127: a finite double of this magnitude or
/// more is an integer with more than 127 bits.
pub const FLOAT_LARGE: u64 = 0x47e0_0000_0000_0000;

/// The quiet NaN that stands for "not a number at all".
pub const FLOAT_NAN: u64 = 0x7ff8_0000_0000_0000;

/// The encoding without its sign bit.
pub open spec fn float_magnitude(bits: u64) -> int {
    if bits >= FLOAT_SIGN {
        bits - FLOAT_SIGN
    } else {
        bits as int
    }
}

/// Whether the encoding is a NaN.
pub open spec fn float_is_nan(bits: u64) -> bool {
    float_magnitude(bits) > FLOAT_INFINITY
}

/// Whether the encoding is a finite double of magnitude 2 to the power of 127
/// or more. Every such double is an integer.
pub open spec fn float_is_large(bits: u64) -> bool {
    FLOAT_LARGE <= float_magnitude(bits) < FLOAT_INFINITY
}

/// Whether the encoding is positive or negative zero.
pub open spec fn float_is_zero(bits: u64) -> bool {
    float_magnitude(bits) == 0
}

/// An integer that orders the encodings that are not NaN as the numbers they
/// encode: the magnitude, negated under a sign bit. Both zeros have rank 0.
pub open spec fn float_rank(bits: u64) -> int {
    if bits >= FLOAT_SIGN {
        -float_magnitude(bits)
    } else {
        float_magnitude(bits)
    }
}

/// IEEE equality: no NaN on either side, and the same number.
pub open spec fn float_equal(a: u64, b: u64) -> bool {
    !float_is_nan(a) && !float_is_nan(b) && float_rank(a) == float_rank(b)
}

/// IEEE "less than": no NaN on either side, and a smaller number on the left.
pub open spec fn float_less(a: u64, b: u64) -> bool {
    !float_is_nan(a) && !float_is_nan(b) && float_rank(a) < float_rank(b)
}

/// IEEE "less than or equal".
pub open spec fn float_less_equal(a: u64, b: u64) -> bool {
    !float_is_nan(a) && !float_is_nan(b) && float_rank(a) <= float_rank(b)
}

/// Whether `bits` encodes a NaN.
pub fn is_nan(bits: u64) -> (r: bool)
    ensures
        r == float_is_nan(bits),
{
    if bits >= FLOAT_SIGN {
        bits - FLOAT_SIGN > FLOAT_INFINITY
    } else {
        bits > FLOAT_INFINITY
    }
}

/// Whether `bits` encodes a finite double of magnitude 2 to the power of 127
/// or more.
pub fn is_large(bits: u64) -> (r: bool)
    ensures
        r == float_is_large(bits),
{
    let magnitude: u64 = if bits >= FLOAT_SIGN {
        bits - FLOAT_SIGN
    } else {
        bits
    };
    FLOAT_LARGE <= magnitude && magnitude < FLOAT_INFINITY
}

/// Whether `bits` encodes one of the two zeros.
pub fn is_zero(bits: u64) -> (r: bool)
    ensures
        r == float_is_zero(bits),
{
    bits == 0 || bits == FLOAT_SIGN
}

/// The rank of an encoding.
fn rank(bits: u64) -> (r: i128)
    ensures
        r == float_rank(bits),
{
    if bits >= FLOAT_SIGN {
        let magnitude: u64 = bits - FLOAT_SIGN;
        -(magnitude as i128)
    } else {
        bits as i128
    }
}

/// IEEE equality of two encodings.
pub fn eq(a: u64, b: u64) -> (r: bool)
    ensures
        r == float_equal(a, b),
{
    !is_nan(a) && !is_nan(b) && rank(a) == rank(b)
}

/// IEEE "less than" of two encodings.
pub fn lt(a: u64, b: u64) -> (r: bool)
    ensures
        r == float_less(a, b),
{
    !is_nan(a) && !is_nan(b) && rank(a) < rank(b)
}

/// IEEE "less than or equal" of two encodings.
pub fn le(a: u64, b: u64) -> (r: bool)
    ensures
        r == float_less_equal(a, b),
{
    !is_nan(a) && !is_nan(b) && rank(a) <= rank(b)
}

/// The sum of two doubles, rounded to nearest, ties to even.
pub uninterp spec fn float_sum(a: u64, b: u64) -> u64;

/// The difference of two doubles, rounded to nearest, ties to even.
pub uninterp spec fn float_difference(a: u64, b: u64) -> u64;

/// The product of two doubles, rounded to nearest, ties to even.
pub uninterp spec fn float_product(a: u64, b: u64) -> u64;

/// The quotient of two doubles, rounded to nearest, ties to even.
pub uninterp spec fn float_quotient(a: u64, b: u64) -> u64;

/// The double nearest to an integer, ties to even.
pub uninterp spec fn float_of_integer(n: int) -> u64;

/// The integer that a double equals, where it equals one that fits in 128
/// bits.
pub uninterp spec fn float_integer(bits: u64) -> Option<int>;

/// The double that a decimal numeral denotes.
pub uninterp spec fn float_of_text(text: Seq<char>) -> u64;

/// The decimal notation of a double.
pub uninterp spec fn float_text(bits: u64) -> Seq<char>;

/// The decimal notation of a double with up to 400 digits, written out
/// without an exponent where 400 places are enough.
pub uninterp spec fn float_long_text(bits: u64) -> Seq<char>;

/// Adds two doubles with `rustc_apfloat`'s `Add` for `Double`, which rounds to
/// nearest, ties to even. The contract only names the result.
#[verifier::external_body]
pub(crate) fn add(a: u64, b: u64) -> (r: u64)
    ensures
        r == float_sum(a, b),
{
    (Double::from_bits(a as u128) + Double::from_bits(b as u128)).value.to_bits() as u64
}

/// Subtracts two doubles with `rustc_apfloat`'s `Sub` for `Double`. The
/// contract only names the result.
#[verifier::external_body]
pub(crate) fn sub(a: u64, b: u64) -> (r: u64)
    ensures
        r == float_difference(a, b),
{
    (Double::from_bits(a as u128) - Double::from_bits(b as u128)).value.to_bits() as u64
}

/// Multiplies two doubles with `rustc_apfloat`'s `Mul` for `Double`. The
/// contract only names the result.
#[verifier::external_body]
pub(crate) fn mul(a: u64, b: u64) -> (r: u64)
    ensures
        r == float_product(a, b),
{
    (Double::from_bits(a as u128) * Double::from_bits(b as u128)).value.to_bits() as u64
}

/// Divides two doubles with `rustc_apfloat`'s `Div` for `Double`; a zero
/// divisor gives an infinity or a NaN, as IEEE 754 has it. The contract only
/// names the result.
#[verifier::external_body]
pub(crate) fn div(a: u64, b: u64) -> (r: u64)
    ensures
        r == float_quotient(a, b),
{
    (Double::from_bits(a as u128) / Double::from_bits(b as u128)).value.to_bits() as u64
}

/// Converts an integer with `rustc_apfloat`'s `Float::from_i128`. The contract
/// only names the result.
#[verifier::external_body]
pub(crate) fn from_integer(n: i64) -> (r: u64)
    ensures
        r == float_of_integer(n as int),
{
    Double::from_i128(n as i128).value.to_bits() as u64
}

/// Converts a double with `rustc_apfloat`'s `Float::to_i128_r`, truncating to
/// 128 bits, and keeps the integer only where the crate reports the status
/// `OK`: the double is finite and has no fractional part. The contract only
/// names the result.
#[verifier::external_body]
pub(crate) fn to_integer(bits: u64) -> (r: Option<i128>)
    ensures
        match r {
            Some(n) => float_integer(bits) == Some(n as int),
            None => float_integer(bits).is_none(),
        },
{
    let mut exact = false;
    let converted = Double::from_bits(bits as u128).to_i128_r(128, Round::TowardZero, &mut exact);
    if converted.status == Status::OK {
        Some(converted.value)
    } else {
        None
    }
}

/// Reads a decimal numeral with `rustc_apfloat`'s `FromStr` for `Double`,
/// which rounds to nearest, ties to even; `None` where the crate reports a
/// parse error. The crate reports one only for an empty text, a second point,
/// a mantissa or an exponent without a digit, and a character that is none of
/// these; a text that `is_float_literal` accepts has none of that, so the
/// contract promises a double. Which double it is, the contract only names.
#[verifier::external_body]
pub(crate) fn from_text(text: &str) -> (r: Option<u64>)
    requires
        is_float_literal(text@),
    ensures
        r == Some(float_of_text(text@)),
{
    match text.parse::<Double>() {
        Ok(value) => Some(value.to_bits() as u64),
        Err(_) => None,
    }
}

/// Writes a double with `rustc_apfloat`'s `Display` for `Double`. The
/// contract only names the result.
#[verifier::external_body]
pub(crate) fn to_text(bits: u64) -> (r: String)
    ensures
        r@ == float_text(bits),
{
    format!("{}", Double::from_bits(bits as u128))
}

/// Writes a double with `rustc_apfloat`'s `Display` for `Double`, with a
/// precision and a width of 400: up to 400 digits and up to 400 zeros before
/// the crate turns to an exponent. The contract only names the result.
#[verifier::external_body]
pub(crate) fn to_long_text(bits: u64) -> (r: String)
    ensures
        r@ == float_long_text(bits),
{
    format!("{:400.400}", Double::from_bits(bits as u128))
}

/// The index just behind the longest run of digits that starts at `i`.
pub open spec fn digit_run(s: Seq<char>, i: int) -> int
    decreases s.len() - i,
{
    if 0 <= i < s.len() && is_digit(s[i]) {
        digit_run(s, i + 1)
    } else {
        i
    }
}

/// Whether `c` is a plus or a minus sign.
pub open spec fn is_sign(c: char) -> bool {
    c == '+' || c == '-'
}

/// Whether `s` is a decimal numeral with an optional sign, digits with an
/// optional point among them, and an optional exponent: `12`, `-1.5`, `.5`,
/// `5.`, `+2.5e-3`. At least one digit stands in the mantissa, and an exponent
/// mark is followed by at least one digit.
pub open spec fn is_float_literal(s: Seq<char>) -> bool {
    let len = s.len() as int;
    let whole = if len > 0 && is_sign(s[0]) {
        1int
    } else {
        0int
    };
    let point = digit_run(s, whole);
    let has_point = point < len && s[point] == '.';
    let mark = if has_point {
        digit_run(s, point + 1)
    } else {
        point
    };
    let mantissa_digits = if has_point {
        (point - whole) + (mark - (point + 1))
    } else {
        point - whole
    };
    let has_mark = mark < len && (s[mark] == 'e' || s[mark] == 'E');
    let power = if mark + 1 < len && is_sign(s[mark + 1]) {
        mark + 2
    } else {
        mark + 1
    };
    let end = digit_run(s, power);
    mantissa_digits > 0 && if has_mark {
        end > power && end == len
    } else {
        mark == len
    }
}

/// The index just behind the digits that start at `i`.
fn skip_digits(s: &Vec<char>, i: usize) -> (j: usize)
    requires
        i <= s@.len(),
    ensures
        j == digit_run(s@, i as int),
        i <= j <= s@.len(),
{
    let mut j: usize = i;
    while j < s.len() && '0' <= s[j] && s[j] <= '9'
        invariant
            i <= j <= s@.len(),
            digit_run(s@, i as int) == digit_run(s@, j as int),
        decreases s@.len() - j,
    {
        j = j + 1;
    }
    j
}

/// Whether `s` is a decimal numeral in the sense of `is_float_literal`.
pub fn is_float_text(s: &Vec<char>) -> (r: bool)
    ensures
        r == is_float_literal(s@),
{
    let len = s.len();
    let whole: usize = if len > 0 && (s[0] == '+' || s[0] == '-') {
        1
    } else {
        0
    };
    let point = skip_digits(s, whole);
    let has_point = point < len && s[point] == '.';
    let mark: usize = if has_point {
        skip_digits(s, point + 1)
    } else {
        point
    };
    let mantissa_digits: usize = if has_point {
        (point - whole) + (mark - (point + 1))
    } else {
        point - whole
    };
    if mantissa_digits == 0 {
        return false;
    }
    let has_mark = mark < len && (s[mark] == 'e' || s[mark] == 'E');
    if !has_mark {
        return mark == len;
    }
    let power: usize = if mark + 1 < len && (s[mark + 1] == '+' || s[mark + 1] == '-') {
        mark + 2
    } else {
        mark + 1
    };
    let end = skip_digits(s, power);
    end > power && end == len
}

} // verus!
