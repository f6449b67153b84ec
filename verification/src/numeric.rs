//! Runtime numbers.
//!
//! The language's numbers are IEEE-754 binary64 values. The library carries
//! them as their raw 64-bit patterns; the arithmetic, parsing, formatting and
//! comparison of those patterns is done by the `rustc_apfloat` software
//! implementation of IEEE-754 behind the trusted wrappers below. Each result
//! is a pure function of the argument bits, so each operation is named by an
//! uninterpreted spec function that the wrappers' contracts apply.

use vstd::prelude::*;

verus! {

/// The value of a numeric literal: the binary64 nearest to the decimal in `s`.
pub uninterp spec fn number_of(s: Seq<char>) -> u64;

/// The decimal rendering of the binary64 with bit pattern `bits`.
pub uninterp spec fn number_text(bits: u64) -> Seq<char>;

/// IEEE-754 binary64 addition (round to nearest, ties to even), on bits.
pub uninterp spec fn add_bits(a: u64, b: u64) -> u64;

/// IEEE-754 binary64 subtraction, on bits.
pub uninterp spec fn sub_bits(a: u64, b: u64) -> u64;

/// IEEE-754 binary64 multiplication, on bits.
pub uninterp spec fn mul_bits(a: u64, b: u64) -> u64;

/// IEEE-754 binary64 division, on bits.
pub uninterp spec fn div_bits(a: u64, b: u64) -> u64;

/// IEEE-754 binary64 negation, on bits.
pub uninterp spec fn neg_bits(a: u64) -> u64;

/// IEEE-754 `<` on binary64 bits; false whenever either operand is a NaN.
pub uninterp spec fn lt_bits(a: u64, b: u64) -> bool;

/// IEEE-754 `==` on binary64 bits; `-0 == 0`, and a NaN equals nothing.
pub uninterp spec fn eq_bits(a: u64, b: u64) -> bool;

pub open spec fn is_digit(c: char) -> bool {
    '0' <= c && c <= '9'
}

/// The first position at or after `p` that holds no digit.
pub open spec fn digits_end(src: Seq<char>, p: nat) -> nat
    decreases src.len() - p,
{
    if src.len() <= p || !is_digit(src[p as int]) {
        p
    } else {
        digits_end(src, p + 1)
    }
}

pub proof fn lemma_digits_end(src: Seq<char>, p: nat)
    ensures
        p <= digits_end(src, p),
        p <= src.len() ==> digits_end(src, p) <= src.len(),
        forall|i: int| p <= i < digits_end(src, p) ==> is_digit(#[trigger] src[i]),
        digits_end(src, p) < src.len() ==> !is_digit(src[digits_end(src, p) as int]),
    decreases src.len() - p,
{
    if p < src.len() && is_digit(src[p as int]) {
        lemma_digits_end(src, p + 1);
    }
}

/// Pins the digit run down from its contents: a run of digits bounded by a
/// non-digit or the end ends exactly where it ends.
pub proof fn lemma_digits_end_is(src: Seq<char>, p: nat, e: nat)
    requires
        p <= e <= src.len(),
        forall|i: int| p <= i < e ==> is_digit(#[trigger] src[i]),
        e < src.len() ==> !is_digit(src[e as int]),
    ensures
        digits_end(src, p) == e,
    decreases e - p,
{
    if p < e {
        lemma_digits_end_is(src, p + 1, e);
    }
}

/// The shape of a numeric literal's lexeme: one or more digits, optionally
/// followed by a dot and one or more digits.
pub open spec fn is_number_lexeme(s: Seq<char>) -> bool {
    let d = digits_end(s, 0);
    &&& s.len() > 0
    &&& is_digit(s[0])
    &&& (d == s.len() || (d + 1 < s.len() && s[d as int] == '.' && digits_end(s, d + 1)
        == s.len()))
}

/// Relies on `<rustc_apfloat::ieee::Double as FromStr>::from_str`: the
/// correctly rounded binary64 value of a decimal digit string.
#[verifier::external_body]
pub(crate) fn num_from_text(s: &str) -> (r: u64)
    requires
        is_number_lexeme(s@),
    ensures
        r == number_of(s@),
{
    let d: rustc_apfloat::ieee::Double = s.parse().unwrap();
    rustc_apfloat::Float::to_bits(d) as u64
}

/// Relies on `<rustc_apfloat::ieee::Double as Display>::fmt`: the decimal
/// rendering of a binary64 value, a function of its bits alone.
#[verifier::external_body]
pub(crate) fn num_to_text(bits: u64) -> (r: String)
    ensures
        r@ == number_text(bits),
{
    let d = <rustc_apfloat::ieee::Double as rustc_apfloat::Float>::from_bits(bits as u128);
    format!("{}", d)
}

/// Relies on `<rustc_apfloat::ieee::Double as Add>::add`: IEEE-754 addition,
/// round to nearest, ties to even.
#[verifier::external_body]
pub(crate) fn num_add(a: u64, b: u64) -> (r: u64)
    ensures
        r == add_bits(a, b),
{
    let x = <rustc_apfloat::ieee::Double as rustc_apfloat::Float>::from_bits(a as u128);
    let y = <rustc_apfloat::ieee::Double as rustc_apfloat::Float>::from_bits(b as u128);
    rustc_apfloat::Float::to_bits((x + y).value) as u64
}

/// Relies on `<rustc_apfloat::ieee::Double as Sub>::sub`: IEEE-754 subtraction.
#[verifier::external_body]
pub(crate) fn num_sub(a: u64, b: u64) -> (r: u64)
    ensures
        r == sub_bits(a, b),
{
    let x = <rustc_apfloat::ieee::Double as rustc_apfloat::Float>::from_bits(a as u128);
    let y = <rustc_apfloat::ieee::Double as rustc_apfloat::Float>::from_bits(b as u128);
    rustc_apfloat::Float::to_bits((x - y).value) as u64
}

/// Relies on `<rustc_apfloat::ieee::Double as Mul>::mul`: IEEE-754 multiplication.
#[verifier::external_body]
pub(crate) fn num_mul(a: u64, b: u64) -> (r: u64)
    ensures
        r == mul_bits(a, b),
{
    let x = <rustc_apfloat::ieee::Double as rustc_apfloat::Float>::from_bits(a as u128);
    let y = <rustc_apfloat::ieee::Double as rustc_apfloat::Float>::from_bits(b as u128);
    rustc_apfloat::Float::to_bits((x * y).value) as u64
}

/// Relies on `<rustc_apfloat::ieee::Double as Div>::div`: IEEE-754 division;
/// division by zero gives an infinity or a NaN, never an error.
#[verifier::external_body]
pub(crate) fn num_div(a: u64, b: u64) -> (r: u64)
    ensures
        r == div_bits(a, b),
{
    let x = <rustc_apfloat::ieee::Double as rustc_apfloat::Float>::from_bits(a as u128);
    let y = <rustc_apfloat::ieee::Double as rustc_apfloat::Float>::from_bits(b as u128);
    rustc_apfloat::Float::to_bits((x / y).value) as u64
}

/// Relies on `<rustc_apfloat::ieee::Double as Neg>::neg`: IEEE-754 sign flip.
#[verifier::external_body]
pub(crate) fn num_neg(a: u64) -> (r: u64)
    ensures
        r == neg_bits(a),
{
    let x = <rustc_apfloat::ieee::Double as rustc_apfloat::Float>::from_bits(a as u128);
    rustc_apfloat::Float::to_bits(-x) as u64
}

/// Relies on `<rustc_apfloat::ieee::Double as PartialOrd>::partial_cmp`:
/// the IEEE-754 ordering, under which a NaN is below nothing.
#[verifier::external_body]
pub(crate) fn num_lt(a: u64, b: u64) -> (r: bool)
    ensures
        r == lt_bits(a, b),
{
    let x = <rustc_apfloat::ieee::Double as rustc_apfloat::Float>::from_bits(a as u128);
    let y = <rustc_apfloat::ieee::Double as rustc_apfloat::Float>::from_bits(b as u128);
    x < y
}

/// Relies on `<rustc_apfloat::ieee::Double as PartialEq>::eq`: IEEE-754
/// equality, under which `-0 == 0` and a NaN equals nothing.
#[verifier::external_body]
pub(crate) fn num_eq(a: u64, b: u64) -> (r: bool)
    ensures
        r == eq_bits(a, b),
{
    let x = <rustc_apfloat::ieee::Double as rustc_apfloat::Float>::from_bits(a as u128);
    let y = <rustc_apfloat::ieee::Double as rustc_apfloat::Float>::from_bits(b as u128);
    x == y
}

} // verus!
