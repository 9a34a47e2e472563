//! Fixed-point decimal values, mirrored as mantissa/scale pairs.
//!
//! All money amounts and rates in this crate are exact base-10 fixed-point
//! numbers: a 96-bit mantissa `m` and a scale `s <= 28`, denoting `m / 10^s`.
//! The arithmetic itself (addition, subtraction, multiplication, division,
//! integer powers, parsing) is performed by `rust_decimal`, reached through
//! the trusted wrappers below; each wrapper's result is pinned to a named
//! function of its arguments, so that every caller's contract is exact in
//! terms of those names.

use vstd::prelude::*;

verus! {

/// A decimal value `m / 10^s`, the values `rust_decimal::Decimal` can
/// represent: a signed 96-bit mantissa and a scale of at most 28.
#[derive(Clone, Copy, Debug)]
pub struct Dec {
    pub m: i128,
    pub s: u32,
}

/// 10 to the power `e`.
pub open spec fn pow10(e: nat) -> int
    decreases e,
{
    if e == 0 {
        1
    } else {
        10 * pow10((e - 1) as nat)
    }
}

/// The exclusive magnitude bound of a 96-bit mantissa, 2^96.
pub open spec fn mantissa_bound() -> int {
    0x1000000000000000000000000
}

/// A well-formed decimal: scale at most 28, mantissa within 96 bits.
pub open spec fn dec_wf(d: Dec) -> bool {
    d.s <= 28 && -mantissa_bound() < (d.m as int) && (d.m as int) < mantissa_bound()
}

/// The (mantissa, scale) pair of a decimal, as unbounded integers.
pub open spec fn dv(d: Dec) -> (int, int) {
    (d.m as int, d.s as int)
}

/// Well-formedness of a (mantissa, scale) pair.
pub open spec fn pair_wf(t: (int, int)) -> bool {
    0 <= t.1 <= 28 && -mantissa_bound() < t.0 < mantissa_bound()
}

/// The value denoted by a (mantissa, scale) pair, scaled up by 10^28 so
/// that it is an integer for every scale a well-formed pair can carry.
pub open spec fn val28(t: (int, int)) -> int {
    t.0 * pow10((28 - t.1) as nat)
}

pub proof fn lemma_pow10_pos(e: nat)
    ensures
        pow10(e) >= 1,
    decreases e,
{
    if e > 0 {
        lemma_pow10_pos((e - 1) as nat);
    }
}

/// The sign of a pair's value is the sign of its mantissa.
pub proof fn lemma_val28_sign(t: (int, int))
    requires
        pair_wf(t),
    ensures
        val28(t) > 0 <==> t.0 > 0,
        val28(t) == 0 <==> t.0 == 0,
        val28(t) < 0 <==> t.0 < 0,
{
    let p = pow10((28 - t.1) as nat);
    lemma_pow10_pos((28 - t.1) as nat);
    assert(t.0 > 0 && p >= 1 ==> t.0 * p > 0) by (nonlinear_arith);
    assert(t.0 == 0 ==> t.0 * p == 0) by (nonlinear_arith);
    assert(t.0 < 0 && p >= 1 ==> t.0 * p < 0) by (nonlinear_arith);
}

/// What `rust_decimal`'s checked addition returns on a pair of operands;
/// `None` stands for overflow.
pub uninterp spec fn add_of(a: (int, int), b: (int, int)) -> Option<(int, int)>;

/// What `rust_decimal`'s checked subtraction returns; `None` stands for
/// overflow.
pub uninterp spec fn sub_of(a: (int, int), b: (int, int)) -> Option<(int, int)>;

/// What `rust_decimal`'s checked multiplication returns; `None` stands for
/// overflow.
pub uninterp spec fn mul_of(a: (int, int), b: (int, int)) -> Option<(int, int)>;

/// What `rust_decimal`'s checked division returns; `None` stands for
/// overflow or a zero divisor.
pub uninterp spec fn div_of(a: (int, int), b: (int, int)) -> Option<(int, int)>;

/// What `rust_decimal`'s checked integer power returns; `None` stands for
/// overflow.
pub uninterp spec fn powu_of(a: (int, int), e: int) -> Option<(int, int)>;

/// What `rust_decimal`'s string parser returns on a byte sequence: the
/// parsed decimal, or `None` where the bytes are not a decimal literal.
pub uninterp spec fn parse_dec_of(s: Seq<u8>) -> Option<(int, int)>;

/// Relies on `rust_decimal::Decimal::checked_add`: returns the sum, or
/// `None` if it overflows the 96-bit representation. The result depends
/// on the operands alone.
#[verifier::external_body]
pub fn dec_add(a: Dec, b: Dec) -> (r: Option<Dec>)
    requires
        dec_wf(a),
        dec_wf(b),
    ensures
        r is Some <==> add_of(dv(a), dv(b)) is Some,
        r matches Some(d) ==> dec_wf(d) && dv(d) == add_of(dv(a), dv(b))->Some_0,
{
    let x = rust_decimal::Decimal::from_i128_with_scale(a.m, a.s);
    let y = rust_decimal::Decimal::from_i128_with_scale(b.m, b.s);
    x.checked_add(y).map(|d| Dec { m: d.mantissa(), s: d.scale() })
}

/// Relies on `rust_decimal::Decimal::checked_sub`: returns the difference,
/// or `None` if it overflows. The result depends on the operands alone.
#[verifier::external_body]
pub fn dec_sub(a: Dec, b: Dec) -> (r: Option<Dec>)
    requires
        dec_wf(a),
        dec_wf(b),
    ensures
        r is Some <==> sub_of(dv(a), dv(b)) is Some,
        r matches Some(d) ==> dec_wf(d) && dv(d) == sub_of(dv(a), dv(b))->Some_0,
{
    let x = rust_decimal::Decimal::from_i128_with_scale(a.m, a.s);
    let y = rust_decimal::Decimal::from_i128_with_scale(b.m, b.s);
    x.checked_sub(y).map(|d| Dec { m: d.mantissa(), s: d.scale() })
}

/// Relies on `rust_decimal::Decimal::checked_mul`: returns the product
/// (rounded to the representable precision where needed), or `None` if
/// it overflows. The result depends on the operands alone.
#[verifier::external_body]
pub fn dec_mul(a: Dec, b: Dec) -> (r: Option<Dec>)
    requires
        dec_wf(a),
        dec_wf(b),
    ensures
        r is Some <==> mul_of(dv(a), dv(b)) is Some,
        r matches Some(d) ==> dec_wf(d) && dv(d) == mul_of(dv(a), dv(b))->Some_0,
{
    let x = rust_decimal::Decimal::from_i128_with_scale(a.m, a.s);
    let y = rust_decimal::Decimal::from_i128_with_scale(b.m, b.s);
    x.checked_mul(y).map(|d| Dec { m: d.mantissa(), s: d.scale() })
}

/// Relies on `rust_decimal::Decimal::checked_div`: returns the quotient
/// rounded to the representable precision, or `None` on a zero divisor or
/// overflow. The result depends on the operands alone.
#[verifier::external_body]
pub fn dec_div(a: Dec, b: Dec) -> (r: Option<Dec>)
    requires
        dec_wf(a),
        dec_wf(b),
    ensures
        r is Some <==> div_of(dv(a), dv(b)) is Some,
        r matches Some(d) ==> dec_wf(d) && dv(d) == div_of(dv(a), dv(b))->Some_0,
{
    let x = rust_decimal::Decimal::from_i128_with_scale(a.m, a.s);
    let y = rust_decimal::Decimal::from_i128_with_scale(b.m, b.s);
    x.checked_div(y).map(|d| Dec { m: d.mantissa(), s: d.scale() })
}

/// Relies on `rust_decimal::MathematicalOps::checked_powu`: raises a
/// decimal to a nonnegative integer power, `None` on overflow. The result
/// depends on the operands alone.
#[verifier::external_body]
pub fn dec_powu(a: Dec, e: u64) -> (r: Option<Dec>)
    requires
        dec_wf(a),
    ensures
        r is Some <==> powu_of(dv(a), e as int) is Some,
        r matches Some(d) ==> dec_wf(d) && dv(d) == powu_of(dv(a), e as int)->Some_0,
{
    let x = rust_decimal::Decimal::from_i128_with_scale(a.m, a.s);
    rust_decimal::MathematicalOps::checked_powu(&x, e).map(|d| Dec { m: d.mantissa(), s: d.scale() })
}

/// Relies on `rust_decimal::Decimal`'s `FromStr`: parses a decimal literal
/// from bytes (after a UTF-8 check), `None` where the bytes are not one.
/// The result depends on the bytes alone.
#[verifier::external_body]
pub fn dec_parse(bytes: &[u8]) -> (r: Option<Dec>)
    ensures
        r is Some <==> parse_dec_of(bytes@) is Some,
        r matches Some(d) ==> dec_wf(d) && dv(d) == parse_dec_of(bytes@)->Some_0,
{
    let s = match core::str::from_utf8(bytes) {
        Ok(s) => s,
        Err(_) => return None,
    };
    match <rust_decimal::Decimal as core::str::FromStr>::from_str(s) {
        Ok(d) => Some(Dec { m: d.mantissa(), s: d.scale() }),
        Err(_) => None,
    }
}

/// A decimal with the given small nonnegative integer value, at scale 0.
pub fn dec_from_u32(v: u32) -> (r: Dec)
    ensures
        dec_wf(r),
        dv(r) == (v as int, 0int),
{
    Dec { m: v as i128, s: 0 }
}

} // verus!
