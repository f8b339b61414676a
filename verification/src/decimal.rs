//! Fixed-point decimals with 18 fractional digits and the ratio arithmetic on
//! 128-bit token amounts that the contracts use.
//!
//! A `Decimal` is held by its atomics, the value times 10^18. Products and
//! quotients that need a 256-bit intermediate are computed by `cosmwasm_std`;
//! sums, differences and comparisons are computed here.
use vstd::prelude::*;

verus! {

/// 10^18, the denominator of every `Decimal`.
pub const DECIMAL_FRACTIONAL: u128 = 1_000_000_000_000_000_000u128;

/// The integer 10^18 in specifications.
pub open spec fn frac() -> int {
    1_000_000_000_000_000_000int
}

/// The largest value a `u128` holds.
pub open spec fn max_u128() -> int {
    340282366920938463463374607431768211455int
}

/// `value * numerator / denominator`, rounded down.
pub open spec fn ratio(value: int, numerator: int, denominator: int) -> int {
    value * numerator / denominator
}

/// A decimal number with 18 fractional digits: `atomics / 10^18`.
#[derive(Clone, Copy, Debug, PartialEq, Eq, Structural)]
pub struct Decimal {
    pub atomics: u128,
}

impl Decimal {
    /// The atomics as an integer.
    pub open spec fn val(self) -> int {
        self.atomics as int
    }

    /// The decimal whose atomics are `atomics`.
    pub fn raw(atomics: u128) -> (r: Decimal)
        ensures
            r.val() == atomics,
    {
        Decimal { atomics }
    }

    /// 0.0
    pub fn zero() -> (r: Decimal)
        ensures
            r.val() == 0,
    {
        Decimal { atomics: 0 }
    }

    /// 1.0
    pub fn one() -> (r: Decimal)
        ensures
            r.val() == frac(),
    {
        Decimal { atomics: DECIMAL_FRACTIONAL }
    }

    /// `x` percent.
    pub fn percent(x: u64) -> (r: Decimal)
        ensures
            r.val() == x * 10_000_000_000_000_000int,
    {
        Decimal { atomics: (x as u128) * 10_000_000_000_000_000u128 }
    }

    /// `x` per mille.
    pub fn permille(x: u64) -> (r: Decimal)
        ensures
            r.val() == x * 1_000_000_000_000_000int,
    {
        Decimal { atomics: (x as u128) * 1_000_000_000_000_000u128 }
    }

    pub fn is_zero(&self) -> (r: bool)
        ensures
            r == (self.val() == 0),
    {
        self.atomics == 0
    }

    /// `self <= other`
    pub fn le(&self, other: &Decimal) -> (r: bool)
        ensures
            r == (self.val() <= other.val()),
    {
        self.atomics <= other.atomics
    }

    /// `self < other`
    pub fn lt(&self, other: &Decimal) -> (r: bool)
        ensures
            r == (self.val() < other.val()),
    {
        self.atomics < other.atomics
    }

    /// The smaller of the two.
    pub fn min(self, other: Decimal) -> (r: Decimal)
        ensures
            r.val() == if self.val() <= other.val() { self.val() } else { other.val() },
    {
        if self.atomics <= other.atomics {
            self
        } else {
            other
        }
    }

    /// `self + other`; `None` where the sum does not fit.
    pub fn checked_add(self, other: Decimal) -> (r: Option<Decimal>)
        ensures
            r is Some <==> self.val() + other.val() <= max_u128(),
            r matches Some(d) ==> d.val() == self.val() + other.val(),
    {
        match self.atomics.checked_add(other.atomics) {
            Some(a) => Some(Decimal { atomics: a }),
            None => None,
        }
    }

    /// `self + other`, where the sum fits.
    pub fn add(self, other: Decimal) -> (r: Decimal)
        requires
            self.val() + other.val() <= max_u128(),
        ensures
            r.val() == self.val() + other.val(),
    {
        Decimal { atomics: self.atomics + other.atomics }
    }

    /// `self - other`; `None` where `other` is larger.
    pub fn checked_sub(self, other: Decimal) -> (r: Option<Decimal>)
        ensures
            r is Some <==> other.val() <= self.val(),
            r matches Some(d) ==> d.val() == self.val() - other.val(),
    {
        if other.atomics <= self.atomics {
            Some(Decimal { atomics: self.atomics - other.atomics })
        } else {
            None
        }
    }

    /// `self - other`, where `other` is not larger.
    pub fn sub(self, other: Decimal) -> (r: Decimal)
        requires
            other.val() <= self.val(),
        ensures
            r.val() == self.val() - other.val(),
    {
        Decimal { atomics: self.atomics - other.atomics }
    }

    /// `numerator / denominator` rounded down to 18 digits, where the
    /// denominator is not zero and the quotient fits.
    pub fn from_ratio(numerator: u128, denominator: u128) -> (r: Decimal)
        requires
            denominator > 0,
            ratio(numerator as int, frac(), denominator as int) <= max_u128(),
        ensures
            r.val() == ratio(numerator as int, frac(), denominator as int),
    {
        decimal_from_ratio(numerator, denominator)
    }

    /// `self * other` rounded down; `None` where it does not fit.
    pub fn checked_mul(self, other: Decimal) -> (r: Option<Decimal>)
        ensures
            r is Some <==> ratio(self.val(), other.val(), frac()) <= max_u128(),
            r matches Some(d) ==> d.val() == ratio(self.val(), other.val(), frac()),
    {
        decimal_checked_mul(self, other)
    }

    /// `self * other` rounded down, where it fits.
    pub fn mul(self, other: Decimal) -> (r: Decimal)
        requires
            ratio(self.val(), other.val(), frac()) <= max_u128(),
        ensures
            r.val() == ratio(self.val(), other.val(), frac()),
    {
        decimal_mul(self, other)
    }

    /// `self / other` rounded down; `None` where `other` is zero or the
    /// quotient does not fit.
    pub fn checked_div(self, other: Decimal) -> (r: Option<Decimal>)
        ensures
            r is Some <==> other.val() > 0 && ratio(self.val(), frac(), other.val()) <= max_u128(),
            r matches Some(d) ==> d.val() == ratio(self.val(), frac(), other.val()),
    {
        decimal_checked_div(self, other)
    }

    /// `self / other` rounded down, where `other` is not zero and the quotient
    /// fits.
    pub fn div(self, other: Decimal) -> (r: Decimal)
        requires
            other.val() > 0,
            ratio(self.val(), frac(), other.val()) <= max_u128(),
        ensures
            r.val() == ratio(self.val(), frac(), other.val()),
    {
        decimal_div(self, other)
    }

    /// `self * amount` as a token amount, rounded down; `None` where it does
    /// not fit.
    pub fn checked_mul_uint(self, amount: u128) -> (r: Option<u128>)
        ensures
            r is Some <==> ratio(amount as int, self.val(), frac()) <= max_u128(),
            r matches Some(v) ==> v == ratio(amount as int, self.val(), frac()),
    {
        if self.atomics == 0 || amount == 0 {
            proof {
                lemma_ratio_zero(amount as int, self.val(), frac());
            }
            return Some(0);
        }
        uint_checked_multiply_ratio(amount, self.atomics, DECIMAL_FRACTIONAL)
    }
}

/// A share in basis points, at most 10 000 (100 %).
#[derive(Clone, Copy, Debug, PartialEq, Eq, Structural)]
pub struct BasicPoints {
    bps: u16,
}

impl BasicPoints {
    /// The number of basis points.
    pub closed spec fn spec_u16(self) -> u16 {
        self.bps
    }

    /// Accepts `value` as basis points where it is at most 10 000.
    pub fn try_from(value: u16) -> (r: Result<BasicPoints, crate::error::StdError>)
        ensures
            r is Ok <==> value <= 10000,
            r matches Ok(b) ==> b.spec_u16() == value,
            r matches Err(e) ==> e matches crate::error::StdError::GenericErr { msg } && msg@ == "Basic points conversion error"@,
    {
        if value <= 10000 {
            Ok(BasicPoints { bps: value })
        } else {
            Err(crate::error::StdError::generic_err("Basic points conversion error"))
        }
    }

    /// Basis points as they were written in a message, not yet checked.
    pub fn unchecked(bps: u16) -> (r: BasicPoints)
        ensures
            r.spec_u16() == bps,
    {
        BasicPoints { bps }
    }

    pub fn u16(&self) -> (r: u16)
        ensures
            r == self.spec_u16(),
    {
        self.bps
    }

    /// The share as a decimal: `bps / 10 000`.
    pub fn decimal(&self) -> (r: Decimal)
        ensures
            r.val() == self.spec_u16() as int * 100_000_000_000_000,
            self.spec_u16() <= 10000 ==> r.val() <= frac(),
    {
        let r = Decimal::from_ratio(self.bps as u128, 10000);
        proof {
            let b = self.bps as int;
            assert(b * frac() == (b * 100_000_000_000_000) * 10000);
            vstd::arithmetic::div_mod::lemma_div_multiples_vanish(b * 100_000_000_000_000, 10000);
            assert((b * 100_000_000_000_000) * 10000 == 10000 * (b * 100_000_000_000_000)) by (nonlinear_arith);
        }
        r
    }
}

/// `amount * d` as a token amount, rounded down, where it fits.
pub fn mul_uint(amount: u128, d: Decimal) -> (r: u128)
    requires
        ratio(amount as int, d.val(), frac()) <= max_u128(),
    ensures
        r == ratio(amount as int, d.val(), frac()),
{
    uint_mul_decimal(amount, d)
}

/// `value * numerator / denominator` rounded down, where the denominator is
/// not zero and the result fits.
pub fn multiply_ratio(value: u128, numerator: u128, denominator: u128) -> (r: u128)
    requires
        denominator > 0,
        ratio(value as int, numerator as int, denominator as int) <= max_u128(),
    ensures
        r == ratio(value as int, numerator as int, denominator as int),
{
    uint_multiply_ratio(value, numerator, denominator)
}

pub proof fn lemma_ratio_zero(a: int, b: int, c: int)
    requires
        a == 0 || b == 0,
        c > 0,
    ensures
        ratio(a, b, c) == 0,
{
    assert(a * b == 0) by (nonlinear_arith)
        requires
            a == 0 || b == 0,
    ;
}

/// A floored ratio of non-negative integers is non-negative and times the
/// denominator at most the product.
pub proof fn lemma_ratio_floor(a: int, b: int, c: int)
    requires
        a >= 0,
        b >= 0,
        c > 0,
    ensures
        ratio(a, b, c) >= 0,
        ratio(a, b, c) * c <= a * b,
        a * b < (ratio(a, b, c) + 1) * c,
{
    let x = a * b;
    assert(x >= 0) by (nonlinear_arith)
        requires
            a >= 0,
            b >= 0,
            x == a * b,
    ;
    vstd::arithmetic::div_mod::lemma_fundamental_div_mod(x, c);
    vstd::arithmetic::div_mod::lemma_mod_bound(x, c);
    vstd::arithmetic::div_mod::lemma_div_pos_is_pos(x, c);
    let q = x / c;
    assert(q * c <= x && x < (q + 1) * c) by (nonlinear_arith)
        requires
            x == c * q + x % c,
            0 <= x % c < c,
    ;
}

/// Where `x <= c * k`, the floored `x / c` is at most `k`.
pub proof fn lemma_div_le_bound(x: int, c: int, k: int)
    requires
        c > 0,
        x <= c * k,
    ensures
        x / c <= k,
{
    vstd::arithmetic::div_mod::lemma_multiply_divide_le(x, c, k);
}

/// Ratios grow with the value and the numerator.
pub proof fn lemma_ratio_monotone(a1: int, a2: int, b1: int, b2: int, c: int)
    requires
        0 <= a1 <= a2,
        0 <= b1 <= b2,
        c > 0,
    ensures
        ratio(a1, b1, c) <= ratio(a2, b2, c),
{
    assert(a1 * b1 <= a2 * b2) by (nonlinear_arith)
        requires
            0 <= a1 <= a2,
            0 <= b1 <= b2,
    ;
    vstd::arithmetic::div_mod::lemma_div_is_ordered(a1 * b1, a2 * b2, c);
}

/// Calls `cosmwasm_std::Uint128::multiply_ratio`, which computes
/// `value * numerator / denominator` with a 256-bit intermediate and rounds
/// down; it panics on a zero denominator or a result above `u128::MAX`,
/// which `requires` leaves out.
#[verifier::external_body]
fn uint_multiply_ratio(value: u128, numerator: u128, denominator: u128) -> (r: u128)
    requires
        denominator > 0,
        ratio(value as int, numerator as int, denominator as int) <= max_u128(),
    ensures
        r == ratio(value as int, numerator as int, denominator as int),
{
    cosmwasm_std::Uint128::new(value).multiply_ratio(numerator, denominator).u128()
}

/// Calls `cosmwasm_std::Uint128::checked_multiply_ratio`: the floored
/// `value * numerator / denominator`, or an error on a zero denominator or
/// a result above `u128::MAX` (both mapped to `None`).
#[verifier::external_body]
fn uint_checked_multiply_ratio(value: u128, numerator: u128, denominator: u128) -> (r: Option<u128>)
    ensures
        r is Some <==> (denominator > 0 && ratio(value as int, numerator as int, denominator as int) <= max_u128()),
        r matches Some(v) ==> v == ratio(value as int, numerator as int, denominator as int),
{
    match cosmwasm_std::Uint128::new(value).checked_multiply_ratio(numerator, denominator) {
        Ok(v) => Some(v.u128()),
        Err(_) => None,
    }
}

/// Calls `Mul<cosmwasm_std::Decimal> for cosmwasm_std::Uint128`: zero when
/// either side is zero, otherwise `amount.multiply_ratio(atomics, 10^18)`,
/// which is the floored `amount * atomics / 10^18` and panics above
/// `u128::MAX` (left out by `requires`).
#[verifier::external_body]
fn uint_mul_decimal(amount: u128, d: Decimal) -> (r: u128)
    requires
        ratio(amount as int, d.val(), frac()) <= max_u128(),
    ensures
        r == ratio(amount as int, d.val(), frac()),
{
    (cosmwasm_std::Uint128::new(amount) * cosmwasm_std::Decimal::raw(d.atomics)).u128()
}

/// Calls `cosmwasm_std::Decimal::from_ratio`: the atomics of the result are
/// `numerator * 10^18 / denominator` rounded down; it panics on a zero
/// denominator or an overflow, which `requires` leaves out.
#[verifier::external_body]
fn decimal_from_ratio(numerator: u128, denominator: u128) -> (r: Decimal)
    requires
        denominator > 0,
        ratio(numerator as int, frac(), denominator as int) <= max_u128(),
    ensures
        r.val() == ratio(numerator as int, frac(), denominator as int),
{
    Decimal {
        atomics: cosmwasm_std::Decimal::from_ratio(numerator, denominator).atomics().u128(),
    }
}

/// Calls `cosmwasm_std::Decimal::checked_mul`: the atomics of the product
/// are `a * b / 10^18` rounded down, or an overflow error (mapped to `None`)
/// when that exceeds `u128::MAX`.
#[verifier::external_body]
fn decimal_checked_mul(a: Decimal, b: Decimal) -> (r: Option<Decimal>)
    ensures
        r is Some <==> ratio(a.val(), b.val(), frac()) <= max_u128(),
        r matches Some(d) ==> d.val() == ratio(a.val(), b.val(), frac()),
{
    match cosmwasm_std::Decimal::raw(a.atomics).checked_mul(cosmwasm_std::Decimal::raw(b.atomics)) {
        Ok(d) => Some(Decimal { atomics: d.atomics().u128() }),
        Err(_) => None,
    }
}

/// Calls `Mul for cosmwasm_std::Decimal`: the same product as
/// `checked_mul`, panicking on overflow (left out by `requires`).
#[verifier::external_body]
fn decimal_mul(a: Decimal, b: Decimal) -> (r: Decimal)
    requires
        ratio(a.val(), b.val(), frac()) <= max_u128(),
    ensures
        r.val() == ratio(a.val(), b.val(), frac()),
{
    Decimal {
        atomics: (cosmwasm_std::Decimal::raw(a.atomics) * cosmwasm_std::Decimal::raw(
            b.atomics,
        )).atomics().u128(),
    }
}

/// Calls `cosmwasm_std::Decimal::checked_div`, which is
/// `checked_from_ratio(a.atomics, b.atomics)`: `a * 10^18 / b` rounded down,
/// or an error (mapped to `None`) on a zero divisor or an overflow.
#[verifier::external_body]
fn decimal_checked_div(a: Decimal, b: Decimal) -> (r: Option<Decimal>)
    ensures
        r is Some <==> (b.val() > 0 && ratio(a.val(), frac(), b.val()) <= max_u128()),
        r matches Some(d) ==> d.val() == ratio(a.val(), frac(), b.val()),
{
    match cosmwasm_std::Decimal::raw(a.atomics).checked_div(cosmwasm_std::Decimal::raw(b.atomics)) {
        Ok(d) => Some(Decimal { atomics: d.atomics().u128() }),
        Err(_) => None,
    }
}

/// Calls `Div for cosmwasm_std::Decimal`: the same quotient as
/// `checked_div`, panicking on a zero divisor or an overflow (left out by
/// `requires`).
#[verifier::external_body]
fn decimal_div(a: Decimal, b: Decimal) -> (r: Decimal)
    requires
        b.val() > 0,
        ratio(a.val(), frac(), b.val()) <= max_u128(),
    ensures
        r.val() == ratio(a.val(), frac(), b.val()),
{
    Decimal {
        atomics: (cosmwasm_std::Decimal::raw(a.atomics) / cosmwasm_std::Decimal::raw(
            b.atomics,
        )).atomics().u128(),
    }
}

} // verus!
