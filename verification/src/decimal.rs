//! Arbitrary-precision decimals, carried by `bigdecimal::BigDecimal`.
//!
//! The verifier cannot look inside a `BigDecimal`. This module names the two
//! things the rest of the library reasons about, the number a decimal denotes
//! and the scale it is stored at, and states what each arithmetic call does to
//! them. Everything above this module works on [`Decimal`], whose scale is
//! bounded so that no call below has to build an astronomically large power of
//! ten.

use bigdecimal::num_bigint::BigInt;
use bigdecimal::num_bigint::ToBigInt;
use bigdecimal::BigDecimal;
use bigdecimal::Zero;
use vstd::arithmetic::power2::lemma2_to64_rest;
use vstd::arithmetic::power2::pow2;
use vstd::prelude::*;

verus! {

/// `bigdecimal::BigDecimal`, a decimal number of any size: an integer of
/// any size and the scale it is to be read at.
#[verifier::external_type_specification]
#[verifier::external_body]
pub struct ExBigDecimal(bigdecimal::BigDecimal);

/// `num_bigint::BigInt`, an integer of any size, as `bigdecimal` hands it
/// on.
#[verifier::external_type_specification]
#[verifier::external_body]
pub struct ExBigInt(bigdecimal::num_bigint::BigInt);

/// The number that a `BigDecimal` denotes: its integer digits times ten to the
/// power of minus its scale.
pub uninterp spec fn decimal_value(d: BigDecimal) -> real;

/// The scale that a `BigDecimal` is stored at: how many of its integer digits
/// lie behind the decimal point (negative where trailing zeros are left out).
pub uninterp spec fn decimal_scale(d: BigDecimal) -> int;

/// The integer that a `BigInt` denotes.
pub uninterp spec fn bigint_value(n: BigInt) -> int;

/// What `bigdecimal` returns for `a / b` when `b` is not zero. The quotient is
/// cut off after a fixed number of digits, counted from the stored digits, so
/// it depends on the scales as well as on the two numbers.
pub uninterp spec fn decimal_quotient(a: DecimalView, b: DecimalView) -> DecimalView;

/// What `num-bigint` returns for `a | b`: the bitwise or of the two integers
/// in two's complement.
pub uninterp spec fn bigint_bitor(a: int, b: int) -> int;

/// Largest distance from zero of a scale that this library works with.
pub const MAX_SCALE: i64 = 1_000_000;

/// Two to the power of 64.
pub const TWO_POW_64: u128 = 0x1_0000_0000_0000_0000;

/// Whether a scale is one that this library works with.
pub open spec fn scale_in_range(scale: int) -> bool {
    -MAX_SCALE <= scale <= MAX_SCALE
}

/// What a decimal is to the contracts: the number and the scale.
pub struct DecimalView {
    pub value: real,
    pub scale: int,
}

/// A `BigDecimal` as the contracts see it.
pub open spec fn raw_view(d: BigDecimal) -> DecimalView {
    DecimalView { value: decimal_value(d), scale: decimal_scale(d) }
}

/// Whether a number has no fractional part.
pub open spec fn is_integral(v: real) -> bool {
    v.floor() as real == v
}

/// The integer nearest to `v` between `v` and zero.
pub open spec fn truncate(v: real) -> int {
    if v >= 0real {
        v.floor()
    } else {
        -((-v).floor())
    }
}

/// `a | b` on integers, written as a sum where no bit can be set in both:
/// neither is negative, `a` is a multiple of two to the 64, `b` lies below it.
pub open spec fn joined_value(a: int, b: int) -> int {
    if 0 <= a && a % (TWO_POW_64 as int) == 0 && 0 <= b < TWO_POW_64 {
        a + b
    } else {
        bigint_bitor(a, b)
    }
}

/// The larger of two scales.
pub open spec fn max_scale(a: int, b: int) -> int {
    if a >= b {
        a
    } else {
        b
    }
}

/// `BigDecimal::as_bigint_and_exponent`, second part: the scale as stored.
#[verifier::external_body]
fn raw_scale(d: &BigDecimal) -> (r: i64)
    ensures
        r == decimal_scale(*d),
{
    d.as_bigint_and_exponent().1
}

/// `BigDecimal::clone`: the same number at the same scale.
#[verifier::external_body]
fn raw_clone(d: &BigDecimal) -> (r: BigDecimal)
    ensures
        raw_view(r) == raw_view(*d),
{
    d.clone()
}

/// `BigDecimal::zero`: the number zero at scale zero.
#[verifier::external_body]
fn raw_zero() -> (r: BigDecimal)
    ensures
        decimal_value(r) == 0real,
        decimal_scale(r) == 0,
{
    BigDecimal::zero()
}

/// `BigDecimal::is_zero`: whether the number is zero, at whatever scale.
#[verifier::external_body]
fn raw_is_zero(d: &BigDecimal) -> (r: bool)
    ensures
        r == (decimal_value(*d) == 0real),
{
    d.is_zero()
}

/// `bigdecimal`'s `&a + &b`: the exact sum, stored at the larger of the two
/// scales. It brings both to that scale first, which is why the scales have to
/// be bounded.
#[verifier::external_body]
fn raw_add(a: &BigDecimal, b: &BigDecimal) -> (r: BigDecimal)
    requires
        scale_in_range(decimal_scale(*a)),
        scale_in_range(decimal_scale(*b)),
    ensures
        decimal_value(r) == decimal_value(*a) + decimal_value(*b),
        decimal_scale(r) == max_scale(decimal_scale(*a), decimal_scale(*b)),
{
    a + b
}

/// `bigdecimal`'s `&a - &b`: the exact difference, stored at the larger of the
/// two scales.
#[verifier::external_body]
fn raw_sub(a: &BigDecimal, b: &BigDecimal) -> (r: BigDecimal)
    requires
        scale_in_range(decimal_scale(*a)),
        scale_in_range(decimal_scale(*b)),
    ensures
        decimal_value(r) == decimal_value(*a) - decimal_value(*b),
        decimal_scale(r) == max_scale(decimal_scale(*a), decimal_scale(*b)),
{
    a - b
}

/// `bigdecimal`'s `a < b`: whether the first number is the smaller, whatever
/// the scales.
#[verifier::external_body]
fn raw_less(a: &BigDecimal, b: &BigDecimal) -> (r: bool)
    requires
        scale_in_range(decimal_scale(*a)),
        scale_in_range(decimal_scale(*b)),
    ensures
        r == (decimal_value(*a) < decimal_value(*b)),
{
    a < b
}

/// `bigdecimal`'s `a == b`: whether the two numbers are the same, whatever the
/// scales.
#[verifier::external_body]
fn raw_same(a: &BigDecimal, b: &BigDecimal) -> (r: bool)
    requires
        scale_in_range(decimal_scale(*a)),
        scale_in_range(decimal_scale(*b)),
    ensures
        r == (decimal_value(*a) == decimal_value(*b)),
{
    a == b
}

/// `BigDecimal::is_integer`: whether the number has no fractional part.
#[verifier::external_body]
fn raw_is_integer(d: &BigDecimal) -> (r: bool)
    requires
        scale_in_range(decimal_scale(*d)),
    ensures
        r == is_integral(decimal_value(*d)),
{
    d.is_integer()
}

/// `bigdecimal`'s `&a / &b`, which panics on a zero divisor.
#[verifier::external_body]
fn raw_div(a: &BigDecimal, b: &BigDecimal) -> (r: BigDecimal)
    requires
        scale_in_range(decimal_scale(*a)),
        scale_in_range(decimal_scale(*b)),
        decimal_value(*b) != 0real,
    ensures
        raw_view(r) == decimal_quotient(raw_view(*a), raw_view(*b)),
{
    a / b
}

/// `ToBigInt::to_bigint` of a `BigDecimal`: always an integer, the number with
/// its fractional digits dropped.
#[verifier::external_body]
fn raw_to_bigint(d: &BigDecimal) -> (r: Option<BigInt>)
    requires
        scale_in_range(decimal_scale(*d)),
    ensures
        r is Some,
        bigint_value(r.unwrap()) == truncate(decimal_value(*d)),
{
    d.to_bigint()
}

/// `num-bigint`'s `n << bits`: the integer times two to the power of `bits`,
/// for either sign.
#[verifier::external_body]
fn bigint_shift_left(n: BigInt, bits: u8) -> (r: BigInt)
    ensures
        bigint_value(r) == bigint_value(n) * pow2(bits as nat),
{
    n << bits
}

/// `num-bigint`'s `a | b`. Where neither is negative, `a` is a multiple of
/// two to the 64 and `b` lies below it, no bit is set in both, and the result
/// is the sum.
#[verifier::external_body]
fn bigint_or(a: BigInt, b: BigInt) -> (r: BigInt)
    ensures
        bigint_value(r) == bigint_bitor(bigint_value(a), bigint_value(b)),
        bigint_value(r) == joined_value(bigint_value(a), bigint_value(b)),
{
    a | b
}

/// `BigDecimal::from` a `BigInt`: the same integer at scale zero.
#[verifier::external_body]
fn raw_from_bigint(n: BigInt) -> (r: BigDecimal)
    ensures
        decimal_value(r) == bigint_value(n) as real,
        decimal_scale(r) == 0,
{
    BigDecimal::from(n)
}

/// A decimal number of any size, held at a scale within [`MAX_SCALE`] of zero.
#[derive(Debug)]
pub struct Decimal {
    inner: BigDecimal,
}

impl View for Decimal {
    type V = DecimalView;

    closed spec fn view(&self) -> DecimalView {
        raw_view(self.inner)
    }
}

impl Clone for Decimal {
    fn clone(&self) -> (r: Self)
        ensures
            r@ == self@,
    {
        proof {
            use_type_invariant(self);
        }
        Decimal { inner: raw_clone(&self.inner) }
    }
}

impl Decimal {
    #[verifier::type_invariant]
    spec fn scale_bounded(self) -> bool {
        scale_in_range(decimal_scale(self.inner))
    }

    /// Takes a `BigDecimal` in, unless its scale is out of range.
    pub fn from_big(raw: BigDecimal) -> (r: Option<Decimal>)
        ensures
            r is Some <==> scale_in_range(decimal_scale(raw)),
            r matches Some(d) ==> d@ == raw_view(raw),
    {
        let scale = raw_scale(&raw);
        if -MAX_SCALE <= scale && scale <= MAX_SCALE {
            Some(Decimal { inner: raw })
        } else {
            None
        }
    }

    /// Hands the number out as a `BigDecimal`.
    pub fn to_big(&self) -> (r: BigDecimal)
        ensures
            raw_view(r) == self@,
    {
        raw_clone(&self.inner)
    }

    /// The number zero, at scale zero.
    pub fn zero() -> (r: Decimal)
        ensures
            r@.value == 0real,
            r@.scale == 0,
    {
        Decimal { inner: raw_zero() }
    }

    /// Whether the number is zero, at whatever scale.
    pub fn is_zero(&self) -> (r: bool)
        ensures
            r == (self@.value == 0real),
    {
        raw_is_zero(&self.inner)
    }

    /// The exact sum, at the larger of the two scales.
    pub fn plus(&self, other: &Decimal) -> (r: Decimal)
        ensures
            r@ == decimal_sum(self@, other@),
    {
        proof {
            use_type_invariant(self);
            use_type_invariant(other);
        }
        Decimal { inner: raw_add(&self.inner, &other.inner) }
    }

    /// The exact difference, at the larger of the two scales.
    pub fn minus(&self, other: &Decimal) -> (r: Decimal)
        ensures
            r@ == decimal_difference(self@, other@),
    {
        proof {
            use_type_invariant(self);
            use_type_invariant(other);
        }
        Decimal { inner: raw_sub(&self.inner, &other.inner) }
    }

    /// Whether this number is the smaller.
    pub fn less_than(&self, other: &Decimal) -> (r: bool)
        ensures
            r == (self@.value < other@.value),
    {
        proof {
            use_type_invariant(self);
            use_type_invariant(other);
        }
        raw_less(&self.inner, &other.inner)
    }

    /// Whether the two are the same number, whatever their scales.
    pub fn same_number(&self, other: &Decimal) -> (r: bool)
        ensures
            r == (self@.value == other@.value),
    {
        proof {
            use_type_invariant(self);
            use_type_invariant(other);
        }
        raw_same(&self.inner, &other.inner)
    }

    /// Whether the number has no fractional part.
    pub fn is_integer(&self) -> (r: bool)
        ensures
            r == is_integral(self@.value),
    {
        proof {
            use_type_invariant(self);
        }
        raw_is_integer(&self.inner)
    }

    /// The quotient as `bigdecimal` computes it; `None` where the divisor is
    /// zero or the quotient's scale leaves the range.
    pub fn divided_by(&self, divisor: &Decimal) -> (r: Option<Decimal>)
        ensures
            r is Some <==> checked_quotient(self@, divisor@) is Some,
            r matches Some(q) ==> Some(q@) == checked_quotient(self@, divisor@),
    {
        proof {
            use_type_invariant(self);
            use_type_invariant(divisor);
        }
        if divisor.is_zero() {
            None
        } else {
            Decimal::from_big(raw_div(&self.inner, &divisor.inner))
        }
    }

    /// The number as an integer with the fractional digits dropped, shifted
    /// left by 64 bits and or-ed with `low`'s integer.
    pub(crate) fn shifted_or(&self, low: &Decimal) -> (r: Option<Decimal>)
        ensures
            r matches Some(d) && d@.scale == 0 && d@.value == shift_or_value(
                truncate(self@.value),
                truncate(low@.value),
            ) as real,
    {
        proof {
            use_type_invariant(self);
            use_type_invariant(low);
        }
        proof {
            lemma2_to64_rest();
        }
        let high = raw_to_bigint(&self.inner);
        let low = raw_to_bigint(&low.inner);
        match (high, low) {
            (Some(high), Some(low)) => {
                let shifted = bigint_shift_left(high, 64);
                let joined = bigint_or(shifted, low);
                Some(Decimal { inner: raw_from_bigint(joined) })
            },
            _ => None,
        }
    }
}

/// The sum of two decimals as it is stored.
pub open spec fn decimal_sum(a: DecimalView, b: DecimalView) -> DecimalView {
    DecimalView { value: a.value + b.value, scale: max_scale(a.scale, b.scale) }
}

/// The difference of two decimals as it is stored.
pub open spec fn decimal_difference(a: DecimalView, b: DecimalView) -> DecimalView {
    DecimalView { value: a.value - b.value, scale: max_scale(a.scale, b.scale) }
}

/// The quotient where there is one that this library can hold.
pub open spec fn checked_quotient(a: DecimalView, b: DecimalView) -> Option<DecimalView> {
    if b.value != 0real && scale_in_range(decimal_quotient(a, b).scale) {
        Some(decimal_quotient(a, b))
    } else {
        None
    }
}

/// `(high << 64) | low` on integers: the plain sum where `high` is not
/// negative and `low` fits in 64 bits.
pub open spec fn shift_or_value(high: int, low: int) -> int {
    if 0 <= high && 0 <= low < TWO_POW_64 {
        high * TWO_POW_64 + low
    } else {
        bigint_bitor(high * TWO_POW_64, low)
    }
}

} // verus!
