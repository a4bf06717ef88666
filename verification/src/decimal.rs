//! Fixed-point amounts with eighteen fractional digits.
//!
//! A `Decimal` counts attos, units of 10^-18, in a signed 128-bit integer.
//! Every operation is checked: a result that does not fit is reported as
//! `None`, never wrapped or saturated. Products and quotients are rounded
//! towards zero, once.
use crate::wide;
use vstd::prelude::*;

verus! {

/// The number of attos in one whole unit.
pub const ATTOS_PER_UNIT: i128 = 1_000_000_000_000_000_000;

/// The absolute value of an integer.
pub open spec fn magnitude(x: int) -> int {
    if x >= 0 {
        x
    } else {
        -x
    }
}

/// The quotient of `n` by `d`, rounded towards zero.
pub open spec fn trunc_div(n: int, d: int) -> int
    recommends
        d != 0,
{
    if (n >= 0) == (d > 0) {
        magnitude(n) / magnitude(d)
    } else {
        -(magnitude(n) / magnitude(d))
    }
}

/// Whether an integer is a representable number of attos.
pub open spec fn representable(v: int) -> bool {
    i128::MIN <= v <= i128::MAX
}

/// The amount of `v` attos, where representable.
pub open spec fn checked(v: int) -> Option<Decimal> {
    if representable(v) {
        Some(Decimal { attos: v as i128 })
    } else {
        None
    }
}

/// `a * b / c` rounded towards zero, where `c` is not zero and the result is
/// representable.
pub open spec fn mul_div_spec(a: Decimal, b: Decimal, c: Decimal) -> Option<Decimal> {
    if c.attos == 0 {
        None
    } else {
        checked(trunc_div(a.attos * b.attos, c.attos as int))
    }
}

/// A fixed-point amount: `attos` units of 10^-18.
#[derive(Clone, Copy, Debug, PartialEq, Eq, PartialOrd, Ord, Hash, Structural)]
pub struct Decimal {
    pub attos: i128,
}

proof fn lemma_product_magnitude(a: int, b: int)
    ensures
        magnitude(a * b) == magnitude(a) * magnitude(b),
        (a == 0 || b == 0) ==> a * b == 0,
        (a > 0 && b > 0) || (a < 0 && b < 0) ==> a * b > 0,
        (a > 0 && b < 0) || (a < 0 && b > 0) ==> a * b < 0,
{
    assert((a == 0 || b == 0) ==> a * b == 0) by (nonlinear_arith);
    assert((a > 0 && b > 0) || (a < 0 && b < 0) ==> a * b > 0) by (nonlinear_arith);
    assert((a > 0 && b < 0) || (a < 0 && b > 0) ==> a * b < 0) by (nonlinear_arith);
    assert(a * b == (-a) * (-b)) by (nonlinear_arith);
    assert(-(a * b) == (-a) * b) by (nonlinear_arith);
    assert(-(a * b) == a * (-b)) by (nonlinear_arith);
}

fn magnitude_of(x: i128) -> (m: u128)
    ensures
        m as int == magnitude(x as int),
{
    if x >= 0 {
        x as u128
    } else if x == i128::MIN {
        170141183460469231731687303715884105728u128
    } else {
        (-x) as u128
    }
}

/// The amount of magnitude `m`, negated when `negative`, where representable.
fn with_sign(m: u128, negative: bool) -> (r: Option<Decimal>)
    ensures
        r == checked(
            if negative {
                -(m as int)
            } else {
                m as int
            },
        ),
{
    if !negative {
        if m <= 170141183460469231731687303715884105727u128 {
            Some(Decimal { attos: m as i128 })
        } else {
            None
        }
    } else if m < 170141183460469231731687303715884105728u128 {
        Some(Decimal { attos: -(m as i128) })
    } else if m == 170141183460469231731687303715884105728u128 {
        Some(Decimal { attos: i128::MIN })
    } else {
        None
    }
}

impl Decimal {
    /// Zero.
    pub open spec fn spec_zero() -> Decimal {
        Decimal { attos: 0 }
    }

    /// One whole unit.
    pub open spec fn spec_one() -> Decimal {
        Decimal { attos: ATTOS_PER_UNIT }
    }

    /// The largest representable amount.
    pub open spec fn spec_max() -> Decimal {
        Decimal { attos: i128::MAX }
    }

    /// The sum, where representable.
    pub open spec fn add_spec(self, other: Decimal) -> Option<Decimal> {
        checked(self.attos + other.attos)
    }

    /// The difference, where representable.
    pub open spec fn sub_spec(self, other: Decimal) -> Option<Decimal> {
        checked(self.attos - other.attos)
    }

    /// The product, rounded towards zero, where representable.
    pub open spec fn mul_spec(self, other: Decimal) -> Option<Decimal> {
        checked(trunc_div(self.attos * other.attos, ATTOS_PER_UNIT as int))
    }

    /// The quotient, rounded towards zero, where the divisor is not zero and
    /// the result is representable.
    pub open spec fn div_spec(self, other: Decimal) -> Option<Decimal> {
        if other.attos == 0 {
            None
        } else {
            checked(trunc_div(self.attos * ATTOS_PER_UNIT, other.attos as int))
        }
    }

    /// Zero.
    #[verifier::when_used_as_spec(spec_zero)]
    pub fn zero() -> (r: Decimal)
        ensures
            r == Decimal::spec_zero(),
    {
        Decimal { attos: 0 }
    }

    /// One whole unit.
    #[verifier::when_used_as_spec(spec_one)]
    pub fn one() -> (r: Decimal)
        ensures
            r == Decimal::spec_one(),
    {
        Decimal { attos: ATTOS_PER_UNIT }
    }

    /// The largest amount; it stands for an unbounded ratio.
    #[verifier::when_used_as_spec(spec_max)]
    pub fn max() -> (r: Decimal)
        ensures
            r == Decimal::spec_max(),
    {
        Decimal { attos: i128::MAX }
    }

    /// The amount of `attos` units of 10^-18.
    pub fn from_attos(attos: i128) -> (r: Decimal)
        ensures
            r.attos == attos,
    {
        Decimal { attos }
    }

    /// The amount of `units` whole units.
    pub fn from_int(units: i64) -> (r: Decimal)
        ensures
            r.attos == units * ATTOS_PER_UNIT,
    {
        let wide_units: i128 = units as i128;
        assert(-9223372036854775808 * 1_000_000_000_000_000_000 <= wide_units
            * 1_000_000_000_000_000_000 <= 9223372036854775807 * 1_000_000_000_000_000_000)
            by (nonlinear_arith)
            requires
                -9223372036854775808 <= wide_units <= 9223372036854775807,
        ;
        Decimal { attos: wide_units * ATTOS_PER_UNIT }
    }

    /// The amount in units of 10^-18.
    pub fn attos(&self) -> (r: i128)
        ensures
            r == self.attos,
    {
        self.attos
    }

    /// Whether the amount is zero.
    pub fn is_zero(&self) -> (r: bool)
        ensures
            r == (self.attos == 0),
    {
        self.attos == 0
    }

    /// Whether the amount is above zero.
    pub fn is_positive(&self) -> (r: bool)
        ensures
            r == (self.attos > 0),
    {
        self.attos > 0
    }

    /// Whether the amount is below zero.
    pub fn is_negative(&self) -> (r: bool)
        ensures
            r == (self.attos < 0),
    {
        self.attos < 0
    }

    /// Whether this amount is less than `other`.
    pub fn lt(&self, other: &Decimal) -> (r: bool)
        ensures
            r == (self.attos < other.attos),
    {
        self.attos < other.attos
    }

    /// Whether this amount is at most `other`.
    pub fn le(&self, other: &Decimal) -> (r: bool)
        ensures
            r == (self.attos <= other.attos),
    {
        self.attos <= other.attos
    }

    /// Whether this amount is more than `other`.
    pub fn gt(&self, other: &Decimal) -> (r: bool)
        ensures
            r == (self.attos > other.attos),
    {
        self.attos > other.attos
    }

    /// Whether this amount is at least `other`.
    pub fn ge(&self, other: &Decimal) -> (r: bool)
        ensures
            r == (self.attos >= other.attos),
    {
        self.attos >= other.attos
    }

    /// The sum, or `None` where it is not representable.
    pub fn checked_add(&self, other: Decimal) -> (r: Option<Decimal>)
        ensures
            r == self.add_spec(other),
    {
        match self.attos.checked_add(other.attos) {
            Some(attos) => Some(Decimal { attos }),
            None => None,
        }
    }

    /// The difference, or `None` where it is not representable.
    pub fn checked_sub(&self, other: Decimal) -> (r: Option<Decimal>)
        ensures
            r == self.sub_spec(other),
    {
        match self.attos.checked_sub(other.attos) {
            Some(attos) => Some(Decimal { attos }),
            None => None,
        }
    }

    /// `self * b / c`, rounded towards zero once, after the exact product.
    pub fn mul_div(&self, b: Decimal, c: Decimal) -> (r: Option<Decimal>)
        ensures
            r == mul_div_spec(*self, b, c),
    {
        if c.attos == 0 {
            return None;
        }
        let ma = magnitude_of(self.attos);
        let mb = magnitude_of(b.attos);
        let mc = magnitude_of(c.attos);
        let negative = ((self.attos < 0) != (b.attos < 0)) != (c.attos < 0);
        proof {
            lemma_product_magnitude(self.attos as int, b.attos as int);
        }
        match wide::mul_div(ma, mb, mc) {
            None => None,
            Some(q) => {
                if q == 0 {
                    Some(Decimal { attos: 0 })
                } else {
                    proof {
                        let n = self.attos * b.attos;
                        if n == 0 {
                            assert(magnitude(n) / (mc as int) == 0);
                        }
                    }
                    with_sign(q, negative)
                }
            },
        }
    }

    /// The product, rounded towards zero, or `None` where it is not
    /// representable.
    pub fn checked_mul(&self, other: Decimal) -> (r: Option<Decimal>)
        ensures
            r == self.mul_spec(other),
    {
        self.mul_div(other, Decimal { attos: ATTOS_PER_UNIT })
    }

    /// The quotient, rounded towards zero, or `None` where `other` is zero
    /// or the quotient is not representable.
    pub fn checked_div(&self, other: Decimal) -> (r: Option<Decimal>)
        ensures
            r == self.div_spec(other),
    {
        self.mul_div(Decimal { attos: ATTOS_PER_UNIT }, other)
    }
}

} // verus!
