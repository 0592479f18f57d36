//! Exact signed fixed-point decimal quantities.
//!
//! Every token amount and USD value in this crate is an [`Amount`]: a count
//! of atomic units, each worth `10^-9` of a whole unit.  Arithmetic is exact
//! integer arithmetic on the unit counts; scaled multiplication and division
//! truncate toward zero at the ninth fractional digit.

use vstd::prelude::*;

verus! {

/// Number of atomic units in one whole unit (nine fractional digits).
pub const UNITS_PER_WHOLE: i128 = 1_000_000_000;

/// Largest unit magnitude of a well-formed amount: one million whole units.
///
/// Keeping individual amounts inside this bound makes every sum of a vector
/// of amounts, every scaled product of two amounts, and every lot-splitting
/// quotient of the cost-basis engine fit in an `i128`.
pub const UNIT_LIMIT: i128 = 1_000_000_000_000_000;

/// Largest unit magnitude of a derived USD value: the scaled product of two
/// in-range amounts (`UNIT_LIMIT * UNIT_LIMIT / UNITS_PER_WHOLE`), as
/// produced by the USD backfill.
pub const USD_LIMIT: i128 = 1_000_000_000_000_000_000_000;

/// A signed decimal quantity, stored as a count of `10^-9` units.
#[derive(Clone, Copy, PartialEq, Eq, Structural, Hash, Debug)]
pub struct Amount {
    pub units: i128,
}

impl View for Amount {
    type V = int;

    open spec fn view(&self) -> int {
        self.units as int
    }
}

/// Magnitude of an integer.
pub open spec fn abs_int(x: int) -> int {
    if x >= 0 {
        x
    } else {
        -x
    }
}

/// Division truncating toward zero, for a positive divisor.
pub open spec fn tdiv(a: int, b: int) -> int
    recommends
        b > 0,
{
    if a >= 0 {
        a / b
    } else {
        -((-a) / b)
    }
}

/// Exact product of two amounts, truncated to the unit grid.
pub open spec fn scaled_mul(a: int, b: int) -> int {
    tdiv(a * b, UNITS_PER_WHOLE as int)
}

/// Exact quotient of two amounts, truncated to the unit grid.
pub open spec fn scaled_div(a: int, b: int) -> int
    recommends
        b > 0,
{
    tdiv(a * UNITS_PER_WHOLE as int, b)
}

/// Truncating division never increases magnitude (divisor at least one).
pub proof fn lemma_tdiv_bounds(a: int, b: int)
    requires
        b >= 1,
    ensures
        a >= 0 ==> 0 <= tdiv(a, b) <= a,
        a < 0 ==> a <= tdiv(a, b) <= 0,
{
    if a >= 0 {
        assert(0 <= a / b <= a) by (nonlinear_arith)
            requires
                a >= 0,
                b >= 1,
        ;
    } else {
        assert(0 <= (-a) / b <= -a) by (nonlinear_arith)
            requires
                -a >= 0,
                b >= 1,
        ;
    }
}

/// A product of two in-range quantities fits in an `i128`.
pub proof fn lemma_mul_in_range(a: int, b: int)
    requires
        -UNIT_LIMIT <= a <= UNIT_LIMIT,
        -UNIT_LIMIT <= b <= UNIT_LIMIT,
    ensures
        -(UNIT_LIMIT * UNIT_LIMIT) <= a * b <= UNIT_LIMIT * UNIT_LIMIT,
        i128::MIN <= a * b <= i128::MAX,
{
    assert(-(UNIT_LIMIT * UNIT_LIMIT) <= a * b <= UNIT_LIMIT * UNIT_LIMIT) by (nonlinear_arith)
        requires
            -UNIT_LIMIT <= a <= UNIT_LIMIT,
            -UNIT_LIMIT <= b <= UNIT_LIMIT,
    ;
}

/// Magnitudes multiply: a product of bounded factors is bounded.
pub proof fn lemma_mul_bounds(a: int, b: int, ba: int, bb: int)
    requires
        -ba <= a <= ba,
        -bb <= b <= bb,
        0 <= ba,
        0 <= bb,
    ensures
        -(ba * bb) <= a * b <= ba * bb,
{
    assert(-(ba * bb) <= a * b <= ba * bb) by (nonlinear_arith)
        requires
            -ba <= a <= ba,
            -bb <= b <= bb,
            0 <= ba,
            0 <= bb,
    ;
}

/// A quotient scaled back by its divisor stays below the dividend.
pub proof fn lemma_tdiv_mul_le(x: int, d: int, c: int)
    requires
        x >= 0,
        d >= 1,
        0 <= c <= d,
    ensures
        0 <= tdiv(x, d) * c <= x,
{
    assert(0 <= (x / d) * c <= x) by (nonlinear_arith)
        requires
            x >= 0,
            d >= 1,
            0 <= c <= d,
    ;
}

/// Dividing a value bounded by `m * d` leaves at most `m`.
pub proof fn lemma_tdiv_scale(a: int, d: int, m: int)
    requires
        d >= 1,
        m >= 0,
        -(m * d) <= a <= m * d,
    ensures
        -m <= tdiv(a, d) <= m,
{
    if a >= 0 {
        assert(0 <= a / d <= m) by (nonlinear_arith)
            requires
                d >= 1,
                m >= 0,
                0 <= a <= m * d,
        ;
    } else {
        assert(0 <= (-a) / d <= m) by (nonlinear_arith)
            requires
                d >= 1,
                m >= 0,
                0 <= -a <= m * d,
        ;
    }
}

/// Truncating division agrees with the sign-split form used by the
/// specification of `i128::checked_div`.
proof fn lemma_tdiv_sign_split(a: int, b: int)
    requires
        b >= 1,
    ensures
        tdiv(a, b) == if a == 0 {
            0
        } else if a > 0 {
            a / b
        } else {
            ((a * -1) / b) * -1
        },
{
    if a < 0 {
        assert(-((-a) / b) == ((a * -1) / b) * -1) by (nonlinear_arith);
    } else if a == 0 {
        assert(0int / b == 0) by (nonlinear_arith)
            requires
                b >= 1,
        ;
    }
}

impl Amount {
    /// A well-formed amount keeps its magnitude inside [`UNIT_LIMIT`].
    pub open spec fn wf(self) -> bool {
        -UNIT_LIMIT <= self@ <= UNIT_LIMIT
    }

    /// The zero quantity.
    pub fn zero() -> (r: Amount)
        ensures
            r@ == 0,
            r.wf(),
    {
        Amount { units: 0 }
    }

    /// An amount from a raw count of `10^-9` units.
    pub fn from_units(units: i128) -> (r: Amount)
        ensures
            r@ == units,
    {
        Amount { units }
    }

    /// An amount of `whole` whole units.
    pub fn from_whole(whole: i64) -> (r: Amount)
        ensures
            r@ == whole * UNITS_PER_WHOLE,
    {
        Amount { units: (whole as i128) * UNITS_PER_WHOLE }
    }

    pub fn is_zero(&self) -> (r: bool)
        ensures
            r == (self@ == 0),
    {
        self.units == 0
    }

    pub fn is_negative(&self) -> (r: bool)
        ensures
            r == (self@ < 0),
    {
        self.units < 0
    }

    pub fn is_positive(&self) -> (r: bool)
        ensures
            r == (self@ > 0),
    {
        self.units > 0
    }

    pub fn le(&self, other: &Amount) -> (r: bool)
        ensures
            r == (self@ <= other@),
    {
        self.units <= other.units
    }

    /// The negated quantity.
    pub fn neg(&self) -> (r: Amount)
        requires
            -self@ <= i128::MAX,
        ensures
            r@ == -self@,
    {
        Amount { units: -self.units }
    }

    /// The magnitude of the quantity.
    pub fn abs(&self) -> (r: Amount)
        requires
            -self@ <= i128::MAX,
        ensures
            r@ == if self@ >= 0 {
                self@
            } else {
                -self@
            },
            r@ >= 0,
    {
        if self.units < 0 {
            Amount { units: -self.units }
        } else {
            *self
        }
    }

    /// The exact sum.
    pub fn add(&self, other: &Amount) -> (r: Amount)
        requires
            i128::MIN <= self@ + other@ <= i128::MAX,
        ensures
            r@ == self@ + other@,
    {
        Amount { units: self.units + other.units }
    }

    /// The exact difference.
    pub fn sub(&self, other: &Amount) -> (r: Amount)
        requires
            i128::MIN <= self@ - other@ <= i128::MAX,
        ensures
            r@ == self@ - other@,
    {
        Amount { units: self.units - other.units }
    }

    /// The product, truncated to the unit grid.
    pub fn mul_scaled(&self, other: &Amount) -> (r: Amount)
        requires
            i128::MIN <= self@ * other@ <= i128::MAX,
        ensures
            r@ == scaled_mul(self@, other@),
    {
        let p: i128 = self.units * other.units;
        proof {
            lemma_tdiv_bounds(p as int, UNITS_PER_WHOLE as int);
            lemma_tdiv_sign_split(p as int, UNITS_PER_WHOLE as int);
        }
        let q: i128 = p.checked_div(UNITS_PER_WHOLE).unwrap();
        Amount { units: q }
    }

    /// Half the quantity, truncated toward zero.
    pub fn half(&self) -> (r: Amount)
        ensures
            r@ == tdiv(self@, 2),
    {
        proof {
            lemma_tdiv_bounds(self@, 2);
            lemma_tdiv_sign_split(self@, 2);
        }
        let q: i128 = self.units.checked_div(2).unwrap();
        Amount { units: q }
    }

    /// The quotient, truncated to the unit grid.
    pub fn div_scaled(&self, other: &Amount) -> (r: Amount)
        requires
            other@ > 0,
            i128::MIN <= self@ * UNITS_PER_WHOLE <= i128::MAX,
        ensures
            r@ == scaled_div(self@, other@),
    {
        let p: i128 = self.units * UNITS_PER_WHOLE;
        proof {
            lemma_tdiv_bounds(p as int, other@);
            lemma_tdiv_sign_split(p as int, other@);
        }
        let q: i128 = p.checked_div(other.units).unwrap();
        Amount { units: q }
    }
}

} // verus!
