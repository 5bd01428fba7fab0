//! Exact rational numbers for cycle time, kept in lowest terms by their
//! constructors.

use vstd::prelude::*;

use crate::types::{reduced_denominator, reduced_numerator, spec_gcd};

verus! {

/// A fraction `numerator/denominator`. The constructors keep it in lowest
/// terms with a positive denominator.
#[derive(Debug, Clone, Copy, PartialEq, Eq, Hash, Structural)]
pub struct Rational {
    pub numerator: i64,
    pub denominator: i64,
}

/// `x` lies inside `i64` and is not `i64::MIN`, so it can be negated and
/// passed to the reducing constructor.
pub open spec fn fits(x: int) -> bool {
    i64::MIN < x <= i64::MAX
}

/// `x` lies inside the `i64` range.
pub open spec fn in_i64(x: int) -> bool {
    i64::MIN <= x <= i64::MAX
}

/// The rational `n/d` in lowest terms with a positive denominator.
pub open spec fn spec_make(n: int, d: int) -> Rational {
    Rational {
        numerator: reduced_numerator(n, d) as i64,
        denominator: reduced_denominator(n, d) as i64,
    }
}

/// The inputs that `Rational::new` reduces without panicking or overflowing.
pub open spec fn new_ok(n: int, d: int) -> bool {
    d != 0 && fits(n) && fits(d)
}

/// `a + b` stays in range.
pub open spec fn add_ok(a: Rational, b: Rational) -> bool {
    &&& in_i64(a.numerator * b.denominator)
    &&& in_i64(b.numerator * a.denominator)
    &&& new_ok(a.numerator * b.denominator + b.numerator * a.denominator, a.denominator * b.denominator)
}

/// `a - b` stays in range.
pub open spec fn sub_ok(a: Rational, b: Rational) -> bool {
    &&& in_i64(a.numerator * b.denominator)
    &&& in_i64(b.numerator * a.denominator)
    &&& new_ok(a.numerator * b.denominator - b.numerator * a.denominator, a.denominator * b.denominator)
}

/// `a * b` stays in range.
pub open spec fn mul_ok(a: Rational, b: Rational) -> bool {
    new_ok(a.numerator * b.numerator, a.denominator * b.denominator)
}

/// `a / b` is defined and stays in range.
pub open spec fn div_ok(a: Rational, b: Rational) -> bool {
    b.numerator != 0 && new_ok(a.numerator * b.denominator, a.denominator * b.numerator)
}

pub open spec fn spec_add(a: Rational, b: Rational) -> Rational {
    spec_make(a.numerator * b.denominator + b.numerator * a.denominator, a.denominator * b.denominator)
}

pub open spec fn spec_sub(a: Rational, b: Rational) -> Rational {
    spec_make(a.numerator * b.denominator - b.numerator * a.denominator, a.denominator * b.denominator)
}

pub open spec fn spec_mul(a: Rational, b: Rational) -> Rational {
    spec_make(a.numerator * b.numerator, a.denominator * b.denominator)
}

pub open spec fn spec_div(a: Rational, b: Rational) -> Rational {
    spec_make(a.numerator * b.denominator, a.denominator * b.numerator)
}

/// `a < b` by cross-multiplication (the order the type's comparison uses).
pub open spec fn rat_lt(a: Rational, b: Rational) -> bool {
    a.numerator * b.denominator < b.numerator * a.denominator
}

/// `a <= b` by cross-multiplication.
pub open spec fn rat_le(a: Rational, b: Rational) -> bool {
    a.numerator * b.denominator <= b.numerator * a.denominator
}

/// The integer `v` as the rational `v/1`.
pub open spec fn spec_integer(v: int) -> Rational {
    Rational { numerator: v as i64, denominator: 1 }
}

proof fn lemma_cross_bound(x: i64, y: i64)
    ensures
        i64::MIN * i64::MAX <= (x as int) * (y as int) <= i64::MIN * i64::MIN,
{
    assert((x as int) * (y as int) <= i64::MIN * i64::MIN) by (nonlinear_arith)
        requires
            i64::MIN <= x <= i64::MAX,
            i64::MIN <= y <= i64::MAX,
    ;
    assert(i64::MIN * i64::MAX <= (x as int) * (y as int)) by (nonlinear_arith)
        requires
            i64::MIN <= x <= i64::MAX,
            i64::MIN <= y <= i64::MAX,
    ;
}

fn gcd_i64(a: i64, b: i64) -> (r: i64)
    requires
        a >= 0,
        b >= 0,
    ensures
        r == (if spec_gcd(a as nat, b as nat) == 0 {
            1
        } else {
            spec_gcd(a as nat, b as nat)
        }),
    decreases b,
{
    if b == 0 {
        if a > 1 {
            a
        } else {
            1
        }
    } else {
        gcd_i64(b, a % b)
    }
}

impl Rational {
    /// `numerator/denominator` in lowest terms with a positive denominator.
    pub fn new(numerator: i64, denominator: i64) -> (r: Self)
        requires
            new_ok(numerator as int, denominator as int),
        ensures
            r == spec_make(numerator as int, denominator as int),
    {
        let an: i64 = if numerator < 0 {
            -numerator
        } else {
            numerator
        };
        let ad: i64 = if denominator < 0 {
            -denominator
        } else {
            denominator
        };
        let g = gcd_i64(an, ad);
        proof {
            assert(g >= 1);
            assert(an / g <= an) by (nonlinear_arith)
                requires
                    an >= 0,
                    g >= 1,
            ;
            assert(ad / g <= ad) by (nonlinear_arith)
                requires
                    ad >= 0,
                    g >= 1,
            ;
        }
        let q: i64 = an / g;
        let den: i64 = ad / g;
        let num: i64 = if (numerator < 0) != (denominator < 0) {
            -q
        } else {
            q
        };
        Rational { numerator: num, denominator: den }
    }

    /// The integer `value` as `value/1`.
    pub fn from_integer(value: i64) -> (r: Self)
        requires
            value > i64::MIN,
        ensures
            r == spec_make(value as int, 1),
            r == spec_integer(value as int),
    {
        let r = Self::new(value, 1);
        proof {
            lemma_make_integer(value as int);
        }
        r
    }

    pub fn zero() -> (r: Self)
        ensures
            r == spec_integer(0),
    {
        Self::from_integer(0)
    }

    pub fn one() -> (r: Self)
        ensures
            r == spec_integer(1),
    {
        Self::from_integer(1)
    }

    pub fn is_zero(self) -> (r: bool)
        ensures
            r == (self.numerator == 0),
    {
        self.numerator == 0
    }

    /// Whether the value is above zero (compared as `0/1 < self`).
    pub fn is_positive(self) -> (r: bool)
        ensures
            r == rat_lt(spec_integer(0), self),
    {
        self.gt(Self::zero())
    }

    pub fn plus(self, rhs: Self) -> (r: Self)
        requires
            add_ok(self, rhs),
        ensures
            r == spec_add(self, rhs),
    {
        let x = self.numerator * rhs.denominator;
        let y = rhs.numerator * self.denominator;
        Rational::new(x + y, self.denominator * rhs.denominator)
    }

    pub fn minus(self, rhs: Self) -> (r: Self)
        requires
            sub_ok(self, rhs),
        ensures
            r == spec_sub(self, rhs),
    {
        let x = self.numerator * rhs.denominator;
        let y = rhs.numerator * self.denominator;
        Rational::new(x - y, self.denominator * rhs.denominator)
    }

    pub fn times(self, rhs: Self) -> (r: Self)
        requires
            mul_ok(self, rhs),
        ensures
            r == spec_mul(self, rhs),
    {
        Rational::new(self.numerator * rhs.numerator, self.denominator * rhs.denominator)
    }

    pub fn divided_by(self, rhs: Self) -> (r: Self)
        requires
            div_ok(self, rhs),
        ensures
            r == spec_div(self, rhs),
    {
        Rational::new(self.numerator * rhs.denominator, self.denominator * rhs.numerator)
    }

    /// `self < other`, comparing `numerator * other.denominator` with
    /// `other.numerator * denominator` in 128-bit arithmetic.
    pub fn lt(self, other: Self) -> (r: bool)
        ensures
            r == rat_lt(self, other),
    {
        proof {
            lemma_cross_bound(self.numerator, other.denominator);
            lemma_cross_bound(other.numerator, self.denominator);
        }
        (self.numerator as i128) * (other.denominator as i128) < (other.numerator as i128) * (
        self.denominator as i128)
    }

    /// `self <= other` by cross-multiplication.
    pub fn le(self, other: Self) -> (r: bool)
        ensures
            r == rat_le(self, other),
    {
        !other.lt(self)
    }

    /// `self > other` by cross-multiplication.
    pub fn gt(self, other: Self) -> (r: bool)
        ensures
            r == rat_lt(other, self),
    {
        other.lt(self)
    }

    /// `self >= other` by cross-multiplication.
    pub fn ge(self, other: Self) -> (r: bool)
        ensures
            r == rat_le(other, self),
    {
        !self.lt(other)
    }
}

/// An integer divided by 1 is already in lowest terms.
pub proof fn lemma_make_integer(v: int)
    requires
        fits(v),
    ensures
        spec_make(v, 1) == spec_integer(v),
{
    let a = crate::types::spec_abs(v);
    assert(a % 1 == 0);
    assert(spec_gcd(1, 0) == 1);
    assert(spec_gcd(a, 1) == spec_gcd(1, a % 1));
    assert(crate::types::reduce_divisor(v, 1) == 1);
    assert(a / 1 == a);
    assert(reduced_numerator(v, 1) == v);
    assert(reduced_denominator(v, 1) == 1);
}

/// The fraction is in lowest terms with a positive denominator, as the
/// constructors leave it.
pub open spec fn lowest_terms(q: Rational) -> bool {
    q.denominator > 0 && spec_gcd(crate::types::spec_abs(q.numerator as int), q.denominator as nat) == 1
}

/// Reducing a fraction already in lowest terms changes nothing.
pub proof fn lemma_make_lowest(q: Rational)
    requires
        lowest_terms(q),
    ensures
        spec_make(q.numerator as int, q.denominator as int) == q,
{
    let n = q.numerator as int;
    let d = q.denominator as int;
    assert(crate::types::spec_abs(d) == d);
    assert(crate::types::reduce_divisor(n, d) == 1);
    let a = crate::types::spec_abs(n);
    assert(a / 1 == a);
    assert(d / 1 == d);
    assert(reduced_numerator(n, d) == n);
    assert(reduced_denominator(n, d) == d);
}

/// Zero is the identity of addition and subtraction: for `x` in lowest terms
/// (and not `i64::MIN` over something, which no sum could reduce),
/// `x + 0 == x` and `x - 0 == x`, and both are in range.
pub proof fn lemma_zero_identity(x: Rational)
    requires
        lowest_terms(x),
        x.numerator > i64::MIN,
    ensures
        add_ok(x, spec_integer(0)),
        spec_add(x, spec_integer(0)) == x,
        sub_ok(x, spec_integer(0)),
        spec_sub(x, spec_integer(0)) == x,
{
    let z = spec_integer(0);
    assert((0int as i64) == 0i64) by (bit_vector);
    assert(x.numerator * z.denominator == x.numerator);
    assert(z.numerator * x.denominator == 0);
    assert(x.denominator * z.denominator == x.denominator);
    lemma_make_lowest(x);
}

/// One is the identity of multiplication and division: for `x` in lowest
/// terms (and not `i64::MIN` over something), `x * 1 == x` and `x / 1 == x`,
/// and both are in range.
pub proof fn lemma_one_identity(x: Rational)
    requires
        lowest_terms(x),
        x.numerator > i64::MIN,
    ensures
        mul_ok(x, spec_integer(1)),
        spec_mul(x, spec_integer(1)) == x,
        div_ok(x, spec_integer(1)),
        spec_div(x, spec_integer(1)) == x,
{
    let o = spec_integer(1);
    assert((1int as i64) == 1i64) by (bit_vector);
    assert(x.numerator * o.numerator == x.numerator);
    assert(x.denominator * o.denominator == x.denominator);
    assert(x.numerator * o.denominator == x.numerator);
    assert(x.denominator * o.numerator == x.denominator);
    lemma_make_lowest(x);
}

/// `zero` and `one` are in lowest terms, and zero is neither positive nor
/// nonzero while one is positive.
pub proof fn lemma_zero_one_signs()
    ensures
        lowest_terms(spec_integer(0)),
        lowest_terms(spec_integer(1)),
        !rat_lt(spec_integer(0), spec_integer(0)),
        rat_lt(spec_integer(0), spec_integer(1)),
{
    assert((0int as i64) == 0i64) by (bit_vector);
    assert((1int as i64) == 1i64) by (bit_vector);
    assert(spec_gcd(0, 1) == spec_gcd(1, 0));
    assert(spec_gcd(1, 1) == spec_gcd(1, 0));
}

} // verus!
