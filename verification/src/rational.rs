//! Exact rational numbers, the result type of every statistic.

use vstd::prelude::*;

verus! {

/// An exact rational number `num / den`.
///
/// A well-formed rational has a positive denominator; see [`Rational::wf`].
/// Values are not reduced to lowest terms: two rationals denote the same
/// number exactly when [`rat_eq`] holds of them.
#[derive(Clone, Copy, Debug, PartialEq, Eq, Structural)]
pub struct Rational {
    pub num: i128,
    pub den: i128,
}

impl Rational {
    /// Well-formedness: the denominator is positive.
    pub open spec fn wf(self) -> bool {
        self.den > 0
    }

    /// The rational `num / den` for a positive denominator.
    pub fn new(num: i128, den: i128) -> (r: Rational)
        requires
            den > 0,
        ensures
            r.num == num,
            r.den == den,
            r.wf(),
    {
        Rational { num, den }
    }

    /// The rational equal to the integer `v`.
    pub fn from_int(v: i64) -> (r: Rational)
        ensures
            r.num == v as int,
            r.den == 1,
            r.wf(),
    {
        Rational { num: v as i128, den: 1 }
    }
}

/// The rational number one.
pub open spec fn rat_one() -> Rational {
    Rational { num: 1, den: 1 }
}

/// Two well-formed rationals denote the same number.
pub open spec fn rat_eq(a: Rational, b: Rational) -> bool {
    a.num * b.den == b.num * a.den
}

/// For well-formed rationals: `a` denotes a number no greater than `b`.
pub open spec fn rat_le(a: Rational, b: Rational) -> bool {
    a.num * b.den <= b.num * a.den
}

} // verus!
