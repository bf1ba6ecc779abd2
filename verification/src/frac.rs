//! Exact fractions with a positive denominator.
//!
//! Easing curves and spline kernels are functions over the unit interval.
//! Instead of approximating their arguments, the crate keeps them as exact
//! fractions `num / den`, so contracts can pin results down to the exact
//! rational value.

use vstd::prelude::*;

verus! {

/// An exact fraction `num / den`. Well-formed values have `den >= 1`;
/// `num` may be negative (spline kernels are queried left of zero).
#[derive(Clone, Copy, PartialEq, Eq, Structural, Debug)]
pub struct Frac {
    pub num: i64,
    pub den: i64,
}

impl Frac {
    /// Well-formedness: the denominator is positive.
    pub open spec fn wf(self) -> bool {
        self.den >= 1
    }

    /// The fraction lies in the closed unit interval `[0, 1]`.
    pub open spec fn in_unit(self) -> bool {
        0 <= self.num <= self.den
    }

    /// Two fractions denote the same rational number.
    pub open spec fn eqv(self, other: Frac) -> bool {
        self.num * other.den == other.num * self.den
    }

    /// The fraction denotes exactly the integer `v`.
    pub open spec fn is_int(self, v: int) -> bool {
        self.num == v * self.den
    }

    pub fn new(num: i64, den: i64) -> (r: Frac)
        requires
            den >= 1,
        ensures
            r.num == num,
            r.den == den,
            r.wf(),
    {
        Frac { num, den }
    }

    pub fn zero() -> (r: Frac)
        ensures
            r.num == 0,
            r.den == 1,
            r.wf(),
            r.in_unit(),
            r.is_int(0),
    {
        Frac { num: 0, den: 1 }
    }

    /// Whether `self` and `other` denote the same rational number.
    pub fn same_value(self, other: Frac) -> (r: bool)
        requires
            self.wf(),
            other.wf(),
        ensures
            r == self.eqv(other),
    {
        proof {
            assert((self.num as int) * (other.den as int)
                < 0x4000_0000_0000_0000_0000_0000_0000_0000 && (self.num as int) * (other.den
                as int) > -0x4000_0000_0000_0000_0000_0000_0000_0000 && (other.num as int) * (
            self.den as int) < 0x4000_0000_0000_0000_0000_0000_0000_0000 && (other.num as int) * (
            self.den as int) > -0x4000_0000_0000_0000_0000_0000_0000_0000) by (nonlinear_arith)
                requires
                    -0x8000_0000_0000_0000 <= self.num as int <= 0x7fff_ffff_ffff_ffff,
                    -0x8000_0000_0000_0000 <= other.num as int <= 0x7fff_ffff_ffff_ffff,
                    1 <= self.den as int <= 0x7fff_ffff_ffff_ffff,
                    1 <= other.den as int <= 0x7fff_ffff_ffff_ffff,
            ;
        }
        self.num as i128 * other.den as i128 == other.num as i128 * self.den as i128
    }

    pub fn one() -> (r: Frac)
        ensures
            r.num == 1,
            r.den == 1,
            r.wf(),
            r.in_unit(),
            r.is_int(1),
    {
        Frac { num: 1, den: 1 }
    }
}

} // verus!
