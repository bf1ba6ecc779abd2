//! The blend capability used by keyframe tracks.
//!
//! A track value type must supply a default (the value of sampling an empty
//! track) and an exact blend `lerp(self, other, mix)` toward another value by
//! a fractional mix. The capability is an explicit trait so that each
//! implementation states precisely, in `lerp_spec`, which value it returns.

use vstd::prelude::*;
use vstd::arithmetic::div_mod::lemma_div_is_ordered;
use vstd::arithmetic::div_mod::lemma_div_multiples_vanish;
use vstd::arithmetic::div_mod::lemma_div_pos_is_pos;
use vstd::arithmetic::mul::lemma_mul_inequality;
use vstd::arithmetic::mul::lemma_mul_nonnegative;
use vstd::math::abs;
use crate::frac::Frac;

verus! {

/// Linear-blend capability: a zero/default value plus an exact blend
/// operation from `self` toward `other` by `num/den`.
pub trait LerpExt: Sized {
    /// The value an empty track samples to.
    spec fn default_spec() -> Self;

    /// Inputs on which the blend is defined (machine limits only).
    spec fn lerp_req(self, other: Self, num: int, den: int) -> bool;

    /// The exact value of the blend.
    spec fn lerp_spec(self, other: Self, num: int, den: int) -> Self;

    /// Produce the default value.
    fn lerp_default() -> (r: Self)
        ensures
            r == Self::default_spec(),
    ;

    /// Produce a copy of the value.
    fn clone_value(&self) -> (r: Self)
        ensures
            r == *self,
    ;

    /// Blend from `self` toward `other` by the fraction `mix`.
    fn lerp(self, other: Self, mix: Frac) -> (r: Self)
        requires
            mix.wf(),
            mix.in_unit(),
            self.lerp_req(other, mix.num as int, mix.den as int),
        ensures
            r == self.lerp_spec(other, mix.num as int, mix.den as int),
    ;
}

impl LerpExt for i64 {
    open spec fn default_spec() -> i64 {
        0
    }

    open spec fn lerp_req(self, other: i64, num: int, den: int) -> bool {
        true
    }

    /// `self + (other - self) * num / den`, with the scaled difference
    /// rounded toward `self`.
    open spec fn lerp_spec(self, other: i64, num: int, den: int) -> i64 {
        if other >= self {
            (self + (other - self) * num / den) as i64
        } else {
            (self - (self - other) * num / den) as i64
        }
    }

    fn lerp_default() -> (r: i64) {
        0
    }

    fn clone_value(&self) -> (r: i64) {
        *self
    }

    fn lerp(self, other: i64, mix: Frac) -> (r: i64) {
        if other >= self {
            let diff: i128 = other as i128 - self as i128;
            let num: i128 = mix.num as i128;
            let den: i128 = mix.den as i128;
            proof {
                assert((diff as int) * (num as int) < i128::MAX) by (nonlinear_arith)
                    requires
                        0 <= diff < 0x1_0000_0000_0000_0000,
                        0 <= num < 0x8000_0000_0000_0000,
                ;
                lemma_mul_nonnegative(diff as int, num as int);
                lemma_mul_inequality(num as int, den as int, diff as int);
                lemma_div_is_ordered(diff * num, diff * den, den as int);
                lemma_div_multiples_vanish(diff as int, den as int);
                lemma_div_pos_is_pos(diff * num, den as int);
            }
            let scaled: i128 = diff * num / den;
            (self as i128 + scaled) as i64
        } else {
            let diff: i128 = self as i128 - other as i128;
            let num: i128 = mix.num as i128;
            let den: i128 = mix.den as i128;
            proof {
                assert((diff as int) * (num as int) < i128::MAX) by (nonlinear_arith)
                    requires
                        0 <= diff < 0x1_0000_0000_0000_0000,
                        0 <= num < 0x8000_0000_0000_0000,
                ;
                lemma_mul_nonnegative(diff as int, num as int);
                lemma_mul_inequality(num as int, den as int, diff as int);
                lemma_div_is_ordered(diff * num, diff * den, den as int);
                lemma_div_multiples_vanish(diff as int, den as int);
                lemma_div_pos_is_pos(diff * num, den as int);
            }
            let scaled: i128 = diff * num / den;
            (self as i128 - scaled) as i64
        }
    }
}

impl LerpExt for Frac {
    open spec fn default_spec() -> Frac {
        Frac { num: 0, den: 1 }
    }

    /// Machine limits for the exact blend
    /// `(a.num*b.den*(d - n) + b.num*a.den*n) / (a.den*b.den*d)`:
    /// the pairwise cross products and the result fit in the fraction
    /// representation.
    open spec fn lerp_req(self, other: Frac, num: int, den: int) -> bool {
        &&& self.wf()
        &&& other.wf()
        &&& abs(self.num as int) * other.den <= i64::MAX
        &&& abs(other.num as int) * self.den <= i64::MAX
        &&& self.den * other.den * den <= i64::MAX
        &&& -i64::MAX <= self.num * other.den * (den - num) + other.num * self.den * num
            <= i64::MAX
    }

    /// The exact value of `self + (other - self) * (num / den)`, as a
    /// fraction over `self.den * other.den * den`.
    open spec fn lerp_spec(self, other: Frac, num: int, den: int) -> Frac {
        Frac {
            num: (self.num * other.den * (den - num) + other.num * self.den * num) as i64,
            den: (self.den * other.den * den) as i64,
        }
    }

    fn lerp_default() -> (r: Frac) {
        Frac { num: 0, den: 1 }
    }

    fn clone_value(&self) -> (r: Frac) {
        *self
    }

    fn lerp(self, other: Frac, mix: Frac) -> (r: Frac) {
        proof {
            assert(-0x4000_0000_0000_0000_0000_0000_0000_0000 <= (self.num as int) * (other.den
                as int) <= 0x4000_0000_0000_0000_0000_0000_0000_0000
                && -0x4000_0000_0000_0000_0000_0000_0000_0000 <= (other.num as int) * (self.den
                as int) <= 0x4000_0000_0000_0000_0000_0000_0000_0000
                && 1 <= (self.den as int) * (other.den as int)
                <= 0x4000_0000_0000_0000_0000_0000_0000_0000) by (nonlinear_arith)
                requires
                    -0x8000_0000_0000_0000 <= self.num as int <= 0x7fff_ffff_ffff_ffff,
                    -0x8000_0000_0000_0000 <= other.num as int <= 0x7fff_ffff_ffff_ffff,
                    1 <= self.den as int <= 0x7fff_ffff_ffff_ffff,
                    1 <= other.den as int <= 0x7fff_ffff_ffff_ffff,
            ;
        }
        let p1: i128 = self.num as i128 * other.den as i128;
        let p2: i128 = other.num as i128 * self.den as i128;
        let q: i128 = self.den as i128 * other.den as i128;
        proof {
            assert(abs(p1 as int) <= i64::MAX && abs(p2 as int) <= i64::MAX && q <= i64::MAX)
                by (nonlinear_arith)
                requires
                    p1 as int == self.num as int * other.den,
                    p2 as int == other.num as int * self.den,
                    q as int == self.den as int * other.den,
                    1 <= self.den,
                    1 <= other.den,
                    1 <= mix.den,
                    abs(self.num as int) * other.den <= i64::MAX,
                    abs(other.num as int) * self.den <= i64::MAX,
                    self.den * other.den * (mix.den as int) <= i64::MAX,
            ;
            assert(p1 * (mix.den - mix.num) + p2 * mix.num == self.num as int * other.den * (
            mix.den - mix.num) + other.num as int * self.den * mix.num) by (nonlinear_arith)
                requires
                    p1 as int == self.num as int * other.den,
                    p2 as int == other.num as int * self.den,
            ;
            assert(q * mix.den == self.den as int * other.den * mix.den) by (nonlinear_arith)
                requires
                    q as int == self.den as int * other.den,
            ;
            assert(1 <= q * mix.den) by (nonlinear_arith)
                requires
                    1 <= q,
                    1 <= mix.den,
            ;
            assert(-(i64::MAX as int * (mix.den as int)) <= (p1 as int) * (mix.den as int
                - mix.num as int) <= i64::MAX as int * (mix.den as int) && -(i64::MAX as int * (
            mix.den as int)) <= (p2 as int) * (mix.num as int) <= i64::MAX as int * (mix.den
                as int)) by (nonlinear_arith)
                requires
                    abs(p1 as int) <= i64::MAX,
                    abs(p2 as int) <= i64::MAX,
                    0 <= mix.num <= mix.den,
            ;
        }
        let num: i128 = p1 * (mix.den as i128 - mix.num as i128) + p2 * mix.num as i128;
        let den: i128 = q * mix.den as i128;
        Frac { num: num as i64, den: den as i64 }
    }
}

} // verus!
