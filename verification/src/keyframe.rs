//! Easing curves and keyframe tracks.
//!
//! An easing is a shape function over the unit interval composed with a
//! sampling direction. Shapes are evaluated on exact fractions, so each
//! contract states the exact rational value of the curve. Shapes whose
//! evaluation is inherently transcendental (sine- and exponential-based
//! reparameterizations) cannot be computed exactly and are not part of this
//! core; the representable shapes are the constant, linear and integer-power
//! curves.

use vstd::prelude::*;
use vstd::arithmetic::power::pow;
use vstd::arithmetic::power::lemma0_pow;
use vstd::arithmetic::power::lemma_pow_increases;
use vstd::math::abs;
use vstd::seq_lib::to_multiset_insert;
use vstd::seq_lib::to_multiset_remove;
use vstd::multiset::group_multiset_axioms;
use crate::ext::LerpExt;
use crate::frac::Frac;

verus! {

/// A pure shape function over `[0, 1]`, with `shape(0) == 0`.
///
/// `Constant` is always `0`; `Linear` is the identity; `Power(k)` is
/// `t^k` (so `Power(0)` is constantly `1`, as `t^0 == 1` for every `t`).
#[derive(Clone, Copy, PartialEq, Eq, Structural, Debug)]
pub enum EasingType {
    Constant,
    Linear,
    Power(u32),
}

/// Numerator of `shape(n/d)`, over the denominator [`shape_den`].
pub open spec fn shape_num(s: EasingType, n: int, d: int) -> int {
    match s {
        EasingType::Constant => 0,
        EasingType::Linear => n,
        EasingType::Power(k) => pow(n, k as nat),
    }
}

/// Denominator of `shape(n/d)`; depends only on `d`.
pub open spec fn shape_den(s: EasingType, d: int) -> int {
    match s {
        EasingType::Constant => 1,
        EasingType::Linear => d,
        EasingType::Power(k) => pow(d, k as nat),
    }
}

impl EasingType {
    /// The shape's exact result fits in the fraction representation when
    /// evaluated over denominator `d`.
    pub open spec fn fits(self, d: int) -> bool {
        match self {
            EasingType::Power(k) => pow(d, k as nat) <= i64::MAX,
            _ => true,
        }
    }

    /// Evaluate the shape at `t`, exactly.
    pub fn sample(&self, t: Frac) -> (r: Frac)
        requires
            t.wf(),
            t.in_unit(),
            self.fits(t.den as int),
        ensures
            r.wf(),
            r.in_unit(),
            r.num == shape_num(*self, t.num as int, t.den as int),
            r.den == shape_den(*self, t.den as int),
    {
        match self {
            EasingType::Constant => Frac { num: 0, den: 1 },
            EasingType::Linear => t,
            EasingType::Power(k) => {
                let kk: u32 = *k;
                let mut i: u32 = 0;
                let mut n_acc: i64 = 1;
                let mut d_acc: i64 = 1;
                proof {
                    vstd::arithmetic::power::lemma_pow0(t.num as int);
                    vstd::arithmetic::power::lemma_pow0(t.den as int);
                }
                while i < kk
                    invariant
                        0 <= i <= kk,
                        t.wf(),
                        t.in_unit(),
                        pow(t.den as int, kk as nat) <= i64::MAX,
                        n_acc == pow(t.num as int, i as nat),
                        d_acc == pow(t.den as int, i as nat),
                        0 <= n_acc <= d_acc,
                        1 <= d_acc,
                    decreases kk - i,
                {
                    proof {
                        vstd::arithmetic::power::lemma_pow_adds(t.num as int, i as nat, 1);
                        vstd::arithmetic::power::lemma_pow_adds(t.den as int, i as nat, 1);
                        vstd::arithmetic::power::lemma_pow1(t.num as int);
                        vstd::arithmetic::power::lemma_pow1(t.den as int);
                        lemma_pow_increases(t.den as nat, (i + 1) as nat, kk as nat);
                        assert(pow(t.den as int, (i + 1) as nat) == pow(t.den as int, i as nat)
                            * t.den);
                        assert(n_acc * t.num <= d_acc * t.den) by (nonlinear_arith)
                            requires
                                0 <= n_acc <= d_acc,
                                0 <= t.num <= t.den,
                        ;
                        assert(1 <= d_acc * t.den) by (nonlinear_arith)
                            requires
                                1 <= d_acc,
                                1 <= t.den,
                        ;
                        assert(0 <= n_acc * t.num) by (nonlinear_arith)
                            requires
                                0 <= n_acc,
                                0 <= t.num,
                        ;
                    }
                    n_acc = n_acc * t.num;
                    d_acc = d_acc * t.den;
                    i = i + 1;
                }
                Frac { num: n_acc, den: d_acc }
            },
        }
    }
}

/// How a shape is sampled and mirrored over the unit interval.
#[derive(Clone, Copy, PartialEq, Eq, Structural, Debug)]
pub enum EasingDirection {
    In,
    Out,
    InOut,
}

/// Numerator (over denominator `d`) of the point at which the shape is
/// sampled: `t` for `In`, `1 - t` for `Out`, and the tent fold
/// `1 - 2*|t - 1/2|` for `InOut`.
pub open spec fn sample_point_num(dir: EasingDirection, n: int, d: int) -> int {
    match dir {
        EasingDirection::In => n,
        EasingDirection::Out => d - n,
        EasingDirection::InOut => d - abs(2 * n - d),
    }
}

/// Sign applied to the sampled shape value: `+1`, except `-1` for `Out`
/// and for the second half of `InOut`.
pub open spec fn ease_factor_spec(dir: EasingDirection, n: int, d: int) -> int {
    match dir {
        EasingDirection::In => 1,
        EasingDirection::Out => -1,
        EasingDirection::InOut => if 2 * n < d {
            1
        } else {
            -1
        },
    }
}

/// Offset added to the signed shape value: `0`, except `1` for `Out` and
/// for the second half of `InOut`.
pub open spec fn ease_offset_spec(dir: EasingDirection, n: int, d: int) -> int {
    match dir {
        EasingDirection::In => 0,
        EasingDirection::Out => 1,
        EasingDirection::InOut => if 2 * n < d {
            0
        } else {
            1
        },
    }
}

impl EasingDirection {
    /// The reparameterized point at which the shape function is sampled.
    pub fn get_sample_point(&self, t: Frac) -> (r: Frac)
        requires
            t.wf(),
            t.in_unit(),
        ensures
            r.wf(),
            r.in_unit(),
            r.den == t.den,
            r.num == sample_point_num(*self, t.num as int, t.den as int),
    {
        match self {
            EasingDirection::In => t,
            EasingDirection::Out => Frac { num: t.den - t.num, den: t.den },
            EasingDirection::InOut => {
                let folded: i64 = if t.num <= t.den - t.num {
                    (t.den - t.num) - t.num
                } else {
                    t.num - (t.den - t.num)
                };
                Frac { num: t.den - folded, den: t.den }
            },
        }
    }

    /// The sign with which the sampled shape value enters the composition.
    pub fn get_ease_factor(&self, t: Frac) -> (r: i64)
        requires
            t.wf(),
            t.in_unit(),
        ensures
            r == ease_factor_spec(*self, t.num as int, t.den as int),
    {
        match self {
            EasingDirection::In => 1,
            EasingDirection::Out => -1,
            EasingDirection::InOut => {
                if t.num < t.den - t.num {
                    1
                } else {
                    -1
                }
            },
        }
    }

    /// The offset added to the signed shape value.
    pub fn get_ease_offset(&self, t: Frac) -> (r: i64)
        requires
            t.wf(),
            t.in_unit(),
        ensures
            r == ease_offset_spec(*self, t.num as int, t.den as int),
    {
        match self {
            EasingDirection::In => 0,
            EasingDirection::Out => 1,
            EasingDirection::InOut => {
                if t.num < t.den - t.num {
                    0
                } else {
                    1
                }
            },
        }
    }
}

/// A reparameterization curve: a shape together with a direction.
#[derive(Clone, Copy, PartialEq, Eq, Structural, Debug)]
pub struct Easing {
    pub etype: EasingType,
    pub direction: EasingDirection,
}

/// Denominator of `apply(n/d)`.
pub open spec fn apply_den(e: Easing, d: int) -> int {
    shape_den(e.etype, d)
}

/// Numerator of `apply(n/d)`:
/// `factor * shape(sample_point) + offset * 1`, over [`apply_den`].
pub open spec fn apply_num(e: Easing, n: int, d: int) -> int {
    ease_factor_spec(e.direction, n, d) * shape_num(
        e.etype,
        sample_point_num(e.direction, n, d),
        d,
    ) + ease_offset_spec(e.direction, n, d) * shape_den(e.etype, d)
}

impl Easing {
    /// Apply the directed curve at `t`, exactly:
    /// `factor(t) * shape(sample_point(t)) + offset(t)`.
    pub fn apply(&self, t: Frac) -> (r: Frac)
        requires
            t.wf(),
            t.in_unit(),
            self.etype.fits(t.den as int),
        ensures
            r.wf(),
            r.in_unit(),
            r.num == apply_num(*self, t.num as int, t.den as int),
            r.den == apply_den(*self, t.den as int),
    {
        let sp = self.direction.get_sample_point(t);
        let s = self.etype.sample(sp);
        let f = self.direction.get_ease_factor(t);
        let o = self.direction.get_ease_offset(t);
        Frac { num: f * s.num + o * s.den, den: s.den }
    }
}

/// The shape maps `0` to `0` and `1` to `1` exactly: true of `Linear` and of
/// `Power(k)` for `k >= 1` (`Power(0)` maps `0` to `0^0 == 1`).
pub open spec fn normalized_shape(s: EasingType) -> bool {
    match s {
        EasingType::Constant => false,
        EasingType::Linear => true,
        EasingType::Power(k) => k >= 1,
    }
}

/// Easing boundary law: for every normalized shape and every direction,
/// the composed curve maps `0` to exactly `0` and `1` to exactly `1`.
pub proof fn lemma_easing_boundary(e: Easing, t: Frac)
    requires
        t.wf(),
        t.in_unit(),
        normalized_shape(e.etype),
    ensures
        t.num == 0 ==> apply_num(e, t.num as int, t.den as int) == 0,
        t.num == t.den ==> apply_num(e, t.num as int, t.den as int) == apply_den(
            e,
            t.den as int,
        ),
{
    reveal(pow);
    let n = t.num as int;
    let d = t.den as int;
    if let EasingType::Power(k) = e.etype {
        lemma0_pow(k as nat);
        assert(pow(0, k as nat) == 0);
    }
    if t.num == 0 {
        assert(sample_point_num(EasingDirection::InOut, 0, d) == 0);
        assert(sample_point_num(EasingDirection::Out, 0, d) == d);
    }
    if t.num == t.den {
        assert(sample_point_num(EasingDirection::InOut, n, d) == 0);
        assert(sample_point_num(EasingDirection::Out, n, d) == 0);
    }
}

/// InOut symmetry law: for every shape and every `t` other than the exact
/// midpoint, the InOut composition is symmetric about the midpoint:
/// `apply(t) + apply(1 - t) == 1` exactly. (At the midpoint itself the
/// composition samples the shape at `1`, and the sum is `1` only for a
/// shape whose value there is one half.)
pub proof fn lemma_inout_symmetry(s: EasingType, t: Frac)
    requires
        t.wf(),
        t.in_unit(),
        2 * t.num != t.den,
    ensures
        ({
            let e = Easing { etype: s, direction: EasingDirection::InOut };
            let d = t.den as int;
            apply_num(e, t.num as int, d) + apply_num(e, d - t.num, d) == apply_den(e, d)
        }),
{
    let e = Easing { etype: s, direction: EasingDirection::InOut };
    let n = t.num as int;
    let d = t.den as int;
    assert(sample_point_num(EasingDirection::InOut, n, d) == sample_point_num(
        EasingDirection::InOut,
        d - n,
        d,
    ));
}

/// An anchor of a track: a time in ticks, a value, and the easing used on
/// the segment that starts here.
pub struct Keyframe<T> {
    pub time: i64,
    pub value: T,
    pub easing: Easing,
}

/// A track: a sequence of keyframes, sampled by time.
pub struct KeyframeSequence<T> {
    samples: Vec<Keyframe<T>>,
}

impl<T> View for KeyframeSequence<T> {
    type V = Seq<Keyframe<T>>;

    closed spec fn view(&self) -> Seq<Keyframe<T>> {
        self.samples@
    }
}

/// Times are in ascending order.
pub open spec fn sorted_by_time<T>(s: Seq<Keyframe<T>>) -> bool {
    forall|i: int, j: int| 0 <= i <= j < s.len() ==> s[i].time <= s[j].time
}

/// Times are in strictly ascending order (no zero-length segments).
pub open spec fn strictly_sorted_by_time<T>(s: Seq<Keyframe<T>>) -> bool {
    forall|i: int, j: int| 0 <= i < j < s.len() ==> s[i].time < s[j].time
}

/// The least index whose keyframe time is at or after `t` (the sequence
/// length if every time is before `t`).
pub open spec fn first_at_or_after<T>(s: Seq<Keyframe<T>>, t: i64) -> int
    decreases s.len(),
{
    if s.len() == 0 {
        0
    } else if s[0].time >= t {
        0
    } else {
        1 + first_at_or_after(s.drop_first(), t)
    }
}

pub proof fn lemma_first_at_or_after_props<T>(s: Seq<Keyframe<T>>, t: i64)
    ensures
        0 <= first_at_or_after(s, t) <= s.len(),
        forall|i: int| 0 <= i < first_at_or_after(s, t) ==> s[i].time < t,
        first_at_or_after(s, t) < s.len() ==> s[first_at_or_after(s, t)].time >= t,
    decreases s.len(),
{
    if s.len() == 0 {
    } else if s[0].time >= t {
    } else {
        lemma_first_at_or_after_props(s.drop_first(), t);
        let j = first_at_or_after(s, t);
        assert forall|i: int| 0 <= i < j implies s[i].time < t by {
            if i > 0 {
                assert(s.drop_first()[i - 1] == s[i]);
            }
        }
        if j < s.len() {
            assert(s.drop_first()[j - 1] == s[j]);
        }
    }
}

pub proof fn lemma_first_at_or_after_unique<T>(s: Seq<Keyframe<T>>, t: i64, j: int)
    requires
        0 <= j <= s.len(),
        forall|i: int| 0 <= i < j ==> s[i].time < t,
        j < s.len() ==> s[j].time >= t,
    ensures
        first_at_or_after(s, t) == j,
{
    lemma_first_at_or_after_props(s, t);
    let f = first_at_or_after(s, t);
    if f < j {
        assert(s[f].time < t);
    } else if j < f {
        assert(s[j].time < t);
    }
}

/// The eased blend across the segment from `a` to `b`, at time `t`.
pub open spec fn segment_sample<T: LerpExt>(a: Keyframe<T>, b: Keyframe<T>, t: i64) -> T {
    a.value.lerp_spec(
        b.value,
        apply_num(a.easing, t - a.time, b.time - a.time),
        apply_den(a.easing, b.time - a.time),
    )
}

/// The sampled value of a (strictly sorted) track at time `t`: the default
/// for an empty track, the boundary values outside the covered range, and
/// the eased blend of the enclosing segment otherwise.
pub open spec fn sample_spec<T: LerpExt>(s: Seq<Keyframe<T>>, t: i64) -> T {
    if s.len() == 0 {
        T::default_spec()
    } else if t >= s.last().time {
        s.last().value
    } else if t <= s[0].time {
        s[0].value
    } else {
        let j = first_at_or_after(s, t);
        segment_sample(s[j - 1], s[j], t)
    }
}

/// Machine-limit conditions under which `t` can be sampled: when `t` falls
/// strictly inside the track, the active segment's length fits in a tick
/// count, the easing result is representable, and the blend is defined.
pub open spec fn can_sample<T: LerpExt>(s: Seq<Keyframe<T>>, t: i64) -> bool {
    (s.len() >= 2 && s[0].time < t && t < s.last().time) ==> {
        let j = first_at_or_after(s, t);
        let a = s[j - 1];
        let b = s[j];
        &&& b.time - a.time <= i64::MAX
        &&& a.easing.etype.fits(b.time - a.time)
        &&& a.value.lerp_req(
            b.value,
            apply_num(a.easing, t - a.time, b.time - a.time),
            apply_den(a.easing, b.time - a.time),
        )
    }
}

impl<T> KeyframeSequence<T> {
    /// An empty track.
    pub fn new() -> (r: Self)
        ensures
            r@ =~= Seq::<Keyframe<T>>::empty(),
    {
        KeyframeSequence { samples: Vec::new() }
    }

    /// Append a keyframe (in any time order; call `sort` before sampling).
    pub fn push(&mut self, k: Keyframe<T>)
        ensures
            final(self)@ == old(self)@.push(k),
    {
        self.samples.push(k);
    }

    /// The number of keyframes.
    pub fn len(&self) -> (r: usize)
        ensures
            r == self@.len(),
    {
        self.samples.len()
    }

    /// Establish ascending time order. The keyframes are permuted
    /// (insertion sort, by time) and nothing else changes.
    pub fn sort(&mut self)
        ensures
            sorted_by_time(final(self)@),
            final(self)@.to_multiset() == old(self)@.to_multiset(),
            final(self)@.len() == old(self)@.len(),
    {
        let n: usize = self.samples.len();
        let mut i: usize = 1;
        while i < n
            invariant
                1 <= i,
                n == self.samples.len(),
                i <= n || (n == 0 && i == 1),
                self.samples@.to_multiset() == old(self)@.to_multiset(),
                forall|a: int, b: int|
                    0 <= a <= b < i && b < n ==> self.samples@[a].time <= self.samples@[b].time,
            decreases n - i,
        {
            let ghost v = self.samples@;
            let key_time: i64 = self.samples[i].time;
            let mut p: usize = i;
            while p > 0 && self.samples[p - 1].time > key_time
                invariant
                    p <= i < n,
                    n == self.samples.len(),
                    self.samples@ == v,
                    key_time == v[i as int].time,
                    forall|q: int| p <= q < i ==> v[q].time > key_time,
                decreases p,
            {
                p = p - 1;
            }
            let x = self.samples.remove(i);
            self.samples.insert(p, x);
            proof {
                broadcast use group_multiset_axioms;

                assert(v[i as int] == x);
                assert(v.contains(x));
                v.to_multiset_ensures();
                to_multiset_remove(v, i as int);
                to_multiset_insert(v.remove(i as int), p as int, x);
                assert(v.to_multiset().count(x) > 0);
                assert(v.remove(i as int).to_multiset().insert(x) =~= v.to_multiset());
                assert forall|a: int, b: int|
                    0 <= a <= b < i + 1 && b < n implies self.samples@[a].time
                    <= self.samples@[b].time by {
                    let w = self.samples@;
                    assert(w == v.remove(i as int).insert(p as int, x));
                    if p > 0 {
                        assert(v[p - 1].time <= key_time);
                    }
                }
            }
            i = i + 1;
        }
    }
}

impl<T: LerpExt> KeyframeSequence<T> {
    /// Sample the track at time `t`.
    ///
    /// Returns the default value for an empty track; holds the first
    /// (respectively last) keyframe's value flat before the start
    /// (respectively at or after the end); and otherwise blends the
    /// enclosing segment's values by the segment's eased mix.
    pub fn sample(&mut self, t: i64) -> (r: T)
        requires
            strictly_sorted_by_time(old(self)@),
            can_sample(old(self)@, t),
        ensures
            final(self)@ == old(self)@,
            r == sample_spec(old(self)@, t),
    {
        let n: usize = self.samples.len();
        if n == 0 {
            return T::lerp_default();
        }
        if t >= self.samples[n - 1].time {
            return self.samples[n - 1].value.clone_value();
        }
        if t <= self.samples[0].time {
            return self.samples[0].value.clone_value();
        }
        // Strictly inside the covered range now, so the track has at least
        // two keyframes and the enclosing segment exists.
        let mut lo: usize = 0;
        let mut hi: usize = n;
        while lo < hi
            invariant
                lo <= hi <= n,
                n == self.samples.len(),
                strictly_sorted_by_time(self.samples@),
                forall|q: int| 0 <= q < lo ==> self.samples@[q].time < t,
                forall|q: int| hi <= q < n ==> self.samples@[q].time >= t,
            decreases hi - lo,
        {
            let mid: usize = lo + (hi - lo) / 2;
            if self.samples[mid].time >= t {
                hi = mid;
            } else {
                lo = mid + 1;
            }
        }
        proof {
            lemma_first_at_or_after_unique(self.samples@, t, lo as int);
            assert(self.samples@[n - 1].time > t);
            assert(self.samples@[0].time < t);
        }
        let j: usize = lo;
        let mix = Frac {
            num: t - self.samples[j - 1].time,
            den: self.samples[j].time - self.samples[j - 1].time,
        };
        let eased = self.samples[j - 1].easing.apply(mix);
        let a = self.samples[j - 1].value.clone_value();
        let b = self.samples[j].value.clone_value();
        a.lerp(b, eased)
    }
}

/// Flat-hold law: a non-empty, strictly sorted track samples to its first
/// keyframe's value at or before the first time, and to its last keyframe's
/// value at or after the last time.
pub proof fn lemma_flat_hold<T: LerpExt>(s: Seq<Keyframe<T>>, t: i64)
    requires
        s.len() > 0,
        strictly_sorted_by_time(s),
    ensures
        t <= s[0].time ==> sample_spec(s, t) == s[0].value,
        t >= s.last().time ==> sample_spec(s, t) == s.last().value,
{
    if s.len() == 1 {
        assert(s.last() == s[0]);
    } else {
        assert(s[0].time < s.last().time);
    }
}

} // verus!

