use animcore::custom_splines::{linear, raw_sample};
use animcore::frac::Frac;

fn frac(num: i64, den: i64) -> Frac {
    Frac { num, den }
}

#[test]
fn kernel_contract_values() {
    // w(0) == 1, w(-1) == w(1) == 0, zero outside [-1, 1].
    let r = linear(frac(0, 1));
    assert_eq!((r.num, r.den), (1, 1));
    let r = linear(frac(1, 1));
    assert_eq!((r.num, r.den), (0, 1));
    let r = linear(frac(-1, 1));
    assert_eq!((r.num, r.den), (0, 1));
    let r = linear(frac(7, 2));
    assert_eq!((r.num, r.den), (0, 2));
    let r = linear(frac(-9, 4));
    assert_eq!((r.num, r.den), (0, 4));
}

#[test]
fn kernel_halfway() {
    let r = linear(frac(1, 2));
    assert_eq!((r.num, r.den), (1, 2));
    let r = linear(frac(-1, 2));
    assert_eq!((r.num, r.den), (1, 2));
}

#[test]
fn kernel_partition_of_unity() {
    // w(x) + w(x - 1) == 1 for x in [0, 1], at several fractional offsets.
    for num in 0..=8i64 {
        let den = 8i64;
        let a = linear(frac(num, den));
        let b = linear(frac(num - den, den));
        assert_eq!(a.den, den);
        assert_eq!(b.den, den);
        assert_eq!(a.num + b.num, den, "w({num}/8) + w({num}/8 - 1) must be 1");
    }
}

#[test]
fn empty_points_sample_to_zero() {
    let points: [i64; 0] = [];
    let r = raw_sample(frac(1, 2), &points, 1);
    assert_eq!((r.num, r.den), (0, 1));
}

#[test]
fn constant_field_is_reproduced() {
    // Spline constant-field law on concrete values: every point 7, any
    // coordinate, several whole-number reaches: the result is exactly 7.
    let points = [7i64, 7, 7, 7, 7];
    for reach in 1..=4i64 {
        for num in -12..=20i64 {
            let r = raw_sample(frac(num, 3), &points, reach);
            assert_eq!(r.num, 7 * r.den, "x = {num}/3, reach = {reach}");
        }
    }
}

#[test]
fn midpoint_blends_neighbours() {
    // Points 0 and 10 at lattice 0 and 1, reach 1, x = 1/2: both
    // neighbours get weight 1/2, so the sample is the average 5.
    let points = [0i64, 10];
    let r = raw_sample(frac(1, 2), &points, 1);
    assert_eq!((r.num, r.den), (10, 2));
}

#[test]
fn on_lattice_sample_with_reach_one() {
    // At reach 1 the spline interpolates: on a lattice point only that
    // point has nonzero weight.
    let points = [3i64, 8, -4];
    let r = raw_sample(frac(1, 1), &points, 1);
    assert_eq!(r.num, 8 * r.den);
}

#[test]
fn out_of_range_clamps_to_edges() {
    // Far left of the points, every window index clamps to point 0.
    let points = [5i64, 9];
    let r = raw_sample(frac(-100, 1), &points, 2);
    assert_eq!(r.num, 5 * r.den);
    let r = raw_sample(frac(1000, 7), &points, 3);
    assert_eq!(r.num, 9 * r.den);
}

#[test]
fn wider_reach_smooths() {
    // Points 0, 12 at reach 2, x = 0: window [-2, 3], distances scaled by
    // 1/2: weights (over den 2): i=-1: 1/2, i=0: 1, i=1: 1/2, others 0;
    // times 1/reach: sample = (0*1 + 12*(1/2)*(1/2) + 0*(1/2)*(1/2)*... )
    // exact numerator over den 1*2*2 == 4: clamped points: i=-2,-1 -> 0,
    // i=0 -> 0, i=1,2 -> 12; numerator = 0*0 + 0*1 + 0*2 + 12*1 + 12*0 = 12.
    let points = [0i64, 12];
    let r = raw_sample(frac(0, 1), &points, 2);
    assert_eq!((r.num, r.den), (12, 4));
}

#[test]
fn lattice_point_with_wider_reach() {
    // x exactly on lattice 1, reach 2: weights over den 4 are 1/4, 2/4,
    // 1/4 on lattice 0, 1, 2 (clamped to the two points).
    let points = [0i64, 12];
    let r = raw_sample(frac(1, 1), &points, 2);
    assert_eq!((r.num, r.den), (36, 4));
}

#[test]
fn frac_equivalence() {
    assert!(frac(1, 2).same_value(frac(3, 6)));
    assert!(!frac(1, 2).same_value(frac(2, 3)));
    assert!(frac(-2, 4).same_value(frac(-1, 2)));
    // The midpoint blend above, reduced: 10/2 is the integer 5.
    let points = [0i64, 10];
    let r = raw_sample(frac(1, 2), &points, 1);
    assert!(r.same_value(frac(5, 1)));
}
