use animcore::frac::Frac;
use animcore::keyframe::{Easing, EasingDirection, EasingType};

fn frac(num: i64, den: i64) -> Frac {
    Frac { num, den }
}

#[test]
fn shape_constant_is_zero() {
    let s = EasingType::Constant;
    let r = s.sample(frac(3, 4));
    assert_eq!(r.num, 0);
    assert_eq!(r.den, 1);
}

#[test]
fn shape_linear_is_identity() {
    let s = EasingType::Linear;
    let r = s.sample(frac(3, 4));
    assert_eq!((r.num, r.den), (3, 4));
}

#[test]
fn shape_power_squares_exactly() {
    let s = EasingType::Power(2);
    let r = s.sample(frac(1, 2));
    assert_eq!((r.num, r.den), (1, 4));
    let r = s.sample(frac(3, 5));
    assert_eq!((r.num, r.den), (9, 25));
}

#[test]
fn shape_power_zero_is_one() {
    // t^0 == 1 for every t, including t == 0.
    let s = EasingType::Power(0);
    let r = s.sample(frac(0, 1));
    assert_eq!((r.num, r.den), (1, 1));
}

#[test]
fn shape_power_cube() {
    let s = EasingType::Power(3);
    let r = s.sample(frac(2, 3));
    assert_eq!((r.num, r.den), (8, 27));
}

#[test]
fn sample_point_directions() {
    let t = frac(1, 4);
    let r = EasingDirection::In.get_sample_point(t);
    assert_eq!((r.num, r.den), (1, 4));
    let r = EasingDirection::Out.get_sample_point(t);
    assert_eq!((r.num, r.den), (3, 4));
    // tent fold: 1 - 2*|1/4 - 1/2| == 1/2
    let r = EasingDirection::InOut.get_sample_point(t);
    assert_eq!((r.num, r.den), (2, 4));
}

#[test]
fn ease_factor_and_offset() {
    let before = frac(1, 4);
    let after = frac(3, 4);
    assert_eq!(EasingDirection::In.get_ease_factor(before), 1);
    assert_eq!(EasingDirection::In.get_ease_offset(before), 0);
    assert_eq!(EasingDirection::Out.get_ease_factor(before), -1);
    assert_eq!(EasingDirection::Out.get_ease_offset(before), 1);
    assert_eq!(EasingDirection::InOut.get_ease_factor(before), 1);
    assert_eq!(EasingDirection::InOut.get_ease_offset(before), 0);
    assert_eq!(EasingDirection::InOut.get_ease_factor(after), -1);
    assert_eq!(EasingDirection::InOut.get_ease_offset(after), 1);
}

#[test]
fn boundary_law_concrete_pairs() {
    // Easing boundary law on concrete values: every normalized shape and
    // every direction maps 0 to 0 and 1 to 1 exactly.
    let shapes = [EasingType::Linear, EasingType::Power(1), EasingType::Power(2), EasingType::Power(5)];
    let dirs = [EasingDirection::In, EasingDirection::Out, EasingDirection::InOut];
    for shape in shapes {
        for direction in dirs {
            let e = Easing { etype: shape, direction };
            let zero = e.apply(frac(0, 7));
            assert_eq!(zero.num, 0, "apply(0) must be 0");
            let one = e.apply(frac(7, 7));
            assert_eq!(one.num, one.den, "apply(1) must be 1");
        }
    }
}

#[test]
fn constant_shape_boundaries() {
    // The constant shape ignores t: In is always 0, Out always 1.
    let e = Easing { etype: EasingType::Constant, direction: EasingDirection::In };
    let r = e.apply(frac(1, 2));
    assert_eq!((r.num, r.den), (0, 1));
    let e = Easing { etype: EasingType::Constant, direction: EasingDirection::Out };
    let r = e.apply(frac(1, 2));
    assert_eq!((r.num, r.den), (1, 1));
}

#[test]
fn power_in_out_composition() {
    // Power(2) with Out: 1 - (1 - t)^2 at t = 1/4: 1 - 9/16 == 7/16.
    let e = Easing { etype: EasingType::Power(2), direction: EasingDirection::Out };
    let r = e.apply(frac(1, 4));
    assert_eq!((r.num, r.den), (7, 16));
    // Power(2) with InOut at t = 1/4 (first half): (2t)^2 == 1/4.
    let e = Easing { etype: EasingType::Power(2), direction: EasingDirection::InOut };
    let r = e.apply(frac(1, 4));
    assert_eq!((r.num, r.den), (4, 16));
}
