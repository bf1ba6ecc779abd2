use animcore::ext::LerpExt;
use animcore::frac::Frac;
use animcore::keyframe::{Easing, EasingDirection, EasingType, Keyframe, KeyframeSequence};

fn linear_in() -> Easing {
    Easing { etype: EasingType::Linear, direction: EasingDirection::In }
}

fn key(time: i64, value: i64, easing: Easing) -> Keyframe<i64> {
    Keyframe { time, value, easing }
}

#[test]
fn lerp_i64_midpoint() {
    let r = 0i64.lerp(10, Frac { num: 1, den: 2 });
    assert_eq!(r, 5);
}

#[test]
fn lerp_i64_rounds_toward_start() {
    assert_eq!(0i64.lerp(1, Frac { num: 1, den: 3 }), 0);
    assert_eq!(10i64.lerp(0, Frac { num: 1, den: 3 }), 7);
    assert_eq!((-10i64).lerp(10, Frac { num: 3, den: 4 }), 5);
}

#[test]
fn empty_track_samples_default() {
    let mut track: KeyframeSequence<i64> = KeyframeSequence::new();
    assert_eq!(track.sample(123), 0);
}

#[test]
fn single_keyframe_holds_everywhere() {
    let mut track = KeyframeSequence::new();
    track.push(key(100, 42, linear_in()));
    assert_eq!(track.sample(-1000), 42);
    assert_eq!(track.sample(100), 42);
    assert_eq!(track.sample(1000), 42);
}

#[test]
fn interpolation_example() {
    // Linear track from (0, 0) to (1000, 10): the midpoint samples to
    // exactly half the value span.
    let mut track = KeyframeSequence::new();
    track.push(key(0, 0, linear_in()));
    track.push(key(1000, 10, linear_in()));
    assert_eq!(track.sample(500), 5);
    assert_eq!(track.sample(250), 2);
    assert_eq!(track.sample(750), 7);
}

#[test]
fn flat_hold_outside_range() {
    // Flat-hold law on concrete values: at or before the first keyframe the
    // first value holds; at or after the last keyframe the last value holds.
    let mut track = KeyframeSequence::new();
    track.push(key(10, 3, linear_in()));
    track.push(key(20, 9, linear_in()));
    assert_eq!(track.sample(-5), 3);
    assert_eq!(track.sample(10), 3);
    assert_eq!(track.sample(20), 9);
    assert_eq!(track.sample(1000), 9);
}

#[test]
fn sort_establishes_time_order() {
    let mut track = KeyframeSequence::new();
    track.push(key(1000, 10, linear_in()));
    track.push(key(0, 0, linear_in()));
    track.sort();
    assert_eq!(track.sample(500), 5);
}

#[test]
fn sort_keeps_sorted_input() {
    let mut track = KeyframeSequence::new();
    track.push(key(0, 0, linear_in()));
    track.push(key(10, 1, linear_in()));
    track.push(key(20, 2, linear_in()));
    track.sort();
    assert_eq!(track.sample(15), 1);
    assert_eq!(track.len(), 3);
}

#[test]
fn power_easing_interpolation() {
    // Power(2)/In from (0, 0) to (4, 16): at t = 2 the mix is 1/2, the
    // eased mix (1/2)^2 == 1/4, so the value is 16 * 1/4 == 4.
    let e = Easing { etype: EasingType::Power(2), direction: EasingDirection::In };
    let mut track = KeyframeSequence::new();
    track.push(key(0, 0, e));
    track.push(key(4, 16, e));
    assert_eq!(track.sample(2), 4);
}

#[test]
fn constant_easing_holds_segment_start() {
    // A Constant/In easing makes each segment hold its left value, even at
    // the exact time of the right keyframe (the segment's eased mix is 0).
    let e = Easing { etype: EasingType::Constant, direction: EasingDirection::In };
    let mut track = KeyframeSequence::new();
    track.push(key(0, 1, e));
    track.push(key(10, 2, e));
    track.push(key(20, 3, e));
    assert_eq!(track.sample(5), 1);
    assert_eq!(track.sample(10), 1);
    assert_eq!(track.sample(15), 2);
    assert_eq!(track.sample(20), 3);
}

#[test]
fn middle_segment_lookup() {
    let mut track = KeyframeSequence::new();
    track.push(key(0, 0, linear_in()));
    track.push(key(10, 100, linear_in()));
    track.push(key(30, 20, linear_in()));
    track.push(key(70, 60, linear_in()));
    assert_eq!(track.sample(5), 50);
    assert_eq!(track.sample(20), 60);
    assert_eq!(track.sample(50), 40);
}

#[test]
fn inout_symmetry_around_midpoint() {
    // InOut symmetry on concrete values: samples at mirrored offsets of an
    // InOut segment sum to the full value span.
    let e = Easing { etype: EasingType::Linear, direction: EasingDirection::InOut };
    let mut track = KeyframeSequence::new();
    track.push(key(0, 0, e));
    track.push(key(2000, 10, e));
    assert_eq!(track.sample(200), 2);
    assert_eq!(track.sample(1800), 8);
    assert_eq!(track.sample(500), 5);
    assert_eq!(track.sample(1500), 5);
    let pow = Easing { etype: EasingType::Power(2), direction: EasingDirection::InOut };
    let mut track = KeyframeSequence::new();
    track.push(key(0, 0, pow));
    track.push(key(2000, 1000, pow));
    assert_eq!(track.sample(500) + track.sample(1500), 1000);
    assert_eq!(track.sample(100) + track.sample(1900), 1000);
}

#[test]
fn lerp_frac_is_exact() {
    let a = Frac { num: 0, den: 1 };
    let b = Frac { num: 1, den: 1 };
    let r = a.lerp(b, Frac { num: 1, den: 2 });
    assert_eq!((r.num, r.den), (1, 2));
    let a = Frac { num: 1, den: 3 };
    let b = Frac { num: 3, den: 4 };
    // 1/3 + (3/4 - 1/3) * 1/5 == (1*4*4 + 3*3*1) / (3*4*5) == 25/60 == 5/12.
    let r = a.lerp(b, Frac { num: 1, den: 5 });
    assert_eq!((r.num, r.den), (25, 60));
}

#[test]
fn fractional_track_samples_exactly() {
    let mut track: KeyframeSequence<Frac> = KeyframeSequence::new();
    track.push(Keyframe { time: 0, value: Frac { num: 0, den: 1 }, easing: linear_in() });
    track.push(Keyframe { time: 1000, value: Frac { num: 3, den: 4 }, easing: linear_in() });
    let r = track.sample(500);
    // Exactly 3/8, halfway to 3/4.
    assert_eq!(r.num * 8, r.den * 3);
    let empty: KeyframeSequence<Frac> = KeyframeSequence::new();
    let mut empty = empty;
    let r = empty.sample(7);
    assert_eq!((r.num, r.den), (0, 1));
}
