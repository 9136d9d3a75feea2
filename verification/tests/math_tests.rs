// Exact values of the fixed-point kernels.

use evosim::angle::{atan2_units, cos_milli, norm_angle, sin_milli, QUARTER_TURN, TAU_UNITS};
use evosim::fixnum::{color_of_fam, isqrt_u64, logistic_milli, logit_milli, round_milli, tanh_milli};

#[test]
fn isqrt_exact_values() {
    assert_eq!(isqrt_u64(0), 0);
    assert_eq!(isqrt_u64(1), 1);
    assert_eq!(isqrt_u64(3), 1);
    assert_eq!(isqrt_u64(4), 2);
    assert_eq!(isqrt_u64(999_999), 999);
    assert_eq!(isqrt_u64(1_000_000), 1000);
    assert_eq!(isqrt_u64(400_000_000_000_000), 20_000_000);
    assert_eq!(isqrt_u64(u64::MAX), 4_294_967_295);
}

#[test]
fn tanh_saturates_and_is_odd() {
    assert_eq!(tanh_milli(0), 0);
    assert_eq!(tanh_milli(3000), 1000);
    assert_eq!(tanh_milli(-3000), -1000);
    assert_eq!(tanh_milli(i64::MAX), 1000);
    assert_eq!(tanh_milli(i64::MIN), -1000);
    for p in [1, 17, 500, 1000, 2500, 2999] {
        assert_eq!(tanh_milli(p), -tanh_milli(-p));
        assert!(tanh_milli(p) >= 0 && tanh_milli(p) <= 1000);
    }
    // tanh(1) is about 0.7616; the Pade form gives 28/37 of a unit there.
    let t1 = tanh_milli(1000);
    assert!((700..=800).contains(&t1));
}

#[test]
fn logit_logistic_round_trip_at_half() {
    assert_eq!(logit_milli(500), 0);
    assert_eq!(logistic_milli(0), 500);
    assert_eq!(logistic_milli(logit_milli(500)), 500);
}

#[test]
fn logit_is_odd_and_bounded() {
    assert_eq!(logit_milli(1), -6907);
    assert_eq!(logit_milli(999), 6907);
    for v in [1u32, 100, 250, 400, 499] {
        assert_eq!(logit_milli(v), -logit_milli(1000 - v));
    }
    assert_eq!(logistic_milli(i64::MAX), 999);
    assert_eq!(logistic_milli(i64::MIN), 1);
}

#[test]
fn round_milli_rounds_half_away_from_zero() {
    assert_eq!(round_milli(0), 0);
    assert_eq!(round_milli(499), 0);
    assert_eq!(round_milli(500), 1);
    assert_eq!(round_milli(1499), 1);
    assert_eq!(round_milli(1500), 2);
    assert_eq!(round_milli(-499), 0);
    assert_eq!(round_milli(-500), -1);
    assert_eq!(round_milli(-1500), -2);
}

#[test]
fn color_is_deterministic_and_bounded() {
    for fam in [0u64, 1, 2, 42, 1_000_000, u64::MAX] {
        let c = color_of_fam(fam);
        assert_eq!(c, color_of_fam(fam));
        assert!(c <= 1000);
    }
    assert_ne!(color_of_fam(1), color_of_fam(2));
}

#[test]
fn angles_normalize() {
    assert_eq!(norm_angle(0), 0);
    assert_eq!(norm_angle(-1), TAU_UNITS - 1);
    assert_eq!(norm_angle(TAU_UNITS as i64 + 5), 5);
    assert_eq!(norm_angle(-(TAU_UNITS as i64)), 0);
}

#[test]
fn sine_and_cosine_exact_points() {
    assert_eq!(sin_milli(0), 0);
    assert_eq!(sin_milli(QUARTER_TURN), 1000);
    assert_eq!(sin_milli(2 * QUARTER_TURN), 0);
    assert_eq!(sin_milli(3 * QUARTER_TURN), -1000);
    assert_eq!(cos_milli(0), 1000);
    assert_eq!(cos_milli(QUARTER_TURN), 0);
    assert_eq!(cos_milli(2 * QUARTER_TURN), -1000);
}

#[test]
fn bearings_hit_the_axes() {
    assert_eq!(atan2_units(0, 5), 0);
    assert_eq!(atan2_units(5, 0), QUARTER_TURN);
    assert_eq!(atan2_units(0, -5), 2 * QUARTER_TURN);
    assert_eq!(atan2_units(-5, 0), 3 * QUARTER_TURN);
    assert_eq!(atan2_units(0, 0), 0);
    // The diagonal of the first quadrant is an eighth of a turn.
    assert_eq!(atan2_units(7, 7), QUARTER_TURN / 2);
}
