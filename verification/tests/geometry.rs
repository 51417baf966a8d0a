use raycaster::fixed::{isqrt, wrap_angle, FP_ONE, PI_FP, TWO_PI_FP};
use raycaster::projector::{column_angle, corrected_distance};

#[test]
fn isqrt_small_values() {
    assert_eq!(isqrt(0), 0);
    assert_eq!(isqrt(1), 1);
    assert_eq!(isqrt(2), 1);
    assert_eq!(isqrt(3), 1);
    assert_eq!(isqrt(4), 2);
    assert_eq!(isqrt(35), 5);
    assert_eq!(isqrt(36), 6);
    assert_eq!(isqrt(99), 9);
    assert_eq!(isqrt(100), 10);
}

#[test]
fn isqrt_large_values() {
    assert_eq!(isqrt(u64::MAX), 0xffff_ffff);
    assert_eq!(isqrt(1 << 62), 1 << 31);
    let r = isqrt(123456789012345678);
    assert!(r * r <= 123456789012345678);
    assert!((r + 1) * (r + 1) > 123456789012345678);
}

#[test]
fn wrap_angle_identity_inside_interval() {
    assert_eq!(wrap_angle(0), 0);
    assert_eq!(wrap_angle(PI_FP), PI_FP);
    assert_eq!(wrap_angle(-PI_FP), -PI_FP);
    assert_eq!(wrap_angle(1000), 1000);
}

#[test]
fn wrap_angle_reduces_by_whole_turns() {
    assert_eq!(wrap_angle(PI_FP + 1), PI_FP + 1 - TWO_PI_FP);
    assert_eq!(wrap_angle(7000), 7000 - TWO_PI_FP);
    assert_eq!(wrap_angle(-4000), -4000 + TWO_PI_FP);
    assert_eq!(wrap_angle(5 * TWO_PI_FP + 7), 7);
    assert_eq!(wrap_angle(-5 * TWO_PI_FP - 7), -7);
}

#[test]
fn fish_eye_no_correction_straight_ahead() {
    // A ray cast exactly at the player's heading has angular offset zero,
    // cosine one: the corrected distance equals the raw distance.
    assert_eq!(corrected_distance(0, FP_ONE), 0);
    assert_eq!(corrected_distance(51200, FP_ONE), 51200);
    assert_eq!(corrected_distance(987654, FP_ONE), 987654);
}

#[test]
fn fish_eye_scales_by_cosine() {
    assert_eq!(corrected_distance(1000, 512), 500);
    assert_eq!(corrected_distance(2048, 256), 512);
    assert_eq!(corrected_distance(1000, 0), 0);
}

#[test]
fn column_angle_spans_field_of_view() {
    // Heading 0, a field of view of 1072 fixed-point radians, 1300 columns.
    assert_eq!(column_angle(0, 1072, 0, 1300), -536);
    assert_eq!(column_angle(0, 1072, 650, 1300), 0);
    assert_eq!(column_angle(0, 1072, 1299, 1300), -536 + 1072 * 1299 / 1300);
    assert_eq!(column_angle(2000, 1072, 0, 1300), 2000 - 536);
}
