use synth_core::fixed::{Fixed, MAX_RAW, MIN_RAW, ONE_RAW};

fn to_f64(x: Fixed) -> f64 {
    x.raw as f64 / ONE_RAW as f64
}

#[test]
fn one_and_zero_have_their_encodings() {
    assert_eq!(Fixed::zero().raw, 0);
    assert_eq!(Fixed::one().raw, 4_294_967_296);
    assert_eq!(Fixed::from_raw(17).raw, 17);
}

#[test]
fn from_int_scales_by_one() {
    assert_eq!(Fixed::from_int(3).raw, 3 * ONE_RAW);
    assert_eq!(Fixed::from_int(-125).raw, -125 * ONE_RAW);
    assert_eq!(Fixed::from_int(i32::MIN).raw, i32::MIN as i64 * ONE_RAW);
}

#[test]
fn from_ratio_rounds_toward_zero() {
    assert_eq!(Fixed::from_ratio(1, 2).raw, ONE_RAW / 2);
    assert_eq!(Fixed::from_ratio(1, 44_100).raw, 97_391);
    assert_eq!(Fixed::from_ratio(-1, 44_100).raw, -97_391);
    assert_eq!(Fixed::from_ratio(1, -44_100).raw, -97_391);
    assert_eq!(Fixed::from_ratio(-1, -2).raw, ONE_RAW / 2);
    assert_eq!(Fixed::from_ratio(0, 7).raw, 0);
}

#[test]
fn from_ratio_saturates_on_zero_denominator() {
    assert_eq!(Fixed::from_ratio(5, 0).raw, MAX_RAW);
    assert_eq!(Fixed::from_ratio(-5, 0).raw, MIN_RAW);
    assert_eq!(Fixed::from_ratio(0, 0).raw, 0);
}

#[test]
fn addition_and_subtraction_saturate() {
    let big = Fixed::from_raw(MAX_RAW);
    let small = Fixed::from_raw(MIN_RAW);
    assert_eq!(big.saturating_add(Fixed::one()).raw, MAX_RAW);
    assert_eq!(small.saturating_sub(Fixed::one()).raw, MIN_RAW);
    assert_eq!(small.saturating_add(big).raw, -1);
    assert_eq!(Fixed::from_int(2).saturating_add(Fixed::from_int(3)).raw, 5 * ONE_RAW);
    assert_eq!(Fixed::from_int(2).saturating_sub(Fixed::from_int(3)).raw, -ONE_RAW);
}

#[test]
fn multiplication_truncates_toward_zero() {
    let half = Fixed::from_ratio(1, 2);
    assert_eq!(half.mul(half).raw, ONE_RAW / 4);
    assert_eq!(Fixed::from_raw(1).mul(half).raw, 0);
    assert_eq!(Fixed::from_raw(-1).mul(half).raw, 0);
    assert_eq!(Fixed::from_raw(3).mul(half).raw, 1);
    assert_eq!(Fixed::from_raw(-3).mul(half).raw, -1);
    assert_eq!(Fixed::from_int(-3).mul(Fixed::from_int(4)).raw, -12 * ONE_RAW);
}

#[test]
fn multiplication_saturates() {
    let big = Fixed::from_raw(MAX_RAW);
    assert_eq!(big.mul(big).raw, MAX_RAW);
    assert_eq!(big.mul(Fixed::from_raw(MIN_RAW)).raw, MIN_RAW);
    assert_eq!(Fixed::from_raw(MIN_RAW).mul(Fixed::from_raw(MIN_RAW)).raw, MAX_RAW);
}

#[test]
fn square_root_rounds_down() {
    assert_eq!(Fixed::from_int(4).sqrt().raw, 2 * ONE_RAW);
    assert_eq!(Fixed::one().sqrt().raw, ONE_RAW);
    assert_eq!(Fixed::zero().sqrt().raw, 0);
    assert_eq!(Fixed::from_int(-4).sqrt().raw, 0);
    assert_eq!(Fixed::from_ratio(1, 4).sqrt().raw, ONE_RAW / 2);
    let root = Fixed::from_int(2).sqrt();
    assert!((to_f64(root) - 2f64.sqrt()).abs() < 1e-9);
    let r = root.raw as i128;
    let n = 2 * (ONE_RAW as i128) * (ONE_RAW as i128);
    assert!(r * r <= n && n < (r + 1) * (r + 1));
    let largest = Fixed::from_raw(MAX_RAW).sqrt();
    let r = largest.raw as i128;
    let n = (MAX_RAW as i128) * (ONE_RAW as i128);
    assert!(r * r <= n && n < (r + 1) * (r + 1));
}

#[test]
fn at_least_one_is_a_threshold() {
    assert!(Fixed::one().at_least_one());
    assert!(Fixed::from_int(2).at_least_one());
    assert!(!Fixed::from_raw(ONE_RAW - 1).at_least_one());
    assert!(!Fixed::from_int(-2).at_least_one());
}
