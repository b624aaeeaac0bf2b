use synth_core::distortion::Distortion;
use synth_core::fixed::{Fixed, ONE_RAW};
use synth_core::processor::Processor;

fn to_f64(x: Fixed) -> f64 {
    x.raw as f64 / ONE_RAW as f64
}

fn from_f64(x: f64) -> Fixed {
    Fixed::from_raw((x * ONE_RAW as f64).round() as i64)
}

fn tanh_curve(len: usize, range: f64) -> Vec<Fixed> {
    (0..len).map(|i| from_f64((-range + 2.0 * range * i as f64 / (len - 1) as f64).tanh())).collect()
}

fn shape(distortion: &mut Distortion, amount: f64, input: f64) -> f64 {
    distortion.set_input(0, from_f64(input));
    distortion.set_input(1, from_f64(amount));
    distortion.process();
    to_f64(distortion.output(0))
}

#[test]
fn distortion_has_two_inputs_and_one_output() {
    let distortion = Distortion::new(tanh_curve(9, 4.0), Fixed::from_int(4));
    assert_eq!(distortion.inputs(), 2);
    assert_eq!(distortion.outputs(), 1);
}

#[test]
fn output_is_the_curve_at_amount_times_input() {
    let mut distortion = Distortion::new(tanh_curve(4097, 8.0), Fixed::from_int(8));
    for amount in [0.0, 0.5, 1.0, 3.0, 10.0] {
        for step in -20..=20 {
            let input = step as f64 / 20.0;
            let expected = (amount * input).tanh();
            let got = shape(&mut distortion, amount, input);
            assert!((got - expected).abs() < 1e-5, "{} * {}: {} vs {}", amount, input, got, expected);
        }
    }
}

#[test]
fn curve_stays_at_its_ends_beyond_the_range() {
    let mut distortion = Distortion::new(tanh_curve(65, 2.0), Fixed::from_int(2));
    let top = 2f64.tanh();
    assert!((shape(&mut distortion, 1.0, 2.0) - top).abs() < 1e-9);
    assert!((shape(&mut distortion, 1.0, 1000.0) - top).abs() < 1e-9);
    assert!((shape(&mut distortion, 1000.0, 1000.0) - top).abs() < 1e-9);
    assert!((shape(&mut distortion, 1.0, -1000.0) + top).abs() < 1e-9);
}

#[test]
fn table_values_are_met_exactly() {
    let curve = vec![Fixed::from_ratio(-1, 2), Fixed::zero(), Fixed::from_ratio(1, 4)];
    let mut distortion = Distortion::new(curve, Fixed::one());
    distortion.set_input(1, Fixed::one());
    let cases = [(-1, 1, -ONE_RAW / 2), (0, 1, 0), (1, 1, ONE_RAW / 4), (1, 2, ONE_RAW / 8), (-1, 2, -ONE_RAW / 4)];
    for (num, den, expected) in cases {
        distortion.set_input(0, Fixed::from_ratio(num, den));
        distortion.process();
        assert_eq!(distortion.output(0).raw, expected);
    }
}

#[test]
fn output_lies_within_one() {
    let curve = vec![Fixed::from_int(-7), Fixed::from_int(3)];
    let mut distortion = Distortion::new(curve, Fixed::one());
    assert_eq!(shape(&mut distortion, 1.0, -5.0), -1.0);
    assert_eq!(shape(&mut distortion, 1.0, 5.0), 1.0);
    assert_eq!(shape(&mut distortion, 1.0, 0.0), 0.0);
}

#[test]
fn single_value_curve_is_constant() {
    let mut distortion = Distortion::new(vec![Fixed::from_ratio(1, 2)], Fixed::one());
    assert_eq!(shape(&mut distortion, 1.0, -3.0), 0.5);
    assert_eq!(shape(&mut distortion, 2.0, 0.25), 0.5);
}

#[test]
fn range_below_the_smallest_step_is_raised_to_it() {
    let curve = vec![Fixed::from_ratio(-1, 2), Fixed::from_ratio(1, 2)];
    let mut distortion = Distortion::new(curve, Fixed::from_int(-1));
    assert_eq!(shape(&mut distortion, 1.0, 1.0), 0.5);
    assert_eq!(shape(&mut distortion, 1.0, -1.0), -0.5);
    assert_eq!(shape(&mut distortion, 1.0, 0.0), 0.0);
}
