use synth_core::delay::{Delay, MIX_RAW};
use synth_core::wave::lerp;
use synth_core::fixed::{Fixed, ONE_RAW};
use synth_core::processor::Processor;

fn step(delay: &mut Delay, input: Fixed) -> Fixed {
    delay.set_input(0, input);
    delay.process();
    delay.output(0)
}

#[test]
fn lerp_moves_a_fraction_of_the_way() {
    let a = Fixed::from_int(2);
    let b = Fixed::from_int(6);
    assert_eq!(lerp(a, b, Fixed::zero()).raw, a.raw);
    assert_eq!(lerp(a, b, Fixed::one()).raw, b.raw);
    assert_eq!(lerp(a, b, Fixed::from_ratio(1, 4)).raw, 3 * ONE_RAW);
    assert_eq!(lerp(b, a, Fixed::from_ratio(1, 2)).raw, 4 * ONE_RAW);
}

#[test]
fn delay_line_has_two_inputs_and_one_output() {
    let delay = Delay::new();
    assert_eq!(delay.inputs(), 2);
    assert_eq!(delay.outputs(), 1);
    assert_eq!(delay.output(0).raw, 0);
}

#[test]
fn impulse_returns_after_a_second() {
    let mut delay = Delay::new();
    delay.prepare(44_100);
    delay.set_input(1, Fixed::from_int(1000));
    assert_eq!(step(&mut delay, Fixed::one()).raw, ONE_RAW - MIX_RAW);
    for _ in 1..44_099 {
        assert_eq!(step(&mut delay, Fixed::zero()).raw, 0);
    }
    assert_eq!(step(&mut delay, Fixed::zero()).raw, MIX_RAW);
    assert_eq!(step(&mut delay, Fixed::zero()).raw, 0);
}

#[test]
fn mix_coefficient_is_three_tenths() {
    assert!((MIX_RAW as f64 / ONE_RAW as f64 - 0.3).abs() < 1e-9);
}

#[test]
fn whole_sample_delay_reads_back_the_input() {
    let mut delay = Delay::new();
    delay.prepare(1000);
    delay.set_input(1, Fixed::from_int(5));
    let inputs: Vec<Fixed> = (1..=20).map(Fixed::from_int).collect();
    for (n, input) in inputs.iter().enumerate() {
        let delayed = if n >= 4 { inputs[n - 4] } else { Fixed::zero() };
        let expected = lerp(*input, delayed, Fixed::from_raw(MIX_RAW));
        assert_eq!(step(&mut delay, *input).raw, expected.raw);
    }
}

#[test]
fn fractional_delay_interpolates_between_neighbours() {
    let mut delay = Delay::new();
    delay.prepare(1000);
    delay.set_input(1, Fixed::from_ratio(5, 2));
    let inputs: Vec<Fixed> = (1..=10).map(|n| Fixed::from_int(n * n)).collect();
    for (n, input) in inputs.iter().enumerate() {
        let older = if n >= 2 { inputs[n - 2] } else { Fixed::zero() };
        let newer = if n >= 1 { inputs[n - 1] } else { Fixed::zero() };
        let wet = lerp(older, newer, Fixed::from_ratio(1, 2));
        let expected = lerp(*input, wet, Fixed::from_raw(MIX_RAW));
        assert_eq!(step(&mut delay, *input).raw, expected.raw);
    }
}

#[test]
fn delay_beyond_the_buffer_is_clamped_to_the_buffer() {
    let mut clamped = Delay::new();
    clamped.prepare(100);
    clamped.set_input(1, Fixed::from_int(5000));
    let mut whole = Delay::new();
    whole.prepare(100);
    whole.set_input(1, Fixed::from_int(1000));
    for n in 0..250 {
        let input = Fixed::from_int(n % 17);
        assert_eq!(step(&mut clamped, input).raw, step(&mut whole, input).raw);
    }
}

#[test]
fn negative_delay_is_clamped_to_zero() {
    let mut clamped = Delay::new();
    clamped.prepare(100);
    clamped.set_input(1, Fixed::from_int(-3));
    let mut none = Delay::new();
    none.prepare(100);
    none.set_input(1, Fixed::zero());
    for n in 0..250 {
        let input = Fixed::from_int(n % 13);
        assert_eq!(step(&mut clamped, input).raw, step(&mut none, input).raw);
    }
}

#[test]
fn sample_rate_of_zero_still_gives_a_buffer() {
    let mut delay = Delay::new();
    delay.prepare(0);
    delay.set_input(1, Fixed::from_int(10));
    assert_eq!(step(&mut delay, Fixed::one()).raw, ONE_RAW);
    assert_eq!(step(&mut delay, Fixed::from_int(2)).raw, 2 * ONE_RAW);
}

#[test]
fn writes_to_other_ports_are_ignored() {
    let mut delay = Delay::new();
    delay.prepare(10);
    delay.set_input(7, Fixed::from_int(3));
    assert_eq!(delay.output(0).raw, 0);
    assert_eq!(step(&mut delay, Fixed::zero()).raw, 0);
}
