use synth_core::control::{
    delta_for, handle_control, native_value, parameter_named, parse_decimal, time_constant,
    ControlError, Parameter,
};
use synth_core::fixed::{Fixed, MAX_RAW, ONE_RAW};
use synth_core::graph::SignalGraph;
use synth_core::synth::voice;
use synth_core::unit::Unit;

fn to_f64(x: Fixed) -> f64 {
    x.raw as f64 / ONE_RAW as f64
}

fn parsed(text: &str) -> Result<i64, ControlError> {
    parse_decimal(text.as_bytes()).map(|value| value.raw)
}

#[test]
fn decimal_text_is_parsed_exactly() {
    assert_eq!(parsed("0"), Ok(0));
    assert_eq!(parsed("1"), Ok(ONE_RAW));
    assert_eq!(parsed("0.5"), Ok(ONE_RAW / 2));
    assert_eq!(parsed("0.25"), Ok(ONE_RAW / 4));
    assert_eq!(parsed(".75"), Ok(3 * ONE_RAW / 4));
    assert_eq!(parsed("3."), Ok(3 * ONE_RAW));
    assert_eq!(parsed("007.125"), Ok(7 * ONE_RAW + ONE_RAW / 8));
    assert_eq!(parsed("0.1"), Ok(429_496_729));
    assert_eq!(parsed("0.30000000000000004"), Ok(1_288_490_188));
    assert_eq!(parsed("440"), Ok(440 * ONE_RAW));
}

#[test]
fn decimal_text_is_close_to_its_float() {
    for text in ["0.123456789", "0.999999", "0.000001", "12.3456", "0.7071067811865476"] {
        let expected: f64 = text.parse().unwrap();
        let got = to_f64(parse_decimal(text.as_bytes()).ok().unwrap());
        assert!((got - expected).abs() < 1e-9, "{}: {} vs {}", text, got, expected);
    }
}

#[test]
fn fraction_digits_beyond_the_nineteenth_are_ignored() {
    assert_eq!(parsed("0.1234567890123456789"), parsed("0.12345678901234567899999"));
    assert_eq!(parsed("0.00000000000000000009"), Ok(0));
}

#[test]
fn large_numbers_saturate() {
    assert_eq!(parsed("2147483647"), Ok(2_147_483_647 * ONE_RAW));
    assert_eq!(parsed("2147483647.5"), Ok(2_147_483_647 * ONE_RAW + ONE_RAW / 2));
    assert_eq!(parsed("2147483648"), Ok(MAX_RAW));
    assert_eq!(parsed("99999999999999999999999999999999999999999"), Ok(MAX_RAW));
}

#[test]
fn malformed_text_is_a_parse_error() {
    for text in ["", ".", "-1", "+1", "1e3", "0.5.1", "abc", "0,5", " 1", "1 ", "0x10", "1..", "nan"] {
        assert_eq!(parsed(text), Err(ControlError::ParseError), "{:?}", text);
    }
}

#[test]
fn times_range_from_a_hundredth_of_a_second_to_two_seconds() {
    assert_eq!(time_constant(Fixed::zero()).raw, 42_949_673);
    assert_eq!(time_constant(Fixed::one()).raw, 8_546_984_919 + 42_949_673);
    assert_eq!(time_constant(Fixed::from_int(-3)).raw, 42_949_673);
    assert_eq!(time_constant(Fixed::from_int(3)).raw, 8_546_984_919 + 42_949_673);
    assert!((to_f64(time_constant(Fixed::one())) - 2.0).abs() < 1e-9);
}

#[test]
fn times_follow_the_power_curve() {
    for n in 0..=20 {
        let x = n as f64 / 20.0;
        let expected = x.powf(3.5) * 1.99 + 0.01;
        let got = to_f64(time_constant(Fixed::from_ratio(n, 20)));
        assert!((got - expected).abs() < 1e-8, "{}: {} vs {}", x, got, expected);
    }
}

#[test]
fn delta_is_one_over_time_and_rate() {
    assert_eq!(delta_for(Fixed::one(), 44_100).raw, 97_391);
    assert_eq!(delta_for(Fixed::from_int(2), 44_100).raw, 48_695);
    assert_eq!(delta_for(Fixed::from_ratio(1, 2), 1).raw, 2 * ONE_RAW);
    assert_eq!(delta_for(Fixed::one(), 1).raw, ONE_RAW);
    let got = to_f64(delta_for(Fixed::from_ratio(1, 100), 44_100));
    assert!((got - 1.0 / 441.0).abs() < 1e-9);
}

#[test]
fn delta_saturates_where_the_product_is_not_positive() {
    assert_eq!(delta_for(Fixed::zero(), 44_100).raw, MAX_RAW);
    assert_eq!(delta_for(Fixed::from_int(-1), 44_100).raw, MAX_RAW);
    assert_eq!(delta_for(Fixed::one(), 0).raw, MAX_RAW);
    assert_eq!(delta_for(Fixed::from_raw(1), 1).raw, MAX_RAW);
}

#[test]
fn parameters_are_found_by_name() {
    let cases = [
        ("attack", Some(Parameter::Attack)),
        ("decay", Some(Parameter::Decay)),
        ("sustain", Some(Parameter::Sustain)),
        ("release", Some(Parameter::Release)),
        ("distAmount", Some(Parameter::DistAmount)),
        ("fmAmount", Some(Parameter::FmAmount)),
        ("Attack", None),
        ("dist_amount", None),
        ("", None),
    ];
    for (name, expected) in cases {
        assert_eq!(parameter_named(&name.to_string()), expected);
    }
}

#[test]
fn values_are_mapped_to_the_parameter_domain() {
    let half = Fixed::from_ratio(1, 2);
    assert_eq!(native_value(Parameter::Sustain, half, 44_100), half);
    assert_eq!(native_value(Parameter::DistAmount, half, 44_100), half);
    assert_eq!(native_value(Parameter::FmAmount, half, 44_100), half);
    let quarter = Fixed::from_ratio(1, 4);
    let attack = native_value(Parameter::Attack, quarter, 44_100);
    assert_eq!(attack, delta_for(time_constant(quarter), 44_100));
    assert_eq!(native_value(Parameter::Release, quarter, 44_100), attack);
    let decay = native_value(Parameter::Decay, quarter, 44_100);
    assert_eq!(decay, delta_for(time_constant(Fixed::from_ratio(3, 4)), 44_100));
    let expected = 1.0 / ((0.25f64.powf(3.5) * 1.99 + 0.01) * 44_100.0);
    assert!((to_f64(attack) - expected).abs() < 1e-8);
}

fn bare_voice() -> SignalGraph<Unit> {
    let names = [
        "freq", "fm_amt", "dist_amt", "note_on", "note_off", "attack", "decay", "sustain", "release",
    ];
    let inputs = names.iter().map(|name| name.to_string()).collect();
    SignalGraph::build(inputs, vec![], vec![], vec![], 8).ok().unwrap()
}

#[test]
fn control_event_reaches_its_endpoint() {
    let mut graph = bare_voice();
    let params = voice();
    let done = handle_control(&mut graph, &params, &"sustain".to_string(), b"0.5", 44_100);
    assert_eq!(done, Ok(()));
    let done = handle_control(&mut graph, &params, &"attack".to_string(), b"1", 44_100);
    assert_eq!(done, Ok(()));
    let done = handle_control(&mut graph, &params, &"fmAmount".to_string(), b"0.25", 44_100);
    assert_eq!(done, Ok(()));
    graph.render(1);
    assert_eq!(graph.held(params.sustain), Fixed::from_ratio(1, 2));
    assert_eq!(graph.held(params.attack), delta_for(time_constant(Fixed::one()), 44_100));
    assert_eq!(graph.held(params.fm_amount), Fixed::from_ratio(1, 4));
    assert_eq!(graph.held(params.decay), Fixed::zero());
}

#[test]
fn refused_control_event_changes_nothing() {
    let mut graph = bare_voice();
    let params = voice();
    handle_control(&mut graph, &params, &"sustain".to_string(), b"0.75", 44_100).ok().unwrap();
    graph.render(1);
    let done = handle_control(&mut graph, &params, &"sustain".to_string(), b"zero", 44_100);
    assert_eq!(done, Err(ControlError::ParseError));
    let done = handle_control(&mut graph, &params, &"volume".to_string(), b"0.5", 44_100);
    assert_eq!(done, Err(ControlError::UnknownParameter));
    let done = handle_control(&mut graph, &params, &"volume".to_string(), b"zero", 44_100);
    assert_eq!(done, Err(ControlError::UnknownParameter));
    graph.render(3);
    assert_eq!(graph.held(params.sustain), Fixed::from_ratio(3, 4));
}
