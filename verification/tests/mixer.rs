use synth_core::fixed::{Fixed, MAX_RAW, MIN_RAW};
use synth_core::mixer::Mixer;
use synth_core::processor::Processor;

#[test]
fn mixer_sums_its_inputs() {
    let mut mixer = Mixer::new(3);
    assert_eq!(mixer.inputs(), 3);
    assert_eq!(mixer.outputs(), 1);
    mixer.set_input(0, Fixed::from_int(1));
    mixer.set_input(1, Fixed::from_int(-4));
    mixer.set_input(2, Fixed::from_ratio(1, 2));
    assert_eq!(mixer.output(0), Fixed::zero());
    mixer.process();
    assert_eq!(mixer.output(0), Fixed::from_ratio(-5, 2));
}

#[test]
fn mixer_without_inputs_is_silent() {
    let mut mixer = Mixer::new(0);
    mixer.set_input(0, Fixed::one());
    mixer.process();
    assert_eq!(mixer.output(0), Fixed::zero());
}

#[test]
fn mixer_saturates_from_first_to_last() {
    let mut mixer = Mixer::new(3);
    mixer.set_input(0, Fixed::from_raw(MAX_RAW));
    mixer.set_input(1, Fixed::from_raw(MAX_RAW));
    mixer.set_input(2, Fixed::from_raw(MIN_RAW));
    mixer.process();
    assert_eq!(mixer.output(0).raw, -1);
}

#[test]
fn mixer_ignores_writes_beyond_its_inputs() {
    let mut mixer = Mixer::new(2);
    mixer.set_input(2, Fixed::from_int(9));
    mixer.set_input(1, Fixed::from_int(3));
    mixer.process();
    assert_eq!(mixer.output(0), Fixed::from_int(3));
}
