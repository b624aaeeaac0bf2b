use synth_core::fixed::{Fixed, ONE_RAW};
use synth_core::processor::Processor;
use synth_core::sine::Sine;

fn to_f64(x: Fixed) -> f64 {
    x.raw as f64 / ONE_RAW as f64
}

fn from_f64(x: f64) -> Fixed {
    Fixed::from_raw((x * ONE_RAW as f64).round() as i64)
}

fn sine_table(len: usize) -> Vec<Fixed> {
    (0..len).map(|i| from_f64((i as f64 / len as f64 * std::f64::consts::TAU).sin())).collect()
}

fn oscillator(rate: u32, frequency: f64, amplitude: f64, amount: f64) -> Sine {
    let mut sine = Sine::new(sine_table(4096));
    sine.prepare(rate);
    sine.set_input(0, from_f64(frequency));
    sine.set_input(1, from_f64(amplitude));
    sine.set_input(2, from_f64(amount));
    sine
}

fn run(sine: &mut Sine, samples: usize) -> Vec<Fixed> {
    (0..samples)
        .map(|_| {
            sine.process();
            sine.output(0)
        })
        .collect()
}

#[test]
fn oscillator_has_three_inputs_and_one_output() {
    let sine = Sine::new(sine_table(16));
    assert_eq!(sine.inputs(), 3);
    assert_eq!(sine.outputs(), 1);
    assert_eq!(sine.output(0).raw, 0);
}

#[test]
fn output_is_the_scaled_sine_of_the_phase() {
    let mut sine = oscillator(44_100, 440.0, 0.8, 0.0);
    let seen = run(&mut sine, 1000);
    for (n, got) in seen.iter().enumerate() {
        let phase = (n + 1) as f64 * 440.0 / 44_100.0;
        let expected = 0.8 * (phase * std::f64::consts::TAU).sin();
        assert!((to_f64(*got) - expected).abs() < 1e-5, "sample {}", n);
    }
}

#[test]
fn output_is_periodic() {
    // 375 Hz at 48 kHz: the phase moves a 128th of a turn per sample
    let mut sine = oscillator(48_000, 375.0, 0.5, 0.0);
    let seen = run(&mut sine, 1024);
    for n in 0..(1024 - 128) {
        assert_eq!(seen[n], seen[n + 128]);
    }
    assert!(seen.iter().any(|x| x.raw != seen[0].raw));
}

#[test]
fn output_is_bounded_by_the_amplitude() {
    for frequency in [1.0, 440.0, 12_345.678, 30_000.0] {
        let mut sine = oscillator(44_100, frequency, 0.25, 0.0);
        for got in run(&mut sine, 2000) {
            assert!(got.raw.abs() <= ONE_RAW / 4);
        }
    }
}

#[test]
fn modulated_output_is_bounded_by_twice_the_amplitude() {
    let mut sine = oscillator(44_100, 440.0, 0.25, 3.0);
    let seen = run(&mut sine, 5000);
    assert!(seen.iter().all(|x| x.raw.abs() <= ONE_RAW / 2));
    assert!(seen.iter().any(|x| x.raw.abs() > ONE_RAW / 4));
}

#[test]
fn modulation_follows_the_recipe() {
    let mut sine = oscillator(44_100, 220.0, 1.0, 0.5);
    let seen = run(&mut sine, 500);
    let step = 220.0 / 44_100.0;
    let mut carrier = 0.0f64;
    let mut modulator = 0.0f64;
    for (n, got) in seen.iter().enumerate() {
        carrier = (carrier + step).rem_euclid(1.0);
        let first = (carrier * std::f64::consts::TAU).sin();
        modulator = (modulator + step * first * 0.5).rem_euclid(1.0);
        let expected = first + (modulator * std::f64::consts::TAU).sin();
        assert!((to_f64(*got) - expected).abs() < 1e-4, "sample {}", n);
    }
}

#[test]
fn frequency_of_zero_is_silence() {
    let mut sine = oscillator(44_100, 0.0, 1.0, 0.0);
    assert!(run(&mut sine, 100).iter().all(|x| x.raw == 0));
}

#[test]
fn negative_frequency_runs_the_phase_backward() {
    let mut forward = oscillator(44_100, 440.0, 1.0, 0.0);
    let mut backward = oscillator(44_100, -440.0, 1.0, 0.0);
    let up = run(&mut forward, 500);
    let down = run(&mut backward, 500);
    for n in 0..500 {
        assert!((to_f64(up[n]) + to_f64(down[n])).abs() < 1e-5, "sample {}", n);
    }
}

#[test]
fn sample_rate_of_zero_stops_the_phase() {
    let mut sine = oscillator(0, 440.0, 1.0, 0.0);
    assert!(run(&mut sine, 100).iter().all(|x| x.raw == 0));
}

#[test]
fn waveform_beyond_one_is_brought_back() {
    let mut sine = Sine::new(vec![Fixed::from_int(5), Fixed::from_int(-5)]);
    sine.prepare(4);
    sine.set_input(0, Fixed::from_int(2));
    sine.set_input(1, Fixed::one());
    // half a turn per sample: the table's second value, brought back to
    // minus one, then its first, which counts as zero
    assert_eq!(run(&mut sine, 2), vec![Fixed::from_int(-1), Fixed::zero()]);
}

#[test]
fn empty_waveform_is_silence() {
    let mut sine = Sine::new(vec![]);
    sine.prepare(44_100);
    sine.set_input(0, Fixed::from_int(440));
    sine.set_input(1, Fixed::one());
    assert!(run(&mut sine, 50).iter().all(|x| x.raw == 0));
}

#[test]
fn waveform_starts_at_zero() {
    let mut sine = Sine::new(vec![Fixed::one(), Fixed::from_ratio(1, 2), Fixed::one(), Fixed::one()]);
    sine.prepare(4);
    sine.set_input(0, Fixed::from_int(1));
    sine.set_input(1, Fixed::from_int(3));
    // a quarter of a turn per sample, output within the amplitude
    let seen = run(&mut sine, 4);
    assert_eq!(
        seen,
        vec![Fixed::from_ratio(3, 2), Fixed::from_int(3), Fixed::from_int(3), Fixed::zero()]
    );
}

#[test]
fn output_is_nearly_periodic_for_every_whole_period() {
    let table = sine_table(4096);
    let step = (0..4096)
        .map(|i| (table[(i + 1) % 4096].raw - table[i].raw).abs())
        .max()
        .unwrap()
        .max(table[1].raw.abs()) as i128;
    let one = ONE_RAW as i128;
    for (rate, frequency) in [(44_100u32, 441i32), (44_100, 100), (48_000, 1_000), (8_000, 7)] {
        if rate as i32 % frequency != 0 {
            continue;
        }
        let period = (rate as i32 / frequency) as usize;
        let amplitude = from_f64(0.75);
        let mut sine = Sine::new(sine_table(4096));
        sine.prepare(rate);
        sine.set_input(0, Fixed::from_int(frequency));
        sine.set_input(1, amplitude);
        let seen = run(&mut sine, 3 * period);
        let allowed =
            (step * 4096 * period as i128 + 2 * one) * amplitude.raw as i128 + 2 * one * one;
        for n in 0..(2 * period) {
            let apart = (seen[n + period].raw - seen[n].raw).abs() as i128;
            assert!(apart * one * one <= allowed, "rate {} frequency {}", rate, frequency);
            assert!(apart as f64 <= 1e-3 * amplitude.raw as f64);
        }
    }
}
