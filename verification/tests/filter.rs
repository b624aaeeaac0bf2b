use synth_core::filter::{FilterMode, StateVariableFilter};
use synth_core::fixed::{Fixed, ONE_RAW};
use synth_core::processor::Processor;

fn to_f64(x: Fixed) -> f64 {
    x.raw as f64 / ONE_RAW as f64
}

fn from_f64(x: f64) -> Fixed {
    Fixed::from_raw((x * ONE_RAW as f64).round() as i64)
}

fn sine_table(len: usize) -> Vec<Fixed> {
    (0..len).map(|i| from_f64((i as f64 / len as f64 * std::f64::consts::TAU).sin())).collect()
}

/// The same recipe in floating point.
struct Reference {
    rate: f64,
    low: f64,
    band: f64,
}

impl Reference {
    fn step(&mut self, sample: f64, cutoff: f64, resonance: f64) -> f64 {
        let angle = (cutoff / (self.rate * 2.0)).clamp(0.0, 0.25);
        let frequency = std::f64::consts::TAU * angle.sin();
        let damping =
            2.0 * (1.0 - resonance.powf(0.25)).min(2f64.min(2.0 / frequency - frequency * 0.5));
        let mut low_after = [0.0; 2];
        for round in 0..2 {
            let notch = sample - damping * self.band;
            self.low += frequency * self.band;
            let high = notch - self.low;
            self.band = frequency * high + self.band - self.band * self.band * self.band;
            low_after[round] = self.low;
        }
        0.5 * low_after[0] + 0.5 * low_after[1]
    }
}

fn filter(rate: u32) -> StateVariableFilter {
    let mut filter = StateVariableFilter::new(sine_table(65_536));
    filter.prepare(rate);
    filter
}

fn step(filter: &mut StateVariableFilter, sample: f64, cutoff: f64, resonance: f64) -> f64 {
    filter.set_input(0, from_f64(sample));
    filter.set_input(1, from_f64(cutoff));
    filter.set_input(2, from_f64(resonance));
    filter.process();
    to_f64(filter.output(0))
}

#[test]
fn filter_has_three_inputs_and_one_output() {
    let filter = filter(44_100);
    assert_eq!(filter.inputs(), 3);
    assert_eq!(filter.outputs(), 1);
    assert_eq!(filter.mode(), FilterMode::LowPass);
}

#[test]
fn filter_follows_its_recipe() {
    let mut filter = filter(44_100);
    let mut reference = Reference { rate: 44_100.0, low: 0.0, band: 0.0 };
    for n in 0..2000 {
        let sample = if (n / 50) % 2 == 0 { 0.5 } else { -0.25 };
        let got = step(&mut filter, sample, 2000.0, 0.4);
        let expected = reference.step(sample, 2000.0, 0.4);
        assert!((got - expected).abs() < 1e-4, "sample {}: {} vs {}", n, got, expected);
    }
}

#[test]
fn steady_input_passes_the_low_pass() {
    let mut filter = filter(44_100);
    let mut last = 0.0;
    for _ in 0..20_000 {
        last = step(&mut filter, 0.5, 1000.0, 0.2);
    }
    assert!((last - 0.5).abs() < 1e-3, "{}", last);
}

#[test]
fn cutoff_beyond_nyquist_is_guarded() {
    let mut guarded = filter(44_100);
    let mut nyquist = filter(44_100);
    for n in 0..500 {
        let sample = if n % 7 < 3 { 0.1 } else { -0.1 };
        let high = step(&mut guarded, sample, 1_000_000.0, 0.3);
        let edge = step(&mut nyquist, sample, 22_050.0, 0.3);
        assert_eq!(high, edge);
    }
}

#[test]
fn negative_cutoff_is_guarded() {
    let mut guarded = filter(44_100);
    let mut closed = filter(44_100);
    for n in 0..500 {
        let sample = if n % 7 < 3 { 0.1 } else { -0.1 };
        assert_eq!(step(&mut guarded, sample, -500.0, 0.3), step(&mut closed, sample, 0.0, 0.3));
    }
}

#[test]
fn mode_does_not_change_the_response() {
    let mut low = filter(44_100);
    let mut band = filter(44_100);
    band.set_mode(FilterMode::BandPass);
    assert_eq!(band.mode(), FilterMode::BandPass);
    for n in 0..300 {
        let sample = if n % 5 < 2 { 0.3 } else { -0.3 };
        assert_eq!(step(&mut low, sample, 3000.0, 0.5), step(&mut band, sample, 3000.0, 0.5));
    }
}

#[test]
fn prepare_resets_mode_and_drive() {
    let mut filter = filter(44_100);
    filter.set_mode(FilterMode::Notch);
    filter.prepare(48_000);
    assert_eq!(filter.mode(), FilterMode::LowPass);
}
