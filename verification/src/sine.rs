//! The oscillator.
//!
//! The phase is kept as a fraction of a turn between zero and one, so that it
//! wraps without error. Each sample the phase moves on by the frequency
//! divided by the sample rate, and the waveform is looked up at the new
//! phase. A second phase, moved on by the same step times the sample just
//! looked up times the modulation amount, is looked up as well; the sum of
//! the two, scaled by the amplitude, is the output. A frequency of zero stops
//! the phase; a negative one runs it backward.

use vstd::prelude::*;
use crate::fixed::{add_raw, div_toward_zero, mul_raw, trunc_div, Fixed, ONE_RAW};
use crate::processor::Processor;
use crate::wave::{
    bounded_table, cyclic_lookup, cyclic_raw, distance, lemma_cyclic_bounded, lemma_cyclic_close,
    make_table, table_of, table_steps_within, within_one,
};

verus! {

/// The number of input ports of an oscillator: frequency in Hz, amplitude
/// and modulation amount, in this order.
pub const SINE_INPUTS: usize = 3;

/// The step of the phase per sample, as a raw encoding of a fraction of a
/// turn: the frequency divided by the sample rate, rounded toward zero. A
/// sample rate of zero stops the phase.
pub open spec fn increment_raw(frequency: int, sample_rate: u32) -> int {
    if sample_rate == 0 {
        0
    } else {
        trunc_div(frequency, sample_rate as int)
    }
}

/// The phase after a step, wrapped into one turn.
pub open spec fn advanced(phase: nat, increment: int) -> nat {
    ((phase + increment) % (ONE_RAW as int)) as nat
}

/// The waveform that is made of `values`: the table of them, with zero as its
/// first value.
pub open spec fn waveform_of(values: Seq<Fixed>) -> Seq<Fixed> {
    table_of(values).update(0, Fixed { raw: 0 })
}

/// What an oscillator is to its callers.
pub struct SineView {
    /// Input port 0: the frequency in Hz.
    pub frequency: Fixed,
    /// Input port 1: the amplitude.
    pub amplitude: Fixed,
    /// Input port 2: the amount of modulation.
    pub amount: Fixed,
    /// The output port.
    pub sample: Fixed,
    /// The phase of the carrier, a raw encoding of a fraction of a turn.
    pub carrier: nat,
    /// The phase of the modulator.
    pub modulator: nat,
    /// The sample rate.
    pub sample_rate: u32,
    /// One period of the waveform.
    pub table: Seq<Fixed>,
}

impl SineView {
    /// The waveform is bounded by one and starts at zero, and both phases lie
    /// within a turn.
    pub open spec fn wf(self) -> bool {
        &&& bounded_table(self.table)
        &&& self.table[0]@ == 0
        &&& self.carrier < ONE_RAW
        &&& self.modulator < ONE_RAW
    }

    /// The step of the carrier's phase per sample.
    pub open spec fn increment(self) -> int {
        increment_raw(self.frequency@, self.sample_rate)
    }

    /// The carrier's phase after the next step.
    pub open spec fn next_carrier(self) -> nat {
        advanced(self.carrier, self.increment())
    }

    /// The carrier's value after the next step.
    pub open spec fn carrier_value(self) -> int {
        cyclic_raw(self.table, self.next_carrier() as int)
    }

    /// The modulator's phase after the next step: its step is the carrier's
    /// step times the carrier's value times the amount.
    pub open spec fn next_modulator(self) -> nat {
        advanced(
            self.modulator,
            mul_raw(mul_raw(self.increment(), self.carrier_value()), self.amount@),
        )
    }

    /// The oscillator one sample later.
    pub open spec fn stepped(self) -> SineView {
        SineView {
            carrier: self.next_carrier(),
            modulator: self.next_modulator(),
            sample: Fixed {
                raw: mul_raw(
                    add_raw(
                        self.carrier_value(),
                        cyclic_raw(self.table, self.next_modulator() as int),
                    ),
                    self.amplitude@,
                ) as i64,
            },
            ..self
        }
    }

    /// The oscillator with `value` on input port `port`.
    pub open spec fn with_port(self, port: int, value: Fixed) -> SineView {
        if port == 0 {
            SineView { frequency: value, ..self }
        } else if port == 1 {
            SineView { amplitude: value, ..self }
        } else if port == 2 {
            SineView { amount: value, ..self }
        } else {
            self
        }
    }

    /// The oscillator after `samples` samples during which nothing writes its
    /// inputs.
    pub open spec fn run(self, samples: nat) -> SineView
        decreases samples,
    {
        if samples == 0 {
            self
        } else {
            self.run((samples - 1) as nat).stepped()
        }
    }

    /// There is no modulation: the amount is zero and the modulator rests at
    /// phase zero, where the waveform is zero.
    pub open spec fn unmodulated(self) -> bool {
        &&& self.amount@ == 0
        &&& self.modulator == 0
    }
}

/// An oscillator.
pub struct Sine {
    frequency: Fixed,
    amplitude: Fixed,
    amount: Fixed,
    sample: Fixed,
    carrier: u64,
    modulator: u64,
    sample_rate: u32,
    table: Vec<Fixed>,
}

impl View for Sine {
    type V = SineView;

    closed spec fn view(&self) -> SineView {
        SineView {
            frequency: self.frequency,
            amplitude: self.amplitude,
            amount: self.amount,
            sample: self.sample,
            carrier: self.carrier as nat,
            modulator: self.modulator as nat,
            sample_rate: self.sample_rate,
            table: self.table@,
        }
    }
}

/// Wraps a phase into one turn.
fn wrap(phase: i128) -> (r: u64)
    requires
        -0x1_0000_0000_0000_0000_0000_0000_0000 < phase < 0x1_0000_0000_0000_0000_0000_0000_0000,
    ensures
        r == (phase as int) % (ONE_RAW as int),
        r < ONE_RAW,
{
    if phase >= 0 {
        ((phase as u128) % 4294967296u128) as u64
    } else {
        let rest: u128 = ((-phase) as u128) % 4294967296u128;
        if rest == 0 {
            0
        } else {
            (4294967296u128 - rest) as u64
        }
    }
}

impl Sine {
    /// An oscillator at rest whose waveform is given by `waveform`, the
    /// samples of one period from phase zero on. Values beyond one are
    /// brought back to one; the period starts at a zero crossing, as the
    /// sine's does, so the first sample counts as zero whatever it is; an
    /// empty waveform is silence.
    pub fn new(waveform: Vec<Fixed>) -> (r: Sine)
        ensures
            r@.wf(),
            r@ == (SineView {
                frequency: Fixed { raw: 0 },
                amplitude: Fixed { raw: 0 },
                amount: Fixed { raw: 0 },
                sample: Fixed { raw: 0 },
                carrier: 0,
                modulator: 0,
                sample_rate: 0,
                table: waveform_of(waveform@),
            }),
    {
        let mut table = make_table(waveform);
        table.set(0, Fixed::zero());
        Sine {
            frequency: Fixed::zero(),
            amplitude: Fixed::zero(),
            amount: Fixed::zero(),
            sample: Fixed::zero(),
            carrier: 0,
            modulator: 0,
            sample_rate: 0,
            table,
        }
    }
}

impl Processor for Sine {
    type Model = SineView;

    open spec fn model(&self) -> SineView {
        self@
    }

    open spec fn wf(model: SineView) -> bool {
        model.wf()
    }

    open spec fn input_count(model: SineView) -> nat {
        SINE_INPUTS as nat
    }

    open spec fn output_count(model: SineView) -> nat {
        1
    }

    open spec fn prepared(model: SineView, sample_rate: u32) -> SineView {
        SineView { sample_rate, ..model }
    }

    open spec fn with_input(model: SineView, port: int, value: Fixed) -> SineView {
        model.with_port(port, value)
    }

    open spec fn processed(model: SineView) -> SineView {
        model.stepped()
    }

    open spec fn output_at(model: SineView, port: int) -> Fixed {
        model.sample
    }

    fn inputs(&self) -> (n: usize) {
        SINE_INPUTS
    }

    fn outputs(&self) -> (n: usize) {
        1
    }

    /// Records the sample rate.
    fn prepare(&mut self, sample_rate: u32) {
        self.sample_rate = sample_rate;
    }

    /// Writes the frequency (port 0), the amplitude (port 1) or the
    /// modulation amount (port 2).
    fn set_input(&mut self, port: usize, value: Fixed) {
        if port == 0 {
            self.frequency = value;
        } else if port == 1 {
            self.amplitude = value;
        } else if port == 2 {
            self.amount = value;
        }
    }

    /// Advances the oscillator by one sample.
    fn process(&mut self) {
        let increment: i64 = if self.sample_rate == 0 {
            0
        } else {
            div_toward_zero(self.frequency.raw as i128, self.sample_rate as i128) as i64
        };
        self.carrier = wrap(self.carrier as i128 + increment as i128);
        let value = cyclic_lookup(&self.table, self.carrier);
        let swing = Fixed::from_raw(increment).mul(value).mul(self.amount);
        self.modulator = wrap(self.modulator as i128 + swing.raw as i128);
        let second = cyclic_lookup(&self.table, self.modulator);
        self.sample = value.saturating_add(second).mul(self.amplitude);
    }

    /// Reads the sample.
    fn output(&self, port: usize) -> (r: Fixed) {
        self.sample
    }
}

/// The phase of an oscillation of frequency `frequency` (a raw encoding of
/// Hz) at the `sample_clock`-th sample, as a raw encoding of a fraction of a
/// turn: the product of clock and frequency divided by the sample rate,
/// wrapped into one turn. A sample rate of zero gives phase zero.
pub open spec fn clock_phase(sample_clock: u32, sample_rate: u32, frequency: int) -> nat {
    if sample_rate == 0 {
        0
    } else {
        (trunc_div(sample_clock * frequency, sample_rate as int) % (ONE_RAW as int)) as nat
    }
}

/// The value of an oscillation of frequency `freq`, whose waveform is given
/// by `table`, at the `sample_clock`-th sample. It depends on nothing but its
/// arguments.
pub fn sin(table: &Vec<Fixed>, sample_clock: u32, sample_rate: u32, freq: Fixed) -> (r: Fixed)
    ensures
        r@ == cyclic_raw(table@, clock_phase(sample_clock, sample_rate, freq@) as int),
{
    if sample_rate == 0 {
        return cyclic_lookup(table, 0);
    }
    let clock: i128 = sample_clock as i128;
    let wide: i128 = freq.raw as i128;
    assert(-0x1_0000_0000 * 0x8000_0000_0000_0000 <= clock * wide <= 0x1_0000_0000
        * 0x8000_0000_0000_0000) by (nonlinear_arith)
        requires
            0 <= clock <= 0x1_0000_0000,
            -0x8000_0000_0000_0000 <= wide <= 0x8000_0000_0000_0000,
    ;
    let product: i128 = clock * wide;
    let turns: i128 = div_toward_zero(product, sample_rate as i128);
    proof {
        let size: int = if product >= 0 {
            product as int
        } else {
            -product
        };
        assert(0 <= size / (sample_rate as int) <= size) by (nonlinear_arith)
            requires
                size >= 0,
                sample_rate >= 1,
        ;
    }
    cyclic_lookup(table, wrap(turns))
}

/// The magnitude of an integer.
pub open spec fn magnitude(x: int) -> int {
    if x < 0 {
        -x
    } else {
        x
    }
}

/// The product of a value within `bound` ones and any factor lies within
/// `bound` times the factor's magnitude.
proof fn lemma_scaled_bound(x: int, factor: int, bound: int)
    requires
        bound >= 0,
        -bound * ONE_RAW <= x <= bound * ONE_RAW,
    ensures
        magnitude(mul_raw(x, factor)) <= bound * magnitude(factor),
{
    let one = ONE_RAW as int;
    let m = magnitude(factor);
    let p = x * factor;
    assert(-(bound * m * one) <= p <= bound * m * one) by (nonlinear_arith)
        requires
            -bound * one <= x <= bound * one,
            m >= 0,
            factor == m || factor == -m,
            p == x * factor,
            bound >= 0,
    ;
    if p >= 0 {
        assert(p / one <= bound * m) by (nonlinear_arith)
            requires
                0 <= p <= bound * m * one,
                one > 0,
        ;
    } else {
        assert((-p) / one <= bound * m) by (nonlinear_arith)
            requires
                0 <= -p <= bound * m * one,
                one > 0,
        ;
    }
}

/// The output is bounded. Whatever the inputs, the output of an oscillator
/// lies within twice the amplitude. Without modulation the output is the
/// waveform at the phase that the step has moved to, times the amplitude; it
/// lies within the amplitude, and the modulator stays at rest.
pub proof fn lemma_output_bounded(view: SineView)
    requires
        view.wf(),
    ensures
        view.stepped().wf(),
        magnitude(view.stepped().sample@) <= 2 * magnitude(view.amplitude@),
        view.unmodulated() ==> view.stepped().unmodulated() && magnitude(view.stepped().sample@)
            <= magnitude(view.amplitude@),
        view.unmodulated() ==> view.stepped().sample@ == mul_raw(
            cyclic_raw(view.table, view.stepped().carrier as int),
            view.amplitude@,
        ),
{
    let next = view.stepped();
    lemma_cyclic_bounded(view.table, next.carrier as int);
    lemma_cyclic_bounded(view.table, next.modulator as int);
    let first = view.carrier_value();
    let second = cyclic_raw(view.table, next.modulator as int);
    assert(within_one(first) && within_one(second));
    lemma_scaled_bound(add_raw(first, second), view.amplitude@, 2);
    if view.unmodulated() {
        let swing = mul_raw(mul_raw(view.increment(), first), 0);
        assert(mul_raw(view.increment(), first) * 0 == 0);
        assert(swing == 0);
        assert(next.modulator == 0);
        assert(second == 0);
        lemma_scaled_bound(first, view.amplitude@, 1);
    }
}

/// Without modulation and with constant inputs, the carrier's phase after
/// any number of samples is its first phase plus as many steps, wrapped into
/// one turn, and the output is the waveform there, scaled by the amplitude.
pub proof fn lemma_phase_after(view: SineView, samples: nat)
    requires
        view.wf(),
        view.unmodulated(),
    ensures
        view.run(samples).wf(),
        view.run(samples).unmodulated(),
        view.run(samples).table == view.table,
        view.run(samples).frequency == view.frequency,
        view.run(samples).amplitude == view.amplitude,
        view.run(samples).sample_rate == view.sample_rate,
        view.run(samples).carrier == (view.carrier + samples * view.increment()) % (ONE_RAW as int),
        samples >= 1 ==> view.run(samples).sample@ == mul_raw(
            cyclic_raw(view.table, view.run(samples).carrier as int),
            view.amplitude@,
        ),
    decreases samples,
{
    let one = ONE_RAW as int;
    if samples == 0 {
        assert(samples * view.increment() == 0) by (nonlinear_arith)
            requires
                samples == 0,
        ;
    } else {
        let before = view.run((samples - 1) as nat);
        lemma_phase_after(view, (samples - 1) as nat);
        lemma_output_bounded(before);
        let inc = view.increment();
        assert(before.increment() == inc);
        assert(samples * inc == (samples - 1) * inc + inc) by (nonlinear_arith);
        vstd::arithmetic::div_mod::lemma_add_mod_noop(view.carrier + (samples - 1) * inc, inc, one);
        vstd::arithmetic::div_mod::lemma_add_mod_noop(before.carrier as int, inc, one);
        vstd::arithmetic::div_mod::lemma_mod_twice(view.carrier + (samples - 1) * inc, one);
        let next = before.stepped();
        assert(next.modulator == 0);
        lemma_cyclic_bounded(view.table, next.carrier as int);
        lemma_cyclic_bounded(view.table, 0);
        assert(cyclic_raw(before.table, before.next_modulator() as int) == 0);
        assert(add_raw(before.carrier_value(), 0) == before.carrier_value());
        assert(view.run(samples) == next);
    }
}

/// The output is periodic. Without modulation and with constant inputs, if
/// `period` steps of the phase make whole turns, then the output repeats
/// after `period` samples.
pub proof fn lemma_output_periodic(view: SineView, period: nat, samples: nat)
    requires
        view.wf(),
        view.unmodulated(),
        (period * view.increment()) % (ONE_RAW as int) == 0,
        samples >= 1,
    ensures
        view.run(samples + period).carrier == view.run(samples).carrier,
        view.run(samples + period).sample == view.run(samples).sample,
{
    let one = ONE_RAW as int;
    let inc = view.increment();
    lemma_phase_after(view, samples);
    lemma_phase_after(view, samples + period);
    assert((samples + period) * inc == samples * inc + period * inc) by (nonlinear_arith);
    vstd::arithmetic::div_mod::lemma_add_mod_noop(view.carrier + samples * inc, period * inc, one);
    vstd::arithmetic::div_mod::lemma_mod_twice(view.carrier + samples * inc, one);
}


/// Scaling by the amplitude keeps near values near: the distance of two
/// scaled values, times one, is at most the distance of the values times the
/// magnitude of the amplitude, plus twice one for the rounding.
proof fn lemma_scaled_close(first: int, second: int, amplitude: int)
    ensures
        distance(mul_raw(first, amplitude), mul_raw(second, amplitude)) * ONE_RAW <= distance(
            first,
            second,
        ) * magnitude(amplitude) + 2 * ONE_RAW,
{
    let one = ONE_RAW as int;
    let u = first * amplitude;
    let v = second * amplitude;
    let p = trunc_div(u, one);
    let q = trunc_div(v, one);
    assert(distance(u, v) == distance(first, second) * magnitude(amplitude)) by (nonlinear_arith)
        requires
            u == first * amplitude,
            v == second * amplitude,
            distance(u, v) == u - v || distance(u, v) == v - u,
            distance(u, v) >= 0,
            distance(first, second) == first - second || distance(first, second) == second - first,
            distance(first, second) >= 0,
            magnitude(amplitude) == amplitude || magnitude(amplitude) == -amplitude,
            magnitude(amplitude) >= 0,
    ;
    lemma_rounded_near(u);
    lemma_rounded_near(v);
    assert(distance(p * one, q * one) <= distance(u, v) + 2 * one);
    assert(distance(p, q) * one == distance(p * one, q * one)) by (nonlinear_arith)
        requires
            one > 0,
            distance(p, q) == q - p && p <= q && distance(p * one, q * one) == q * one - p * one
                || distance(p, q) == p - q && p > q && distance(p * one, q * one) == p * one - q
                * one,
    ;
    let a = mul_raw(first, amplitude);
    let b = mul_raw(second, amplitude);
    assert(distance(a, b) <= distance(p, q));
    assert(distance(a, b) * one <= distance(p, q) * one) by (nonlinear_arith)
        requires
            0 <= distance(a, b) <= distance(p, q),
            one > 0,
    ;
}

/// A quotient by one, rounded toward zero and scaled back, lies less than
/// one from the dividend, and on the same side of zero.
proof fn lemma_rounded_near(x: int)
    ensures
        distance(trunc_div(x, ONE_RAW as int) * ONE_RAW, x) < ONE_RAW,
        x >= 0 ==> 0 <= trunc_div(x, ONE_RAW as int) * ONE_RAW <= x,
        x <= 0 ==> x <= trunc_div(x, ONE_RAW as int) * ONE_RAW <= 0,
{
    let one = ONE_RAW as int;
    if x >= 0 {
        vstd::arithmetic::div_mod::lemma_fundamental_div_mod(x, one);
        assert(one * (x / one) == (x / one) * one) by (nonlinear_arith);
    } else {
        vstd::arithmetic::div_mod::lemma_fundamental_div_mod(-x, one);
        assert(one * ((-x) / one) == ((-x) / one) * one) by (nonlinear_arith);
        assert((-((-x) / one)) * one == -(((-x) / one) * one)) by (nonlinear_arith);
    }
}

/// Where the period of an oscillation is a whole number of samples, that
/// many steps of the phase fall short of a whole turn by less than one raw
/// step for each sample of the period: the step is the rounded-down quotient
/// of frequency and sample rate.
pub proof fn lemma_whole_period_shift(frequency: int, sample_rate: u32, period: nat)
    requires
        sample_rate > 0,
        frequency > 0,
        period >= 1,
        period * frequency == sample_rate * ONE_RAW,
    ensures
        ({
            let shift = (period * increment_raw(frequency, sample_rate)) % (ONE_RAW as int);
            shift == 0 || ONE_RAW - shift < period
        }),
{
    let one = ONE_RAW as int;
    let rate = sample_rate as int;
    let step = frequency / rate;
    assert(increment_raw(frequency, sample_rate) == step);
    vstd::arithmetic::div_mod::lemma_fundamental_div_mod(frequency, rate);
    let rest = frequency % rate;
    assert(0 <= rest < rate);
    let turns = period * step;
    assert(0 <= step) by (nonlinear_arith)
        requires
            step == frequency / rate,
            frequency > 0,
            rate > 0,
    ;
    assert(rate * turns + period * rest == rate * one) by (nonlinear_arith)
        requires
            frequency == rate * step + rest,
            period * frequency == rate * one,
            turns == period * step,
    ;
    assert(one - period < turns <= one) by (nonlinear_arith)
        requires
            rate * turns + period * rest == rate * one,
            0 <= rest < rate,
            rate > 0,
            period >= 1,
    ;
    assert(turns >= 0) by (nonlinear_arith)
        requires
            turns == period * step,
            step >= 0,
            period >= 1,
    ;
    if turns == one {
        vstd::arithmetic::div_mod::lemma_mod_self_0(one);
    } else {
        vstd::arithmetic::div_mod::lemma_small_mod(turns as nat, one as nat);
    }
}

/// The output is periodic within a tolerance. Without modulation and with
/// constant inputs, if `period` steps of the phase end within `gap` of a whole
/// number of turns, and neighbouring values of the waveform differ by at most
/// `step`, then the outputs of two samples a period apart differ by no more
/// than the waveform can move within `gap`, scaled by the amplitude, and a few
/// raw steps for the rounding: their distance is at most (`step` times the
/// length of the table times `gap` over one, plus two) times the magnitude of
/// the amplitude over one, plus two.
pub proof fn lemma_output_nearly_periodic(
    view: SineView,
    period: nat,
    samples: nat,
    step: int,
    gap: int,
)
    requires
        view.wf(),
        view.unmodulated(),
        table_steps_within(view.table, step),
        samples >= 1,
        ({
            let shift = (period * view.increment()) % (ONE_RAW as int);
            shift <= gap || ONE_RAW - shift <= gap
        }),
    ensures
        distance(view.run(samples).sample@, view.run(samples + period).sample@) * ONE_RAW
            * ONE_RAW <= (step * (view.table.len() * gap) + 2 * ONE_RAW) * magnitude(
            view.amplitude@,
        ) + 2 * ONE_RAW * ONE_RAW,
{
    let one = ONE_RAW as int;
    let inc = view.increment();
    let table = view.table;
    lemma_phase_after(view, samples);
    lemma_phase_after(view, samples + period);
    let c1 = view.run(samples).carrier as int;
    let c2 = view.run(samples + period).carrier as int;
    let shift = (period * inc) % one;
    assert((samples + period) * inc == samples * inc + period * inc) by (nonlinear_arith);
    vstd::arithmetic::div_mod::lemma_add_mod_noop(view.carrier + samples * inc, period * inc, one);
    assert(c2 == (c1 + shift) % one);
    assert(0 <= c1 < one && 0 <= shift < one);
    let w1 = cyclic_raw(table, c1);
    let w2 = cyclic_raw(table, c2);
    if c1 + shift < one {
        vstd::arithmetic::div_mod::lemma_small_mod((c1 + shift) as nat, one as nat);
        lemma_cyclic_close(table, step, c1, c2, gap);
    } else {
        vstd::arithmetic::div_mod::lemma_mod_sub_multiples_vanish(c1 + shift, one);
        vstd::arithmetic::div_mod::lemma_small_mod((c1 + shift - one) as nat, one as nat);
        assert(c2 == c1 + shift - one);
        lemma_cyclic_close(table, step, c2, c1, gap);
    }
    let reach = step * (table.len() * gap);
    let spread = distance(w1, w2);
    assert(spread * one <= reach + 2 * one);
    let a = view.amplitude@;
    lemma_scaled_close(w1, w2, a);
    let out = distance(view.run(samples).sample@, view.run(samples + period).sample@);
    assert(out * one <= spread * magnitude(a) + 2 * one);
    assert(out * one * one <= (reach + 2 * one) * magnitude(a) + 2 * one * one) by (nonlinear_arith)
        requires
            out * one <= spread * magnitude(a) + 2 * one,
            spread * one <= reach + 2 * one,
            magnitude(a) >= 0,
            one > 0,
    ;
}


/// The output is periodic with the period of the oscillation, within a
/// tolerance. Without modulation and with constant inputs, if the sample rate
/// is a whole number of times the frequency, the outputs of two samples that
/// many samples apart differ by no more than the waveform can move within as
/// many raw steps of the phase as the period has samples, scaled by the
/// amplitude, and a few raw steps for the rounding.
pub proof fn lemma_whole_period_output(view: SineView, period: nat, samples: nat, step: int)
    requires
        view.wf(),
        view.unmodulated(),
        table_steps_within(view.table, step),
        samples >= 1,
        view.sample_rate > 0,
        view.frequency@ > 0,
        period >= 1,
        period * view.frequency@ == view.sample_rate * ONE_RAW,
    ensures
        distance(view.run(samples).sample@, view.run(samples + period).sample@) * ONE_RAW
            * ONE_RAW <= (step * (view.table.len() * period) + 2 * ONE_RAW) * magnitude(
            view.amplitude@,
        ) + 2 * ONE_RAW * ONE_RAW,
{
    lemma_whole_period_shift(view.frequency@, view.sample_rate, period);
    lemma_output_nearly_periodic(view, period, samples, step, period as int);
}

} // verus!
