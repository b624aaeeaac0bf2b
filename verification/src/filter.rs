//! The state-variable filter.
//!
//! Each sample the filter computes its two coefficients anew from the cutoff
//! frequency and the resonance, and then runs its recurrence twice. The
//! cutoff is guarded: the angle whose sine gives the frequency coefficient is
//! kept between zero and a quarter, which a cutoff of half the sample rate
//! reaches. The output is the low-pass response. A mode can be named, but the
//! recurrence taps the low-pass response whatever the mode is.

use vstd::prelude::*;
use crate::fixed::{add_raw, mul_raw, ratio_raw, sqrt_raw, sub_raw, trunc_div, Fixed, ONE_RAW};
use crate::processor::Processor;
use crate::wave::{bounded_table, cyclic_lookup, cyclic_raw, make_table, table_of};

verus! {

/// The number of input ports of a filter: the sample, the cutoff frequency
/// in Hz and the resonance, in this order.
pub const FILTER_INPUTS: usize = 3;

/// The raw encoding of a quarter.
pub const QUARTER_RAW: i64 = 1073741824;

/// The raw encoding of a half.
pub const HALF_RAW: i64 = 2147483648;

/// The raw encoding of two.
pub const TWO_RAW: i64 = 8589934592;

/// The raw encoding of a full turn in radians, twice pi.
pub const TWO_PI_RAW: i64 = 26986075409;

/// The raw encoding of the fraction of a turn that one radian is.
pub const TURN_PER_RADIAN_RAW: i64 = 683565276;

/// The response a filter is asked for.
#[derive(Clone, Copy, PartialEq, Eq, Structural, Debug)]
pub enum FilterMode {
    LowPass,
    HighPass,
    BandPass,
    Notch,
}

/// The angle, in radians, whose sine gives the frequency coefficient: the
/// cutoff divided by twice the sample rate, kept between zero and a quarter.
/// With a sample rate of zero the angle is a quarter for a positive cutoff.
pub open spec fn angle_raw(cutoff: int, sample_rate: u32) -> int {
    let ratio = if sample_rate == 0 {
        if cutoff > 0 {
            QUARTER_RAW as int
        } else {
            0
        }
    } else {
        trunc_div(cutoff, 2 * sample_rate)
    };
    if ratio < 0 {
        0
    } else if ratio > QUARTER_RAW {
        QUARTER_RAW as int
    } else {
        ratio
    }
}

/// The frequency coefficient: twice pi times the sine of the angle.
pub open spec fn frequency_coefficient(table: Seq<Fixed>, cutoff: int, sample_rate: u32) -> int {
    mul_raw(
        TWO_PI_RAW as int,
        cyclic_raw(table, mul_raw(angle_raw(cutoff, sample_rate), TURN_PER_RADIAN_RAW as int)),
    )
}

/// The smaller of two integers.
pub open spec fn smaller(a: int, b: int) -> int {
    if a <= b {
        a
    } else {
        b
    }
}

/// The damping coefficient: twice the smallest of one minus the fourth root
/// of the resonance, two, and two over the frequency coefficient minus half
/// of it.
pub open spec fn damping_coefficient(frequency: int, resonance: int) -> int {
    mul_raw(
        TWO_RAW as int,
        smaller(
            sub_raw(ONE_RAW as int, sqrt_raw(sqrt_raw(resonance))),
            smaller(
                TWO_RAW as int,
                sub_raw(ratio_raw(TWO_RAW as int, frequency), mul_raw(frequency, HALF_RAW as int)),
            ),
        ),
    )
}

/// What a filter is to its callers.
pub struct FilterView {
    /// The sample port: the input before a step, the output after it.
    pub sample: Fixed,
    /// Input port 1: the cutoff frequency in Hz.
    pub cutoff: Fixed,
    /// Input port 2: the resonance.
    pub resonance: Fixed,
    /// The sample rate.
    pub sample_rate: u32,
    /// The drive of the nonlinearity.
    pub drive: Fixed,
    /// The response that is asked for.
    pub mode: FilterMode,
    /// The frequency coefficient of the last step.
    pub frequency: Fixed,
    /// The damping coefficient of the last step.
    pub damping: Fixed,
    /// The low-pass state.
    pub low: Fixed,
    /// The high-pass state.
    pub high: Fixed,
    /// The band-pass state.
    pub band: Fixed,
    /// The notch state.
    pub notch: Fixed,
    /// One period of the sine.
    pub table: Seq<Fixed>,
}

impl FilterView {
    /// The sine table is bounded by one.
    pub open spec fn wf(self) -> bool {
        bounded_table(self.table)
    }

    /// The filter after one round of its recurrence with the coefficients it
    /// has.
    pub open spec fn cycled(self) -> FilterView {
        let notch = sub_raw(self.sample@, mul_raw(self.damping@, self.band@));
        let low = add_raw(self.low@, mul_raw(self.frequency@, self.band@));
        let high = sub_raw(notch, low);
        let band = sub_raw(
            add_raw(mul_raw(self.frequency@, high), self.band@),
            mul_raw(mul_raw(mul_raw(self.drive@, self.band@), self.band@), self.band@),
        );
        FilterView {
            notch: Fixed { raw: notch as i64 },
            low: Fixed { raw: low as i64 },
            high: Fixed { raw: high as i64 },
            band: Fixed { raw: band as i64 },
            ..self
        }
    }

    /// The filter with the coefficients for its cutoff and resonance.
    pub open spec fn tuned(self) -> FilterView {
        let frequency = frequency_coefficient(self.table, self.cutoff@, self.sample_rate);
        FilterView {
            frequency: Fixed { raw: frequency as i64 },
            damping: Fixed { raw: damping_coefficient(frequency, self.resonance@) as i64 },
            ..self
        }
    }

    /// The filter one sample later: tuned, two rounds of the recurrence, and
    /// as output the mean of the low-pass state after each round.
    pub open spec fn stepped(self) -> FilterView {
        let once = self.tuned().cycled();
        let twice = once.cycled();
        FilterView {
            sample: Fixed {
                raw: add_raw(
                    mul_raw(HALF_RAW as int, once.low@),
                    mul_raw(HALF_RAW as int, twice.low@),
                ) as i64,
            },
            ..twice
        }
    }

    /// The filter with `value` on input port `port`.
    pub open spec fn with_port(self, port: int, value: Fixed) -> FilterView {
        if port == 0 {
            FilterView { sample: value, ..self }
        } else if port == 1 {
            FilterView { cutoff: value, ..self }
        } else if port == 2 {
            FilterView { resonance: value, ..self }
        } else {
            self
        }
    }

    /// The filter after it was told the sample rate: low-pass, with a drive
    /// of one.
    pub open spec fn prepared(self, sample_rate: u32) -> FilterView {
        FilterView {
            sample_rate,
            mode: FilterMode::LowPass,
            drive: Fixed { raw: ONE_RAW },
            ..self
        }
    }
}

/// A state-variable filter.
pub struct StateVariableFilter {
    sample: Fixed,
    cutoff: Fixed,
    resonance: Fixed,
    sample_rate: u32,
    drive: Fixed,
    mode: FilterMode,
    frequency: Fixed,
    damping: Fixed,
    low: Fixed,
    high: Fixed,
    band: Fixed,
    notch: Fixed,
    table: Vec<Fixed>,
}

impl View for StateVariableFilter {
    type V = FilterView;

    closed spec fn view(&self) -> FilterView {
        FilterView {
            sample: self.sample,
            cutoff: self.cutoff,
            resonance: self.resonance,
            sample_rate: self.sample_rate,
            drive: self.drive,
            mode: self.mode,
            frequency: self.frequency,
            damping: self.damping,
            low: self.low,
            high: self.high,
            band: self.band,
            notch: self.notch,
            table: self.table@,
        }
    }
}

impl StateVariableFilter {
    /// A filter at rest: low-pass, all ports, coefficients and states at
    /// zero. Its sine is given by `sine`, the samples of one period; values
    /// beyond one are brought back to one.
    pub fn new(sine: Vec<Fixed>) -> (r: StateVariableFilter)
        ensures
            r@.wf(),
            r@ == (FilterView {
                sample: Fixed { raw: 0 },
                cutoff: Fixed { raw: 0 },
                resonance: Fixed { raw: 0 },
                sample_rate: 0,
                drive: Fixed { raw: 0 },
                mode: FilterMode::LowPass,
                frequency: Fixed { raw: 0 },
                damping: Fixed { raw: 0 },
                low: Fixed { raw: 0 },
                high: Fixed { raw: 0 },
                band: Fixed { raw: 0 },
                notch: Fixed { raw: 0 },
                table: table_of(sine@),
            }),
    {
        StateVariableFilter {
            sample: Fixed::zero(),
            cutoff: Fixed::zero(),
            resonance: Fixed::zero(),
            sample_rate: 0,
            drive: Fixed::zero(),
            mode: FilterMode::LowPass,
            frequency: Fixed::zero(),
            damping: Fixed::zero(),
            low: Fixed::zero(),
            high: Fixed::zero(),
            band: Fixed::zero(),
            notch: Fixed::zero(),
            table: make_table(sine),
        }
    }

    /// The response that is asked for.
    pub fn mode(&self) -> (r: FilterMode)
        ensures
            r == self@.mode,
    {
        self.mode
    }

    /// Asks for a response. The output stays the low-pass response.
    pub fn set_mode(&mut self, mode: FilterMode)
        ensures
            final(self)@ == (FilterView { mode, ..old(self)@ }),
    {
        self.mode = mode;
    }

    /// One round of the recurrence.
    fn cycle(&mut self)
        ensures
            final(self)@ == old(self)@.cycled(),
    {
        self.notch = self.sample.saturating_sub(self.damping.mul(self.band));
        self.low = self.low.saturating_add(self.frequency.mul(self.band));
        self.high = self.notch.saturating_sub(self.low);
        let cube = self.drive.mul(self.band).mul(self.band).mul(self.band);
        self.band = self.frequency.mul(self.high).saturating_add(self.band).saturating_sub(cube);
    }

    /// Computes the coefficients for the cutoff and the resonance.
    fn tune(&mut self)
        requires
            old(self)@.wf(),
        ensures
            final(self)@ == old(self)@.tuned(),
    {
        let ratio: i64 = if self.sample_rate == 0 {
            if self.cutoff.raw > 0 {
                QUARTER_RAW
            } else {
                0
            }
        } else {
            crate::fixed::div_toward_zero(self.cutoff.raw as i128, 2 * (self.sample_rate as i128)) as i64
        };
        let angle = if ratio < 0 {
            Fixed::zero()
        } else if ratio > QUARTER_RAW {
            Fixed::from_raw(QUARTER_RAW)
        } else {
            Fixed::from_raw(ratio)
        };
        let turn = angle.mul(Fixed::from_raw(TURN_PER_RADIAN_RAW));
        assert(0 <= turn@ < ONE_RAW) by {
            assert(0 <= angle@ * TURN_PER_RADIAN_RAW <= QUARTER_RAW * TURN_PER_RADIAN_RAW)
                by (nonlinear_arith)
                requires
                    0 <= angle@ <= QUARTER_RAW,
            ;
        }
        let sine = cyclic_lookup(&self.table, turn.raw as u64);
        self.frequency = Fixed::from_raw(TWO_PI_RAW).mul(sine);
        let root = self.resonance.sqrt().sqrt();
        let limit = Fixed::from_raw(TWO_RAW).div(self.frequency).saturating_sub(
            self.frequency.mul(Fixed::from_raw(HALF_RAW)),
        );
        let least = Fixed::one().saturating_sub(root).min(Fixed::from_raw(TWO_RAW).min(limit));
        self.damping = Fixed::from_raw(TWO_RAW).mul(least);
    }
}

impl Processor for StateVariableFilter {
    type Model = FilterView;

    open spec fn model(&self) -> FilterView {
        self@
    }

    open spec fn wf(model: FilterView) -> bool {
        model.wf()
    }

    open spec fn input_count(model: FilterView) -> nat {
        FILTER_INPUTS as nat
    }

    open spec fn output_count(model: FilterView) -> nat {
        1
    }

    open spec fn prepared(model: FilterView, sample_rate: u32) -> FilterView {
        model.prepared(sample_rate)
    }

    open spec fn with_input(model: FilterView, port: int, value: Fixed) -> FilterView {
        model.with_port(port, value)
    }

    open spec fn processed(model: FilterView) -> FilterView {
        model.stepped()
    }

    open spec fn output_at(model: FilterView, port: int) -> Fixed {
        model.sample
    }

    fn inputs(&self) -> (n: usize) {
        FILTER_INPUTS
    }

    fn outputs(&self) -> (n: usize) {
        1
    }

    /// Records the sample rate, and sets the mode to low-pass and the drive
    /// to one.
    fn prepare(&mut self, sample_rate: u32) {
        self.sample_rate = sample_rate;
        self.mode = FilterMode::LowPass;
        self.drive = Fixed::one();
    }

    /// Writes the sample (port 0), the cutoff (port 1) or the resonance
    /// (port 2).
    fn set_input(&mut self, port: usize, value: Fixed) {
        if port == 0 {
            self.sample = value;
        } else if port == 1 {
            self.cutoff = value;
        } else if port == 2 {
            self.resonance = value;
        }
    }

    /// Advances the filter by one sample.
    fn process(&mut self) {
        self.tune();
        self.cycle();
        let first = Fixed::from_raw(HALF_RAW).mul(self.low);
        self.cycle();
        self.sample = first.saturating_add(Fixed::from_raw(HALF_RAW).mul(self.low));
    }

    /// Reads the sample.
    fn output(&self, port: usize) -> (r: Fixed) {
        self.sample
    }
}

} // verus!
