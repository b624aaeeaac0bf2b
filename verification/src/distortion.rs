//! The distortion.
//!
//! A waveshaper without state: each sample, the input times the amount is put
//! through a transfer curve. The curve is given as a table over the range
//! from minus `range` to `range`; beyond the range it stays at the value of
//! its end.

use vstd::prelude::*;
use crate::fixed::{mul_raw, Fixed};
use crate::processor::Processor;
use crate::wave::{
    bounded_table, lemma_ranged_bounded, make_table, ranged_lookup, ranged_raw, table_of,
    within_one,
};

verus! {

/// The number of input ports of a distortion: the sample and the amount, in
/// this order.
pub const DISTORTION_INPUTS: usize = 2;

/// What a distortion is to its callers.
pub struct DistortionView {
    /// The sample port: the input before a step, the output after it.
    pub sample: Fixed,
    /// Input port 1: the amount.
    pub amount: Fixed,
    /// The transfer curve.
    pub curve: Seq<Fixed>,
    /// The range that the curve covers on either side of zero.
    pub range: Fixed,
}

impl DistortionView {
    /// The curve is bounded by one.
    pub open spec fn wf(self) -> bool {
        bounded_table(self.curve)
    }

    /// The distortion one sample later: the curve's value at the amount
    /// times the sample.
    pub open spec fn stepped(self) -> DistortionView {
        DistortionView {
            sample: Fixed {
                raw: ranged_raw(self.curve, self.range@, mul_raw(self.amount@, self.sample@)) as i64,
            },
            ..self
        }
    }

    /// The distortion with `value` on input port `port`.
    pub open spec fn with_port(self, port: int, value: Fixed) -> DistortionView {
        if port == 0 {
            DistortionView { sample: value, ..self }
        } else if port == 1 {
            DistortionView { amount: value, ..self }
        } else {
            self
        }
    }
}

/// A distortion.
pub struct Distortion {
    sample: Fixed,
    amount: Fixed,
    curve: Vec<Fixed>,
    range: Fixed,
}

impl View for Distortion {
    type V = DistortionView;

    closed spec fn view(&self) -> DistortionView {
        DistortionView {
            sample: self.sample,
            amount: self.amount,
            curve: self.curve@,
            range: self.range,
        }
    }
}

impl Distortion {
    /// A distortion whose transfer curve is given by `curve`, its samples at
    /// equal distances from minus `range` to `range`. Values beyond one are
    /// brought back to one; an empty curve is silence.
    pub fn new(curve: Vec<Fixed>, range: Fixed) -> (r: Distortion)
        ensures
            r@.wf(),
            r@ == (DistortionView {
                sample: Fixed { raw: 0 },
                amount: Fixed { raw: 0 },
                curve: table_of(curve@),
                range,
            }),
    {
        Distortion { sample: Fixed::zero(), amount: Fixed::zero(), curve: make_table(curve), range }
    }
}

impl Processor for Distortion {
    type Model = DistortionView;

    open spec fn model(&self) -> DistortionView {
        self@
    }

    open spec fn wf(model: DistortionView) -> bool {
        model.wf()
    }

    open spec fn input_count(model: DistortionView) -> nat {
        DISTORTION_INPUTS as nat
    }

    open spec fn output_count(model: DistortionView) -> nat {
        1
    }

    open spec fn prepared(model: DistortionView, sample_rate: u32) -> DistortionView {
        model
    }

    open spec fn with_input(model: DistortionView, port: int, value: Fixed) -> DistortionView {
        model.with_port(port, value)
    }

    open spec fn processed(model: DistortionView) -> DistortionView {
        model.stepped()
    }

    open spec fn output_at(model: DistortionView, port: int) -> Fixed {
        model.sample
    }

    fn inputs(&self) -> (n: usize) {
        DISTORTION_INPUTS
    }

    fn outputs(&self) -> (n: usize) {
        1
    }

    /// A distortion has nothing to prepare.
    fn prepare(&mut self, sample_rate: u32) {
    }

    /// Writes the sample (port 0) or the amount (port 1).
    fn set_input(&mut self, port: usize, value: Fixed) {
        if port == 0 {
            self.sample = value;
        } else if port == 1 {
            self.amount = value;
        }
    }

    /// Shapes the sample.
    fn process(&mut self) {
        proof {
            lemma_ranged_bounded(self@.curve, self@.range@, mul_raw(self@.amount@, self@.sample@));
        }
        self.sample = ranged_lookup(&self.curve, self.range, self.amount.mul(self.sample));
    }

    /// Reads the sample.
    fn output(&self, port: usize) -> (r: Fixed) {
        self.sample
    }
}

/// The output of a distortion lies within one, whatever the input and the
/// amount.
pub proof fn lemma_distortion_bounded(view: DistortionView)
    requires
        view.wf(),
    ensures
        view.stepped().wf(),
        within_one(view.stepped().sample@),
{
    lemma_ranged_bounded(view.curve, view.range@, mul_raw(view.amount@, view.sample@));
}

} // verus!
