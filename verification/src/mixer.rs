//! The mixer.
//!
//! A unit with any number of inputs whose one output is their sum. The sum is
//! taken from the first input to the last and saturates.

use vstd::prelude::*;
use crate::fixed::{add_raw, Fixed};
use crate::processor::Processor;

verus! {

/// The raw encoding of the saturating sum of the values, taken from the first
/// to the last.
pub open spec fn total_raw(values: Seq<Fixed>) -> int
    decreases values.len(),
{
    if values.len() == 0 {
        0
    } else {
        add_raw(total_raw(values.drop_last()), values.last()@)
    }
}

/// What a mixer is to its callers.
pub struct MixerView {
    /// The input ports.
    pub inputs: Seq<Fixed>,
    /// The output port.
    pub sum: Fixed,
}

impl MixerView {
    /// The mixer one sample later: the output is the sum of the inputs.
    pub open spec fn stepped(self) -> MixerView {
        MixerView { sum: Fixed { raw: total_raw(self.inputs) as i64 }, ..self }
    }

    /// The mixer with `value` on input port `port`.
    pub open spec fn with_port(self, port: int, value: Fixed) -> MixerView {
        if 0 <= port < self.inputs.len() {
            MixerView { inputs: self.inputs.update(port, value), ..self }
        } else {
            self
        }
    }
}

/// A mixer.
pub struct Mixer {
    inputs: Vec<Fixed>,
    sum: Fixed,
}

impl View for Mixer {
    type V = MixerView;

    closed spec fn view(&self) -> MixerView {
        MixerView { inputs: self.inputs@, sum: self.sum }
    }
}

impl Mixer {
    /// A mixer of `count` inputs, all at zero.
    pub fn new(count: usize) -> (r: Mixer)
        ensures
            r@ == (MixerView {
                inputs: Seq::new(count as nat, |i: int| Fixed { raw: 0 }),
                sum: Fixed { raw: 0 },
            }),
    {
        let mut inputs: Vec<Fixed> = Vec::new();
        let mut i: usize = 0;
        while i < count
            invariant
                i <= count,
                inputs.len() == i,
                forall|k: int| 0 <= k < i ==> inputs[k] == (Fixed { raw: 0 }),
            decreases count - i,
        {
            inputs.push(Fixed::zero());
            i = i + 1;
        }
        assert(inputs@ =~= Seq::new(count as nat, |i: int| Fixed { raw: 0 }));
        Mixer { inputs, sum: Fixed::zero() }
    }
}

impl Processor for Mixer {
    type Model = MixerView;

    open spec fn model(&self) -> MixerView {
        self@
    }

    open spec fn wf(model: MixerView) -> bool {
        true
    }

    open spec fn input_count(model: MixerView) -> nat {
        model.inputs.len()
    }

    open spec fn output_count(model: MixerView) -> nat {
        1
    }

    open spec fn prepared(model: MixerView, sample_rate: u32) -> MixerView {
        model
    }

    open spec fn with_input(model: MixerView, port: int, value: Fixed) -> MixerView {
        model.with_port(port, value)
    }

    open spec fn processed(model: MixerView) -> MixerView {
        model.stepped()
    }

    open spec fn output_at(model: MixerView, port: int) -> Fixed {
        model.sum
    }

    fn inputs(&self) -> (n: usize) {
        self.inputs.len()
    }

    fn outputs(&self) -> (n: usize) {
        1
    }

    /// A mixer has nothing to prepare.
    fn prepare(&mut self, sample_rate: u32) {
    }

    /// Writes one of the inputs.
    fn set_input(&mut self, port: usize, value: Fixed) {
        if port < self.inputs.len() {
            self.inputs.set(port, value);
        }
    }

    /// Sums the inputs.
    fn process(&mut self) {
        let mut sum = Fixed::zero();
        let mut i: usize = 0;
        while i < self.inputs.len()
            invariant
                i <= self.inputs.len(),
                self.inputs == old(self).inputs,
                sum@ == total_raw(self.inputs@.take(i as int)),
            decreases self.inputs.len() - i,
        {
            proof {
                assert(self.inputs@.take(i + 1).drop_last() =~= self.inputs@.take(i as int));
            }
            sum = sum.saturating_add(self.inputs[i]);
            i = i + 1;
        }
        proof {
            assert(self.inputs@.take(i as int) =~= self.inputs@);
        }
        self.sum = sum;
    }

    /// Reads the sum.
    fn output(&self, port: usize) -> (r: Fixed) {
        self.sum
    }
}

} // verus!
