//! The contract every processing unit obeys.

use vstd::prelude::*;
use crate::fixed::Fixed;

verus! {

/// A processing unit: a node with numbered scalar input and output ports and
/// private state, advanced one sample at a time.
///
/// Every unit has a model, the mathematical value of its ports and state, and
/// each executable method is tied to a function of that model alone. What a
/// graph of units computes is therefore a function of the models and of the
/// values fed in.
pub trait Processor: Sized {
    /// The mathematical value of a unit.
    type Model;

    /// The unit's model.
    spec fn model(&self) -> Self::Model;

    /// The unit's own invariant.
    spec fn wf(model: Self::Model) -> bool;

    /// The number of input ports.
    spec fn input_count(model: Self::Model) -> nat;

    /// The number of output ports.
    spec fn output_count(model: Self::Model) -> nat;

    /// The unit after it was told the sample rate.
    spec fn prepared(model: Self::Model, sample_rate: u32) -> Self::Model;

    /// The unit with `value` on input port `port`.
    spec fn with_input(model: Self::Model, port: int, value: Fixed) -> Self::Model;

    /// The unit one sample later.
    spec fn processed(model: Self::Model) -> Self::Model;

    /// The value on output port `port`.
    spec fn output_at(model: Self::Model, port: int) -> Fixed;

    /// The number of input ports.
    fn inputs(&self) -> (n: usize)
        requires
            Self::wf(self.model()),
        ensures
            n == Self::input_count(self.model()),
    ;

    /// The number of output ports.
    fn outputs(&self) -> (n: usize)
        requires
            Self::wf(self.model()),
        ensures
            n == Self::output_count(self.model()),
    ;

    /// Hands over the sample rate, once, before rendering begins. The ports
    /// stay as many as they were.
    fn prepare(&mut self, sample_rate: u32)
        requires
            Self::wf(old(self).model()),
        ensures
            final(self).model() == Self::prepared(old(self).model(), sample_rate),
            Self::wf(final(self).model()),
            Self::input_count(final(self).model()) == Self::input_count(old(self).model()),
            Self::output_count(final(self).model()) == Self::output_count(old(self).model()),
    ;

    /// Writes `value` to input port `port`. What a port number beyond the
    /// unit's input ports does is the unit's own business; the units of this
    /// library ignore such a write.
    fn set_input(&mut self, port: usize, value: Fixed)
        requires
            Self::wf(old(self).model()),
        ensures
            final(self).model() == Self::with_input(old(self).model(), port as int, value),
            Self::wf(final(self).model()),
            Self::input_count(final(self).model()) == Self::input_count(old(self).model()),
            Self::output_count(final(self).model()) == Self::output_count(old(self).model()),
    ;

    /// Advances the unit by one sample.
    fn process(&mut self)
        requires
            Self::wf(old(self).model()),
        ensures
            final(self).model() == Self::processed(old(self).model()),
            Self::wf(final(self).model()),
            Self::input_count(final(self).model()) == Self::input_count(old(self).model()),
            Self::output_count(final(self).model()) == Self::output_count(old(self).model()),
    ;

    /// Reads output port `port`.
    fn output(&self, port: usize) -> (r: Fixed)
        requires
            Self::wf(self.model()),
            port < Self::output_count(self.model()),
        ensures
            r == Self::output_at(self.model(), port as int),
    ;
}

/// The models of a list of units.
pub open spec fn models_of<P: Processor>(units: Seq<P>) -> Seq<P::Model> {
    units.map_values(|unit: P| unit.model())
}

} // verus!
