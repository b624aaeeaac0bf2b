//! The constant, and the sum type that lets one graph hold units of every
//! kind the library brings along.

use vstd::prelude::*;
use crate::delay::{Delay, DelayView};
use crate::distortion::{Distortion, DistortionView};
use crate::envelope::Envelope;
use crate::filter::{FilterView, StateVariableFilter};
use crate::fixed::Fixed;
use crate::mixer::{Mixer, MixerView};
use crate::processor::Processor;
use crate::sine::{Sine, SineView};

verus! {

/// A unit without inputs whose one output is always the same value.
#[derive(Clone, Copy, PartialEq, Eq, Structural, Debug)]
pub struct Constant {
    pub value: Fixed,
}

impl Constant {
    /// The constant `value`.
    pub fn new(value: Fixed) -> (r: Constant)
        ensures
            r.value == value,
    {
        Constant { value }
    }
}

impl Processor for Constant {
    type Model = Constant;

    open spec fn model(&self) -> Constant {
        *self
    }

    open spec fn wf(model: Constant) -> bool {
        true
    }

    open spec fn input_count(model: Constant) -> nat {
        0
    }

    open spec fn output_count(model: Constant) -> nat {
        1
    }

    open spec fn prepared(model: Constant, sample_rate: u32) -> Constant {
        model
    }

    open spec fn with_input(model: Constant, port: int, value: Fixed) -> Constant {
        model
    }

    open spec fn processed(model: Constant) -> Constant {
        model
    }

    open spec fn output_at(model: Constant, port: int) -> Fixed {
        model.value
    }

    fn inputs(&self) -> (n: usize) {
        0
    }

    fn outputs(&self) -> (n: usize) {
        1
    }

    fn prepare(&mut self, sample_rate: u32) {
    }

    fn set_input(&mut self, port: usize, value: Fixed) {
    }

    fn process(&mut self) {
    }

    fn output(&self, port: usize) -> (r: Fixed) {
        self.value
    }
}

/// One of the library's own units.
pub enum Unit {
    Constant(Constant),
    Envelope(Envelope),
    Sine(Sine),
    Distortion(Distortion),
    Delay(Delay),
    Filter(StateVariableFilter),
    Mixer(Mixer),
}

/// The model of one of the library's own units.
pub enum UnitModel {
    Constant(Constant),
    Envelope(Envelope),
    Sine(SineView),
    Distortion(DistortionView),
    Delay(DelayView),
    Filter(FilterView),
    Mixer(MixerView),
}

impl Processor for Unit {
    type Model = UnitModel;

    open spec fn model(&self) -> UnitModel {
        match self {
            Unit::Constant(unit) => UnitModel::Constant(unit.model()),
            Unit::Envelope(unit) => UnitModel::Envelope(unit.model()),
            Unit::Sine(unit) => UnitModel::Sine(unit.model()),
            Unit::Distortion(unit) => UnitModel::Distortion(unit.model()),
            Unit::Delay(unit) => UnitModel::Delay(unit.model()),
            Unit::Filter(unit) => UnitModel::Filter(unit.model()),
            Unit::Mixer(unit) => UnitModel::Mixer(unit.model()),
        }
    }

    open spec fn wf(model: UnitModel) -> bool {
        match model {
            UnitModel::Constant(m) => Constant::wf(m),
            UnitModel::Envelope(m) => Envelope::wf(m),
            UnitModel::Sine(m) => Sine::wf(m),
            UnitModel::Distortion(m) => Distortion::wf(m),
            UnitModel::Delay(m) => Delay::wf(m),
            UnitModel::Filter(m) => StateVariableFilter::wf(m),
            UnitModel::Mixer(m) => Mixer::wf(m),
        }
    }

    open spec fn input_count(model: UnitModel) -> nat {
        match model {
            UnitModel::Constant(m) => Constant::input_count(m),
            UnitModel::Envelope(m) => Envelope::input_count(m),
            UnitModel::Sine(m) => Sine::input_count(m),
            UnitModel::Distortion(m) => Distortion::input_count(m),
            UnitModel::Delay(m) => Delay::input_count(m),
            UnitModel::Filter(m) => StateVariableFilter::input_count(m),
            UnitModel::Mixer(m) => Mixer::input_count(m),
        }
    }

    open spec fn output_count(model: UnitModel) -> nat {
        match model {
            UnitModel::Constant(m) => Constant::output_count(m),
            UnitModel::Envelope(m) => Envelope::output_count(m),
            UnitModel::Sine(m) => Sine::output_count(m),
            UnitModel::Distortion(m) => Distortion::output_count(m),
            UnitModel::Delay(m) => Delay::output_count(m),
            UnitModel::Filter(m) => StateVariableFilter::output_count(m),
            UnitModel::Mixer(m) => Mixer::output_count(m),
        }
    }

    open spec fn prepared(model: UnitModel, sample_rate: u32) -> UnitModel {
        match model {
            UnitModel::Constant(m) => UnitModel::Constant(Constant::prepared(m, sample_rate)),
            UnitModel::Envelope(m) => UnitModel::Envelope(Envelope::prepared(m, sample_rate)),
            UnitModel::Sine(m) => UnitModel::Sine(Sine::prepared(m, sample_rate)),
            UnitModel::Distortion(m) => UnitModel::Distortion(Distortion::prepared(m, sample_rate)),
            UnitModel::Delay(m) => UnitModel::Delay(Delay::prepared(m, sample_rate)),
            UnitModel::Filter(m) => UnitModel::Filter(StateVariableFilter::prepared(m, sample_rate)),
            UnitModel::Mixer(m) => UnitModel::Mixer(Mixer::prepared(m, sample_rate)),
        }
    }

    open spec fn with_input(model: UnitModel, port: int, value: Fixed) -> UnitModel {
        match model {
            UnitModel::Constant(m) => UnitModel::Constant(Constant::with_input(m, port, value)),
            UnitModel::Envelope(m) => UnitModel::Envelope(Envelope::with_input(m, port, value)),
            UnitModel::Sine(m) => UnitModel::Sine(Sine::with_input(m, port, value)),
            UnitModel::Distortion(m) => UnitModel::Distortion(Distortion::with_input(m, port, value)),
            UnitModel::Delay(m) => UnitModel::Delay(Delay::with_input(m, port, value)),
            UnitModel::Filter(m) => UnitModel::Filter(StateVariableFilter::with_input(m, port, value)),
            UnitModel::Mixer(m) => UnitModel::Mixer(Mixer::with_input(m, port, value)),
        }
    }

    open spec fn processed(model: UnitModel) -> UnitModel {
        match model {
            UnitModel::Constant(m) => UnitModel::Constant(Constant::processed(m)),
            UnitModel::Envelope(m) => UnitModel::Envelope(Envelope::processed(m)),
            UnitModel::Sine(m) => UnitModel::Sine(Sine::processed(m)),
            UnitModel::Distortion(m) => UnitModel::Distortion(Distortion::processed(m)),
            UnitModel::Delay(m) => UnitModel::Delay(Delay::processed(m)),
            UnitModel::Filter(m) => UnitModel::Filter(StateVariableFilter::processed(m)),
            UnitModel::Mixer(m) => UnitModel::Mixer(Mixer::processed(m)),
        }
    }

    open spec fn output_at(model: UnitModel, port: int) -> Fixed {
        match model {
            UnitModel::Constant(m) => Constant::output_at(m, port),
            UnitModel::Envelope(m) => Envelope::output_at(m, port),
            UnitModel::Sine(m) => Sine::output_at(m, port),
            UnitModel::Distortion(m) => Distortion::output_at(m, port),
            UnitModel::Delay(m) => Delay::output_at(m, port),
            UnitModel::Filter(m) => StateVariableFilter::output_at(m, port),
            UnitModel::Mixer(m) => Mixer::output_at(m, port),
        }
    }

    fn inputs(&self) -> (n: usize) {
        match self {
            Unit::Constant(unit) => unit.inputs(),
            Unit::Envelope(unit) => unit.inputs(),
            Unit::Sine(unit) => unit.inputs(),
            Unit::Distortion(unit) => unit.inputs(),
            Unit::Delay(unit) => unit.inputs(),
            Unit::Filter(unit) => unit.inputs(),
            Unit::Mixer(unit) => unit.inputs(),
        }
    }

    fn outputs(&self) -> (n: usize) {
        match self {
            Unit::Constant(unit) => unit.outputs(),
            Unit::Envelope(unit) => unit.outputs(),
            Unit::Sine(unit) => unit.outputs(),
            Unit::Distortion(unit) => unit.outputs(),
            Unit::Delay(unit) => unit.outputs(),
            Unit::Filter(unit) => unit.outputs(),
            Unit::Mixer(unit) => unit.outputs(),
        }
    }

    fn prepare(&mut self, sample_rate: u32) {
        match self {
            Unit::Constant(unit) => unit.prepare(sample_rate),
            Unit::Envelope(unit) => unit.prepare(sample_rate),
            Unit::Sine(unit) => unit.prepare(sample_rate),
            Unit::Distortion(unit) => unit.prepare(sample_rate),
            Unit::Delay(unit) => unit.prepare(sample_rate),
            Unit::Filter(unit) => unit.prepare(sample_rate),
            Unit::Mixer(unit) => unit.prepare(sample_rate),
        }
    }

    fn set_input(&mut self, port: usize, value: Fixed) {
        match self {
            Unit::Constant(unit) => unit.set_input(port, value),
            Unit::Envelope(unit) => unit.set_input(port, value),
            Unit::Sine(unit) => unit.set_input(port, value),
            Unit::Distortion(unit) => unit.set_input(port, value),
            Unit::Delay(unit) => unit.set_input(port, value),
            Unit::Filter(unit) => unit.set_input(port, value),
            Unit::Mixer(unit) => unit.set_input(port, value),
        }
    }

    fn process(&mut self) {
        match self {
            Unit::Constant(unit) => unit.process(),
            Unit::Envelope(unit) => unit.process(),
            Unit::Sine(unit) => unit.process(),
            Unit::Distortion(unit) => unit.process(),
            Unit::Delay(unit) => unit.process(),
            Unit::Filter(unit) => unit.process(),
            Unit::Mixer(unit) => unit.process(),
        }
    }

    fn output(&self, port: usize) -> (r: Fixed) {
        match self {
            Unit::Constant(unit) => unit.output(port),
            Unit::Envelope(unit) => unit.output(port),
            Unit::Sine(unit) => unit.output(port),
            Unit::Distortion(unit) => unit.output(port),
            Unit::Delay(unit) => unit.output(port),
            Unit::Filter(unit) => unit.output(port),
            Unit::Mixer(unit) => unit.output(port),
        }
    }
}

} // verus!
