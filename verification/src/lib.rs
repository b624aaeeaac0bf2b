//! A sample-accurate synthesizer core on fixed-point scalars: parameter streams,
//! processing units, the signal graph that wires and runs them, and the
//! mapping from note and control events to parameter values.

pub mod control;
pub mod delay;
pub mod distortion;
pub mod envelope;
pub mod filter;
pub mod fixed;
pub mod graph;
pub mod midi;
pub mod mixer;
pub mod processor;
pub mod render;
pub mod schedule;
pub mod sine;
pub mod stream;
pub mod synth;
pub mod unit;
pub mod wave;
