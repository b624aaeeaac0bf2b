//! The attack-decay-sustain-release envelope generator.
//!
//! The envelope is a five-state machine driven by two trigger inputs and four
//! shape inputs. One sample consumes the pending triggers, note-on before
//! note-off, and then moves the amplitude one step along the ramp of the
//! current state. A rising ramp that would pass one ends at one, and a falling
//! ramp that would pass zero ends at zero, with the envelope off.

use vstd::prelude::*;
use crate::fixed::{add_raw, sub_raw, Fixed, ONE_RAW};
use crate::processor::Processor;

verus! {

/// The phase an envelope is in.
#[derive(Clone, Copy, PartialEq, Eq, Structural, Debug)]
pub enum EnvelopeState {
    /// Silent: the amplitude is held at zero.
    Off,
    /// Rising by `attack_delta` per sample toward `1.0`.
    Attack,
    /// Falling by `decay_delta` per sample toward `sustain_level`.
    Decay,
    /// Held at `sustain_level`.
    Sustain,
    /// Falling by `release_delta` per sample toward zero.
    Release,
}

/// An envelope generator: its output port, its state and its six input ports.
///
/// The deltas are amplitude steps per sample, computed by whoever feeds the
/// envelope; the envelope itself converts no times.
#[derive(Clone, Copy, Debug)]
pub struct Envelope {
    /// The output port.
    pub amplitude: Fixed,
    /// The sample rate handed over by `prepare`.
    pub sample_rate: u32,
    /// The current phase.
    pub state: EnvelopeState,
    /// Input port 0.
    pub attack_delta: Fixed,
    /// Input port 1.
    pub decay_delta: Fixed,
    /// Input port 2.
    pub sustain_level: Fixed,
    /// Input port 3.
    pub release_delta: Fixed,
    /// Input port 4: a value of at least `1.0` is a note-on pulse.
    pub note_on: Fixed,
    /// Input port 5: a value of at least `1.0` is a note-off pulse.
    pub note_off: Fixed,
}

/// The number of input ports of an envelope: attack delta, decay delta,
/// sustain level, release delta, note-on and note-off, in this order.
pub const ENVELOPE_INPUTS: usize = 6;

impl Envelope {
    /// Whether a note-on pulse is pending.
    pub open spec fn on_pulse(self) -> bool {
        self.note_on@ >= ONE_RAW
    }

    /// Whether a note-off pulse is pending.
    pub open spec fn off_pulse(self) -> bool {
        self.note_off@ >= ONE_RAW
    }

    /// The envelope after its triggers were looked at. Note-on is looked at
    /// first: a pending note-on pulse starts the attack, and both it and a
    /// note-off pulse of the same sample are consumed, so that the attack goes
    /// on until a new note-off pulse arrives. Otherwise a pending note-off
    /// pulse is consumed and starts the release, whatever the state was.
    pub open spec fn triggered(self) -> Envelope {
        if self.on_pulse() {
            Envelope {
                state: EnvelopeState::Attack,
                note_on: Fixed { raw: 0 },
                note_off: if self.off_pulse() {
                    Fixed { raw: 0 }
                } else {
                    self.note_off
                },
                ..self
            }
        } else if self.off_pulse() {
            Envelope { state: EnvelopeState::Release, note_off: Fixed { raw: 0 }, ..self }
        } else {
            self
        }
    }

    /// The envelope after one step along the ramp of its state.
    pub open spec fn ramped(self) -> Envelope {
        match self.state {
            EnvelopeState::Attack => {
                let risen = add_raw(self.amplitude@, self.attack_delta@);
                if risen >= ONE_RAW {
                    Envelope {
                        amplitude: Fixed { raw: ONE_RAW },
                        state: EnvelopeState::Decay,
                        ..self
                    }
                } else {
                    Envelope { amplitude: Fixed { raw: risen as i64 }, ..self }
                }
            },
            EnvelopeState::Decay => {
                let fallen = sub_raw(self.amplitude@, self.decay_delta@);
                if fallen > self.sustain_level@ {
                    Envelope { amplitude: Fixed { raw: fallen as i64 }, ..self }
                } else if fallen <= 0 {
                    Envelope {
                        amplitude: Fixed { raw: 0 },
                        state: EnvelopeState::Off,
                        ..self
                    }
                } else {
                    Envelope {
                        amplitude: self.sustain_level,
                        state: EnvelopeState::Sustain,
                        ..self
                    }
                }
            },
            EnvelopeState::Sustain => Envelope { amplitude: self.sustain_level, ..self },
            EnvelopeState::Release => {
                let fallen = sub_raw(self.amplitude@, self.release_delta@);
                if fallen <= 0 {
                    Envelope {
                        amplitude: Fixed { raw: 0 },
                        state: EnvelopeState::Off,
                        ..self
                    }
                } else {
                    Envelope { amplitude: Fixed { raw: fallen as i64 }, ..self }
                }
            },
            EnvelopeState::Off => Envelope { amplitude: Fixed { raw: 0 }, ..self },
        }
    }

    /// The envelope one sample later: triggers first, then the ramp.
    pub open spec fn stepped(self) -> Envelope {
        self.triggered().ramped()
    }

    /// The envelope with `value` on input port `port`; other ports leave it
    /// unchanged.
    pub open spec fn with_port(self, port: int, value: Fixed) -> Envelope {
        if port == 0 {
            Envelope { attack_delta: value, ..self }
        } else if port == 1 {
            Envelope { decay_delta: value, ..self }
        } else if port == 2 {
            Envelope { sustain_level: value, ..self }
        } else if port == 3 {
            Envelope { release_delta: value, ..self }
        } else if port == 4 {
            Envelope { note_on: value, ..self }
        } else if port == 5 {
            Envelope { note_off: value, ..self }
        } else {
            self
        }
    }

    /// A silent envelope: state `Off`, every port at zero.
    pub fn new() -> (r: Envelope)
        ensures
            r.state == EnvelopeState::Off,
            r.amplitude@ == 0,
            r.attack_delta@ == 0,
            r.decay_delta@ == 0,
            r.sustain_level@ == 0,
            r.release_delta@ == 0,
            r.note_on@ == 0,
            r.note_off@ == 0,
            r.sample_rate == 0,
    {
        Envelope {
            amplitude: Fixed::zero(),
            sample_rate: 0,
            state: EnvelopeState::Off,
            attack_delta: Fixed::zero(),
            decay_delta: Fixed::zero(),
            sustain_level: Fixed::zero(),
            release_delta: Fixed::zero(),
            note_on: Fixed::zero(),
            note_off: Fixed::zero(),
        }
    }
}

impl Processor for Envelope {
    type Model = Envelope;

    open spec fn model(&self) -> Envelope {
        *self
    }

    open spec fn wf(model: Envelope) -> bool {
        true
    }

    open spec fn input_count(model: Envelope) -> nat {
        ENVELOPE_INPUTS as nat
    }

    open spec fn output_count(model: Envelope) -> nat {
        1
    }

    open spec fn prepared(model: Envelope, sample_rate: u32) -> Envelope {
        Envelope { sample_rate, ..model }
    }

    open spec fn with_input(model: Envelope, port: int, value: Fixed) -> Envelope {
        model.with_port(port, value)
    }

    open spec fn processed(model: Envelope) -> Envelope {
        model.stepped()
    }

    open spec fn output_at(model: Envelope, port: int) -> Fixed {
        model.amplitude
    }

    fn inputs(&self) -> (n: usize) {
        ENVELOPE_INPUTS
    }

    fn outputs(&self) -> (n: usize) {
        1
    }

    /// Records the sample rate; nothing else changes.
    fn prepare(&mut self, sample_rate: u32) {
        self.sample_rate = sample_rate;
    }

    /// Writes `value` to input port `port`.
    fn set_input(&mut self, port: usize, value: Fixed) {
        if port == 0 {
            self.attack_delta = value;
        } else if port == 1 {
            self.decay_delta = value;
        } else if port == 2 {
            self.sustain_level = value;
        } else if port == 3 {
            self.release_delta = value;
        } else if port == 4 {
            self.note_on = value;
        } else if port == 5 {
            self.note_off = value;
        }
    }

    /// Advances the envelope by one sample.
    fn process(&mut self) {
        if self.note_on.at_least_one() {
            self.state = EnvelopeState::Attack;
            self.note_on = Fixed::zero();
            if self.note_off.at_least_one() {
                self.note_off = Fixed::zero();
            }
        } else if self.note_off.at_least_one() {
            self.state = EnvelopeState::Release;
            self.note_off = Fixed::zero();
        }
        match self.state {
            EnvelopeState::Attack => {
                let risen = self.amplitude.saturating_add(self.attack_delta);
                if risen.at_least_one() {
                    self.amplitude = Fixed::one();
                    self.state = EnvelopeState::Decay;
                } else {
                    self.amplitude = risen;
                }
            },
            EnvelopeState::Decay => {
                let fallen = self.amplitude.saturating_sub(self.decay_delta);
                if fallen.raw > self.sustain_level.raw {
                    self.amplitude = fallen;
                } else if fallen.raw <= 0 {
                    self.amplitude = Fixed::zero();
                    self.state = EnvelopeState::Off;
                } else {
                    self.amplitude = self.sustain_level;
                    self.state = EnvelopeState::Sustain;
                }
            },
            EnvelopeState::Sustain => {
                self.amplitude = self.sustain_level;
            },
            EnvelopeState::Release => {
                let fallen = self.amplitude.saturating_sub(self.release_delta);
                if fallen.raw <= 0 {
                    self.amplitude = Fixed::zero();
                    self.state = EnvelopeState::Off;
                } else {
                    self.amplitude = fallen;
                }
            },
            EnvelopeState::Off => {
                self.amplitude = Fixed::zero();
            },
        }
    }

    /// Reads the amplitude.
    fn output(&self, port: usize) -> (r: Fixed) {
        self.amplitude
    }
}

/// The place of a state in the order in which an untriggered envelope passes
/// through its states.
pub open spec fn phase_rank(state: EnvelopeState) -> int {
    match state {
        EnvelopeState::Attack => 0,
        EnvelopeState::Decay => 1,
        EnvelopeState::Sustain => 2,
        EnvelopeState::Release => 3,
        EnvelopeState::Off => 4,
    }
}

impl Envelope {
    /// No trigger is pending.
    pub open spec fn quiet(self) -> bool {
        !self.on_pulse() && !self.off_pulse()
    }

    /// The shape inputs are sound (no delta is negative, the sustain level
    /// lies between zero and one) and the amplitude is where the state allows
    /// it to be: at most one while rising, at least the sustain level while
    /// decaying, at least zero while releasing.
    pub open spec fn shaped(self) -> bool {
        &&& self.attack_delta@ >= 0
        &&& self.decay_delta@ >= 0
        &&& self.release_delta@ >= 0
        &&& 0 <= self.sustain_level@ <= ONE_RAW
        &&& self.state == EnvelopeState::Attack ==> self.amplitude@ <= ONE_RAW
        &&& self.state == EnvelopeState::Decay ==> self.amplitude@ >= self.sustain_level@
        &&& self.state == EnvelopeState::Release ==> self.amplitude@ >= 0
    }

    /// The envelope after `n` samples during which nothing writes its inputs.
    pub open spec fn run(self, n: nat) -> Envelope
        decreases n,
    {
        if n == 0 {
            self
        } else {
            self.run((n - 1) as nat).stepped()
        }
    }
}

/// A note-on pulse starts the attack from any state, also where a note-off
/// pulse comes with it, and the ramp starts from the amplitude the envelope
/// had: it is not reset. Both pulses are consumed: no trigger is pending
/// afterwards, and a note-off input that was no pulse is left as it was.
pub proof fn lemma_note_on_starts_attack(env: Envelope)
    requires
        env.on_pulse(),
    ensures
        env.triggered().state == EnvelopeState::Attack,
        env.triggered().amplitude == env.amplitude,
        env.triggered().note_on@ == 0,
        env.off_pulse() ==> env.triggered().note_off@ == 0,
        !env.off_pulse() ==> env.triggered().note_off == env.note_off,
        env.triggered().quiet(),
        env.stepped().quiet(),
        env.stepped() == env.triggered().ramped(),
        env.stepped().state == EnvelopeState::Attack || env.stepped().state
            == EnvelopeState::Decay,
{
}

/// Without a note-on pulse, a note-off pulse starts the release from any state.
pub proof fn lemma_note_off_forces_release(env: Envelope)
    requires
        !env.on_pulse(),
        env.off_pulse(),
    ensures
        env.triggered().state == EnvelopeState::Release,
        env.triggered().amplitude == env.amplitude,
        env.triggered().note_off@ == 0,
{
}

/// During the attack the amplitude never falls and never passes one; the
/// envelope moves on to the decay exactly when the amplitude has reached one.
pub proof fn lemma_attack_rises(env: Envelope)
    requires
        env.quiet(),
        env.state == EnvelopeState::Attack,
        env.attack_delta@ >= 0,
        env.amplitude@ <= ONE_RAW,
    ensures
        env.amplitude@ <= env.stepped().amplitude@ <= ONE_RAW,
        env.stepped().state == EnvelopeState::Attack || env.stepped().state
            == EnvelopeState::Decay,
        env.stepped().state == EnvelopeState::Decay <==> env.stepped().amplitude@ == ONE_RAW,
{
}

/// During the decay the amplitude never rises and never passes below zero.
/// While the envelope decays the amplitude stays above the sustain level; on
/// arriving at the sustain level the envelope holds it; and where the step
/// would take the amplitude to zero or below, the amplitude is zero and the
/// envelope switches off.
pub proof fn lemma_decay_falls(env: Envelope)
    requires
        env.quiet(),
        env.state == EnvelopeState::Decay,
        env.decay_delta@ >= 0,
        0 <= env.sustain_level@ <= env.amplitude@,
    ensures
        0 <= env.stepped().amplitude@ <= env.amplitude@,
        env.stepped().state == EnvelopeState::Decay ==> env.stepped().amplitude@
            > env.sustain_level@,
        env.stepped().state == EnvelopeState::Sustain ==> env.stepped().amplitude@
            == env.sustain_level@ && env.sustain_level@ > 0,
        env.stepped().state == EnvelopeState::Off <==> env.amplitude@ - env.decay_delta@ <= 0,
        env.stepped().state == EnvelopeState::Off ==> env.stepped().amplitude@ == 0,
        env.stepped().state != EnvelopeState::Attack,
        env.stepped().state != EnvelopeState::Release,
{
}

/// While sustaining, the amplitude is the sustain level and the state stays.
pub proof fn lemma_sustain_holds(env: Envelope)
    requires
        env.quiet(),
        env.state == EnvelopeState::Sustain,
    ensures
        env.stepped().state == EnvelopeState::Sustain,
        env.stepped().amplitude == env.sustain_level,
{
}

/// During the release the amplitude never rises and never passes below zero;
/// the envelope switches off exactly when the amplitude has reached zero.
pub proof fn lemma_release_falls(env: Envelope)
    requires
        env.quiet(),
        env.state == EnvelopeState::Release,
        env.release_delta@ >= 0,
        env.amplitude@ >= 0,
    ensures
        0 <= env.stepped().amplitude@ <= env.amplitude@,
        env.stepped().state == EnvelopeState::Release || env.stepped().state
            == EnvelopeState::Off,
        env.stepped().state == EnvelopeState::Off <==> env.stepped().amplitude@ == 0,
{
}

/// A switched-off envelope stays off and silent until a trigger arrives.
pub proof fn lemma_off_is_silent(env: Envelope)
    requires
        env.quiet(),
        env.state == EnvelopeState::Off,
    ensures
        env.stepped().state == EnvelopeState::Off,
        env.stepped().amplitude@ == 0,
{
}

/// The amplitude never leaves the range from zero to one: whatever triggers
/// are pending, if no delta is negative, the sustain level lies between zero
/// and one and the amplitude does, then the amplitude of the next sample does.
pub proof fn lemma_amplitude_in_range(env: Envelope)
    requires
        env.attack_delta@ >= 0,
        env.decay_delta@ >= 0,
        env.release_delta@ >= 0,
        0 <= env.sustain_level@ <= ONE_RAW,
        0 <= env.amplitude@ <= ONE_RAW,
    ensures
        0 <= env.stepped().amplitude@ <= ONE_RAW,
        env.stepped().state == EnvelopeState::Off ==> env.stepped().amplitude@ == 0,
{
}

/// A quiet, well-shaped envelope stays quiet and well-shaped, keeps its
/// inputs, and never goes back to an earlier phase.
pub proof fn lemma_step_keeps_shape(env: Envelope)
    requires
        env.quiet(),
        env.shaped(),
    ensures
        env.stepped().quiet(),
        env.stepped().shaped(),
        env.stepped().attack_delta == env.attack_delta,
        env.stepped().decay_delta == env.decay_delta,
        env.stepped().sustain_level == env.sustain_level,
        env.stepped().release_delta == env.release_delta,
        phase_rank(env.state) <= phase_rank(env.stepped().state),
{
}

/// The same over any number of samples.
pub proof fn lemma_run_keeps_shape(env: Envelope, n: nat)
    requires
        env.quiet(),
        env.shaped(),
    ensures
        env.run(n).quiet(),
        env.run(n).shaped(),
        env.run(n).attack_delta == env.attack_delta,
        env.run(n).decay_delta == env.decay_delta,
        env.run(n).sustain_level == env.sustain_level,
        env.run(n).release_delta == env.release_delta,
        phase_rank(env.state) <= phase_rank(env.run(n).state),
    decreases n,
{
    if n > 0 {
        lemma_run_keeps_shape(env, (n - 1) as nat);
        lemma_step_keeps_shape(env.run((n - 1) as nat));
    }
}

/// The course of an untriggered envelope between any two samples `n <= m`:
/// the phases come in the order attack, decay, sustain (or release), off;
/// between two samples of the attack the amplitude has not fallen and is at
/// most one; between two samples of the decay it has not risen and is above
/// the sustain level; between two samples of the sustain it is the sustain
/// level; between two samples of the release it has not risen and is not
/// negative; and once the envelope is off it stays off.
pub proof fn lemma_envelope_course(env: Envelope, n: nat, m: nat)
    requires
        env.quiet(),
        env.shaped(),
        n <= m,
    ensures
        phase_rank(env.run(n).state) <= phase_rank(env.run(m).state),
        env.run(n).state == EnvelopeState::Attack && env.run(m).state == EnvelopeState::Attack
            ==> env.run(n).amplitude@ <= env.run(m).amplitude@ <= ONE_RAW,
        env.run(n).state == EnvelopeState::Decay && env.run(m).state == EnvelopeState::Decay
            ==> env.run(n).amplitude@ >= env.run(m).amplitude@ >= env.sustain_level@,
        env.run(n).state == EnvelopeState::Sustain && env.run(m).state == EnvelopeState::Sustain
            && n < m ==> env.run(m).amplitude == env.sustain_level,
        env.run(n).state == EnvelopeState::Release && env.run(m).state
            == EnvelopeState::Release ==> env.run(n).amplitude@ >= env.run(m).amplitude@ >= 0,
        env.run(n).state == EnvelopeState::Off ==> env.run(m).state == EnvelopeState::Off,
        env.run(n).state == EnvelopeState::Off && n < m ==> env.run(m).amplitude@ == 0,
    decreases m - n,
{
    lemma_run_keeps_shape(env, n);
    if n < m {
        let prev = (m - 1) as nat;
        lemma_envelope_course(env, n, prev);
        lemma_run_keeps_shape(env, prev);
        lemma_step_keeps_shape(env.run(prev));
        assert(env.run(m) == env.run(prev).stepped());
    }
}


/// The attack is a straight ramp: as long as the amplitude plus so many attack
/// deltas stays below one, that is the amplitude after so many samples, and
/// the envelope is still rising.
pub proof fn lemma_attack_ramp(env: Envelope, samples: nat)
    requires
        env.quiet(),
        env.state == EnvelopeState::Attack,
        env.attack_delta@ >= 0,
        env.amplitude@ + samples * env.attack_delta@ < ONE_RAW,
    ensures
        env.run(samples).quiet(),
        env.run(samples).state == EnvelopeState::Attack,
        env.run(samples).attack_delta == env.attack_delta,
        env.run(samples).amplitude@ == env.amplitude@ + samples * env.attack_delta@,
    decreases samples,
{
    let delta = env.attack_delta@;
    if samples == 0 {
        assert(samples * delta == 0) by (nonlinear_arith)
            requires
                samples == 0,
        ;
    } else {
        assert(samples * delta == (samples - 1) * delta + delta) by (nonlinear_arith);
        lemma_attack_ramp(env, (samples - 1) as nat);
    }
}

/// The attack ends on the first sample on which the ramp reaches one: there
/// the amplitude is one and the decay begins.
pub proof fn lemma_attack_peak(env: Envelope, samples: nat)
    requires
        env.quiet(),
        env.state == EnvelopeState::Attack,
        env.attack_delta@ >= 0,
        env.amplitude@ + samples * env.attack_delta@ < ONE_RAW,
        env.amplitude@ + (samples + 1) * env.attack_delta@ >= ONE_RAW,
    ensures
        env.run(samples + 1).state == EnvelopeState::Decay,
        env.run(samples + 1).amplitude@ == ONE_RAW,
{
    let delta = env.attack_delta@;
    lemma_attack_ramp(env, samples);
    assert((samples + 1) * delta == samples * delta + delta) by (nonlinear_arith);
    assert(env.run(samples + 1) == env.run(samples).stepped());
}

/// The release is a straight ramp: as long as the amplitude minus so many
/// release deltas stays above zero, that is the amplitude after so many
/// samples, and the envelope is still releasing.
pub proof fn lemma_release_ramp(env: Envelope, samples: nat)
    requires
        env.quiet(),
        env.state == EnvelopeState::Release,
        env.release_delta@ >= 0,
        env.amplitude@ - samples * env.release_delta@ > 0,
    ensures
        env.run(samples).quiet(),
        env.run(samples).state == EnvelopeState::Release,
        env.run(samples).release_delta == env.release_delta,
        env.run(samples).amplitude@ == env.amplitude@ - samples * env.release_delta@,
    decreases samples,
{
    let delta = env.release_delta@;
    if samples == 0 {
        assert(samples * delta == 0) by (nonlinear_arith)
            requires
                samples == 0,
        ;
    } else {
        assert(samples * delta == (samples - 1) * delta + delta) by (nonlinear_arith);
        lemma_release_ramp(env, (samples - 1) as nat);
    }
}

/// The release ends on the first sample on which the ramp reaches zero: there
/// the amplitude is zero and the envelope is off.
pub proof fn lemma_release_end(env: Envelope, samples: nat)
    requires
        env.quiet(),
        env.state == EnvelopeState::Release,
        env.release_delta@ >= 0,
        env.amplitude@ - samples * env.release_delta@ > 0,
        env.amplitude@ - (samples + 1) * env.release_delta@ <= 0,
    ensures
        env.run(samples + 1).state == EnvelopeState::Off,
        env.run(samples + 1).amplitude@ == 0,
{
    let delta = env.release_delta@;
    lemma_release_ramp(env, samples);
    assert((samples + 1) * delta == samples * delta + delta) by (nonlinear_arith);
    assert(env.run(samples + 1) == env.run(samples).stepped());
}

} // verus!
