//! The delay line.
//!
//! A circular buffer that holds one second of audio at the prepared sample
//! rate. Each sample the dry input is written at the write position, the write
//! position moves on by one slot, and the delayed signal is read behind it, at
//! a distance given in (fractional) samples, by linear interpolation between
//! the two neighbouring slots. The output is the dry input moved three tenths
//! of the way toward the delayed signal.
//!
//! A requested delay longer than the buffer is clamped to the length of the
//! buffer; a negative one is clamped to zero.

use vstd::prelude::*;
use crate::fixed::{mul_raw, sub_raw, trunc_div, Fixed, ONE_RAW};
use crate::wave::{lerp, lerp_raw};
use crate::processor::Processor;

verus! {

/// The raw encoding of the wet/dry mix coefficient, three tenths.
pub const MIX_RAW: i64 = 1288490189;

/// The sample rate a delay line is made for until `prepare` says otherwise.
pub const DEFAULT_SAMPLE_RATE: u32 = 44100;

/// The number of input ports of a delay line: the sample and the delay time
/// in milliseconds, in this order.
pub const DELAY_INPUTS: usize = 2;

/// The number of slots of a buffer that holds one second at `sample_rate`; a
/// rate of zero still gets one slot.
pub open spec fn capacity_for(sample_rate: u32) -> nat {
    if sample_rate == 0 {
        1
    } else {
        sample_rate as nat
    }
}

/// The delay in samples, as a raw encoding, for a time of `time_ms`
/// milliseconds (a raw encoding too) at `sample_rate`: the thousandth part of
/// their product, kept between zero and the length of the buffer.
pub open spec fn ticks_for(time_ms: int, sample_rate: u32) -> nat {
    let ticks = trunc_div(time_ms * sample_rate, 1000);
    let longest = capacity_for(sample_rate) * ONE_RAW;
    if ticks < 0 {
        0
    } else if ticks > longest {
        longest as nat
    } else {
        ticks as nat
    }
}

/// What a delay line is to its callers.
pub struct DelayView {
    /// The sample port: the dry input before a step, the output after it.
    pub sample: Fixed,
    /// The delay in samples, as a raw encoding with 32 fractional bits.
    pub delay: nat,
    /// The sample rate the buffer is sized for.
    pub sample_rate: u32,
    /// The buffer.
    pub memory: Seq<Fixed>,
    /// The slot that is written next.
    pub write: nat,
}

impl DelayView {
    /// The buffer holds one second, the write position lies inside it, and
    /// the delay is no longer than the buffer.
    pub open spec fn wf(self) -> bool {
        &&& self.memory.len() == capacity_for(self.sample_rate)
        &&& self.write < self.memory.len()
        &&& self.delay <= self.span()
    }

    /// The write position after the next step.
    pub open spec fn next_write(self) -> nat {
        (self.write + 1) % self.memory.len()
    }

    /// The length of the buffer as a raw encoding.
    pub open spec fn span(self) -> nat {
        self.memory.len() * (ONE_RAW as nat)
    }

    /// The read position of the next step, as a raw encoding: the delay
    /// behind the write position that the step moves to, wrapped into the
    /// buffer.
    pub open spec fn read_position(self) -> nat {
        ((self.next_write() * ONE_RAW + self.span() - self.delay) % (self.span() as int)) as nat
    }

    /// The delayed signal that the next step reads.
    pub open spec fn wet(self) -> int {
        let memory = self.memory.update(self.write as int, self.sample);
        let position = self.read_position() as int;
        let slot = position / (ONE_RAW as int);
        let fraction = position % (ONE_RAW as int);
        let neighbour = (slot + 1) % (self.memory.len() as int);
        lerp_raw(memory[slot]@, memory[neighbour]@, fraction)
    }

    /// The delay line one sample later.
    pub open spec fn stepped(self) -> DelayView {
        DelayView {
            sample: Fixed { raw: lerp_raw(self.sample@, self.wet(), MIX_RAW as int) as i64 },
            memory: self.memory.update(self.write as int, self.sample),
            write: self.next_write(),
            ..self
        }
    }

    /// The delay line with `value` on input port `port`: port 0 is the
    /// sample, port 1 the delay time in milliseconds.
    pub open spec fn with_port(self, port: int, value: Fixed) -> DelayView {
        if port == 0 {
            DelayView { sample: value, ..self }
        } else if port == 1 {
            DelayView { delay: ticks_for(value@, self.sample_rate), ..self }
        } else {
            self
        }
    }

    /// The delay line after it was told the sample rate: an empty buffer of
    /// one second, written from its start; the delay is kept, shortened to the
    /// new buffer if it is longer.
    pub open spec fn prepared(self, sample_rate: u32) -> DelayView {
        let longest = capacity_for(sample_rate) * ONE_RAW;
        DelayView {
            sample: self.sample,
            delay: if self.delay > longest {
                longest as nat
            } else {
                self.delay
            },
            sample_rate,
            memory: Seq::new(capacity_for(sample_rate), |i: int| Fixed { raw: 0 }),
            write: 0,
        }
    }
}

/// A delay line.
pub struct Delay {
    sample: Fixed,
    delay_ticks: u64,
    sample_rate: u32,
    memory: Vec<Fixed>,
    write_idx: usize,
}

impl View for Delay {
    type V = DelayView;

    closed spec fn view(&self) -> DelayView {
        DelayView {
            sample: self.sample,
            delay: self.delay_ticks as nat,
            sample_rate: self.sample_rate,
            memory: self.memory@,
            write: self.write_idx as nat,
        }
    }
}

/// A buffer of `count` zeros.
fn zeros(count: usize) -> (r: Vec<Fixed>)
    ensures
        r@ == Seq::new(count as nat, |i: int| Fixed { raw: 0 }),
{
    let mut r: Vec<Fixed> = Vec::new();
    let mut i: usize = 0;
    while i < count
        invariant
            i <= count,
            r.len() == i,
            forall|k: int| 0 <= k < i ==> r[k] == (Fixed { raw: 0 }),
        decreases count - i,
    {
        r.push(Fixed::zero());
        i = i + 1;
    }
    assert(r@ =~= Seq::new(count as nat, |i: int| Fixed { raw: 0 }));
    r
}

/// The number of slots for one second at `sample_rate`.
fn slots_for(sample_rate: u32) -> (r: usize)
    ensures
        r == capacity_for(sample_rate),
{
    if sample_rate == 0 {
        1
    } else {
        sample_rate as usize
    }
}

/// The delay in samples for `time_ms` milliseconds at `sample_rate`.
fn delay_ticks_for(time_ms: Fixed, sample_rate: u32) -> (r: u64)
    ensures
        r == ticks_for(time_ms@, sample_rate),
{
    let longest: u64 = (slots_for(sample_rate) as u64) * 4294967296u64;
    if time_ms.raw <= 0 {
        assert(trunc_div(time_ms@ * sample_rate, 1000) <= 0) by (nonlinear_arith)
            requires
                time_ms@ <= 0,
                sample_rate >= 0,
        ;
        0
    } else {
        let t: u128 = time_ms.raw as u128;
        let rate: u128 = sample_rate as u128;
        assert(0 <= t * rate <= 0x8000_0000_0000_0000 * 0x1_0000_0000) by (nonlinear_arith)
            requires
                0 <= t <= 0x8000_0000_0000_0000,
                0 <= rate <= 0x1_0000_0000,
        ;
        let product: u128 = t * rate;
        let ticks: u128 = product / 1000;
        if ticks > longest as u128 {
            longest
        } else {
            ticks as u64
        }
    }
}

impl Delay {
    /// A delay line for the default sample rate, with an empty buffer, no
    /// delay and zero on its sample port.
    pub fn new() -> (r: Delay)
        ensures
            r@.wf(),
            r@ == (DelayView {
                sample: Fixed { raw: 0 },
                delay: 0,
                sample_rate: DEFAULT_SAMPLE_RATE,
                memory: Seq::new(DEFAULT_SAMPLE_RATE as nat, |i: int| Fixed { raw: 0 }),
                write: 0,
            }),
    {
        Delay {
            sample: Fixed::zero(),
            delay_ticks: 0,
            sample_rate: DEFAULT_SAMPLE_RATE,
            memory: zeros(DEFAULT_SAMPLE_RATE as usize),
            write_idx: 0,
        }
    }
}

impl Processor for Delay {
    type Model = DelayView;

    open spec fn model(&self) -> DelayView {
        self@
    }

    open spec fn wf(model: DelayView) -> bool {
        model.wf()
    }

    open spec fn input_count(model: DelayView) -> nat {
        DELAY_INPUTS as nat
    }

    open spec fn output_count(model: DelayView) -> nat {
        1
    }

    open spec fn prepared(model: DelayView, sample_rate: u32) -> DelayView {
        model.prepared(sample_rate)
    }

    open spec fn with_input(model: DelayView, port: int, value: Fixed) -> DelayView {
        model.with_port(port, value)
    }

    open spec fn processed(model: DelayView) -> DelayView {
        model.stepped()
    }

    open spec fn output_at(model: DelayView, port: int) -> Fixed {
        model.sample
    }

    fn inputs(&self) -> (n: usize) {
        DELAY_INPUTS
    }

    fn outputs(&self) -> (n: usize) {
        1
    }

    /// Sizes the buffer for one second at `sample_rate` and empties it.
    fn prepare(&mut self, sample_rate: u32) {
        let slots: usize = slots_for(sample_rate);
        let longest: u64 = (slots as u64) * 4294967296u64;
        if self.delay_ticks > longest {
            self.delay_ticks = longest;
        }
        self.sample_rate = sample_rate;
        self.memory = zeros(slots);
        self.write_idx = 0;
    }

    /// Writes the sample (port 0) or the delay time in milliseconds (port 1).
    fn set_input(&mut self, port: usize, value: Fixed) {
        if port == 0 {
            self.sample = value;
        } else if port == 1 {
            self.delay_ticks = delay_ticks_for(value, self.sample_rate);
        }
    }

    /// Advances the delay line by one sample.
    fn process(&mut self) {
        let ghost before = self@;
        let slots: usize = self.memory.len();
        let dry = self.sample;
        self.memory.set(self.write_idx, dry);
        self.write_idx = if self.write_idx + 1 == slots { 0 } else { self.write_idx + 1 };
        assert(self.write_idx == before.next_write()) by {
            if before.write + 1 == slots {
                vstd::arithmetic::div_mod::lemma_mod_self_0(slots as int);
            } else {
                vstd::arithmetic::div_mod::lemma_small_mod((before.write + 1) as nat, slots as nat);
            }
        }
        let span: u128 = (slots as u128) * 4294967296u128;
        let ahead: u128 = (self.write_idx as u128) * 4294967296u128 + span - (self.delay_ticks as u128);
        let position: u128 = if ahead >= span { ahead - span } else { ahead };
        assert(position == before.read_position()) by {
            vstd::arithmetic::div_mod::lemma_small_mod(position as nat, span as nat);
            if ahead >= span {
                vstd::arithmetic::div_mod::lemma_mod_sub_multiples_vanish(ahead as int, span as int);
            }
        }
        let slot: usize = (position / 4294967296u128) as usize;
        let fraction: i64 = (position % 4294967296u128) as i64;
        let neighbour: usize = if slot + 1 == slots { 0 } else { slot + 1 };
        assert(neighbour == (slot + 1) % (slots as int)) by {
            if slot + 1 == slots {
                vstd::arithmetic::div_mod::lemma_mod_self_0(slots as int);
            } else {
                vstd::arithmetic::div_mod::lemma_small_mod((slot + 1) as nat, slots as nat);
            }
        }
        assert(self@.memory =~= before.memory.update(before.write as int, before.sample));
        let wet = lerp(self.memory[slot], self.memory[neighbour], Fixed::from_raw(fraction));
        assert(wet@ == before.wet());
        self.sample = lerp(dry, wet, Fixed::from_raw(MIX_RAW));
    }

    /// Reads the sample port.
    fn output(&self, port: usize) -> (r: Fixed) {
        self.sample
    }
}


impl DelayView {
    /// The delay line after it was fed `inputs` on its sample port, one value
    /// per sample.
    pub open spec fn driven(self, inputs: Seq<Fixed>) -> DelayView
        decreases inputs.len(),
    {
        if inputs.len() == 0 {
            self
        } else {
            self.driven(inputs.drop_last()).with_port(0, inputs.last()).stepped()
        }
    }

    /// The buffer is empty and is written from its start.
    pub open spec fn fresh(self) -> bool {
        &&& self.write == 0
        &&& forall|i: int| 0 <= i < self.memory.len() ==> (#[trigger] self.memory[i])@ == 0
    }
}

/// A fresh delay line that was fed no more values than its buffer holds has
/// them in its buffer in the order in which they came, and nothing behind
/// them.
proof fn lemma_driven_memory(view: DelayView, inputs: Seq<Fixed>)
    requires
        view.wf(),
        view.fresh(),
        inputs.len() <= view.memory.len(),
    ensures
        view.driven(inputs).wf(),
        view.driven(inputs).memory.len() == view.memory.len(),
        view.driven(inputs).delay == view.delay,
        view.driven(inputs).sample_rate == view.sample_rate,
        view.driven(inputs).write == inputs.len() % view.memory.len(),
        forall|i: int|
            0 <= i < inputs.len() ==> (#[trigger] view.driven(inputs).memory[i]) == inputs[i],
        forall|i: int|
            inputs.len() <= i < view.memory.len() ==> (#[trigger] view.driven(inputs).memory[i])@
                == 0,
    decreases inputs.len(),
{
    let slots = view.memory.len() as int;
    if inputs.len() == 0 {
        vstd::arithmetic::div_mod::lemma_small_mod(0, slots as nat);
    } else {
        let front = inputs.drop_last();
        lemma_driven_memory(view, front);
        let before = view.driven(front);
        vstd::arithmetic::div_mod::lemma_small_mod(front.len(), slots as nat);
        assert(before.write == front.len());
        if inputs.len() == slots {
            vstd::arithmetic::div_mod::lemma_mod_self_0(slots);
        } else {
            vstd::arithmetic::div_mod::lemma_small_mod(inputs.len(), slots as nat);
        }
    }
}

/// The delay line reads back what it was fed. With a delay of `distance`
/// whole samples, at least one and at most the length of the buffer, the
/// delayed signal of a sample is the value that was fed in `distance - 1`
/// samples before it, or silence if nothing was fed in then; the output is
/// the sample's own value moved three tenths of the way toward it. This holds
/// for as many samples as the buffer has slots, counted from a fresh buffer.
pub proof fn lemma_delay_reads_back(view: DelayView, inputs: Seq<Fixed>, distance: nat)
    requires
        view.wf(),
        view.fresh(),
        1 <= distance <= view.memory.len(),
        view.delay == distance * ONE_RAW,
        1 <= inputs.len() <= view.memory.len(),
    ensures
        view.driven(inputs).sample@ == lerp_raw(
            inputs.last()@,
            if inputs.len() >= distance {
                inputs[inputs.len() - distance]@
            } else {
                0
            },
            MIX_RAW as int,
        ),
{
    let slots = view.memory.len() as int;
    let one = ONE_RAW as int;
    let count = inputs.len() as int;
    let front = inputs.drop_last();
    lemma_driven_memory(view, front);
    let before = view.driven(front).with_port(0, inputs.last());
    vstd::arithmetic::div_mod::lemma_small_mod(front.len(), slots as nat);
    assert(before.write == count - 1);
    assert(before.sample == inputs.last());
    let memory = before.memory.update(before.write as int, before.sample);
    let target: int = if count >= distance {
        count - distance
    } else {
        count - distance + slots
    };
    assert(0 <= target < slots);
    let next = before.next_write() as int;
    if count == slots {
        vstd::arithmetic::div_mod::lemma_mod_self_0(slots);
    } else {
        vstd::arithmetic::div_mod::lemma_small_mod(count as nat, slots as nat);
    }
    assert(next == count % slots);
    let ahead = next * one + before.span() - before.delay;
    assert(before.span() == one * slots) by (nonlinear_arith)
        requires
            before.span() == slots * one,
    ;
    assert(ahead == one * (next + slots - distance)) by (nonlinear_arith)
        requires
            ahead == next * one + slots * one - distance * one,
    ;
    vstd::arithmetic::div_mod::lemma_truncate_middle(next + slots - distance, one, slots);
    assert((next + slots - distance) % slots == target) by {
        if count == slots {
            if distance == slots {
                vstd::arithmetic::div_mod::lemma_small_mod(0, slots as nat);
            } else {
                vstd::arithmetic::div_mod::lemma_small_mod((slots - distance) as nat, slots as nat);
            }
        } else if count >= distance {
            vstd::arithmetic::div_mod::lemma_mod_add_multiples_vanish(count - distance, slots);
            vstd::arithmetic::div_mod::lemma_small_mod((count - distance) as nat, slots as nat);
        } else {
            vstd::arithmetic::div_mod::lemma_small_mod(
                (count + slots - distance) as nat,
                slots as nat,
            );
        }
    }
    let position = before.read_position() as int;
    assert(position == one * target);
    assert(position / one == target && position % one == 0) by {
        vstd::arithmetic::div_mod::lemma_fundamental_div_mod_converse(position, one, target, 0);
    }
    assert(memory[target]@ == (if count >= distance {
        inputs[count - distance]@
    } else {
        0
    }));
    let neighbour = (target + 1) % slots;
    assert(mul_raw(0, sub_raw(memory[neighbour]@, memory[target]@)) == 0);
    assert(before.wet() == memory[target]@);
}

/// A unit impulse comes back once: fed to a fresh delay line of at least two
/// slots whose delay is the whole buffer, a one followed by zeros gives seven
/// tenths at once (the dry impulse, mixed with silence), then silence, and
/// three tenths on the last sample of the buffer's length.
pub proof fn lemma_impulse_returns(view: DelayView, inputs: Seq<Fixed>)
    requires
        view.wf(),
        view.fresh(),
        view.memory.len() >= 2,
        view.delay == view.span(),
        1 <= inputs.len() <= view.memory.len(),
        inputs[0]@ == ONE_RAW,
        forall|i: int| 1 <= i < inputs.len() ==> (#[trigger] inputs[i])@ == 0,
    ensures
        inputs.len() == 1 ==> view.driven(inputs).sample@ == ONE_RAW - MIX_RAW,
        1 < inputs.len() < view.memory.len() ==> view.driven(inputs).sample@ == 0,
        inputs.len() == view.memory.len() ==> view.driven(inputs).sample@ == MIX_RAW,
{
    lemma_delay_reads_back(view, inputs, view.memory.len());
    assert(trunc_div(MIX_RAW * (0 - ONE_RAW), ONE_RAW as int) == -MIX_RAW);
    assert(trunc_div(MIX_RAW * ONE_RAW, ONE_RAW as int) == MIX_RAW as int);
    assert(trunc_div(MIX_RAW * 0, ONE_RAW as int) == 0);
}

} // verus!
