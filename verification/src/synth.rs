//! The synthesizer voice: the one topology this library wires, and the mapping
//! from note events to the values that go onto its input endpoints.
//!
//! An envelope shapes the amplitude of an oscillator, whose signal passes a
//! distortion and a delay line on its way to the audio output.

use vstd::prelude::*;
use crate::delay::{Delay, DelayView, DEFAULT_SAMPLE_RATE};
use crate::distortion::{Distortion, DistortionView};
use crate::envelope::{Envelope, EnvelopeState};
use crate::fixed::{Fixed, ONE_RAW};
use crate::graph::{
    blueprint, connections_exist, dependencies, dependencies_upto, names_distinct, names_of,
    sinks_distinct, sink_exists, source_exists, Change, ConfigurationError, Connection,
    GraphView, SignalGraph, Sink, Source,
};
use crate::midi::{frequency_raw, midi_to_freq, MidiMessage, MidiNote};
use crate::processor::{models_of, Processor};
use crate::sine::{waveform_of, Sine, SineView};
use crate::unit::{Constant, Unit, UnitModel};
use crate::wave::table_of;
use crate::schedule::{
    is_schedule, lemma_schedule_respects, lemma_schedule_unique, unit_ready, Dependency,
};

verus! {

/// The input endpoints of the voice, by number.
#[derive(Clone, Copy, PartialEq, Eq, Structural, Debug)]
pub struct SynthParams {
    /// The oscillator's frequency in Hz.
    pub freq: usize,
    /// The amount of frequency modulation.
    pub fm_amount: usize,
    /// The amount of distortion.
    pub dist_amount: usize,
    /// The note-on trigger.
    pub note_on: usize,
    /// The note-off trigger.
    pub note_off: usize,
    /// The envelope's attack delta.
    pub attack: usize,
    /// The envelope's decay delta.
    pub decay: usize,
    /// The envelope's sustain level.
    pub sustain: usize,
    /// The envelope's release delta.
    pub release: usize,
}

/// The number of the voice's one output endpoint, the audio output.
pub const AUDIO_OUT: usize = 0;

/// The delay time of the voice in milliseconds.
pub const DELAY_TIME_MS: i32 = 125;

/// The number of the envelope among the units of the voice.
pub const ENVELOPE_UNIT: usize = 0;

/// The number of the oscillator among the units of the voice.
pub const OSCILLATOR_UNIT: usize = 1;

/// The number of the distortion among the units of the voice.
pub const DISTORTION_UNIT: usize = 2;

/// The number of the delay line among the units of the voice.
pub const DELAY_UNIT: usize = 3;

/// The number of the constant that gives the delay time among the units of
/// the voice.
pub const DELAY_TIME_UNIT: usize = 4;

/// The endpoint numbers of the voice.
pub open spec fn voice_params() -> SynthParams {
    SynthParams {
        freq: 0,
        fm_amount: 1,
        dist_amount: 2,
        note_on: 3,
        note_off: 4,
        attack: 5,
        decay: 6,
        sustain: 7,
        release: 8,
    }
}

/// The names of the voice's input endpoints.
pub open spec fn voice_input_names() -> Seq<Seq<char>> {
    seq![
        "freq"@,
        "fm_amt"@,
        "dist_amt"@,
        "note_on"@,
        "note_off"@,
        "attack"@,
        "decay"@,
        "sustain"@,
        "release"@,
    ]
}

/// The name of the voice's output endpoint.
pub open spec fn voice_output_names() -> Seq<Seq<char>> {
    seq!["audio_out"@]
}

/// A connection from input endpoint `input` to input port `port` of `unit`.
pub open spec fn feed(input: usize, unit: usize, port: usize) -> Connection {
    Connection { from: Source::Endpoint { input }, to: Sink::Unit { unit, port } }
}

/// A connection from output port 0 of unit `from` to input port `port` of
/// `unit`.
pub open spec fn link(from: usize, unit: usize, port: usize) -> Connection {
    Connection { from: Source::Unit { unit: from, port: 0 }, to: Sink::Unit { unit, port } }
}

/// The connections of the voice.
pub open spec fn voice_connections() -> Seq<Connection> {
    seq![
        feed(0, 1, 0),
        link(0, 1, 1),
        feed(1, 1, 2),
        feed(5, 0, 0),
        feed(6, 0, 1),
        feed(7, 0, 2),
        feed(8, 0, 3),
        feed(3, 0, 4),
        feed(4, 0, 5),
        link(1, 2, 0),
        feed(2, 2, 1),
        link(2, 3, 0),
        link(4, 3, 1),
        Connection { from: Source::Unit { unit: 3, port: 0 }, to: Sink::Endpoint { output: 0 } },
    ]
}

/// The order in which the units of the voice run: envelope, oscillator,
/// distortion, delay time, delay line.
pub open spec fn voice_order() -> Seq<usize> {
    seq![0, 1, 2, 4, 3]
}

/// Each unit has the ports that the voice connects: six inputs on the
/// envelope, three on the oscillator, two on the distortion and on the delay
/// line, and an output on each of the five.
pub open spec fn ports_suffice<P: Processor>(units: Seq<P::Model>) -> bool {
    &&& units.len() == 5
    &&& P::input_count(units[0]) >= 6
    &&& P::input_count(units[1]) >= 3
    &&& P::input_count(units[2]) >= 2
    &&& P::input_count(units[3]) >= 2
    &&& forall|u: int| 0 <= u < 5 ==> P::output_count(#[trigger] units[u]) >= 1
}

fn feed_from(input: usize, unit: usize, port: usize) -> (r: Connection)
    ensures
        r == feed(input, unit, port),
{
    Connection { from: Source::Endpoint { input }, to: Sink::Unit { unit, port } }
}

fn link_from(from: usize, unit: usize, port: usize) -> (r: Connection)
    ensures
        r == link(from, unit, port),
{
    Connection { from: Source::Unit { unit: from, port: 0 }, to: Sink::Unit { unit, port } }
}

fn connect_voice() -> (r: Vec<Connection>)
    ensures
        r@ == voice_connections(),
{
    let mut r: Vec<Connection> = Vec::new();
    r.push(feed_from(0, 1, 0));
    r.push(link_from(0, 1, 1));
    r.push(feed_from(1, 1, 2));
    r.push(feed_from(5, 0, 0));
    r.push(feed_from(6, 0, 1));
    r.push(feed_from(7, 0, 2));
    r.push(feed_from(8, 0, 3));
    r.push(feed_from(3, 0, 4));
    r.push(feed_from(4, 0, 5));
    r.push(link_from(1, 2, 0));
    r.push(feed_from(2, 2, 1));
    r.push(link_from(2, 3, 0));
    r.push(link_from(4, 3, 1));
    r.push(
        Connection { from: Source::Unit { unit: 3, port: 0 }, to: Sink::Endpoint { output: 0 } },
    );
    assert(r@ =~= voice_connections());
    r
}

fn name_voice_inputs() -> (r: Vec<String>)
    ensures
        names_of(r@) == voice_input_names(),
{
    let mut r: Vec<String> = Vec::new();
    r.push("freq".to_owned());
    r.push("fm_amt".to_owned());
    r.push("dist_amt".to_owned());
    r.push("note_on".to_owned());
    r.push("note_off".to_owned());
    r.push("attack".to_owned());
    r.push("decay".to_owned());
    r.push("sustain".to_owned());
    r.push("release".to_owned());
    assert(names_of(r@) =~= voice_input_names());
    r
}

fn name_voice_outputs() -> (r: Vec<String>)
    ensures
        names_of(r@) == voice_output_names(),
{
    let mut r: Vec<String> = Vec::new();
    r.push("audio_out".to_owned());
    assert(names_of(r@) =~= voice_output_names());
    r
}

/// The names of the voice's endpoints differ one from another.
proof fn lemma_voice_names_distinct()
    ensures
        names_distinct(voice_input_names() + voice_output_names()),
{
    reveal_strlit("freq");
    reveal_strlit("fm_amt");
    reveal_strlit("dist_amt");
    reveal_strlit("note_on");
    reveal_strlit("note_off");
    reveal_strlit("attack");
    reveal_strlit("decay");
    reveal_strlit("sustain");
    reveal_strlit("release");
    reveal_strlit("audio_out");
    let names = voice_input_names() + voice_output_names();
    assert(names.len() == 10);
    assert(names[0] == "freq"@ && names[0].len() == 4);
    assert(names[1] == "fm_amt"@ && names[1].len() == 6 && names[1][0] == 'f');
    assert(names[2] == "dist_amt"@ && names[2].len() == 8 && names[2][0] == 'd');
    assert(names[3] == "note_on"@ && names[3].len() == 7 && names[3][0] == 'n');
    assert(names[4] == "note_off"@ && names[4].len() == 8 && names[4][0] == 'n');
    assert(names[5] == "attack"@ && names[5].len() == 6 && names[5][0] == 'a');
    assert(names[6] == "decay"@ && names[6].len() == 5);
    assert(names[7] == "sustain"@ && names[7].len() == 7 && names[7][0] == 's');
    assert(names[8] == "release"@ && names[8].len() == 7 && names[8][0] == 'r');
    assert(names[9] == "audio_out"@ && names[9].len() == 9);
}

/// The dependencies that the voice's connections make.
proof fn lemma_voice_dependencies()
    ensures
        dependencies(voice_connections()) == seq![
            Dependency { earlier: 0, later: 1 },
            Dependency { earlier: 1, later: 2 },
            Dependency { earlier: 2, later: 3 },
            Dependency { earlier: 4, later: 3 },
        ],
{
    let c = voice_connections();
    reveal_with_fuel(dependencies_upto, 15);
    assert(dependencies_upto(c, 14) =~= seq![
        Dependency { earlier: 0, later: 1 },
        Dependency { earlier: 1, later: 2 },
        Dependency { earlier: 2, later: 3 },
        Dependency { earlier: 4, later: 3 },
    ]);
}

/// The voice's order is the schedule of its units.
proof fn lemma_voice_schedule()
    ensures
        is_schedule(5, dependencies(voice_connections()), voice_order()),
{
    lemma_voice_dependencies();
    let order = voice_order();
    let deps = dependencies(voice_connections());
    assert(order[0] == 0 && order[1] == 1 && order[2] == 2 && order[3] == 4 && order[4] == 3);
    assert(deps[0] == Dependency { earlier: 0, later: 1 });
    assert(deps[1] == Dependency { earlier: 1, later: 2 });
    assert(deps[2] == Dependency { earlier: 2, later: 3 });
    assert(deps[3] == Dependency { earlier: 4, later: 3 });
    assert(order.take(0) =~= Seq::<usize>::empty());
    assert(order.take(1) =~= seq![0usize]);
    assert(order.take(2) =~= seq![0usize, 1]);
    assert(order.take(3) =~= seq![0usize, 1, 2]);
    assert(order.take(4) =~= seq![0usize, 1, 2, 4]);
    assert(seq![0usize][0] == 0);
    assert(seq![0usize, 1][0] == 0 && seq![0usize, 1][1] == 1);
    assert(seq![0usize, 1, 2][0] == 0 && seq![0usize, 1, 2][1] == 1 && seq![0usize, 1, 2][2] == 2);
    assert(seq![0usize, 1, 2, 4][0] == 0 && seq![0usize, 1, 2, 4][1] == 1 && seq![
        0usize,
        1,
        2,
        4,
    ][2] == 2 && seq![0usize, 1, 2, 4][3] == 4);
    assert(unit_ready(deps, order.take(0), 0));
    assert(unit_ready(deps, order.take(1), 1));
    assert(unit_ready(deps, order.take(2), 2));
    assert(unit_ready(deps, order.take(3), 4));
    assert(unit_ready(deps, order.take(4), 3));
    assert forall|k: int, unit: usize| 0 <= k < order.len() && unit < order[k] implies !unit_ready(
        deps,
        order.take(k),
        unit,
    ) by {
        if k == 3 && unit == 3 {
            assert(deps[3].later == 3 && !order.take(3).contains(deps[3].earlier));
        } else {
            assert(order.take(k).contains(unit));
        }
    }
}

/// No two connections of the voice end in the same sink.
proof fn lemma_voice_sinks_distinct()
    ensures
        sinks_distinct(voice_connections()),
{
    let c = voice_connections();
    assert(c.len() == 14);
    assert(c[0].to == Sink::Unit { unit: 1, port: 0 });
    assert(c[1].to == Sink::Unit { unit: 1, port: 1 });
    assert(c[2].to == Sink::Unit { unit: 1, port: 2 });
    assert(c[3].to == Sink::Unit { unit: 0, port: 0 });
    assert(c[4].to == Sink::Unit { unit: 0, port: 1 });
    assert(c[5].to == Sink::Unit { unit: 0, port: 2 });
    assert(c[6].to == Sink::Unit { unit: 0, port: 3 });
    assert(c[7].to == Sink::Unit { unit: 0, port: 4 });
    assert(c[8].to == Sink::Unit { unit: 0, port: 5 });
    assert(c[9].to == Sink::Unit { unit: 2, port: 0 });
    assert(c[10].to == Sink::Unit { unit: 2, port: 1 });
    assert(c[11].to == Sink::Unit { unit: 3, port: 0 });
    assert(c[12].to == Sink::Unit { unit: 3, port: 1 });
    assert(c[13].to == Sink::Endpoint { output: 0 });
}

/// The connections of the voice exist exactly if each unit has the ports
/// that the voice connects.
proof fn lemma_voice_connections_exist<P: Processor>(units: Seq<P::Model>)
    requires
        units.len() == 5,
    ensures
        connections_exist::<P>(9, 1, units, voice_connections()) <==> ports_suffice::<P>(units),
{
    let c = voice_connections();
    assert(c.len() == 14);
    assert(c[0] == feed(0, 1, 0));
    assert(c[1] == link(0, 1, 1));
    assert(c[2] == feed(1, 1, 2));
    assert(c[3] == feed(5, 0, 0));
    assert(c[4] == feed(6, 0, 1));
    assert(c[5] == feed(7, 0, 2));
    assert(c[6] == feed(8, 0, 3));
    assert(c[7] == feed(3, 0, 4));
    assert(c[8] == feed(4, 0, 5));
    assert(c[9] == link(1, 2, 0));
    assert(c[10] == feed(2, 2, 1));
    assert(c[11] == link(2, 3, 0));
    assert(c[12] == link(4, 3, 1));
    assert(c[13] == Connection {
        from: Source::Unit { unit: 3, port: 0 },
        to: Sink::Endpoint { output: 0 },
    });
    if connections_exist::<P>(9, 1, units, c) {
        assert(sink_exists::<P>(1, units, c[8].to));
        assert(sink_exists::<P>(1, units, c[2].to));
        assert(sink_exists::<P>(1, units, c[10].to));
        assert(sink_exists::<P>(1, units, c[12].to));
        assert(source_exists::<P>(9, units, c[1].from));
        assert(source_exists::<P>(9, units, c[9].from));
        assert(source_exists::<P>(9, units, c[11].from));
        assert(source_exists::<P>(9, units, c[12].from));
        assert(source_exists::<P>(9, units, c[13].from));
    }
}

/// The models of the five units of the voice, in the order of their
/// declaration.
pub open spec fn voice_units<P: Processor>(env: P, sine: P, dist: P, dly: P, val: P) -> Seq<
    P::Model,
> {
    seq![env.model(), sine.model(), dist.model(), dly.model(), val.model()]
}

/// Wires the voice from five units of any kind: the envelope, the oscillator,
/// the distortion, the delay line, and the constant that gives the delay time.
/// The build fails, with a dangling connection, exactly if a unit lacks a port
/// that the voice connects.
pub fn wire_voice<P: Processor>(env: P, sine: P, dist: P, dly: P, val: P, capacity: usize) -> (r:
    Result<(SignalGraph<P>, SynthParams), ConfigurationError>)
    requires
        P::wf(env.model()),
        P::wf(sine.model()),
        P::wf(dist.model()),
        P::wf(dly.model()),
        P::wf(val.model()),
    ensures
        match r {
            Ok((graph, params)) => {
                &&& ports_suffice::<P>(voice_units(env, sine, dist, dly, val))
                &&& graph.wf()
                &&& graph@ == blueprint::<P>(
                    voice_input_names(),
                    voice_output_names(),
                    voice_units(env, sine, dist, dly, val),
                    voice_connections(),
                    if capacity == 0 {
                        1
                    } else {
                        capacity as nat
                    },
                    voice_order(),
                )
                &&& params == voice_params()
            },
            Err(error) => {
                &&& !ports_suffice::<P>(voice_units(env, sine, dist, dly, val))
                &&& error == ConfigurationError::DanglingConnection
            },
        },
{
    let ghost models = voice_units(env, sine, dist, dly, val);
    let mut units: Vec<P> = Vec::new();
    units.push(env);
    units.push(sine);
    units.push(dist);
    units.push(dly);
    units.push(val);
    let input_names = name_voice_inputs();
    let output_names = name_voice_outputs();
    let connections = connect_voice();
    proof {
        assert(models_of(units@) =~= models);
        assert(input_names@.len() == names_of(input_names@).len());
        assert(output_names@.len() == names_of(output_names@).len());
        lemma_voice_names_distinct();
        lemma_voice_sinks_distinct();
        lemma_voice_schedule();
        lemma_schedule_respects(5, dependencies(voice_connections()), voice_order());
        lemma_voice_connections_exist::<P>(models);
    }
    match SignalGraph::build(input_names, output_names, units, connections, capacity) {
        Ok(graph) => {
            proof {
                graph.lemma_view_wf();
                lemma_schedule_unique(
                    5,
                    dependencies(voice_connections()),
                    graph@.order,
                    voice_order(),
                );
            }
            Ok((graph, voice()))
        },
        Err(error) => Err(error),
    }
}

/// The units of the voice at rest, for an oscillator with the given waveform
/// and a distortion with the given transfer curve over the given range: a
/// silent envelope, the oscillator, the distortion, a delay line for the
/// default sample rate, and the constant delay time.
pub open spec fn voice_models(waveform: Seq<Fixed>, curve: Seq<Fixed>, range: Fixed) -> Seq<
    UnitModel,
> {
    seq![
        UnitModel::Envelope(
            Envelope {
                amplitude: Fixed { raw: 0 },
                sample_rate: 0,
                state: EnvelopeState::Off,
                attack_delta: Fixed { raw: 0 },
                decay_delta: Fixed { raw: 0 },
                sustain_level: Fixed { raw: 0 },
                release_delta: Fixed { raw: 0 },
                note_on: Fixed { raw: 0 },
                note_off: Fixed { raw: 0 },
            },
        ),
        UnitModel::Sine(
            SineView {
                frequency: Fixed { raw: 0 },
                amplitude: Fixed { raw: 0 },
                amount: Fixed { raw: 0 },
                sample: Fixed { raw: 0 },
                carrier: 0,
                modulator: 0,
                sample_rate: 0,
                table: waveform_of(waveform),
            },
        ),
        UnitModel::Distortion(
            DistortionView {
                sample: Fixed { raw: 0 },
                amount: Fixed { raw: 0 },
                curve: table_of(curve),
                range,
            },
        ),
        UnitModel::Delay(
            DelayView {
                sample: Fixed { raw: 0 },
                delay: 0,
                sample_rate: DEFAULT_SAMPLE_RATE,
                memory: Seq::new(DEFAULT_SAMPLE_RATE as nat, |i: int| Fixed { raw: 0 }),
                write: 0,
            },
        ),
        UnitModel::Constant(Constant { value: Fixed { raw: (DELAY_TIME_MS * ONE_RAW) as i64 } }),
    ]
}

/// Builds the voice: its five units at rest, wired, with empty streams of
/// the given capacity on its nine input endpoints and on its audio output.
pub fn build_graph(waveform: Vec<Fixed>, curve: Vec<Fixed>, range: Fixed, capacity: usize) -> (r: (
    SignalGraph<Unit>,
    SynthParams,
))
    ensures
        r.0.wf(),
        r.0@ == blueprint::<Unit>(
            voice_input_names(),
            voice_output_names(),
            voice_models(waveform@, curve@, range),
            voice_connections(),
            if capacity == 0 {
                1
            } else {
                capacity as nat
            },
            voice_order(),
        ),
        r.1 == voice_params(),
{
    let env = Unit::Envelope(Envelope::new());
    let sine = Unit::Sine(Sine::new(waveform));
    let dist = Unit::Distortion(Distortion::new(curve, range));
    let dly = Unit::Delay(Delay::new());
    let val = Unit::Constant(Constant::new(Fixed::from_int(DELAY_TIME_MS)));
    proof {
        let models = voice_units(env, sine, dist, dly, val);
        assert(models =~= voice_models(waveform@, curve@, range));
        assert(models[0] is Envelope && models[1] is Sine && models[2] is Distortion && models[3] is Delay
            && models[4] is Constant);
        assert(ports_suffice::<Unit>(models));
    }
    match wire_voice(env, sine, dist, dly, val, capacity) {
        Ok(built) => built,
        Err(_) => vstd::pervasive::unreached(),
    }
}

/// The endpoint numbers of the voice.
pub fn voice() -> (r: SynthParams)
    ensures
        r == voice_params(),
{
    SynthParams {
        freq: 0,
        fm_amount: 1,
        dist_amount: 2,
        note_on: 3,
        note_off: 4,
        attack: 5,
        decay: 6,
        sustain: 7,
        release: 8,
    }
}

impl SynthParams {
    /// Every endpoint number is the number of an input endpoint of the graph.
    pub open spec fn fits<P: Processor>(self, graph: GraphView<P>) -> bool {
        &&& self.freq < graph.held.len()
        &&& self.fm_amount < graph.held.len()
        &&& self.dist_amount < graph.held.len()
        &&& self.note_on < graph.held.len()
        &&& self.note_off < graph.held.len()
        &&& self.attack < graph.held.len()
        &&& self.decay < graph.held.len()
        &&& self.sustain < graph.held.len()
        &&& self.release < graph.held.len()
    }
}

/// The graph after a trigger pulse was enqueued on input endpoint `input`:
/// a one, then a zero, so that the pulse is seen on exactly one sample.
pub open spec fn with_pulse<P: Processor>(graph: GraphView<P>, input: int) -> GraphView<P> {
    graph.with_enqueued(input, Fixed { raw: ONE_RAW }).with_enqueued(input, Fixed { raw: 0 })
}

/// The graph after a note was struck: the note's frequency goes onto the
/// frequency endpoint, then a pulse onto the note-on endpoint.
pub open spec fn with_note_on<P: Processor>(
    graph: GraphView<P>,
    params: SynthParams,
    note: MidiNote,
) -> GraphView<P> {
    with_pulse(
        graph.with_enqueued(
            params.freq as int,
            Fixed { raw: frequency_raw(note.note as int) as i64 },
        ),
        params.note_on as int,
    )
}

/// The graph after a note was released: a pulse goes onto the note-off
/// endpoint.
pub open spec fn with_note_off<P: Processor>(graph: GraphView<P>, params: SynthParams) -> GraphView<
    P,
> {
    with_pulse(graph, params.note_off as int)
}

/// The changes that a note event makes: for a struck note its frequency on
/// the frequency endpoint and a pulse, a one and then a zero, on the note-on
/// endpoint; for a released note a pulse on the note-off endpoint.
pub open spec fn note_changes(params: SynthParams, message: MidiMessage) -> Seq<Change> {
    match message {
        MidiMessage::NoteOn(note) => seq![
            Change { input: params.freq, value: Fixed { raw: frequency_raw(note.note as int) as i64 } },
            Change { input: params.note_on, value: Fixed { raw: ONE_RAW } },
            Change { input: params.note_on, value: Fixed { raw: 0 } },
        ],
        MidiMessage::NoteOff(note) => seq![
            Change { input: params.note_off, value: Fixed { raw: ONE_RAW } },
            Change { input: params.note_off, value: Fixed { raw: 0 } },
        ],
    }
}

/// The changes that a note event makes.
pub fn changes_for(params: &SynthParams, message: MidiMessage) -> (r: Vec<Change>)
    ensures
        r@ == note_changes(*params, message),
{
    let mut r: Vec<Change> = Vec::new();
    match message {
        MidiMessage::NoteOn(note) => {
            r.push(Change { input: params.freq, value: midi_to_freq(note.note) });
            r.push(Change { input: params.note_on, value: Fixed::one() });
            r.push(Change { input: params.note_on, value: Fixed::zero() });
        },
        MidiMessage::NoteOff(note) => {
            r.push(Change { input: params.note_off, value: Fixed::one() });
            r.push(Change { input: params.note_off, value: Fixed::zero() });
        },
    }
    assert(r@ =~= note_changes(*params, message));
    r
}

/// Taking in the changes of a note event is handing the event to the voice.
pub proof fn lemma_note_changes<P: Processor>(
    graph: GraphView<P>,
    params: SynthParams,
    message: MidiMessage,
)
    requires
        params.fits(graph),
    ensures
        graph.with_changes(note_changes(params, message)) == (match message {
            MidiMessage::NoteOn(note) => with_note_on(graph, params, note),
            MidiMessage::NoteOff(note) => with_note_off(graph, params),
        }),
{
    let changes = note_changes(params, message);
    reveal_with_fuel(GraphView::with_changes, 4);
    match message {
        MidiMessage::NoteOn(note) => {
            assert(changes.drop_last() =~= seq![changes[0], changes[1]]);
            assert(changes.drop_last().drop_last() =~= seq![changes[0]]);
            assert(changes.drop_last().drop_last().drop_last() =~= Seq::<Change>::empty());
        },
        MidiMessage::NoteOff(note) => {
            assert(changes.drop_last() =~= seq![changes[0]]);
            assert(changes.drop_last().drop_last() =~= Seq::<Change>::empty());
        },
    }
}

/// Enqueues a trigger pulse on input endpoint `input`.
pub fn pulse<P: Processor>(graph: &mut SignalGraph<P>, input: usize)
    requires
        old(graph).wf(),
        input < old(graph)@.held.len(),
    ensures
        final(graph).wf(),
        final(graph)@ == with_pulse(old(graph)@, input as int),
{
    graph.enqueue(input, Fixed::one());
    graph.enqueue(input, Fixed::zero());
}

/// Hands a struck note to the voice: its changes arrive.
pub fn handle_note_on<P: Processor>(graph: &mut SignalGraph<P>, params: &SynthParams, note: MidiNote)
    requires
        old(graph).wf(),
    ensures
        final(graph).wf(),
        final(graph)@ == old(graph)@.with_changes(note_changes(*params, MidiMessage::NoteOn(note))),
{
    handle_message(graph, params, MidiMessage::NoteOn(note));
}

/// Hands a released note to the voice: its changes arrive.
pub fn handle_note_off<P: Processor>(graph: &mut SignalGraph<P>, params: &SynthParams, note: MidiNote)
    requires
        old(graph).wf(),
    ensures
        final(graph).wf(),
        final(graph)@ == old(graph)@.with_changes(note_changes(*params, MidiMessage::NoteOff(note))),
{
    handle_message(graph, params, MidiMessage::NoteOff(note));
}

/// Hands a note event to the voice: its changes arrive.
pub fn handle_message<P: Processor>(
    graph: &mut SignalGraph<P>,
    params: &SynthParams,
    message: MidiMessage,
)
    requires
        old(graph).wf(),
    ensures
        final(graph).wf(),
        final(graph)@ == old(graph)@.with_changes(note_changes(*params, message)),
{
    let changes = changes_for(params, message);
    graph.apply(&changes);
}

} // verus!
