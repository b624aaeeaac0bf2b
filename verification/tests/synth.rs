use synth_core::delay::Delay;
use synth_core::envelope::{Envelope, EnvelopeState};
use synth_core::fixed::{Fixed, ONE_RAW};
use synth_core::graph::ConfigurationError;
use synth_core::midi::{MidiMessage, MidiNote};
use synth_core::mixer::Mixer;
use synth_core::processor::Processor;
use synth_core::synth::{
    build_graph, handle_message, handle_note_off, handle_note_on, pulse, voice, wire_voice,
    AUDIO_OUT, DELAY_TIME_MS, DELAY_TIME_UNIT, DELAY_UNIT, DISTORTION_UNIT, ENVELOPE_UNIT,
    OSCILLATOR_UNIT,
};
use synth_core::unit::{Constant, Unit};

fn parts(sine_inputs: usize, dist_inputs: usize) -> (Unit, Unit, Unit, Unit, Unit) {
    (
        Unit::Envelope(Envelope::new()),
        Unit::Mixer(Mixer::new(sine_inputs)),
        Unit::Mixer(Mixer::new(dist_inputs)),
        Unit::Delay(Delay::new()),
        Unit::Constant(Constant::new(Fixed::from_int(DELAY_TIME_MS))),
    )
}

#[test]
fn voice_is_wired_as_described() {
    let (env, sine, dist, dly, val) = parts(3, 2);
    let (graph, params) = wire_voice(env, sine, dist, dly, val, 64).ok().unwrap();
    assert_eq!(params, voice());
    assert_eq!(graph.input_count(), 9);
    assert_eq!(graph.output_count(), 1);
    assert_eq!(graph.unit_count(), 5);
    assert_eq!(graph.schedule(), &vec![0, 1, 2, 4, 3]);
    let names = [
        "freq", "fm_amt", "dist_amt", "note_on", "note_off", "attack", "decay", "sustain", "release",
    ];
    for (index, name) in names.iter().enumerate() {
        assert_eq!(graph.input_named(&name.to_string()), Some(index));
    }
    assert_eq!(graph.output_named(&"audio_out".to_string()), Some(AUDIO_OUT));
    assert_eq!(
        [
            params.freq,
            params.fm_amount,
            params.dist_amount,
            params.note_on,
            params.note_off,
            params.attack,
            params.decay,
            params.sustain,
            params.release
        ],
        [0, 1, 2, 3, 4, 5, 6, 7, 8]
    );
}

#[test]
fn voice_needs_the_ports_it_connects() {
    let (env, sine, dist, dly, val) = parts(2, 2);
    let result = wire_voice(env, sine, dist, dly, val, 64);
    assert_eq!(result.err(), Some(ConfigurationError::DanglingConnection));
    let (env, sine, dist, dly, val) = parts(3, 1);
    let result = wire_voice(env, sine, dist, dly, val, 64);
    assert_eq!(result.err(), Some(ConfigurationError::DanglingConnection));
    let (env, sine, dist, _, val) = parts(3, 2);
    let short = Unit::Mixer(Mixer::new(1));
    let result = wire_voice(env, sine, dist, short, val, 64);
    assert_eq!(result.err(), Some(ConfigurationError::DanglingConnection));
    let (_, sine, dist, dly, val) = parts(3, 2);
    let short = Unit::Mixer(Mixer::new(5));
    let result = wire_voice(short, sine, dist, dly, val, 64);
    assert_eq!(result.err(), Some(ConfigurationError::DanglingConnection));
}

#[test]
fn note_on_sets_the_frequency_and_pulses_once() {
    let (env, sine, dist, dly, val) = parts(3, 2);
    let (mut graph, params) = wire_voice(env, sine, dist, dly, val, 64).ok().unwrap();
    handle_note_on(&mut graph, &params, MidiNote { note: 69, velocity: 100 });
    graph.render(1);
    assert_eq!(graph.held(params.freq), Fixed::from_int(440));
    assert_eq!(graph.held(params.note_on), Fixed::one());
    graph.render(1);
    assert_eq!(graph.held(params.freq), Fixed::from_int(440));
    assert_eq!(graph.held(params.note_on), Fixed::zero());
    graph.render(5);
    assert_eq!(graph.held(params.note_on), Fixed::zero());
    assert_eq!(graph.held(params.note_off), Fixed::zero());
}

#[test]
fn note_off_pulses_once() {
    let (env, sine, dist, dly, val) = parts(3, 2);
    let (mut graph, params) = wire_voice(env, sine, dist, dly, val, 64).ok().unwrap();
    handle_note_off(&mut graph, &params, MidiNote { note: 69, velocity: 0 });
    graph.render(1);
    assert_eq!(graph.held(params.note_off), Fixed::one());
    assert_eq!(graph.held(params.freq), Fixed::zero());
    graph.render(1);
    assert_eq!(graph.held(params.note_off), Fixed::zero());
}

#[test]
fn pulse_is_a_one_and_a_zero() {
    let (env, sine, dist, dly, val) = parts(3, 2);
    let (mut graph, params) = wire_voice(env, sine, dist, dly, val, 64).ok().unwrap();
    pulse(&mut graph, params.note_on);
    let mut seen = vec![];
    for _ in 0..4 {
        graph.render(1);
        seen.push(graph.held(params.note_on).raw);
    }
    assert_eq!(seen, vec![ONE_RAW, 0, 0, 0]);
}

fn envelope_state(unit: &Unit) -> EnvelopeState {
    match unit {
        Unit::Envelope(envelope) => envelope.state,
        _ => panic!("not an envelope"),
    }
}

#[test]
fn messages_drive_the_envelope() {
    // in place of the oscillator, a mixer that adds frequency, amplitude and
    // modulation amount
    let (env, sine, dist, dly, val) = parts(3, 2);
    let (mut graph, params) = wire_voice(env, sine, dist, dly, val, 64).ok().unwrap();
    graph.prepare(44_100);
    graph.enqueue(params.attack, Fixed::from_ratio(1, 4));
    graph.enqueue(params.decay, Fixed::from_ratio(1, 4));
    graph.enqueue(params.sustain, Fixed::from_ratio(1, 2));
    graph.enqueue(params.release, Fixed::from_ratio(1, 4));
    assert_eq!(envelope_state(graph.unit(ENVELOPE_UNIT)), EnvelopeState::Off);
    handle_message(&mut graph, &params, MidiMessage::NoteOn(MidiNote { note: 57, velocity: 90 }));
    graph.render(1);
    assert_eq!(envelope_state(graph.unit(ENVELOPE_UNIT)), EnvelopeState::Attack);
    graph.render(3);
    assert_eq!(envelope_state(graph.unit(ENVELOPE_UNIT)), EnvelopeState::Decay);
    graph.render(2);
    assert_eq!(envelope_state(graph.unit(ENVELOPE_UNIT)), EnvelopeState::Sustain);
    graph.render(10);
    assert_eq!(envelope_state(graph.unit(ENVELOPE_UNIT)), EnvelopeState::Sustain);
    assert_eq!(
        graph.unit(OSCILLATOR_UNIT).output(0),
        Fixed::from_int(220).saturating_add(Fixed::from_ratio(1, 2))
    );
    handle_message(&mut graph, &params, MidiMessage::NoteOff(MidiNote { note: 57, velocity: 0 }));
    graph.render(1);
    assert_eq!(envelope_state(graph.unit(ENVELOPE_UNIT)), EnvelopeState::Release);
    graph.render(1);
    assert_eq!(envelope_state(graph.unit(ENVELOPE_UNIT)), EnvelopeState::Off);
    while graph.dequeue(AUDIO_OUT).is_some() {}
    graph.render(1);
    assert!(graph.dequeue(AUDIO_OUT).is_some());
}

fn sine_table(len: usize) -> Vec<Fixed> {
    (0..len)
        .map(|i| {
            let x = (i as f64 / len as f64 * std::f64::consts::TAU).sin();
            Fixed::from_raw((x * ONE_RAW as f64).round() as i64)
        })
        .collect()
}

fn tanh_curve(len: usize, range: f64) -> Vec<Fixed> {
    (0..len)
        .map(|i| {
            let x = (-range + 2.0 * range * i as f64 / (len - 1) as f64).tanh();
            Fixed::from_raw((x * ONE_RAW as f64).round() as i64)
        })
        .collect()
}

#[test]
fn built_voice_holds_the_five_units() {
    let (graph, params) = build_graph(sine_table(1024), tanh_curve(513, 4.0), Fixed::from_int(4), 64);
    assert_eq!(params, voice());
    assert_eq!(graph.input_count(), 9);
    assert_eq!(graph.output_count(), 1);
    assert_eq!(graph.unit_count(), 5);
    assert_eq!(graph.schedule(), &vec![0, 1, 2, 4, 3]);
    assert!(matches!(graph.unit(ENVELOPE_UNIT), Unit::Envelope(_)));
    assert!(matches!(graph.unit(OSCILLATOR_UNIT), Unit::Sine(_)));
    assert!(matches!(graph.unit(DISTORTION_UNIT), Unit::Distortion(_)));
    assert!(matches!(graph.unit(DELAY_UNIT), Unit::Delay(_)));
    assert!(matches!(graph.unit(DELAY_TIME_UNIT), Unit::Constant(_)));
    assert_eq!(graph.unit(DELAY_TIME_UNIT).output(0), Fixed::from_int(125));
}

fn play(samples: usize) -> Vec<f64> {
    let (mut graph, params) =
        build_graph(sine_table(4096), tanh_curve(2049, 8.0), Fixed::from_int(8), 64);
    graph.prepare(44_100);
    graph.enqueue(params.attack, Fixed::from_ratio(1, 128));
    graph.enqueue(params.decay, Fixed::from_ratio(1, 1024));
    graph.enqueue(params.sustain, Fixed::from_ratio(1, 2));
    graph.enqueue(params.release, Fixed::from_ratio(1, 128));
    graph.enqueue(params.dist_amount, Fixed::one());
    handle_note_on(&mut graph, &params, MidiNote { note: 69, velocity: 100 });
    let mut seen = vec![];
    for _ in 0..samples {
        graph.render(1);
        seen.push(graph.dequeue(AUDIO_OUT).unwrap().raw as f64 / ONE_RAW as f64);
    }
    seen
}

#[test]
fn voice_sounds_like_its_recipe() {
    // the same voice in floating point: envelope, sine, tanh, delay line
    let seen = play(2000);
    let rate = 44_100.0f64;
    let mut amplitude = 0.0f64;
    let mut attack = true;
    let mut phase = 0.0f64;
    let mut memory = vec![0.0f64; 44_100];
    let ticks = 125.0 * 0.001 * rate;
    for (n, got) in seen.iter().enumerate() {
        if attack {
            amplitude += 1.0 / 128.0;
            if amplitude >= 1.0 {
                amplitude = 1.0;
                attack = false;
            }
        } else if amplitude > 0.5 {
            amplitude = (amplitude - 1.0 / 1024.0).max(0.5);
        }
        phase = (phase + 440.0 / rate).fract();
        let dry = ((phase * std::f64::consts::TAU).sin() * amplitude).tanh();
        memory[n] = dry;
        let read = (n + 1) as f64 - ticks;
        let wet = if read >= 0.0 {
            let slot = read.floor() as usize;
            memory[slot] + read.fract() * (memory[slot + 1] - memory[slot])
        } else {
            0.0
        };
        let expected = dry + 0.3 * (wet - dry);
        assert!((got - expected).abs() < 1e-4, "sample {}: {} vs {}", n, got, expected);
    }
}

#[test]
fn voice_is_deterministic() {
    assert_eq!(play(500), play(500));
}
