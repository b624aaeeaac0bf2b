use std::sync::mpsc::channel;

use synth_core::control::{control_change, ControlError};
use synth_core::fixed::{Fixed, ONE_RAW};
use synth_core::graph::Change;
use synth_core::midi::{decode, fallback_note, midi_to_freq, MidiMessage, MidiNote};
use synth_core::render::write_data;
use synth_core::sine::sin;
use synth_core::synth::{build_graph, changes_for, AUDIO_OUT};

fn from_f64(value: f64) -> Fixed {
    Fixed::from_raw((value * ONE_RAW as f64).round() as i64)
}

fn sine_table() -> Vec<Fixed> {
    (0..4096).map(|i| from_f64((i as f64 / 4096.0 * std::f64::consts::TAU).sin())).collect()
}

fn tanh_curve() -> Vec<Fixed> {
    (0..2049).map(|i| from_f64((-8.0 + 16.0 * i as f64 / 2048.0).tanh())).collect()
}

#[test]
fn changes_cross_a_channel_and_sound() {
    let (mut graph, params) = build_graph(sine_table(), tanh_curve(), Fixed::from_int(8), 1024);
    graph.prepare(44_100);
    let (sender, receiver) = channel::<Change>();

    // the control side
    for (name, text) in [("attack", "0"), ("decay", "1"), ("sustain", "0.5"), ("distAmount", "1")] {
        let change = control_change(&params, &name.to_string(), text.as_bytes(), 44_100);
        sender.send(change.ok().unwrap()).unwrap();
    }
    let refused = control_change(&params, &"attack".to_string(), "fast".as_bytes(), 44_100);
    assert_eq!(refused, Err(ControlError::ParseError));
    let event = decode(&[144, 69, 100]).unwrap();
    for change in changes_for(&params, event) {
        sender.send(change).unwrap();
    }

    // the render side
    let mut pending: Vec<Change> = vec![];
    while let Ok(change) = receiver.try_recv() {
        pending.push(change);
    }
    assert_eq!(pending.len(), 7);
    graph.apply(&pending);
    let mut block = vec![Fixed::zero(); 2 * 4410];
    let frames = block.len();
    write_data(&mut block[..frames], 2, &mut graph, AUDIO_OUT);
    assert_eq!(graph.held(params.freq), Fixed::from_int(440));
    assert_eq!(graph.held(params.sustain), Fixed::from_ratio(1, 2));
    for frame in block.chunks(2) {
        assert_eq!(frame[0], frame[1]);
        assert!(frame[0].raw.abs() <= ONE_RAW);
    }
    let loudest = block.iter().map(|x| x.raw.abs()).max().unwrap();
    assert!(loudest > ONE_RAW / 4);
}

#[test]
fn changes_for_unknown_endpoints_are_dropped() {
    let (mut graph, params) = build_graph(sine_table(), tanh_curve(), Fixed::from_int(8), 8);
    let changes = vec![
        Change { input: 99, value: Fixed::one() },
        Change { input: params.sustain, value: Fixed::from_ratio(1, 4) },
        Change { input: 9, value: Fixed::one() },
    ];
    graph.apply(&changes);
    graph.render(1);
    assert_eq!(graph.held(params.sustain), Fixed::from_ratio(1, 4));
    for input in 0..9 {
        if input != params.sustain {
            assert_eq!(graph.held(input), Fixed::zero());
        }
    }
}

#[test]
fn note_events_become_three_and_two_changes() {
    let (_, params) = build_graph(vec![], vec![], Fixed::one(), 8);
    let on = changes_for(&params, MidiMessage::NoteOn(MidiNote { note: 57, velocity: 3 }));
    assert_eq!(
        on,
        vec![
            Change { input: params.freq, value: Fixed::from_int(220) },
            Change { input: params.note_on, value: Fixed::one() },
            Change { input: params.note_on, value: Fixed::zero() },
        ]
    );
    let off = changes_for(&params, MidiMessage::NoteOff(MidiNote { note: 57, velocity: 0 }));
    assert_eq!(
        off,
        vec![
            Change { input: params.note_off, value: Fixed::one() },
            Change { input: params.note_off, value: Fixed::zero() },
        ]
    );
}

#[test]
fn fallback_round_plays_the_voice() {
    let (mut graph, params) = build_graph(sine_table(), tanh_curve(), Fixed::from_int(8), 64);
    graph.prepare(44_100);
    for step in 0..6 {
        let (note, _length) = fallback_note(step);
        graph.apply(&changes_for(&params, MidiMessage::NoteOn(note)));
        graph.render(3);
        assert_eq!(graph.held(params.freq), midi_to_freq(note.note));
    }
}

#[test]
fn stateless_sine_depends_on_its_arguments_alone() {
    let table = sine_table();
    let freq = Fixed::from_int(441);
    for clock in [0u32, 1, 25, 50, 75, 99, 100, 12_345] {
        let got = sin(&table, clock, 44_100, freq).raw as f64 / ONE_RAW as f64;
        let expected = (clock as f64 * 441.0 / 44_100.0 * std::f64::consts::TAU).sin();
        assert!((got - expected).abs() < 1e-5, "clock {}", clock);
        assert_eq!(sin(&table, clock, 44_100, freq), sin(&table, clock, 44_100, freq));
    }
    assert_eq!(sin(&table, 25, 44_100, freq).raw, ONE_RAW);
    assert_eq!(sin(&vec![], 25, 44_100, freq), Fixed::zero());
    assert_eq!(sin(&table, 25, 0, freq), Fixed::zero());
}
