use synth_core::fixed::{Fixed, ONE_RAW};
use synth_core::midi::{
    decode, fallback_note, midi_to_freq, must_ask, select_port, MidiMessage, MidiNote, PortError,
};

fn to_f64(x: Fixed) -> f64 {
    x.raw as f64 / ONE_RAW as f64
}

#[test]
fn note_69_is_concert_pitch() {
    assert_eq!(midi_to_freq(69).raw, 440 * ONE_RAW);
    assert_eq!(midi_to_freq(57).raw, 220 * ONE_RAW);
    assert_eq!(midi_to_freq(81).raw, 880 * ONE_RAW);
}

#[test]
fn frequencies_follow_equal_temperament() {
    for note in 0u8..=255 {
        let expected = 2f64.powf((note as f64 + 36.376_316_562_295_91) / 12.0);
        let got = to_f64(midi_to_freq(note));
        assert!((got - expected).abs() <= expected * 1e-9, "note {}: {} vs {}", note, got, expected);
    }
}

#[test]
fn an_octave_doubles_the_frequency() {
    for note in 0u8..=243 {
        assert_eq!(midi_to_freq(note).raw, midi_to_freq(note + 12).raw / 2);
    }
}

#[test]
fn frequencies_rise_with_the_note() {
    for note in 0u8..255 {
        assert!(midi_to_freq(note).raw < midi_to_freq(note + 1).raw);
    }
}

#[test]
fn note_on_with_velocity_is_a_note_on() {
    assert_eq!(
        decode(&[144, 60, 100]),
        Some(MidiMessage::NoteOn(MidiNote { note: 60, velocity: 100 }))
    );
    assert_eq!(
        decode(&[144, 60, 1, 7, 7]),
        Some(MidiMessage::NoteOn(MidiNote { note: 60, velocity: 1 }))
    );
}

#[test]
fn note_on_without_velocity_is_a_note_off() {
    assert_eq!(
        decode(&[144, 61, 0]),
        Some(MidiMessage::NoteOff(MidiNote { note: 61, velocity: 0 }))
    );
}

#[test]
fn other_messages_are_ignored() {
    assert_eq!(decode(&[]), None);
    assert_eq!(decode(&[144]), None);
    assert_eq!(decode(&[144, 60]), None);
    assert_eq!(decode(&[128, 60, 64]), None);
    assert_eq!(decode(&[145, 60, 64]), None);
    assert_eq!(decode(&[176, 1, 64]), None);
}

#[test]
fn port_selection_follows_the_number_of_ports() {
    assert_eq!(select_port(0, None), Err(PortError::NoInputPort));
    assert_eq!(select_port(0, Some(0)), Err(PortError::NoInputPort));
    assert_eq!(select_port(1, None), Ok(0));
    assert_eq!(select_port(1, Some(5)), Ok(0));
    assert_eq!(select_port(3, Some(2)), Ok(2));
    assert_eq!(select_port(3, Some(3)), Err(PortError::NoSuchPort));
    assert_eq!(select_port(3, None), Err(PortError::NoSuchPort));
    assert!(!must_ask(0));
    assert!(!must_ask(1));
    assert!(must_ask(2));
}

#[test]
fn fallback_round_repeats_after_six_notes() {
    let expected: [(u8, u64); 6] = [(32, 200), (33, 200), (35, 200), (37, 200), (43, 100), (44, 100)];
    for step in 0..18 {
        let (note, length) = fallback_note(step);
        assert_eq!(note, MidiNote { note: expected[step % 6].0, velocity: 1 });
        assert_eq!(length, expected[step % 6].1);
    }
}
