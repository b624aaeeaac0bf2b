//! MIDI events and what the synthesizer makes of them.
//!
//! Raw MIDI messages are decoded into note events; a note number is mapped to
//! a frequency in equal temperament, with note 69 at 440 Hz; and when no MIDI
//! device can be had, a fixed round of notes keeps the audio path busy.

use vstd::prelude::*;
use vstd::arithmetic::power2::{lemma2_to64, lemma_pow2_pos, lemma_pow2_strictly_increases, lemma_pow2_unfold, pow2};
use crate::fixed::{Fixed, ONE_RAW};

verus! {

/// A note and the velocity it was struck or released with.
#[derive(Clone, Copy, PartialEq, Eq, Structural, Debug)]
pub struct MidiNote {
    pub note: u8,
    pub velocity: u8,
}

/// A note event.
#[derive(Clone, Copy, PartialEq, Eq, Structural, Debug)]
pub enum MidiMessage {
    NoteOn(MidiNote),
    NoteOff(MidiNote),
}

/// The status byte of a note-on message on the first channel.
pub const NOTE_ON_STATUS: u8 = 144;

/// The event a raw message stands for. Only note-on messages of at least
/// three bytes count: the second byte is the note, the third the velocity, and
/// a velocity of zero makes the message a note-off. Every other message stands
/// for nothing.
pub open spec fn decoded(message: Seq<u8>) -> Option<MidiMessage> {
    if message.len() >= 3 && message[0] == NOTE_ON_STATUS {
        let note = MidiNote { note: message[1], velocity: message[2] };
        if message[2] > 0 {
            Some(MidiMessage::NoteOn(note))
        } else {
            Some(MidiMessage::NoteOff(note))
        }
    } else {
        None
    }
}

/// Decodes a raw message.
pub fn decode(message: &[u8]) -> (r: Option<MidiMessage>)
    ensures
        r == decoded(message@),
{
    if message.len() >= 3 && message[0] == NOTE_ON_STATUS {
        let note = MidiNote { note: message[1], velocity: message[2] };
        if message[2] > 0 {
            Some(MidiMessage::NoteOn(note))
        } else {
            Some(MidiMessage::NoteOff(note))
        }
    } else {
        None
    }
}

/// The octave whose frequencies are tabulated: notes 252 to 263.
pub const TOP_OCTAVE: u8 = 21;

/// The frequency of the note of pitch class `class` in the tabulated octave,
/// as a raw encoding: 440 Hz times two to the power of a twelfth of the
/// note's distance from note 69, rounded to the nearest encoding.
pub open spec fn top_octave_raw(class: int) -> int {
    if class == 0 {
        73641049899898211
    } else if class == 1 {
        78019974598813430
    } else if class == 2 {
        82659283710292492
    } else if class == 3 {
        87574460497229373
    } else if class == 4 {
        92781908905240499
    } else if class == 5 {
        98299008309308352
    } else if class == 6 {
        104144171515829904
    } else if class == 7 {
        110336906213646328
    } else if class == 8 {
        116897880079141091
    } else if class == 9 {
        123848989752688640
    } else if class == 10 {
        131213433916656157
    } else {
        139015790718849436
    }
}

/// The frequency of a note in Hz, as a raw encoding: the frequency of its
/// pitch class in the tabulated octave, halved once for every octave the note
/// lies below it, and rounded down.
pub open spec fn frequency_raw(note: int) -> int {
    top_octave_raw(note % 12) / (pow2((TOP_OCTAVE - note / 12) as nat) as int)
}

fn top_octave(class: u8) -> (r: i64)
    requires
        class < 12,
    ensures
        r == top_octave_raw(class as int),
{
    if class == 0 {
        73641049899898211
    } else if class == 1 {
        78019974598813430
    } else if class == 2 {
        82659283710292492
    } else if class == 3 {
        87574460497229373
    } else if class == 4 {
        92781908905240499
    } else if class == 5 {
        98299008309308352
    } else if class == 6 {
        104144171515829904
    } else if class == 7 {
        110336906213646328
    } else if class == 8 {
        116897880079141091
    } else if class == 9 {
        123848989752688640
    } else if class == 10 {
        131213433916656157
    } else {
        139015790718849436
    }
}

/// The frequency of a note in Hz.
pub fn midi_to_freq(midi_note: u8) -> (r: Fixed)
    ensures
        r@ == frequency_raw(midi_note as int),
        r@ > 0,
{
    let class: u8 = midi_note % 12;
    let octave: u8 = midi_note / 12;
    let top: i64 = top_octave(class);
    let times: u8 = TOP_OCTAVE - octave;
    let mut divisor: i64 = 1;
    let mut done: u8 = 0;
    proof {
        lemma2_to64();
    }
    while done < times
        invariant
            done <= times <= 21,
            divisor == pow2(done as nat),
            0 < divisor <= 0x20_0000,
            pow2(21) == 0x20_0000,
        decreases times - done,
    {
        proof {
            lemma_pow2_unfold((done + 1) as nat);
            if done + 1 < 21 {
                lemma_pow2_strictly_increases((done + 1) as nat, 21);
            }
        }
        divisor = divisor * 2;
        done = done + 1;
    }
    let raw: i64 = top / divisor;
    assert(raw > 0) by (nonlinear_arith)
        requires
            raw == top / divisor,
            top >= 0x20_0000,
            0 < divisor <= 0x20_0000,
    ;
    Fixed::from_raw(raw)
}

/// Note 69 sounds at 440 Hz and note 57 at 220 Hz, exactly.
pub proof fn lemma_concert_pitch()
    ensures
        frequency_raw(69) == 440 * ONE_RAW,
        frequency_raw(57) == 220 * ONE_RAW,
{
    lemma2_to64();
    assert(top_octave_raw(9) == 123848989752688640);
    assert(frequency_raw(69) == top_octave_raw(9) / (pow2(16) as int));
    assert(frequency_raw(57) == top_octave_raw(9) / (pow2(17) as int));
    assert(123848989752688640int / 65536 == 440 * 4294967296);
    assert(123848989752688640int / 131072 == 220 * 4294967296);
}

/// A note sounds at half the frequency of the note an octave above it, but
/// for the rounding.
pub proof fn lemma_octave_halves(note: int)
    requires
        0 <= note,
        note + 12 <= 255,
    ensures
        frequency_raw(note) == frequency_raw(note + 12) / 2,
{
    let above = (TOP_OCTAVE - (note + 12) / 12) as nat;
    assert((note + 12) % 12 == note % 12);
    assert((note + 12) / 12 == note / 12 + 1);
    lemma_pow2_unfold(above + 1);
    lemma_pow2_pos(above);
    vstd::arithmetic::div_mod::lemma_div_denominator(
        top_octave_raw(note % 12),
        pow2(above) as int,
        2,
    );
}

/// No input port, or no port of the number that was asked for.
#[derive(Clone, Copy, PartialEq, Eq, Structural, Debug)]
pub enum PortError {
    /// There is no input port at all.
    NoInputPort,
    /// Several ports are there and none was asked for, or the number asked
    /// for is not the number of a port.
    NoSuchPort,
}

/// Whether the user has to be asked which of `count` input ports to open:
/// only where there is more than one.
pub fn must_ask(count: usize) -> (r: bool)
    ensures
        r == (count > 1),
{
    count > 1
}

/// The input port to open out of `count`: the only one where there is one,
/// else the one that was asked for.
pub fn select_port(count: usize, asked: Option<usize>) -> (r: Result<usize, PortError>)
    ensures
        r == (if count == 0 {
            Err::<usize, PortError>(PortError::NoInputPort)
        } else if count == 1 {
            Ok(0usize)
        } else {
            match asked {
                Some(port) if port < count => Ok(port),
                _ => Err(PortError::NoSuchPort),
            }
        }),
{
    if count == 0 {
        Err(PortError::NoInputPort)
    } else if count == 1 {
        Ok(0)
    } else {
        match asked {
            Some(port) => {
                if port < count {
                    Ok(port)
                } else {
                    Err(PortError::NoSuchPort)
                }
            },
            None => Err(PortError::NoSuchPort),
        }
    }
}

/// The number of notes in the round played when there is no MIDI device.
pub const FALLBACK_NOTES: usize = 6;

/// The `step`-th note of the round played when there is no MIDI device, and
/// its length in milliseconds. The round repeats after six notes.
pub open spec fn fallback(step: int) -> (MidiNote, u64) {
    let at = step % 6;
    if at == 0 {
        (MidiNote { note: 32, velocity: 1 }, 200)
    } else if at == 1 {
        (MidiNote { note: 33, velocity: 1 }, 200)
    } else if at == 2 {
        (MidiNote { note: 35, velocity: 1 }, 200)
    } else if at == 3 {
        (MidiNote { note: 37, velocity: 1 }, 200)
    } else if at == 4 {
        (MidiNote { note: 43, velocity: 1 }, 100)
    } else {
        (MidiNote { note: 44, velocity: 1 }, 100)
    }
}

/// The `step`-th note of the fallback round and its length in milliseconds.
pub fn fallback_note(step: usize) -> (r: (MidiNote, u64))
    ensures
        r == fallback(step as int),
{
    let at: usize = step % FALLBACK_NOTES;
    if at == 0 {
        (MidiNote { note: 32, velocity: 1 }, 200)
    } else if at == 1 {
        (MidiNote { note: 33, velocity: 1 }, 200)
    } else if at == 2 {
        (MidiNote { note: 35, velocity: 1 }, 200)
    } else if at == 3 {
        (MidiNote { note: 37, velocity: 1 }, 200)
    } else if at == 4 {
        (MidiNote { note: 43, velocity: 1 }, 100)
    } else {
        (MidiNote { note: 44, velocity: 1 }, 100)
    }
}

} // verus!
