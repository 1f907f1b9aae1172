//! Live MIDI input: decoding a raw message, what the input callback does with
//! it, and which raw events the audio thread treats as hits.

use vstd::prelude::*;
use crate::text::{decimal_digits, push_decimal};

verus! {

/// What the input path reads of a MIDI message.
#[derive(Debug, Clone, Copy, PartialEq, Eq, Structural)]
pub enum NoteMessage {
    NoteOn { note: u8, velocity: u8 },
    NoteOff { note: u8 },
    /// Any other message, or bytes that are not a valid message.
    Other,
}

/// How `wmidi::MidiMessage::from_bytes` classifies bytes as far as notes go:
/// a status byte `0x8n` or `0x9n` followed by two data bytes (below `0x80`)
/// is a note-off or note-on, and a note-on with velocity 0 is a note-off.
pub open spec fn spec_note_message(b: Seq<u8>) -> NoteMessage {
    if b.len() >= 3 && b[1] < 0x80 && b[2] < 0x80 {
        if b[0] & 0xF0u8 == 0x80u8 {
            NoteMessage::NoteOff { note: b[1] }
        } else if b[0] & 0xF0u8 == 0x90u8 {
            if b[2] == 0 {
                NoteMessage::NoteOff { note: b[1] }
            } else {
                NoteMessage::NoteOn { note: b[1], velocity: b[2] }
            }
        } else {
            NoteMessage::Other
        }
    } else {
        NoteMessage::Other
    }
}

/// `wmidi::MidiMessage::from_bytes`, read as a note message: claims the
/// classification above (note-off and note-on need a status nibble `8`/`9`
/// and two data bytes; velocity 0 on a note-on gives a note-off).
#[verifier::external_body]
fn decode_note_message(bytes: &[u8]) -> (r: NoteMessage)
    ensures
        r == spec_note_message(bytes@),
{
    match wmidi::MidiMessage::from_bytes(bytes) {
        Ok(wmidi::MidiMessage::NoteOn(_, n, v)) => NoteMessage::NoteOn { note: n.into(), velocity: v.into() },
        Ok(wmidi::MidiMessage::NoteOff(_, n, _)) => NoteMessage::NoteOff { note: n.into() },
        _ => NoteMessage::Other,
    }
}

/// What the input callback does with one message: the raw event it forwards
/// to the audio thread, whether it feeds the tempo detector an onset, and the
/// `(note, velocity)` it reports to the UI.
#[derive(Debug)]
pub struct InputAction {
    pub event: Option<[u8; 3]>,
    pub onset: bool,
    pub report: Option<(u8, u8)>,
}

pub open spec fn event_view(e: Option<[u8; 3]>) -> Option<Seq<u8>> {
    match e {
        Some(a) => Some(a@),
        None => None,
    }
}

/// A note-on is forwarded as `[0x90, note, velocity]` and is an onset when
/// its velocity is non-zero; a note-off is forwarded as `[0x80, note, 0]`;
/// anything else is dropped.
pub open spec fn spec_input_action(m: NoteMessage, a: InputAction) -> bool {
    match m {
        NoteMessage::NoteOn { note, velocity } => {
            &&& event_view(a.event) == Some(seq![0x90u8, note, velocity])
            &&& a.onset == (velocity > 0)
            &&& a.report == Some((note, velocity))
        },
        NoteMessage::NoteOff { note } => {
            &&& event_view(a.event) == Some(seq![0x80u8, note, 0u8])
            &&& !a.onset
            &&& a.report == Some((note, 0u8))
        },
        NoteMessage::Other => {
            &&& a.event is None
            &&& !a.onset
            &&& a.report is None
        },
    }
}

/// The input callback's response to a message.
pub fn input_action(m: NoteMessage) -> (a: InputAction)
    ensures
        spec_input_action(m, a),
{
    match m {
        NoteMessage::NoteOn { note, velocity } => {
            let ev = [0x90u8, note, velocity];
            assert(ev@ =~= seq![0x90u8, note, velocity]);
            InputAction { event: Some(ev), onset: velocity > 0, report: Some((note, velocity)) }
        },
        NoteMessage::NoteOff { note } => {
            let ev = [0x80u8, note, 0u8];
            assert(ev@ =~= seq![0x80u8, note, 0u8]);
            InputAction { event: Some(ev), onset: false, report: Some((note, 0)) }
        },
        NoteMessage::Other => InputAction { event: None, onset: false, report: None },
    }
}

/// The response to raw bytes from the MIDI input port.
pub fn midi_input(bytes: &[u8]) -> (a: InputAction)
    ensures
        spec_input_action(spec_note_message(bytes@), a),
{
    input_action(decode_note_message(bytes))
}

/// The UI line reporting a note: `MIDI: <note>,<velocity>`.
pub fn note_report(note: u8, velocity: u8) -> (r: String)
    ensures
        r@ == "MIDI: "@ + decimal_digits(note as nat) + ","@ + decimal_digits(velocity as nat),
{
    let mut s = String::from_str("MIDI: ");
    push_decimal(&mut s, note as u64);
    s.append(",");
    push_decimal(&mut s, velocity as u64);
    s
}

/// Whether a raw event makes the audio thread fire a note: a note-on status
/// (`0x90..=0x9F`) with non-zero velocity. Note-offs and velocity-0 note-ons
/// are ignored, so drums ring out.
pub fn is_hit_event(ev: [u8; 3]) -> (r: bool)
    ensures
        r == (0x90 <= ev@[0] <= 0x9F && ev@[2] > 0),
{
    let status = ev[0];
    0x90 <= status && status <= 0x9F && ev[2] > 0
}

} // verus!
