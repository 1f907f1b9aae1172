//! drummr: the verified core of a MIDI drum sound generator — the text
//! command protocol, MIDI note mapping, deferred-trigger scheduling,
//! tempo-division names, MIDI-file note scheduling and the small state
//! machines around them.

pub mod text;
pub mod timing;
pub mod modulation;
pub mod commands;
pub mod mapping;
pub mod scheduler;
pub mod rng;
pub mod names;
pub mod midi_file;
pub mod settings;
pub mod engine;
pub mod analysis;
pub mod midi_in;
pub mod sound;
pub mod ui;
pub mod clock;
