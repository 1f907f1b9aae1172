//! Machine-local settings: last chosen MIDI port, audio device and host, and
//! the requested audio buffer size.

use vstd::prelude::*;

verus! {

#[derive(Debug, Clone)]
pub struct Settings {
    pub last_midi_port: Option<String>,
    pub last_audio_device: Option<String>,
    pub audio_host: Option<String>,
    pub buffer_size: Option<u32>,
}

/// The settings used when none are stored: nothing remembered, a 128-frame
/// buffer.
pub open spec fn is_default_settings(s: Settings) -> bool {
    &&& s.last_midi_port is None
    &&& s.last_audio_device is None
    &&& s.audio_host is None
    &&& s.buffer_size == Some(128u32)
}

impl Default for Settings {
    fn default() -> (r: Self)
        ensures
            is_default_settings(r),
    {
        Settings { last_midi_port: None, last_audio_device: None, audio_host: None, buffer_size: Some(128) }
    }
}

impl Settings {
    /// The settings in force given what reading and decoding the settings
    /// file produced: the stored settings, or the defaults when the file is
    /// missing, unreadable or malformed.
    pub fn load(stored: Option<Settings>) -> (r: Settings)
        ensures
            match stored {
                Some(s) => r == s,
                None => is_default_settings(r),
            },
    {
        match stored {
            Some(s) => s,
            None => Settings::default(),
        }
    }
}

/// The stream buffer size, in frames, for a device whose supported range
/// is `[min, max]`: the requested size (256 when none is stored) clamped to
/// that range.
pub fn fixed_buffer_size(requested: Option<u32>, min: u32, max: u32) -> (r: u32)
    requires
        min <= max,
    ensures
        ({
            let t = match requested {
                Some(n) => n,
                None => 256u32,
            };
            r == if t < min {
                min
            } else if t > max {
                max
            } else {
                t
            }
        }),
{
    let t = match requested {
        Some(n) => n,
        None => 256,
    };
    if t < min {
        min
    } else if t > max {
        max
    } else {
        t
    }
}

} // verus!
