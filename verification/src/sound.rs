//! How a `SET_PARAM` edit is routed: to which audio-thread command, to which
//! field of the stored sound, and under which value rule.

use vstd::prelude::*;
use crate::text::{chars_of, chars_equal};

verus! {

/// The audio-thread command a `SET_PARAM` edit becomes.
#[derive(Debug, Clone, Copy, PartialEq, Eq, Structural)]
pub enum ParamRoute {
    /// Post-FX parameters: `bits`, `rate`, `attack_shaper`, `sustain_shaper`.
    PostFx,
    /// Generative trigger settings: the two probabilities, the ghost offset
    /// and the ghost velocity factor.
    Generative,
    /// Everything else goes to the slot (level, drive, mute) or its voice.
    Voice,
}

pub open spec fn spec_param_route(p: Seq<char>) -> ParamRoute {
    if p == "bits"@ || p == "rate"@ || p == "attack_shaper"@ || p == "sustain_shaper"@ {
        ParamRoute::PostFx
    } else if p == "trigger_probability"@ || p == "ghost_probability"@ || p == "ghost_offset_ms"@
        || p == "ghost_velocity_factor"@ {
        ParamRoute::Generative
    } else {
        ParamRoute::Voice
    }
}

/// Route a `SET_PARAM` edit.
pub fn param_route(param: &str) -> (r: ParamRoute)
    ensures
        r == spec_param_route(param@),
{
    let v = chars_of(param);
    if chars_equal(&v, "bits") || chars_equal(&v, "rate") || chars_equal(&v, "attack_shaper")
        || chars_equal(&v, "sustain_shaper") {
        ParamRoute::PostFx
    } else if chars_equal(&v, "trigger_probability") || chars_equal(&v, "ghost_probability")
        || chars_equal(&v, "ghost_offset_ms") || chars_equal(&v, "ghost_velocity_factor") {
        ParamRoute::Generative
    } else {
        ParamRoute::Voice
    }
}

/// A field of the stored sound that `SET_PARAM` can change.
#[derive(Debug, Clone, Copy, PartialEq, Eq, Structural)]
pub enum SoundField {
    EngineType,
    Freq,
    ModRatio,
    ModIndex,
    NoiseLevel,
    Brightness,
    Dampening,
    Density,
    GrainSize,
    Jitter,
    NoiseColor,
    Metallic,
    Inharmonicity,
    Bits,
    Rate,
    AttackShaper,
    SustainShaper,
    Attack,
    Decay,
    Lfo1Freq,
    Lfo2Freq,
    TriggerProbability,
    GhostProbability,
    GhostOffsetMs,
    GhostVelocityFactor,
    Level,
    Drive,
    Mute,
}

/// How the number of a `SET_PARAM` edit is stored into a field.
#[derive(Debug, Clone, Copy, PartialEq, Eq, Structural)]
pub enum ValueRule {
    /// The engine name is the command's text itself; the voice is rebuilt.
    Text,
    /// The number, stored as it is.
    Plain,
    /// The number, stored as a present optional value.
    Optional,
    /// Clamped to `[-1, 1]`.
    Bipolar,
    /// Clamped to `[0, 1]`.
    Unit,
    /// Raised to at least 0.
    NonNegative,
    /// Clamped to `[0, 2]`.
    Gain,
    /// On when the number exceeds one half.
    Switch,
}

/// The field a parameter name edits; other names edit nothing.
pub open spec fn spec_sound_field(p: Seq<char>) -> Option<SoundField> {
    if p == "engine_type"@ {
        Some(SoundField::EngineType)
    } else if p == "freq"@ {
        Some(SoundField::Freq)
    } else if p == "mod_ratio"@ {
        Some(SoundField::ModRatio)
    } else if p == "mod_index"@ {
        Some(SoundField::ModIndex)
    } else if p == "noise_level"@ {
        Some(SoundField::NoiseLevel)
    } else if p == "brightness"@ {
        Some(SoundField::Brightness)
    } else if p == "dampening"@ {
        Some(SoundField::Dampening)
    } else if p == "density"@ {
        Some(SoundField::Density)
    } else if p == "grain_size"@ {
        Some(SoundField::GrainSize)
    } else if p == "jitter"@ {
        Some(SoundField::Jitter)
    } else if p == "noise_color"@ {
        Some(SoundField::NoiseColor)
    } else if p == "metallic"@ {
        Some(SoundField::Metallic)
    } else if p == "inharmonicity"@ {
        Some(SoundField::Inharmonicity)
    } else if p == "bits"@ {
        Some(SoundField::Bits)
    } else if p == "rate"@ {
        Some(SoundField::Rate)
    } else if p == "attack_shaper"@ {
        Some(SoundField::AttackShaper)
    } else if p == "sustain_shaper"@ {
        Some(SoundField::SustainShaper)
    } else if p == "attack"@ {
        Some(SoundField::Attack)
    } else if p == "decay"@ {
        Some(SoundField::Decay)
    } else if p == "lfo1_freq"@ {
        Some(SoundField::Lfo1Freq)
    } else if p == "lfo2_freq"@ {
        Some(SoundField::Lfo2Freq)
    } else if p == "trigger_probability"@ {
        Some(SoundField::TriggerProbability)
    } else if p == "ghost_probability"@ {
        Some(SoundField::GhostProbability)
    } else if p == "ghost_offset_ms"@ {
        Some(SoundField::GhostOffsetMs)
    } else if p == "ghost_velocity_factor"@ {
        Some(SoundField::GhostVelocityFactor)
    } else if p == "level"@ {
        Some(SoundField::Level)
    } else if p == "drive"@ {
        Some(SoundField::Drive)
    } else if p == "mute"@ {
        Some(SoundField::Mute)
    } else {
        None
    }
}

/// The field a parameter name edits.
pub fn sound_field(param: &str) -> (r: Option<SoundField>)
    ensures
        r == spec_sound_field(param@),
{
    let v = chars_of(param);
    if chars_equal(&v, "engine_type") {
        Some(SoundField::EngineType)
    } else if chars_equal(&v, "freq") {
        Some(SoundField::Freq)
    } else if chars_equal(&v, "mod_ratio") {
        Some(SoundField::ModRatio)
    } else if chars_equal(&v, "mod_index") {
        Some(SoundField::ModIndex)
    } else if chars_equal(&v, "noise_level") {
        Some(SoundField::NoiseLevel)
    } else if chars_equal(&v, "brightness") {
        Some(SoundField::Brightness)
    } else if chars_equal(&v, "dampening") {
        Some(SoundField::Dampening)
    } else if chars_equal(&v, "density") {
        Some(SoundField::Density)
    } else if chars_equal(&v, "grain_size") {
        Some(SoundField::GrainSize)
    } else if chars_equal(&v, "jitter") {
        Some(SoundField::Jitter)
    } else if chars_equal(&v, "noise_color") {
        Some(SoundField::NoiseColor)
    } else if chars_equal(&v, "metallic") {
        Some(SoundField::Metallic)
    } else if chars_equal(&v, "inharmonicity") {
        Some(SoundField::Inharmonicity)
    } else if chars_equal(&v, "bits") {
        Some(SoundField::Bits)
    } else if chars_equal(&v, "rate") {
        Some(SoundField::Rate)
    } else if chars_equal(&v, "attack_shaper") {
        Some(SoundField::AttackShaper)
    } else if chars_equal(&v, "sustain_shaper") {
        Some(SoundField::SustainShaper)
    } else if chars_equal(&v, "attack") {
        Some(SoundField::Attack)
    } else if chars_equal(&v, "decay") {
        Some(SoundField::Decay)
    } else if chars_equal(&v, "lfo1_freq") {
        Some(SoundField::Lfo1Freq)
    } else if chars_equal(&v, "lfo2_freq") {
        Some(SoundField::Lfo2Freq)
    } else if chars_equal(&v, "trigger_probability") {
        Some(SoundField::TriggerProbability)
    } else if chars_equal(&v, "ghost_probability") {
        Some(SoundField::GhostProbability)
    } else if chars_equal(&v, "ghost_offset_ms") {
        Some(SoundField::GhostOffsetMs)
    } else if chars_equal(&v, "ghost_velocity_factor") {
        Some(SoundField::GhostVelocityFactor)
    } else if chars_equal(&v, "level") {
        Some(SoundField::Level)
    } else if chars_equal(&v, "drive") {
        Some(SoundField::Drive)
    } else if chars_equal(&v, "mute") {
        Some(SoundField::Mute)
    } else {
        None
    }
}

/// The rule under which a field stores the edited number.
pub open spec fn spec_value_rule(f: SoundField) -> ValueRule {
    match f {
        SoundField::EngineType => ValueRule::Text,
        SoundField::Freq => ValueRule::Plain,
        SoundField::ModRatio => ValueRule::Optional,
        SoundField::ModIndex => ValueRule::Optional,
        SoundField::NoiseLevel => ValueRule::Optional,
        SoundField::Brightness => ValueRule::Optional,
        SoundField::Dampening => ValueRule::Optional,
        SoundField::Density => ValueRule::Optional,
        SoundField::GrainSize => ValueRule::Optional,
        SoundField::Jitter => ValueRule::Optional,
        SoundField::NoiseColor => ValueRule::Optional,
        SoundField::Metallic => ValueRule::Optional,
        SoundField::Inharmonicity => ValueRule::Optional,
        SoundField::Bits => ValueRule::Optional,
        SoundField::Rate => ValueRule::Optional,
        SoundField::AttackShaper => ValueRule::Bipolar,
        SoundField::SustainShaper => ValueRule::Bipolar,
        SoundField::Attack => ValueRule::Plain,
        SoundField::Decay => ValueRule::Plain,
        SoundField::Lfo1Freq => ValueRule::Optional,
        SoundField::Lfo2Freq => ValueRule::Optional,
        SoundField::TriggerProbability => ValueRule::Unit,
        SoundField::GhostProbability => ValueRule::Unit,
        SoundField::GhostOffsetMs => ValueRule::NonNegative,
        SoundField::GhostVelocityFactor => ValueRule::Unit,
        SoundField::Level => ValueRule::Gain,
        SoundField::Drive => ValueRule::Unit,
        SoundField::Mute => ValueRule::Switch,
    }
}

/// The rule under which a field stores the edited number.
pub fn value_rule(f: SoundField) -> (r: ValueRule)
    ensures
        r == spec_value_rule(f),
{
    match f {
        SoundField::EngineType => ValueRule::Text,
        SoundField::Freq => ValueRule::Plain,
        SoundField::ModRatio => ValueRule::Optional,
        SoundField::ModIndex => ValueRule::Optional,
        SoundField::NoiseLevel => ValueRule::Optional,
        SoundField::Brightness => ValueRule::Optional,
        SoundField::Dampening => ValueRule::Optional,
        SoundField::Density => ValueRule::Optional,
        SoundField::GrainSize => ValueRule::Optional,
        SoundField::Jitter => ValueRule::Optional,
        SoundField::NoiseColor => ValueRule::Optional,
        SoundField::Metallic => ValueRule::Optional,
        SoundField::Inharmonicity => ValueRule::Optional,
        SoundField::Bits => ValueRule::Optional,
        SoundField::Rate => ValueRule::Optional,
        SoundField::AttackShaper => ValueRule::Bipolar,
        SoundField::SustainShaper => ValueRule::Bipolar,
        SoundField::Attack => ValueRule::Plain,
        SoundField::Decay => ValueRule::Plain,
        SoundField::Lfo1Freq => ValueRule::Optional,
        SoundField::Lfo2Freq => ValueRule::Optional,
        SoundField::TriggerProbability => ValueRule::Unit,
        SoundField::GhostProbability => ValueRule::Unit,
        SoundField::GhostOffsetMs => ValueRule::NonNegative,
        SoundField::GhostVelocityFactor => ValueRule::Unit,
        SoundField::Level => ValueRule::Gain,
        SoundField::Drive => ValueRule::Unit,
        SoundField::Mute => ValueRule::Switch,
    }
}

/// How many of `n` configured entries one trigger queues, under a cap.
pub fn capped_count(n: usize, cap: usize) -> (r: usize)
    ensures
        r == if n < cap {
            n
        } else {
            cap
        },
{
    if n < cap {
        n
    } else {
        cap
    }
}

/// Where `KitEngine::set_param` sends an edit: the slot's level, drive or mute,
/// or the slot's voice.
#[derive(Debug, Clone, Copy, PartialEq, Eq, Structural)]
pub enum SlotParam {
    Level,
    Drive,
    Mute,
    Voice,
}

pub open spec fn spec_slot_param(p: Seq<char>) -> SlotParam {
    if p == "level"@ {
        SlotParam::Level
    } else if p == "drive"@ {
        SlotParam::Drive
    } else if p == "mute"@ {
        SlotParam::Mute
    } else {
        SlotParam::Voice
    }
}

/// Where a slot parameter edit goes.
pub fn slot_param(param: &str) -> (r: SlotParam)
    ensures
        r == spec_slot_param(param@),
{
    let v = chars_of(param);
    if chars_equal(&v, "level") {
        SlotParam::Level
    } else if chars_equal(&v, "drive") {
        SlotParam::Drive
    } else if chars_equal(&v, "mute") {
        SlotParam::Mute
    } else {
        SlotParam::Voice
    }
}

/// A generative trigger setting of a slot.
#[derive(Debug, Clone, Copy, PartialEq, Eq, Structural)]
pub enum GenerativeParam {
    TriggerProbability,
    GhostProbability,
    GhostOffsetMs,
    GhostVelocityFactor,
}

pub open spec fn spec_generative_param(p: Seq<char>) -> Option<GenerativeParam> {
    if p == "trigger_probability"@ {
        Some(GenerativeParam::TriggerProbability)
    } else if p == "ghost_probability"@ {
        Some(GenerativeParam::GhostProbability)
    } else if p == "ghost_offset_ms"@ {
        Some(GenerativeParam::GhostOffsetMs)
    } else if p == "ghost_velocity_factor"@ {
        Some(GenerativeParam::GhostVelocityFactor)
    } else {
        None
    }
}

/// The generative setting a name denotes; other names change nothing.
pub fn generative_param(param: &str) -> (r: Option<GenerativeParam>)
    ensures
        r == spec_generative_param(param@),
{
    let v = chars_of(param);
    if chars_equal(&v, "trigger_probability") {
        Some(GenerativeParam::TriggerProbability)
    } else if chars_equal(&v, "ghost_probability") {
        Some(GenerativeParam::GhostProbability)
    } else if chars_equal(&v, "ghost_offset_ms") {
        Some(GenerativeParam::GhostOffsetMs)
    } else if chars_equal(&v, "ghost_velocity_factor") {
        Some(GenerativeParam::GhostVelocityFactor)
    } else {
        None
    }
}

/// A post-FX setting of a slot.
#[derive(Debug, Clone, Copy, PartialEq, Eq, Structural)]
pub enum PostFxParam {
    Bits,
    Rate,
    AttackShaper,
    SustainShaper,
}

pub open spec fn spec_postfx_param(p: Seq<char>) -> Option<PostFxParam> {
    if p == "bits"@ {
        Some(PostFxParam::Bits)
    } else if p == "rate"@ {
        Some(PostFxParam::Rate)
    } else if p == "attack_shaper"@ {
        Some(PostFxParam::AttackShaper)
    } else if p == "sustain_shaper"@ {
        Some(PostFxParam::SustainShaper)
    } else {
        None
    }
}

/// The post-FX setting a name denotes; other names change nothing.
pub fn postfx_param(param: &str) -> (r: Option<PostFxParam>)
    ensures
        r == spec_postfx_param(param@),
{
    let v = chars_of(param);
    if chars_equal(&v, "bits") {
        Some(PostFxParam::Bits)
    } else if chars_equal(&v, "rate") {
        Some(PostFxParam::Rate)
    } else if chars_equal(&v, "attack_shaper") {
        Some(PostFxParam::AttackShaper)
    } else if chars_equal(&v, "sustain_shaper") {
        Some(PostFxParam::SustainShaper)
    } else {
        None
    }
}

/// One sample of the sample-rate reducer's zero-order hold with a divisor of
/// at least 2: the input is captured when the counter is at zero, and the
/// counter then advances modulo the divisor.
pub fn hold_step(hold_counter: u32, divisor: u32) -> (r: (bool, u32))
    requires
        divisor >= 2,
        hold_counter < u32::MAX,
    ensures
        r.0 == (hold_counter == 0),
        r.1 == (hold_counter + 1) % (divisor as int),
        r.1 < divisor,
{
    (hold_counter == 0, (hold_counter + 1) % divisor)
}

/// The delay-line length used for a pitch: clamped to `[2, len - 1]`.
pub fn clamp_delay_length(l: usize, len: usize) -> (r: usize)
    requires
        len >= 3,
    ensures
        r == if l < 2 {
            2
        } else if l > len - 1 {
            (len - 1) as usize
        } else {
            l
        },
{
    if l < 2 {
        2
    } else if l > len - 1 {
        len - 1
    } else {
        l
    }
}

/// The Karplus-Strong read positions for a delay of `l` samples behind the
/// write position on a ring of `len` samples: the delayed sample and the one
/// before it.
pub fn delay_read_positions(write_pos: usize, len: usize, l: usize) -> (r: (usize, usize))
    requires
        write_pos < len,
        1 <= l < len,
        len <= usize::MAX / 2,
    ensures
        r.0 == (write_pos + len - l) % (len as int),
        r.1 == (r.0 + len - 1) % (len as int),
        r.0 < len,
        r.1 < len,
{
    let read = (write_pos + len - l) % len;
    let prev = (read + len - 1) % len;
    (read, prev)
}

/// The write position after one sample.
pub fn delay_advance(write_pos: usize, len: usize) -> (r: usize)
    requires
        write_pos < len,
    ensures
        r == (write_pos + 1) % (len as int),
        r < len,
{
    (write_pos + 1) % len
}

/// Each parameter name edits its own stored field, and of the names only
/// `level`, `drive` and `mute` edit the slot rather than the voice.
pub proof fn lemma_field_names()
    ensures
        spec_sound_field("engine_type"@) == Some(SoundField::EngineType),
        spec_sound_field("freq"@) == Some(SoundField::Freq),
        spec_sound_field("mod_ratio"@) == Some(SoundField::ModRatio),
        spec_sound_field("mod_index"@) == Some(SoundField::ModIndex),
        spec_sound_field("noise_level"@) == Some(SoundField::NoiseLevel),
        spec_sound_field("brightness"@) == Some(SoundField::Brightness),
        spec_sound_field("dampening"@) == Some(SoundField::Dampening),
        spec_sound_field("density"@) == Some(SoundField::Density),
        spec_sound_field("grain_size"@) == Some(SoundField::GrainSize),
        spec_sound_field("jitter"@) == Some(SoundField::Jitter),
        spec_sound_field("noise_color"@) == Some(SoundField::NoiseColor),
        spec_sound_field("metallic"@) == Some(SoundField::Metallic),
        spec_sound_field("inharmonicity"@) == Some(SoundField::Inharmonicity),
        spec_sound_field("bits"@) == Some(SoundField::Bits),
        spec_sound_field("rate"@) == Some(SoundField::Rate),
        spec_sound_field("attack_shaper"@) == Some(SoundField::AttackShaper),
        spec_sound_field("sustain_shaper"@) == Some(SoundField::SustainShaper),
        spec_sound_field("attack"@) == Some(SoundField::Attack),
        spec_sound_field("decay"@) == Some(SoundField::Decay),
        spec_sound_field("lfo1_freq"@) == Some(SoundField::Lfo1Freq),
        spec_sound_field("lfo2_freq"@) == Some(SoundField::Lfo2Freq),
        spec_sound_field("trigger_probability"@) == Some(SoundField::TriggerProbability),
        spec_sound_field("ghost_probability"@) == Some(SoundField::GhostProbability),
        spec_sound_field("ghost_offset_ms"@) == Some(SoundField::GhostOffsetMs),
        spec_sound_field("ghost_velocity_factor"@) == Some(SoundField::GhostVelocityFactor),
        spec_sound_field("level"@) == Some(SoundField::Level),
        spec_sound_field("drive"@) == Some(SoundField::Drive),
        spec_sound_field("mute"@) == Some(SoundField::Mute),
        spec_slot_param("level"@) == SlotParam::Level,
        spec_slot_param("drive"@) == SlotParam::Drive,
        spec_slot_param("mute"@) == SlotParam::Mute,
{
    reveal_strlit("engine_type");
    reveal_strlit("freq");
    reveal_strlit("mod_ratio");
    reveal_strlit("mod_index");
    reveal_strlit("noise_level");
    reveal_strlit("brightness");
    reveal_strlit("dampening");
    reveal_strlit("density");
    reveal_strlit("grain_size");
    reveal_strlit("jitter");
    reveal_strlit("noise_color");
    reveal_strlit("metallic");
    reveal_strlit("inharmonicity");
    reveal_strlit("bits");
    reveal_strlit("rate");
    reveal_strlit("attack_shaper");
    reveal_strlit("sustain_shaper");
    reveal_strlit("attack");
    reveal_strlit("decay");
    reveal_strlit("lfo1_freq");
    reveal_strlit("lfo2_freq");
    reveal_strlit("trigger_probability");
    reveal_strlit("ghost_probability");
    reveal_strlit("ghost_offset_ms");
    reveal_strlit("ghost_velocity_factor");
    reveal_strlit("level");
    reveal_strlit("drive");
    reveal_strlit("mute");
    assert("engine_type"@.len() == 11);
    assert("freq"@.len() == 4);
    assert("mod_ratio"@.len() == 9);
    assert("mod_index"@.len() == 9);
    assert("noise_level"@.len() == 11);
    assert("brightness"@.len() == 10);
    assert("dampening"@.len() == 9);
    assert("density"@.len() == 7);
    assert("grain_size"@.len() == 10);
    assert("jitter"@.len() == 6);
    assert("noise_color"@.len() == 11);
    assert("metallic"@.len() == 8);
    assert("inharmonicity"@.len() == 13);
    assert("bits"@.len() == 4);
    assert("rate"@.len() == 4);
    assert("attack_shaper"@.len() == 13);
    assert("sustain_shaper"@.len() == 14);
    assert("attack"@.len() == 6);
    assert("decay"@.len() == 5);
    assert("lfo1_freq"@.len() == 9);
    assert("lfo2_freq"@.len() == 9);
    assert("trigger_probability"@.len() == 19);
    assert("ghost_probability"@.len() == 17);
    assert("ghost_offset_ms"@.len() == 15);
    assert("ghost_velocity_factor"@.len() == 21);
    assert("level"@.len() == 5);
    assert("drive"@.len() == 5);
    assert("mute"@.len() == 4);
    assert(spec_sound_field("engine_type"@) == Some(SoundField::EngineType));
    assert(spec_sound_field("freq"@) == Some(SoundField::Freq));
    assert(spec_sound_field("mod_ratio"@) == Some(SoundField::ModRatio));
    assert(spec_sound_field("mod_index"@) == Some(SoundField::ModIndex)) by {
        assert("mod_index"@[4] != "mod_ratio"@[4]);
    }
    assert(spec_sound_field("noise_level"@) == Some(SoundField::NoiseLevel)) by {
        assert("noise_level"@[0] != "engine_type"@[0]);
    }
    assert(spec_sound_field("brightness"@) == Some(SoundField::Brightness));
    assert(spec_sound_field("dampening"@) == Some(SoundField::Dampening)) by {
        assert("dampening"@[0] != "mod_ratio"@[0]);
        assert("dampening"@[0] != "mod_index"@[0]);
    }
    assert(spec_sound_field("density"@) == Some(SoundField::Density));
    assert(spec_sound_field("grain_size"@) == Some(SoundField::GrainSize)) by {
        assert("grain_size"@[0] != "brightness"@[0]);
    }
    assert(spec_sound_field("jitter"@) == Some(SoundField::Jitter));
    assert(spec_sound_field("noise_color"@) == Some(SoundField::NoiseColor)) by {
        assert("noise_color"@[0] != "engine_type"@[0]);
        assert("noise_color"@[6] != "noise_level"@[6]);
    }
    assert(spec_sound_field("metallic"@) == Some(SoundField::Metallic));
    assert(spec_sound_field("inharmonicity"@) == Some(SoundField::Inharmonicity));
    assert(spec_sound_field("bits"@) == Some(SoundField::Bits)) by {
        assert("bits"@[0] != "freq"@[0]);
    }
    assert(spec_sound_field("rate"@) == Some(SoundField::Rate)) by {
        assert("rate"@[0] != "freq"@[0]);
        assert("rate"@[0] != "bits"@[0]);
    }
    assert(spec_sound_field("attack_shaper"@) == Some(SoundField::AttackShaper)) by {
        assert("attack_shaper"@[0] != "inharmonicity"@[0]);
    }
    assert(spec_sound_field("sustain_shaper"@) == Some(SoundField::SustainShaper));
    assert(spec_sound_field("attack"@) == Some(SoundField::Attack)) by {
        assert("attack"@[0] != "jitter"@[0]);
    }
    assert(spec_sound_field("decay"@) == Some(SoundField::Decay));
    assert(spec_sound_field("lfo1_freq"@) == Some(SoundField::Lfo1Freq)) by {
        assert("lfo1_freq"@[0] != "mod_ratio"@[0]);
        assert("lfo1_freq"@[0] != "mod_index"@[0]);
        assert("lfo1_freq"@[0] != "dampening"@[0]);
    }
    assert(spec_sound_field("lfo2_freq"@) == Some(SoundField::Lfo2Freq)) by {
        assert("lfo2_freq"@[0] != "mod_ratio"@[0]);
        assert("lfo2_freq"@[0] != "mod_index"@[0]);
        assert("lfo2_freq"@[0] != "dampening"@[0]);
        assert("lfo2_freq"@[3] != "lfo1_freq"@[3]);
    }
    assert(spec_sound_field("trigger_probability"@) == Some(SoundField::TriggerProbability));
    assert(spec_sound_field("ghost_probability"@) == Some(SoundField::GhostProbability));
    assert(spec_sound_field("ghost_offset_ms"@) == Some(SoundField::GhostOffsetMs));
    assert(spec_sound_field("ghost_velocity_factor"@) == Some(SoundField::GhostVelocityFactor));
    assert(spec_sound_field("level"@) == Some(SoundField::Level)) by {
        assert("level"@[0] != "decay"@[0]);
    }
    assert(spec_sound_field("drive"@) == Some(SoundField::Drive)) by {
        assert("drive"@[1] != "decay"@[1]);
        assert("drive"@[0] != "level"@[0]);
    }
    assert(spec_sound_field("mute"@) == Some(SoundField::Mute)) by {
        assert("mute"@[0] != "freq"@[0]);
        assert("mute"@[0] != "bits"@[0]);
        assert("mute"@[0] != "rate"@[0]);
    }
    assert("drive"@[0] != "level"@[0]);
}

/// A slot-level edit and the stored edit name the same field: a name moves
/// the slot's level, drive or mute exactly when it is the name of the
/// sound's level, drive or mute field, and such an edit goes to the
/// audio thread as a plain parameter edit.
pub proof fn lemma_slot_params_match_fields(p: Seq<char>)
    ensures
        (spec_slot_param(p) == SlotParam::Level) == (spec_sound_field(p) == Some(SoundField::Level)),
        (spec_slot_param(p) == SlotParam::Drive) == (spec_sound_field(p) == Some(SoundField::Drive)),
        (spec_slot_param(p) == SlotParam::Mute) == (spec_sound_field(p) == Some(SoundField::Mute)),
        spec_slot_param(p) != SlotParam::Voice ==> spec_param_route(p) == ParamRoute::Voice,
{
    lemma_field_names();
    reveal_strlit("level");
    reveal_strlit("drive");
    reveal_strlit("mute");
    reveal_strlit("bits");
    reveal_strlit("rate");
    reveal_strlit("attack_shaper");
    reveal_strlit("sustain_shaper");
    reveal_strlit("trigger_probability");
    reveal_strlit("ghost_probability");
    reveal_strlit("ghost_offset_ms");
    reveal_strlit("ghost_velocity_factor");
}

/// The three ways a `SET_PARAM` edit is routed agree: a name goes to the
/// post-FX exactly when it names a post-FX setting, to the generative gate
/// exactly when it names a generative setting, and each such setting is the
/// stored field of the same name.
pub proof fn lemma_edit_routes_agree(p: Seq<char>)
    ensures
        (spec_param_route(p) == ParamRoute::PostFx) == (spec_postfx_param(p) is Some),
        (spec_param_route(p) == ParamRoute::Generative) == (spec_generative_param(p) is Some),
        (spec_postfx_param(p) == Some(PostFxParam::Bits)) == (spec_sound_field(p) == Some(SoundField::Bits)),
        (spec_postfx_param(p) == Some(PostFxParam::Rate)) == (spec_sound_field(p) == Some(SoundField::Rate)),
        (spec_postfx_param(p) == Some(PostFxParam::AttackShaper)) == (spec_sound_field(p) == Some(
            SoundField::AttackShaper,
        )),
        (spec_postfx_param(p) == Some(PostFxParam::SustainShaper)) == (spec_sound_field(p) == Some(
            SoundField::SustainShaper,
        )),
        (spec_generative_param(p) == Some(GenerativeParam::TriggerProbability)) == (spec_sound_field(p)
            == Some(SoundField::TriggerProbability)),
        (spec_generative_param(p) == Some(GenerativeParam::GhostProbability)) == (spec_sound_field(p)
            == Some(SoundField::GhostProbability)),
        (spec_generative_param(p) == Some(GenerativeParam::GhostOffsetMs)) == (spec_sound_field(p) == Some(
            SoundField::GhostOffsetMs,
        )),
        (spec_generative_param(p) == Some(GenerativeParam::GhostVelocityFactor)) == (spec_sound_field(p)
            == Some(SoundField::GhostVelocityFactor)),
{
    lemma_field_names();
    reveal_strlit("bits");
    reveal_strlit("rate");
    reveal_strlit("attack_shaper");
    reveal_strlit("sustain_shaper");
    reveal_strlit("trigger_probability");
    reveal_strlit("ghost_probability");
    reveal_strlit("ghost_offset_ms");
    reveal_strlit("ghost_velocity_factor");
}

} // verus!
