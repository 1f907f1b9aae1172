use drummr::modulation::try_set_route;
use drummr::sound::{
    capped_count, clamp_delay_length, delay_advance, delay_read_positions, generative_param,
    hold_step, param_route, postfx_param, slot_param, sound_field, value_rule, GenerativeParam,
    ParamRoute, PostFxParam, SlotParam, SoundField, ValueRule,
};
use drummr::modulation::{parse_mod_source, set_route, source_index, update_mod_entries, ModEntry, ModRoute, ModSource};
use arrayvec::ArrayVec;

#[test]
fn param_routing() {
    assert_eq!(param_route("bits"), ParamRoute::PostFx);
    assert_eq!(param_route("sustain_shaper"), ParamRoute::PostFx);
    assert_eq!(param_route("ghost_offset_ms"), ParamRoute::Generative);
    assert_eq!(param_route("freq"), ParamRoute::Voice);
    assert_eq!(slot_param("level"), SlotParam::Level);
    assert_eq!(slot_param("mute"), SlotParam::Mute);
    assert_eq!(slot_param("decay"), SlotParam::Voice);
    assert_eq!(generative_param("trigger_probability"), Some(GenerativeParam::TriggerProbability));
    assert_eq!(generative_param("level"), None);
    assert_eq!(postfx_param("rate"), Some(PostFxParam::Rate));
    assert_eq!(postfx_param("drive"), None);
}

#[test]
fn sound_fields_and_rules() {
    assert_eq!(sound_field("engine_type"), Some(SoundField::EngineType));
    assert_eq!(sound_field("grain_size"), Some(SoundField::GrainSize));
    assert_eq!(sound_field("pan"), None);
    assert_eq!(value_rule(SoundField::EngineType), ValueRule::Text);
    assert_eq!(value_rule(SoundField::Freq), ValueRule::Plain);
    assert_eq!(value_rule(SoundField::ModIndex), ValueRule::Optional);
    assert_eq!(value_rule(SoundField::AttackShaper), ValueRule::Bipolar);
    assert_eq!(value_rule(SoundField::GhostOffsetMs), ValueRule::NonNegative);
    assert_eq!(value_rule(SoundField::Level), ValueRule::Gain);
    assert_eq!(value_rule(SoundField::Mute), ValueRule::Switch);
    assert_eq!(value_rule(SoundField::Drive), ValueRule::Unit);
}

#[test]
fn capped_counts() {
    assert_eq!(capped_count(3, 8), 3);
    assert_eq!(capped_count(12, 8), 8);
    assert_eq!(capped_count(40, 32), 32);
}

#[test]
fn sample_hold_and_delay_positions() {
    assert_eq!(hold_step(0, 4), (true, 1));
    assert_eq!(hold_step(3, 4), (false, 0));
    assert_eq!(clamp_delay_length(0, 100), 2);
    assert_eq!(clamp_delay_length(150, 100), 99);
    assert_eq!(clamp_delay_length(50, 100), 50);
    assert_eq!(delay_read_positions(10, 100, 30), (80, 79));
    assert_eq!(delay_read_positions(50, 100, 30), (20, 19));
    assert_eq!(delay_read_positions(30, 100, 30), (0, 99));
    assert_eq!(delay_advance(99, 100), 0);
    assert_eq!(delay_advance(5, 100), 6);
}

#[test]
fn mod_sources() {
    assert_eq!(parse_mod_source(&"Lfo2".chars().collect()), ModSource::Lfo2);
    assert_eq!(parse_mod_source(&"Velocity".chars().collect()), ModSource::Velocity);
    assert_eq!(parse_mod_source(&"lfo2".chars().collect()), ModSource::NoSource);
    assert_eq!(source_index(ModSource::NoSource), 0);
    assert_eq!(source_index(ModSource::Velocity), 4);
}

#[test]
fn set_route_replaces_or_appends() {
    let mut v: ArrayVec<ModRoute, 8> = ArrayVec::new();
    set_route(&mut v, ModSource::Lfo1, 1);
    set_route(&mut v, ModSource::Envelope, 2);
    set_route(&mut v, ModSource::Lfo1, 3);
    assert_eq!(v.len(), 2);
    assert_eq!(v[0], ModRoute { source: ModSource::Lfo1, depth_bits: 3 });
    assert_eq!(v[1], ModRoute { source: ModSource::Envelope, depth_bits: 2 });
}

fn entry(p: &str, s: ModSource, d: f32) -> ModEntry {
    ModEntry { param: p.to_string(), source: s, depth_bits: d.to_bits() }
}

#[test]
fn mod_entries_update_add_and_remove() {
    let mods = vec![entry("freq", ModSource::Lfo1, 0.5), entry("decay", ModSource::Envelope, 0.2)];
    let r = update_mod_entries(mods, "freq", ModSource::Lfo1, 0.8f32.to_bits());
    assert_eq!(r.len(), 2);
    assert_eq!(r[0].param, "freq");
    assert_eq!(r[0].depth_bits, 0.8f32.to_bits());

    let r = update_mod_entries(r, "freq", ModSource::Lfo2, 0.1f32.to_bits());
    assert_eq!(r.len(), 3);
    assert_eq!(r[2].source, ModSource::Lfo2);

    let r = update_mod_entries(r, "freq", ModSource::Lfo1, (-0.0f32).to_bits());
    assert_eq!(r.len(), 2);
    assert_eq!(r[0].param, "decay");
    assert_eq!(r[1].source, ModSource::Lfo2);

    let r = update_mod_entries(r, "freq", ModSource::NoSource, 1.0f32.to_bits());
    assert_eq!(r.len(), 2);
    let r = update_mod_entries(r, "pan", ModSource::Velocity, 0.0f32.to_bits());
    assert_eq!(r.len(), 2);
}

#[test]
fn try_set_route_refuses_a_ninth_source_only() {
    let mut v: ArrayVec<ModRoute, 8> = ArrayVec::new();
    for _ in 0..8 {
        assert!(try_set_route(&mut v, ModSource::Lfo1, 1));
    }
    assert_eq!(v.len(), 1);
    let mut full: ArrayVec<ModRoute, 8> = ArrayVec::new();
    for d in 0..8u32 {
        full.push(ModRoute { source: ModSource::Envelope, depth_bits: d });
    }
    assert!(!try_set_route(&mut full, ModSource::Velocity, 9));
    assert_eq!(full.len(), 8);
    assert!(try_set_route(&mut full, ModSource::Envelope, 42));
    assert_eq!(full[0].depth_bits, 42);
}
