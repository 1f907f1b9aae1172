use drummr::timing::{beat_fraction, BeatDivision};
use drummr::analysis::{ClipTracker, SUSTAINED_CLIP_RUN};
use drummr::commands::DivisionField;
use drummr::engine::{
    division_target, engine_kind, engine_name, mod_param_index, next_stage, stage_is_active,
    EngineKind, State,
};
use drummr::rng::Xorshift;

#[test]
fn xorshift_sequence_from_seed_one() {
    let mut r = Xorshift::new(1);
    assert_eq!(r.next_u32(), 270369);
    assert_eq!(r.next_u32(), 67634689);
    assert_eq!(r.next_u32(), 2647435461);
}

#[test]
fn xorshift_zero_seed_is_replaced() {
    let mut a = Xorshift::new(0);
    let mut b = Xorshift::new(0xACE1);
    let x = a.next_u32();
    assert_eq!(x, 2785821647);
    assert_eq!(x, b.next_u32());
    assert_ne!(x, 0);
}

#[test]
fn engine_kind_by_type_name() {
    assert_eq!(engine_kind(&None), EngineKind::Fm);
    assert_eq!(engine_kind(&Some("phys".to_string())), EngineKind::Phys);
    assert_eq!(engine_kind(&Some("granular".to_string())), EngineKind::Granular);
    assert_eq!(engine_kind(&Some("hybrid".to_string())), EngineKind::Hybrid);
    assert_eq!(engine_kind(&Some("modal".to_string())), EngineKind::Modal);
    assert_eq!(engine_kind(&Some("noise".to_string())), EngineKind::Noise);
    assert_eq!(engine_kind(&Some("fm".to_string())), EngineKind::Fm);
    assert_eq!(engine_kind(&Some("Phys".to_string())), EngineKind::Fm);
}

#[test]
fn engine_display_names() {
    assert_eq!(engine_name(EngineKind::Fm), "FM");
    assert_eq!(engine_name(EngineKind::Phys), "Physical Modeling");
    assert_eq!(engine_name(EngineKind::Granular), "Granular");
    assert_eq!(engine_name(EngineKind::Hybrid), "Hybrid");
    assert_eq!(engine_name(EngineKind::Modal), "Modal");
    assert_eq!(engine_name(EngineKind::Noise), "Noise");
}

#[test]
fn modulation_targets_per_engine() {
    assert_eq!(mod_param_index(EngineKind::Fm, "freq"), Some(0));
    assert_eq!(mod_param_index(EngineKind::Fm, "mod_index"), Some(2));
    assert_eq!(mod_param_index(EngineKind::Fm, "noise_level"), Some(3));
    assert_eq!(mod_param_index(EngineKind::Fm, "brightness"), None);
    assert_eq!(mod_param_index(EngineKind::Phys, "dampening"), Some(2));
    assert_eq!(mod_param_index(EngineKind::Granular, "jitter"), Some(3));
    assert_eq!(mod_param_index(EngineKind::Hybrid, "metallic"), Some(2));
    assert_eq!(mod_param_index(EngineKind::Modal, "inharmonicity"), Some(3));
    assert_eq!(mod_param_index(EngineKind::Noise, "freq"), None);
}

#[test]
fn division_targets_per_engine() {
    assert_eq!(division_target(EngineKind::Fm, "lfo1_division"), Some(DivisionField::Lfo1Division));
    assert_eq!(division_target(EngineKind::Modal, "lfo2_division"), Some(DivisionField::Lfo2Division));
    assert_eq!(division_target(EngineKind::Phys, "decay_division"), Some(DivisionField::DecayDivision));
    assert_eq!(division_target(EngineKind::Noise, "decay_division"), Some(DivisionField::DecayDivision));
    assert_eq!(division_target(EngineKind::Noise, "lfo1_division"), None);
    assert_eq!(division_target(EngineKind::Fm, "division"), None);
}

#[test]
fn envelope_stages() {
    assert_eq!(next_stage(State::Attack, false, false), State::Attack);
    assert_eq!(next_stage(State::Attack, true, false), State::Decay);
    assert_eq!(next_stage(State::Decay, false, false), State::Decay);
    assert_eq!(next_stage(State::Decay, false, true), State::Idle);
    assert_eq!(next_stage(State::Idle, true, true), State::Idle);
    assert!(stage_is_active(State::Attack));
    assert!(stage_is_active(State::Decay));
    assert!(!stage_is_active(State::Idle));
}

#[test]
fn clip_tracker_counts_runs() {
    let mut t = ClipTracker::new();
    for s in [true, true, false, true, true, true, false] {
        t.observe(s);
    }
    assert_eq!(t.samples_seen(), 7);
    assert_eq!(t.clipped_samples(), 5);
    assert_eq!(t.max_run(), 3);
    assert!(!t.sustained_clip());
}

#[test]
fn clip_tracker_sustained_after_long_run() {
    let mut t = ClipTracker::new();
    for _ in 0..SUSTAINED_CLIP_RUN {
        t.observe(true);
    }
    assert!(!t.sustained_clip());
    t.observe(true);
    assert!(t.sustained_clip());
    t.observe(false);
    assert!(t.sustained_clip());
    assert_eq!(t.max_run(), SUSTAINED_CLIP_RUN + 1);
}

#[test]
fn beat_fractions_of_divisions() {
    assert_eq!(beat_fraction(BeatDivision::Quarter), (1, 1));
    assert_eq!(beat_fraction(BeatDivision::Bar), (4, 1));
    assert_eq!(beat_fraction(BeatDivision::EighthDotted), (3, 4));
    assert_eq!(beat_fraction(BeatDivision::SixteenthTriplet), (1, 6));
    assert_eq!(beat_fraction(BeatDivision::QuarterTriplet), (2, 3));
    assert_eq!(beat_fraction(BeatDivision::FourBars), (16, 1));
    // A quarter at 120 BPM lasts half a second; a dotted eighth 0.375 s.
    let (n, d) = beat_fraction(BeatDivision::EighthDotted);
    let secs = 60.0f32 / 120.0 * (n as f32 / d as f32);
    assert!((secs - 0.375).abs() < 1e-6);
}
