use drummr::timing::{beat_fraction, BeatDivision};
use drummr::modulation::{try_set_route, ModRoute, ModSource};
use arrayvec::ArrayVec;

/// Seconds of a division at `bpm` (4/4, BPM floored at 1), from its beat
/// fraction.
fn to_seconds(d: BeatDivision, bpm: f32) -> f32 {
    let (n, den) = beat_fraction(d);
    60.0 / bpm.max(1.0) * (n as f32 / den as f32)
}

fn to_hz(d: BeatDivision, bpm: f32) -> f32 {
    1.0 / to_seconds(d, bpm).max(0.0001)
}

fn approx(a: f32, b: f32, eps: f32) -> bool {
    (a - b).abs() <= eps
}

#[test]
fn quarter_at_120_is_half_second() {
    let s = to_seconds(BeatDivision::Quarter, 120.0);
    assert!(approx(s, 0.5, 1e-6), "Quarter@120 was {}s, expected 0.5", s);
}

#[test]
fn bar_at_120_is_two_seconds() {
    let s = to_seconds(BeatDivision::Bar, 120.0);
    assert!(approx(s, 2.0, 1e-6), "Bar@120 was {}s, expected 2.0", s);
}

#[test]
fn eighth_at_120_is_4hz() {
    let hz = to_hz(BeatDivision::Eighth, 120.0);
    assert!(approx(hz, 4.0, 1e-3), "Eighth@120 was {}Hz, expected 4.0", hz);
}

#[test]
fn dotted_eighth_at_120_is_375ms() {
    let s = to_seconds(BeatDivision::EighthDotted, 120.0);
    assert!(approx(s, 0.375, 1e-6), "EighthDotted@120 was {}s, expected 0.375", s);
}

#[test]
fn triplet_eighth_at_120() {
    let s = to_seconds(BeatDivision::EighthTriplet, 120.0);
    assert!(approx(s, 1.0 / 6.0, 1e-6), "EighthTriplet@120 was {}s, expected {}", s, 1.0 / 6.0);
}

#[test]
fn four_bars_at_120_is_eight_seconds() {
    let s = to_seconds(BeatDivision::FourBars, 120.0);
    assert!(approx(s, 8.0, 1e-5), "FourBars@120 was {}s, expected 8.0", s);
}

#[test]
fn all_variants_finite_and_positive() {
    let all = [
        BeatDivision::ThirtySecond,
        BeatDivision::SixteenthTriplet,
        BeatDivision::Sixteenth,
        BeatDivision::SixteenthDotted,
        BeatDivision::EighthTriplet,
        BeatDivision::Eighth,
        BeatDivision::EighthDotted,
        BeatDivision::QuarterTriplet,
        BeatDivision::Quarter,
        BeatDivision::QuarterDotted,
        BeatDivision::Half,
        BeatDivision::Bar,
        BeatDivision::TwoBars,
        BeatDivision::FourBars,
    ];
    assert_eq!(all.len(), 14, "expected 14 variants total");
    for bpm in [60.0_f32, 120.0, 240.0] {
        for div in all {
            let s = to_seconds(div, bpm);
            let h = to_hz(div, bpm);
            assert!(s.is_finite() && s > 0.0, "to_seconds returned non-positive/non-finite for {:?} @ {} BPM: {}", div, bpm, s);
            assert!(h.is_finite() && h > 0.0, "to_hz returned non-positive/non-finite for {:?} @ {} BPM: {}", div, bpm, h);
        }
    }
}

#[test]
fn tempo_scaling_is_linear() {
    let at60 = to_seconds(BeatDivision::Quarter, 60.0);
    let at120 = to_seconds(BeatDivision::Quarter, 120.0);
    assert!(approx(at60, 2.0 * at120, 1e-6));
}

#[test]
fn test_arrayvec_capacity() {
    let mut slots: ArrayVec<ModRoute, 8> = ArrayVec::new();
    for i in 0..8u32 {
        slots.push(ModRoute { source: ModSource::Lfo1, depth_bits: (i as f32 / 10.0).to_bits() });
    }
    assert_eq!(slots.len(), 8);
    // A ninth route from a new source does not fit.
    assert!(!try_set_route(&mut slots, ModSource::Velocity, 1.0f32.to_bits()));
    assert_eq!(slots.len(), 8);
}
