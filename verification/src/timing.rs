//! Musical beat divisions used by tempo-locked features.

use vstd::prelude::*;
use crate::text::chars_equal;

verus! {

/// Musical beat divisions, used by tempo-locked LFOs and envelope decays.
/// Each variant is a duration expressed as a multiple of one beat (a quarter
/// note in 4/4).
#[derive(Debug, Clone, Copy, PartialEq, Eq, Hash, Structural)]
pub enum BeatDivision {
    ThirtySecond,
    SixteenthTriplet,
    Sixteenth,
    SixteenthDotted,
    EighthTriplet,
    Eighth,
    EighthDotted,
    QuarterTriplet,
    Quarter,
    QuarterDotted,
    Half,
    Bar,
    TwoBars,
    FourBars,
}

/// A division's length in beats, as `(numerator, denominator)` in lowest
/// terms: 1/8 for a thirty-second up to 16 for four bars.
pub open spec fn spec_beat_fraction(d: BeatDivision) -> (u32, u32) {
    match d {
        BeatDivision::ThirtySecond => (1, 8),
        BeatDivision::SixteenthTriplet => (1, 6),
        BeatDivision::Sixteenth => (1, 4),
        BeatDivision::SixteenthDotted => (3, 8),
        BeatDivision::EighthTriplet => (1, 3),
        BeatDivision::Eighth => (1, 2),
        BeatDivision::EighthDotted => (3, 4),
        BeatDivision::QuarterTriplet => (2, 3),
        BeatDivision::Quarter => (1, 1),
        BeatDivision::QuarterDotted => (3, 2),
        BeatDivision::Half => (2, 1),
        BeatDivision::Bar => (4, 1),
        BeatDivision::TwoBars => (8, 1),
        BeatDivision::FourBars => (16, 1),
    }
}

/// The length of a division in beats, as a fraction. A division lasts
/// `60 / bpm * numerator / denominator` seconds.
pub fn beat_fraction(d: BeatDivision) -> (r: (u32, u32))
    ensures
        r == spec_beat_fraction(d),
        r.0 > 0,
        r.1 > 0,
{
    match d {
        BeatDivision::ThirtySecond => (1, 8),
        BeatDivision::SixteenthTriplet => (1, 6),
        BeatDivision::Sixteenth => (1, 4),
        BeatDivision::SixteenthDotted => (3, 8),
        BeatDivision::EighthTriplet => (1, 3),
        BeatDivision::Eighth => (1, 2),
        BeatDivision::EighthDotted => (3, 4),
        BeatDivision::QuarterTriplet => (2, 3),
        BeatDivision::Quarter => (1, 1),
        BeatDivision::QuarterDotted => (3, 2),
        BeatDivision::Half => (2, 1),
        BeatDivision::Bar => (4, 1),
        BeatDivision::TwoBars => (8, 1),
        BeatDivision::FourBars => (16, 1),
    }
}

/// `a` lasts `n / m` times as long as `b` (by cross-multiplying their beat
/// fractions).
pub open spec fn lasts_times(a: BeatDivision, b: BeatDivision, n: int, m: int) -> bool {
    let fa = spec_beat_fraction(a);
    let fb = spec_beat_fraction(b);
    fa.0 * fb.1 * m == n * fb.0 * fa.1
}

/// The lengths follow the note values: a quarter note is one beat, each
/// plain note value lasts twice the one below it (up to four bars), a dotted
/// value lasts one and a half times its plain value, and a triplet value two
/// thirds of it.
pub proof fn lemma_note_values()
    ensures
        spec_beat_fraction(BeatDivision::Quarter).0 == spec_beat_fraction(BeatDivision::Quarter).1,
        lasts_times(BeatDivision::Sixteenth, BeatDivision::ThirtySecond, 2, 1),
        lasts_times(BeatDivision::Eighth, BeatDivision::Sixteenth, 2, 1),
        lasts_times(BeatDivision::Quarter, BeatDivision::Eighth, 2, 1),
        lasts_times(BeatDivision::Half, BeatDivision::Quarter, 2, 1),
        lasts_times(BeatDivision::Bar, BeatDivision::Half, 2, 1),
        lasts_times(BeatDivision::TwoBars, BeatDivision::Bar, 2, 1),
        lasts_times(BeatDivision::FourBars, BeatDivision::TwoBars, 2, 1),
        lasts_times(BeatDivision::SixteenthDotted, BeatDivision::Sixteenth, 3, 2),
        lasts_times(BeatDivision::EighthDotted, BeatDivision::Eighth, 3, 2),
        lasts_times(BeatDivision::QuarterDotted, BeatDivision::Quarter, 3, 2),
        lasts_times(BeatDivision::SixteenthTriplet, BeatDivision::Sixteenth, 2, 3),
        lasts_times(BeatDivision::EighthTriplet, BeatDivision::Eighth, 2, 3),
        lasts_times(BeatDivision::QuarterTriplet, BeatDivision::Quarter, 2, 3),
        forall|d: BeatDivision| spec_beat_fraction(d).0 > 0 && spec_beat_fraction(d).1 > 0,
{
    assert(lasts_times(BeatDivision::Sixteenth, BeatDivision::ThirtySecond, 2, 1)) by {
        assert(spec_beat_fraction(BeatDivision::Sixteenth) == (1u32, 4u32));
        assert(spec_beat_fraction(BeatDivision::ThirtySecond) == (1u32, 8u32));
    }
    assert(lasts_times(BeatDivision::Eighth, BeatDivision::Sixteenth, 2, 1)) by {
        assert(spec_beat_fraction(BeatDivision::Eighth) == (1u32, 2u32));
        assert(spec_beat_fraction(BeatDivision::Sixteenth) == (1u32, 4u32));
    }
    assert(lasts_times(BeatDivision::SixteenthDotted, BeatDivision::Sixteenth, 3, 2)) by {
        assert(spec_beat_fraction(BeatDivision::SixteenthDotted) == (3u32, 8u32));
        assert(spec_beat_fraction(BeatDivision::Sixteenth) == (1u32, 4u32));
    }
    assert(lasts_times(BeatDivision::SixteenthTriplet, BeatDivision::Sixteenth, 2, 3)) by {
        assert(spec_beat_fraction(BeatDivision::SixteenthTriplet) == (1u32, 6u32));
        assert(spec_beat_fraction(BeatDivision::Sixteenth) == (1u32, 4u32));
    }
    assert(lasts_times(BeatDivision::EighthDotted, BeatDivision::Eighth, 3, 2)) by {
        assert(spec_beat_fraction(BeatDivision::EighthDotted) == (3u32, 4u32));
        assert(spec_beat_fraction(BeatDivision::Eighth) == (1u32, 2u32));
    }
    assert(lasts_times(BeatDivision::EighthTriplet, BeatDivision::Eighth, 2, 3)) by {
        assert(spec_beat_fraction(BeatDivision::EighthTriplet) == (1u32, 3u32));
        assert(spec_beat_fraction(BeatDivision::Eighth) == (1u32, 2u32));
    }
}

/// The division that a wire-protocol name denotes. The protocol accepts the
/// thirteen names below; `QuarterDotted` has no wire name.
pub open spec fn spec_parse_beat_division(s: Seq<char>) -> Option<BeatDivision> {
    if s == "Bar"@ {
        Some(BeatDivision::Bar)
    } else if s == "Half"@ {
        Some(BeatDivision::Half)
    } else if s == "Quarter"@ {
        Some(BeatDivision::Quarter)
    } else if s == "QuarterTriplet"@ {
        Some(BeatDivision::QuarterTriplet)
    } else if s == "Eighth"@ {
        Some(BeatDivision::Eighth)
    } else if s == "EighthDotted"@ {
        Some(BeatDivision::EighthDotted)
    } else if s == "EighthTriplet"@ {
        Some(BeatDivision::EighthTriplet)
    } else if s == "Sixteenth"@ {
        Some(BeatDivision::Sixteenth)
    } else if s == "SixteenthDotted"@ {
        Some(BeatDivision::SixteenthDotted)
    } else if s == "SixteenthTriplet"@ {
        Some(BeatDivision::SixteenthTriplet)
    } else if s == "ThirtySecond"@ {
        Some(BeatDivision::ThirtySecond)
    } else if s == "TwoBars"@ {
        Some(BeatDivision::TwoBars)
    } else if s == "FourBars"@ {
        Some(BeatDivision::FourBars)
    } else {
        None
    }
}

/// Parse a beat-division name as it appears in `SET_DIVISION:` commands.
pub fn parse_beat_division(s: &str) -> (r: Option<BeatDivision>)
    ensures
        r == spec_parse_beat_division(s@),
{
    let v = crate::text::chars_of(s);
    parse_beat_division_chars(&v)
}

/// `parse_beat_division` on a character vector.
pub fn parse_beat_division_chars(v: &Vec<char>) -> (r: Option<BeatDivision>)
    ensures
        r == spec_parse_beat_division(v@),
{
    if chars_equal(v, "Bar") {
        Some(BeatDivision::Bar)
    } else if chars_equal(v, "Half") {
        Some(BeatDivision::Half)
    } else if chars_equal(v, "Quarter") {
        Some(BeatDivision::Quarter)
    } else if chars_equal(v, "QuarterTriplet") {
        Some(BeatDivision::QuarterTriplet)
    } else if chars_equal(v, "Eighth") {
        Some(BeatDivision::Eighth)
    } else if chars_equal(v, "EighthDotted") {
        Some(BeatDivision::EighthDotted)
    } else if chars_equal(v, "EighthTriplet") {
        Some(BeatDivision::EighthTriplet)
    } else if chars_equal(v, "Sixteenth") {
        Some(BeatDivision::Sixteenth)
    } else if chars_equal(v, "SixteenthDotted") {
        Some(BeatDivision::SixteenthDotted)
    } else if chars_equal(v, "SixteenthTriplet") {
        Some(BeatDivision::SixteenthTriplet)
    } else if chars_equal(v, "ThirtySecond") {
        Some(BeatDivision::ThirtySecond)
    } else if chars_equal(v, "TwoBars") {
        Some(BeatDivision::TwoBars)
    } else if chars_equal(v, "FourBars") {
        Some(BeatDivision::FourBars)
    } else {
        None
    }
}

} // verus!
