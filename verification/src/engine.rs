//! The six synthesis engines as far as the kit's routing is concerned: which
//! engine a sound selects, what the engine is called, which modulation
//! targets and tempo-locked fields it has, and the envelope's stages.

use vstd::prelude::*;
use crate::text::{chars_of, chars_equal};
use crate::commands::DivisionField;
use crate::sound::{SoundField, spec_sound_field, lemma_field_names};

verus! {

/// A synthesis engine.
#[derive(Debug, Clone, Copy, PartialEq, Eq, Structural)]
pub enum EngineKind {
    Fm,
    Phys,
    Granular,
    Hybrid,
    Modal,
    Noise,
}

/// The engine a sound's `engine_type` selects: the five named engines, and
/// FM for a missing or unknown type.
pub open spec fn spec_engine_kind(engine_type: Option<Seq<char>>) -> EngineKind {
    match engine_type {
        Some(t) => if t == "phys"@ {
            EngineKind::Phys
        } else if t == "granular"@ {
            EngineKind::Granular
        } else if t == "hybrid"@ {
            EngineKind::Hybrid
        } else if t == "modal"@ {
            EngineKind::Modal
        } else if t == "noise"@ {
            EngineKind::Noise
        } else {
            EngineKind::Fm
        },
        None => EngineKind::Fm,
    }
}

pub open spec fn opt_view(o: Option<String>) -> Option<Seq<char>> {
    match o {
        Some(s) => Some(s@),
        None => None,
    }
}

/// The engine a sound selects.
pub fn engine_kind(engine_type: &Option<String>) -> (r: EngineKind)
    ensures
        r == spec_engine_kind(opt_view(*engine_type)),
{
    match engine_type {
        Some(t) => {
            let v = chars_of(t.as_str());
            if chars_equal(&v, "phys") {
                EngineKind::Phys
            } else if chars_equal(&v, "granular") {
                EngineKind::Granular
            } else if chars_equal(&v, "hybrid") {
                EngineKind::Hybrid
            } else if chars_equal(&v, "modal") {
                EngineKind::Modal
            } else if chars_equal(&v, "noise") {
                EngineKind::Noise
            } else {
                EngineKind::Fm
            }
        },
        None => EngineKind::Fm,
    }
}

/// The display name of an engine.
pub open spec fn spec_engine_name(k: EngineKind) -> Seq<char> {
    match k {
        EngineKind::Fm => "FM"@,
        EngineKind::Phys => "Physical Modeling"@,
        EngineKind::Granular => "Granular"@,
        EngineKind::Hybrid => "Hybrid"@,
        EngineKind::Modal => "Modal"@,
        EngineKind::Noise => "Noise"@,
    }
}

/// The display name of an engine (`Voice::name`).
pub fn engine_name(k: EngineKind) -> (r: &'static str)
    ensures
        r@ == spec_engine_name(k),
{
    match k {
        EngineKind::Fm => "FM",
        EngineKind::Phys => "Physical Modeling",
        EngineKind::Granular => "Granular",
        EngineKind::Hybrid => "Hybrid",
        EngineKind::Modal => "Modal",
        EngineKind::Noise => "Noise",
    }
}

/// The modulatable parameters of an engine, in order. A modulation route
/// names one of them; the noise engine has none.
pub open spec fn mod_params(k: EngineKind) -> Seq<Seq<char>> {
    match k {
        EngineKind::Fm => seq!["freq"@, "mod_ratio"@, "mod_index"@, "noise_level"@],
        EngineKind::Phys => seq!["freq"@, "brightness"@, "dampening"@],
        EngineKind::Granular => seq!["freq"@, "density"@, "grain_size"@, "jitter"@],
        EngineKind::Hybrid => seq!["freq"@, "noise_color"@, "metallic"@],
        EngineKind::Modal => seq!["freq"@, "brightness"@, "dampening"@, "inharmonicity"@],
        EngineKind::Noise => Seq::empty(),
    }
}

/// Position of the first parameter of `ps` equal to `p`.
pub open spec fn index_in(ps: Seq<Seq<char>>, p: Seq<char>) -> Option<nat>
    decreases ps.len(),
{
    if ps.len() == 0 {
        None
    } else if ps[0] == p {
        Some(0)
    } else {
        match index_in(ps.drop_first(), p) {
            Some(i) => Some(i + 1),
            None => None,
        }
    }
}

fn first_match(v: &Vec<char>, a: &str, b: &str, c: &str, d: Option<&str>) -> (r: Option<usize>)
    ensures
        r == (match index_in(
            match d {
                Some(x) => seq![a@, b@, c@, x@],
                None => seq![a@, b@, c@],
            },
            v@,
        ) {
            Some(i) => Some(i as usize),
            None => None::<usize>,
        }),
{
    let ghost ps = match d {
        Some(x) => seq![a@, b@, c@, x@],
        None => seq![a@, b@, c@],
    };
    proof {
        reveal_with_fuel(index_in, 5);
    }
    assert(ps[0] == a@);
    assert(ps.drop_first()[0] == b@);
    assert(ps.drop_first().drop_first()[0] == c@);
    if chars_equal(v, a) {
        Some(0)
    } else if chars_equal(v, b) {
        Some(1)
    } else if chars_equal(v, c) {
        Some(2)
    } else {
        match d {
            Some(x) => {
                assert(ps.drop_first().drop_first().drop_first()[0] == x@);
                assert(ps.drop_first().drop_first().drop_first().drop_first().len() == 0);
                if chars_equal(v, x) {
                    Some(3)
                } else {
                    None
                }
            },
            None => {
                assert(ps.drop_first().drop_first().drop_first().len() == 0);
                None
            },
        }
    }
}

/// Which modulatable parameter of the engine a modulation route for `param`
/// targets (its position in `mod_params`); routes for other names, and all
/// routes on the noise engine, are ignored.
pub fn mod_param_index(k: EngineKind, param: &str) -> (r: Option<usize>)
    ensures
        r == (match index_in(mod_params(k), param@) {
            Some(i) => Some(i as usize),
            None => None::<usize>,
        }),
{
    let v = chars_of(param);
    match k {
        EngineKind::Fm => first_match(&v, "freq", "mod_ratio", "mod_index", Some("noise_level")),
        EngineKind::Phys => first_match(&v, "freq", "brightness", "dampening", None),
        EngineKind::Granular => first_match(&v, "freq", "density", "grain_size", Some("jitter")),
        EngineKind::Hybrid => first_match(&v, "freq", "noise_color", "metallic", None),
        EngineKind::Modal => first_match(&v, "freq", "brightness", "dampening", Some("inharmonicity")),
        EngineKind::Noise => None,
    }
}

/// The stored sound fields that an engine's modulatable parameters stand
/// for, position by position (what a voice's route at position `i` moves).
pub open spec fn engine_fields(k: EngineKind) -> Seq<SoundField> {
    match k {
        EngineKind::Fm => seq![SoundField::Freq, SoundField::ModRatio, SoundField::ModIndex, SoundField::NoiseLevel],
        EngineKind::Phys => seq![SoundField::Freq, SoundField::Brightness, SoundField::Dampening],
        EngineKind::Granular => seq![SoundField::Freq, SoundField::Density, SoundField::GrainSize, SoundField::Jitter],
        EngineKind::Hybrid => seq![SoundField::Freq, SoundField::NoiseColor, SoundField::Metallic],
        EngineKind::Modal => seq![
            SoundField::Freq,
            SoundField::Brightness,
            SoundField::Dampening,
            SoundField::Inharmonicity,
        ],
        EngineKind::Noise => Seq::empty(),
    }
}

proof fn lemma_index_in(ps: Seq<Seq<char>>, p: Seq<char>)
    ensures
        match index_in(ps, p) {
            Some(i) => i < ps.len() && ps[i as int] == p,
            None => !ps.contains(p),
        },
    decreases ps.len(),
{
    if ps.len() > 0 && ps[0] != p {
        let t = ps.drop_first();
        lemma_index_in(t, p);
        match index_in(t, p) {
            Some(i) => {
                assert(ps[i + 1 as int] == t[i as int]);
            },
            None => {
                if ps.contains(p) {
                    let j = choose|j: int| 0 <= j < ps.len() && ps[j] == p;
                    assert(t[j - 1] == ps[j]);
                }
            },
        }
    }
}

/// A modulation route lands on the parameter it names: the target position
/// that `mod_param_index` gives a name is the position of the field of that
/// name among the engine's modulatable fields, and a name that is none of
/// them gets no target.
pub proof fn lemma_mod_targets_match_fields(k: EngineKind, p: Seq<char>)
    ensures
        engine_fields(k).len() == mod_params(k).len(),
        match index_in(mod_params(k), p) {
            Some(i) => spec_sound_field(p) == Some(engine_fields(k)[i as int]),
            None => forall|i: int|
                0 <= i < engine_fields(k).len() ==> spec_sound_field(p) != Some(
                    #[trigger] engine_fields(k)[i],
                ),
        },
{
    lemma_field_names();
    lemma_index_in(mod_params(k), p);
    match index_in(mod_params(k), p) {
        Some(i) => {
            assert(mod_params(k)[i as int] == p);
        },
        None => {
            assert forall|i: int| 0 <= i < engine_fields(k).len() implies spec_sound_field(p) != Some(
                #[trigger] engine_fields(k)[i],
            ) by {
                if spec_sound_field(p) == Some(engine_fields(k)[i]) {
                    assert(mod_params(k)[i] == p);
                    assert(mod_params(k).contains(p));
                }
            }
        },
    }
}

/// The tempo-locked field that `set_division(param, ..)` changes on an
/// engine: the three division fields by their exact names, of which the
/// noise engine only has the decay division.
pub open spec fn spec_division_target(k: EngineKind, param: Seq<char>) -> Option<DivisionField> {
    let f = if param == "lfo1_division"@ {
        Some(DivisionField::Lfo1Division)
    } else if param == "lfo2_division"@ {
        Some(DivisionField::Lfo2Division)
    } else if param == "decay_division"@ {
        Some(DivisionField::DecayDivision)
    } else {
        None
    };
    match f {
        Some(DivisionField::DecayDivision) => f,
        Some(_) => if k == EngineKind::Noise {
            None
        } else {
            f
        },
        None => None,
    }
}

/// The division field a voice updates for `param`.
pub fn division_target(k: EngineKind, param: &str) -> (r: Option<DivisionField>)
    ensures
        r == spec_division_target(k, param@),
{
    let v = chars_of(param);
    let f = if chars_equal(&v, "lfo1_division") {
        Some(DivisionField::Lfo1Division)
    } else if chars_equal(&v, "lfo2_division") {
        Some(DivisionField::Lfo2Division)
    } else if chars_equal(&v, "decay_division") {
        Some(DivisionField::DecayDivision)
    } else {
        None
    };
    match f {
        Some(DivisionField::DecayDivision) => f,
        Some(_) => if k == EngineKind::Noise {
            None
        } else {
            f
        },
        None => None,
    }
}

/// Stage of an attack/decay envelope.
#[derive(Debug, Clone, Copy, PartialEq, Eq, Structural)]
pub enum State {
    Idle,
    Attack,
    Decay,
}

/// The stage after one envelope sample: attack ends when the level reaches
/// the peak, decay ends when it reaches zero, idle stays idle.
pub open spec fn spec_next_stage(s: State, reached_peak: bool, reached_zero: bool) -> State {
    match s {
        State::Attack => if reached_peak {
            State::Decay
        } else {
            State::Attack
        },
        State::Decay => if reached_zero {
            State::Idle
        } else {
            State::Decay
        },
        State::Idle => State::Idle,
    }
}

/// The stage after one envelope sample.
pub fn next_stage(s: State, reached_peak: bool, reached_zero: bool) -> (r: State)
    ensures
        r == spec_next_stage(s, reached_peak, reached_zero),
{
    match s {
        State::Attack => if reached_peak {
            State::Decay
        } else {
            State::Attack
        },
        State::Decay => if reached_zero {
            State::Idle
        } else {
            State::Decay
        },
        State::Idle => State::Idle,
    }
}

/// An envelope sounds in every stage but idle.
pub fn stage_is_active(s: State) -> (r: bool)
    ensures
        r == (s != State::Idle),
{
    match s {
        State::Idle => false,
        _ => true,
    }
}

} // verus!
