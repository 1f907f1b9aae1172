//! Modulation sources and the per-sound modulation route list.

use vstd::prelude::*;
use crate::text::chars_equal;

verus! {

/// A modulation source. `NoSource` is the "no route" marker.
#[derive(Debug, Clone, Copy, PartialEq, Eq, Structural)]
pub enum ModSource {
    NoSource,
    Envelope,
    Lfo1,
    Lfo2,
    Velocity,
}

/// The source that a `SET_MOD:` command names; any other name is `None`.
pub open spec fn spec_mod_source(s: Seq<char>) -> ModSource {
    if s == "Envelope"@ {
        ModSource::Envelope
    } else if s == "Lfo1"@ {
        ModSource::Lfo1
    } else if s == "Lfo2"@ {
        ModSource::Lfo2
    } else if s == "Velocity"@ {
        ModSource::Velocity
    } else {
        ModSource::NoSource
    }
}

/// Parse a modulation source name.
pub fn parse_mod_source(v: &Vec<char>) -> (r: ModSource)
    ensures
        r == spec_mod_source(v@),
{
    if chars_equal(v, "Envelope") {
        ModSource::Envelope
    } else if chars_equal(v, "Lfo1") {
        ModSource::Lfo1
    } else if chars_equal(v, "Lfo2") {
        ModSource::Lfo2
    } else if chars_equal(v, "Velocity") {
        ModSource::Velocity
    } else {
        ModSource::NoSource
    }
}

/// Position of a source in the modulation engine's cached source table
/// (`None`, envelope, LFO 1, LFO 2, velocity).
pub open spec fn spec_source_index(s: ModSource) -> nat {
    match s {
        ModSource::NoSource => 0,
        ModSource::Envelope => 1,
        ModSource::Lfo1 => 2,
        ModSource::Lfo2 => 3,
        ModSource::Velocity => 4,
    }
}

/// The table position of a source (`source as usize`).
pub fn source_index(s: ModSource) -> (r: usize)
    ensures
        r == spec_source_index(s),
        r < 5,
{
    match s {
        ModSource::NoSource => 0,
        ModSource::Envelope => 1,
        ModSource::Lfo1 => 2,
        ModSource::Lfo2 => 3,
        ModSource::Velocity => 4,
    }
}


/// Most modulation routes one engine parameter holds.
pub const MAX_MOD_ROUTES: usize = 8;

/// One modulation route on an engine parameter. The depth is carried as the
/// bit pattern of its `f32` value.
#[derive(Debug, Clone, Copy, PartialEq, Eq, Structural)]
pub struct ModRoute {
    pub source: ModSource,
    pub depth_bits: u32,
}

#[verifier::external_type_specification]
#[verifier::external_body]
#[verifier::reject_recursive_types(T)]
pub struct ExArrayVec<T, const CAP: usize>(arrayvec::ArrayVec<T, CAP>);

/// The routes an engine parameter's fixed-capacity route list holds, in order.
pub uninterp spec fn route_list(v: arrayvec::ArrayVec<ModRoute, 8>) -> Seq<ModRoute>;

/// `ArrayVec::len`: never more than the capacity.
#[verifier::external_body]
fn routes_len(v: &arrayvec::ArrayVec<ModRoute, 8>) -> (r: usize)
    ensures
        r == route_list(*v).len(),
        r <= MAX_MOD_ROUTES,
{
    v.len()
}

/// Indexing (`v[i]`, through the slice the list derefs to).
#[verifier::external_body]
fn routes_get(v: &arrayvec::ArrayVec<ModRoute, 8>, i: usize) -> (r: ModRoute)
    requires
        i < route_list(*v).len(),
    ensures
        r == route_list(*v)[i as int],
{
    v[i]
}

/// Overwrite entry `i` (`v[i] = r`, through the mutable slice).
#[verifier::external_body]
fn routes_set(v: &mut arrayvec::ArrayVec<ModRoute, 8>, i: usize, r: ModRoute)
    requires
        i < route_list(*old(v)).len(),
    ensures
        route_list(*final(v)) == route_list(*old(v)).update(i as int, r),
{
    v[i] = r;
}

/// `ArrayVec::push`, which panics on a full list, so only below capacity.
#[verifier::external_body]
fn routes_push(v: &mut arrayvec::ArrayVec<ModRoute, 8>, r: ModRoute)
    requires
        route_list(*old(v)).len() < MAX_MOD_ROUTES,
    ensures
        route_list(*final(v)) == route_list(*old(v)).push(r),
{
    v.push(r)
}

/// Index of the first route from `source`.
pub open spec fn first_route(rs: Seq<ModRoute>, source: ModSource) -> Option<int>
    decreases rs.len(),
{
    if rs.len() == 0 {
        None
    } else {
        match first_route(rs.drop_last(), source) {
            Some(i) => Some(i),
            None => if rs.last().source == source {
                Some(rs.len() - 1)
            } else {
                None
            },
        }
    }
}

proof fn lemma_first_route(rs: Seq<ModRoute>, source: ModSource)
    ensures
        match first_route(rs, source) {
            Some(i) => 0 <= i < rs.len() && rs[i].source == source,
            None => forall|j: int| 0 <= j < rs.len() ==> (#[trigger] rs[j]).source != source,
        },
    decreases rs.len(),
{
    if rs.len() > 0 {
        lemma_first_route(rs.drop_last(), source);
        match first_route(rs.drop_last(), source) {
            Some(i) => {
                assert(rs[i] == rs.drop_last()[i]);
            },
            None => {
                assert forall|j: int| 0 <= j < rs.len() - 1 implies (#[trigger] rs[j]).source
                    != source by {
                    assert(rs[j] == rs.drop_last()[j]);
                }
            },
        }
    }
}

/// The route list after routing `source` to a parameter with `depth_bits`:
/// an existing route from the source takes the new depth, otherwise a new
/// route is added.
pub open spec fn spec_set_route(rs: Seq<ModRoute>, source: ModSource, depth_bits: u32) -> Seq<
    ModRoute,
> {
    match first_route(rs, source) {
        Some(i) => rs.update(i, ModRoute { source, depth_bits }),
        None => rs.push(ModRoute { source, depth_bits }),
    }
}

/// Whether `set_route` can run: the source is already routed or there is room
/// for one more route.
pub open spec fn can_set_route(rs: Seq<ModRoute>, source: ModSource) -> bool {
    first_route(rs, source) is Some || rs.len() < MAX_MOD_ROUTES
}

fn find_route(v: &arrayvec::ArrayVec<ModRoute, 8>, source: ModSource) -> (r: Option<usize>)
    ensures
        match r {
            Some(i) => first_route(route_list(*v), source) == Some(i as int),
            None => first_route(route_list(*v), source) is None,
        },
{
    let n = routes_len(v);
    let mut i: usize = 0;
    while i < n
        invariant
            n == route_list(*v).len(),
            i <= n,
            first_route(route_list(*v).subrange(0, i as int), source) is None,
        decreases n - i,
    {
        let r = routes_get(v, i);
        let ghost pre = route_list(*v).subrange(0, i + 1);
        assert(pre.drop_last() =~= route_list(*v).subrange(0, i as int));
        if r.source == source {
            proof {
                lemma_first_route_extend(route_list(*v), source, i as int);
            }
            return Some(i);
        }
        i = i + 1;
    }
    assert(route_list(*v).subrange(0, n as int) =~= route_list(*v));
    None
}

proof fn lemma_first_route_extend(rs: Seq<ModRoute>, source: ModSource, k: int)
    requires
        0 <= k < rs.len(),
        first_route(rs.subrange(0, k), source) is None,
        first_route(rs.subrange(0, k + 1), source) == Some(k),
    ensures
        first_route(rs, source) == Some(k),
    decreases rs.len() - k,
{
    if k + 1 < rs.len() {
        assert(rs.drop_last().subrange(0, k) =~= rs.subrange(0, k));
        assert(rs.drop_last().subrange(0, k + 1) =~= rs.subrange(0, k + 1));
        lemma_first_route_extend(rs.drop_last(), source, k);
    } else {
        assert(rs.subrange(0, k + 1) =~= rs);
    }
}

/// Route `source` to a parameter with the given depth (`set_mod` on an engine
/// parameter).
pub fn set_route(v: &mut arrayvec::ArrayVec<ModRoute, 8>, source: ModSource, depth_bits: u32)
    requires
        can_set_route(route_list(*old(v)), source),
    ensures
        route_list(*final(v)) == spec_set_route(route_list(*old(v)), source, depth_bits),
{
    match find_route(v, source) {
        Some(i) => {
            proof {
                lemma_first_route(route_list(*v), source);
            }
            routes_set(v, i, ModRoute { source, depth_bits });
        },
        None => {
            routes_push(v, ModRoute { source, depth_bits });
        },
    }
}

/// `set_route` where it can run: when the source is not routed yet and the
/// list is full, nothing changes and `false` comes back.
pub fn try_set_route(v: &mut arrayvec::ArrayVec<ModRoute, 8>, source: ModSource, depth_bits: u32) -> (done: bool)
    ensures
        done == can_set_route(route_list(*old(v)), source),
        done ==> route_list(*final(v)) == spec_set_route(route_list(*old(v)), source, depth_bits),
        !done ==> route_list(*final(v)) == route_list(*old(v)),
{
    let room = routes_len(v) < MAX_MOD_ROUTES;
    match find_route(v, source) {
        Some(_) => {
            set_route(v, source, depth_bits);
            true
        },
        None => if room {
            set_route(v, source, depth_bits);
            true
        } else {
            false
        },
    }
}

/// A depth whose `f32` value is zero (either sign).
pub open spec fn is_zero_depth(bits: u32) -> bool {
    bits & 0x7fff_ffffu32 == 0
}

/// One persisted modulation route of a sound.
#[derive(Debug, Clone)]
pub struct ModEntry {
    pub param: String,
    pub source: ModSource,
    pub depth_bits: u32,
}

pub struct ModEntryView {
    pub param: Seq<char>,
    pub source: ModSource,
    pub depth_bits: u32,
}

pub open spec fn entry_views(v: Seq<ModEntry>) -> Seq<ModEntryView> {
    v.map_values(|e: ModEntry| ModEntryView { param: e.param@, source: e.source, depth_bits: e.depth_bits })
}

/// Index of the first entry for `(param, source)`.
pub open spec fn first_entry(es: Seq<ModEntryView>, param: Seq<char>, source: ModSource) -> Option<int>
    decreases es.len(),
{
    if es.len() == 0 {
        None
    } else {
        match first_entry(es.drop_last(), param, source) {
            Some(i) => Some(i),
            None => if es.last().param == param && es.last().source == source {
                Some(es.len() - 1)
            } else {
                None
            },
        }
    }
}

/// Entries that survive a `SET_MOD` edit: a real source and a non-zero depth.
pub open spec fn keeps_entry(e: ModEntryView) -> bool {
    e.source != ModSource::NoSource && !is_zero_depth(e.depth_bits)
}

pub open spec fn kept(es: Seq<ModEntryView>) -> Seq<ModEntryView>
    decreases es.len(),
{
    if es.len() == 0 {
        Seq::empty()
    } else if keeps_entry(es.last()) {
        kept(es.drop_last()).push(es.last())
    } else {
        kept(es.drop_last())
    }
}

/// A sound's route list after `SET_MOD:<slot>:<param>:<source>:<depth>`: the
/// route for `(param, source)` takes the depth, or is added when the source
/// is real; then routes without a source or with zero depth are dropped.
pub open spec fn spec_update_mod_entries(
    es: Seq<ModEntryView>,
    param: Seq<char>,
    source: ModSource,
    depth_bits: u32,
) -> Seq<ModEntryView> {
    let edited = match first_entry(es, param, source) {
        Some(i) => es.update(i, ModEntryView { param: es[i].param, source: es[i].source, depth_bits }),
        None => if source != ModSource::NoSource {
            es.push(ModEntryView { param, source, depth_bits })
        } else {
            es
        },
    };
    kept(edited)
}

fn entry_matches(e: &ModEntry, param: &Vec<char>, source: ModSource) -> (r: bool)
    ensures
        r == (e.param@ == param@ && e.source == source),
{
    if e.source != source {
        return false;
    }
    let p = crate::text::chars_of(e.param.as_str());
    if p.len() != param.len() {
        assert(p@ != param@);
        return false;
    }
    let mut i: usize = 0;
    while i < p.len()
        invariant
            p@ == e.param@,
            p@.len() == param@.len(),
            i <= p@.len(),
            forall|k: int| 0 <= k < i ==> p@[k] == param@[k],
        decreases p@.len() - i,
    {
        if p[i] != param[i] {
            assert(p@[i as int] != param@[i as int]);
            return false;
        }
        i = i + 1;
    }
    assert(p@ =~= param@);
    true
}

/// Edit a sound's persisted route list for a `SET_MOD` command.
pub fn update_mod_entries(mods: Vec<ModEntry>, param: &str, source: ModSource, depth_bits: u32) -> (r: Vec<ModEntry>)
    ensures
        entry_views(r@) == spec_update_mod_entries(entry_views(mods@), param@, source, depth_bits),
{
    let ghost es = entry_views(mods@);
    let pv = crate::text::chars_of(param);
    let mut found: Option<usize> = None;
    let mut i: usize = 0;
    while i < mods.len()
        invariant
            es == entry_views(mods@),
            pv@ == param@,
            i <= mods@.len(),
            found is None ==> first_entry(es.subrange(0, i as int), param@, source) is None,
            found matches Some(f) ==> f < i && first_entry(es.subrange(0, i as int), param@, source) == Some(f as int),
        decreases mods@.len() - i,
    {
        let ghost pre = es.subrange(0, i + 1);
        assert(pre.drop_last() =~= es.subrange(0, i as int));
        assert(pre.last() == es[i as int]);
        if found.is_none() && entry_matches(&mods[i], &pv, source) {
            found = Some(i);
        }
        i = i + 1;
    }
    assert(es.subrange(0, mods@.len() as int) =~= es);
    let ghost edited = match first_entry(es, param@, source) {
        Some(f) => es.update(f, ModEntryView { param: es[f].param, source: es[f].source, depth_bits }),
        None => if source != ModSource::NoSource {
            es.push(ModEntryView { param: param@, source, depth_bits })
        } else {
            es
        },
    };
    let mut out: Vec<ModEntry> = Vec::new();
    let mut j: usize = 0;
    let n = mods.len();
    proof {
        lemma_first_entry_bound(es, param@, source);
    }
    while j < n
        invariant
            es == entry_views(mods@),
            n == mods@.len(),
            j <= n,
            found matches Some(f) ==> f < n && first_entry(es, param@, source) == Some(f as int),
            found is None ==> first_entry(es, param@, source) is None,
            edited == (match first_entry(es, param@, source) {
                Some(f) => es.update(f, ModEntryView { param: es[f].param, source: es[f].source, depth_bits }),
                None => if source != ModSource::NoSource {
                    es.push(ModEntryView { param: param@, source, depth_bits })
                } else {
                    es
                },
            }),
            entry_views(out@) == kept(edited.subrange(0, j as int)),
        decreases n - j,
    {
        let e = &mods[j];
        let d = match found {
            Some(f) => if f == j {
                depth_bits
            } else {
                e.depth_bits
            },
            None => e.depth_bits,
        };
        let ghost ev = ModEntryView { param: e.param@, source: e.source, depth_bits: d };
        assert(edited[j as int] == ev);
        let ghost pre = edited.subrange(0, j + 1);
        assert(pre.drop_last() =~= edited.subrange(0, j as int));
        if e.source != ModSource::NoSource && (d & 0x7fff_ffffu32) != 0 {
            out.push(ModEntry { param: e.param.clone(), source: e.source, depth_bits: d });
            assert(entry_views(out@) =~= kept(edited.subrange(0, j as int)).push(ev));
        }
        j = j + 1;
    }
    if found.is_none() && source != ModSource::NoSource {
        let ghost nv = ModEntryView { param: param@, source, depth_bits };
        assert(edited =~= es.push(nv));
        let ghost pre = edited.subrange(0, n + 1);
        assert(pre.drop_last() =~= edited.subrange(0, n as int));
        if (depth_bits & 0x7fff_ffffu32) != 0 {
            out.push(ModEntry { param: String::from_str(param), source, depth_bits });
            assert(entry_views(out@) =~= kept(edited.subrange(0, n as int)).push(nv));
        }
        assert(edited.subrange(0, n + 1) =~= edited);
    } else {
        assert(edited.len() == n);
        assert(edited.subrange(0, n as int) =~= edited);
    }
    out
}

proof fn lemma_first_entry_bound(es: Seq<ModEntryView>, param: Seq<char>, source: ModSource)
    ensures
        first_entry(es, param, source) matches Some(i) ==> 0 <= i < es.len(),
    decreases es.len(),
{
    if es.len() > 0 {
        lemma_first_entry_bound(es.drop_last(), param, source);
    }
}


/// No two entries route the same source to the same parameter.
pub open spec fn unique_routes(es: Seq<ModEntryView>) -> bool {
    forall|i: int, j: int|
        0 <= i < j < es.len() ==> !((#[trigger] es[i]).param == (#[trigger] es[j]).param && es[i].source
            == es[j].source)
}

proof fn lemma_first_entry(es: Seq<ModEntryView>, param: Seq<char>, source: ModSource)
    ensures
        match first_entry(es, param, source) {
            Some(i) => 0 <= i < es.len() && es[i].param == param && es[i].source == source,
            None => forall|j: int|
                0 <= j < es.len() ==> !((#[trigger] es[j]).param == param && es[j].source == source),
        },
    decreases es.len(),
{
    if es.len() > 0 {
        lemma_first_entry(es.drop_last(), param, source);
        match first_entry(es.drop_last(), param, source) {
            Some(i) => {
                assert(es[i] == es.drop_last()[i]);
            },
            None => {
                assert forall|j: int| 0 <= j < es.len() - 1 implies !((#[trigger] es[j]).param
                    == param && es[j].source == source) by {
                    assert(es[j] == es.drop_last()[j]);
                }
            },
        }
    }
}

proof fn lemma_kept(es: Seq<ModEntryView>)
    ensures
        forall|k: int| 0 <= k < kept(es).len() ==> keeps_entry(#[trigger] kept(es)[k]),
        forall|k: int| 0 <= k < kept(es).len() ==> es.contains(#[trigger] kept(es)[k]),
        forall|x: ModEntryView| es.contains(x) && keeps_entry(x) ==> #[trigger] kept(es).contains(x),
        unique_routes(es) ==> unique_routes(kept(es)),
    decreases es.len(),
{
    if es.len() > 0 {
        let d = es.drop_last();
        lemma_kept(d);
        let kd = kept(d);
        assert forall|x: ModEntryView| d.contains(x) implies es.contains(x) by {
            let j = choose|j: int| 0 <= j < d.len() && d[j] == x;
            assert(es[j] == x);
        }
        assert forall|x: ModEntryView| es.contains(x) && keeps_entry(x) implies #[trigger] kept(es).contains(x) by {
            let j = choose|j: int| 0 <= j < es.len() && es[j] == x;
            if j < es.len() - 1 {
                assert(d[j] == x);
                assert(d.contains(x));
                assert(kd.contains(x));
                let k = choose|k: int| 0 <= k < kd.len() && kd[k] == x;
                if keeps_entry(es.last()) {
                    assert(kept(es) == kd.push(es.last()));
                    assert(kept(es)[k] == x);
                } else {
                    assert(kept(es) == kd);
                    assert(kept(es)[k] == x);
                }
            } else {
                assert(kept(es)[kept(es).len() - 1] == x);
            }
        }
        if keeps_entry(es.last()) {
            let ke = kept(es);
            assert forall|k: int| 0 <= k < ke.len() implies es.contains(#[trigger] ke[k]) by {
                if k < kd.len() {
                    assert(ke[k] == kd[k]);
                    assert(d.contains(kd[k]));
                } else {
                    assert(es[es.len() - 1] == ke[k]);
                }
            }
            if unique_routes(es) {
                assert(unique_routes(d)) by {
                    assert forall|i: int, j: int| 0 <= i < j < d.len() implies !((#[trigger] d[i]).param
                        == (#[trigger] d[j]).param && d[i].source == d[j].source) by {
                        assert(d[i] == es[i]);
                        assert(d[j] == es[j]);
                    }
                }
                assert forall|i: int, j: int| 0 <= i < j < ke.len() implies !((#[trigger] ke[i]).param
                    == (#[trigger] ke[j]).param && ke[i].source == ke[j].source) by {
                    if j < kd.len() {
                        assert(ke[i] == kd[i]);
                        assert(ke[j] == kd[j]);
                    } else {
                        assert(ke[i] == kd[i]);
                        assert(d.contains(kd[i]));
                        let m = choose|m: int| 0 <= m < d.len() && d[m] == kd[i];
                        assert(es[m] == d[m]);
                        assert(ke[j] == es[es.len() - 1]);
                    }
                }
            }
        } else {
            assert forall|k: int| 0 <= k < kept(es).len() implies es.contains(#[trigger] kept(es)[k]) by {
                assert(d.contains(kd[k]));
            }
            if unique_routes(es) {
                assert forall|i: int, j: int| 0 <= i < j < d.len() implies !((#[trigger] d[i]).param
                    == (#[trigger] d[j]).param && d[i].source == d[j].source) by {
                    assert(d[i] == es[i]);
                    assert(d[j] == es[j]);
                }
            }
        }
    }
}

/// A `SET_MOD` edit keeps routes unique per `(param, source)`, keeps only
/// routes with a source and a non-zero depth, and, for a real source and a
/// non-zero depth, leaves a route from that source to that parameter with
/// that depth.
pub proof fn lemma_update_mod_entries(es: Seq<ModEntryView>, param: Seq<char>, source: ModSource, depth_bits: u32)
    requires
        unique_routes(es),
    ensures
        unique_routes(spec_update_mod_entries(es, param, source, depth_bits)),
        forall|k: int|
            0 <= k < spec_update_mod_entries(es, param, source, depth_bits).len() ==> keeps_entry(
                #[trigger] spec_update_mod_entries(es, param, source, depth_bits)[k],
            ),
        source != ModSource::NoSource && !is_zero_depth(depth_bits) ==> spec_update_mod_entries(
            es,
            param,
            source,
            depth_bits,
        ).contains(ModEntryView { param, source, depth_bits }),
{
    lemma_first_entry(es, param, source);
    let target = ModEntryView { param, source, depth_bits };
    let edited = match first_entry(es, param, source) {
        Some(i) => es.update(i, ModEntryView { param: es[i].param, source: es[i].source, depth_bits }),
        None => if source != ModSource::NoSource {
            es.push(target)
        } else {
            es
        },
    };
    assert(unique_routes(edited)) by {
        assert forall|i: int, j: int| 0 <= i < j < edited.len() implies !((#[trigger] edited[i]).param
            == (#[trigger] edited[j]).param && edited[i].source == edited[j].source) by {
            if j < es.len() {
                assert(edited[i].param == es[i].param && edited[i].source == es[i].source);
                assert(edited[j].param == es[j].param && edited[j].source == es[j].source);
            } else {
                assert(edited[i] == es[i]);
            }
        }
    }
    match first_entry(es, param, source) {
        Some(i) => {
            assert(edited[i] == target);
            assert(edited.contains(target));
        },
        None => {
            if source != ModSource::NoSource {
                assert(edited[edited.len() - 1] == target);
                assert(edited.contains(target));
            }
        },
    }
    lemma_kept(edited);
}


/// No two routes of a parameter come from the same source.
pub open spec fn unique_sources(rs: Seq<ModRoute>) -> bool {
    forall|i: int, j: int| 0 <= i < j < rs.len() ==> (#[trigger] rs[i]).source != (#[trigger] rs[j]).source
}

/// Routing a source to a parameter keeps its sources unique and the list
/// within capacity, and leaves exactly that source at that depth.
pub proof fn lemma_set_route(rs: Seq<ModRoute>, source: ModSource, depth_bits: u32)
    requires
        unique_sources(rs),
        rs.len() <= MAX_MOD_ROUTES,
        can_set_route(rs, source),
    ensures
        unique_sources(spec_set_route(rs, source, depth_bits)),
        spec_set_route(rs, source, depth_bits).len() <= MAX_MOD_ROUTES,
        spec_set_route(rs, source, depth_bits).contains(ModRoute { source, depth_bits }),
{
    lemma_first_route(rs, source);
    let r = spec_set_route(rs, source, depth_bits);
    match first_route(rs, source) {
        Some(i) => {
            assert(r[i] == ModRoute { source, depth_bits });
            assert forall|a: int, b: int| 0 <= a < b < r.len() implies (#[trigger] r[a]).source
                != (#[trigger] r[b]).source by {
                assert(r[a].source == rs[a].source);
                assert(r[b].source == rs[b].source);
            }
        },
        None => {
            assert(r[rs.len() as int] == ModRoute { source, depth_bits });
            assert forall|a: int, b: int| 0 <= a < b < r.len() implies (#[trigger] r[a]).source
                != (#[trigger] r[b]).source by {
                assert(r[a] == rs[a]);
                if b < rs.len() {
                    assert(r[b] == rs[b]);
                }
            }
        },
    }
}

} // verus!
