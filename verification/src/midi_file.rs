//! Preview-track scheduling: a Standard MIDI File is parsed (by `midly`),
//! its tracks are merged into one tick-ordered event list, and every
//! percussion note-on is given its start time.

use vstd::prelude::*;

verus! {

/// Tempo assumed until the first tempo event: 500 000 µs per quarter (120 BPM).
pub const DEFAULT_TEMPO_US_PER_QUARTER: u32 = 500_000;

/// Lowest General-MIDI percussion note that is scheduled.
pub const GM_PERCUSSION_LOW: u8 = 35;

/// Highest General-MIDI percussion note that is scheduled.
pub const GM_PERCUSSION_HIGH: u8 = 81;

/// What a track event means to the scheduler.
#[derive(Debug, Clone, Copy, PartialEq, Eq, Structural)]
pub enum EventKind {
    /// A channel note-on (any channel).
    NoteOn { key: u8, vel: u8 },
    /// A tempo meta-event, in microseconds per quarter note.
    Tempo { us_per_quarter: u32 },
    /// Anything else.
    Other,
}

/// One event of a track, `delta` ticks after the previous one.
#[derive(Debug, Clone, Copy, PartialEq, Eq, Structural)]
pub struct TrackEvent {
    pub delta: u32,
    pub kind: EventKind,
}

/// The file's time base.
#[derive(Debug, Clone, Copy, PartialEq, Eq, Structural)]
pub enum FileTiming {
    /// Ticks per quarter note.
    Metrical { ticks_per_quarter: u16 },
    /// SMPTE frames per second (24, 25, 29 for 29.97, 30) and ticks per frame.
    Timecode { fps: u8, subframe: u8 },
}

/// A parsed file: its timing and its tracks.
#[derive(Debug)]
pub struct MidiFile {
    pub timing: FileTiming,
    pub tracks: Vec<Vec<TrackEvent>>,
}

/// The mathematical content of a `MidiFile`.
pub struct MidiFileView {
    pub timing: FileTiming,
    pub tracks: Seq<Seq<TrackEvent>>,
}

impl View for MidiFile {
    type V = MidiFileView;

    open spec fn view(&self) -> MidiFileView {
        MidiFileView { timing: self.timing, tracks: self.tracks@.map_values(|t: Vec<TrackEvent>| t@) }
    }
}

#[verifier::external_type_specification]
#[verifier::external_body]
pub struct ExSmf<'a>(midly::Smf<'a>);

/// What a parsed `midly::Smf` holds, as timing and per-track events.
pub uninterp spec fn smf_contents(smf: midly::Smf) -> MidiFileView;

/// What `midly::Smf::parse` makes of a byte string (`None` when it refuses it).
pub uninterp spec fn smf_parse(bytes: Seq<u8>) -> Option<MidiFileView>;

/// `midly::Smf::parse`: claims only that its outcome is the named function of
/// the bytes, and that a parsed file's contents are that outcome.
#[verifier::external_body]
fn parse_smf<'a>(bytes: &'a [u8]) -> (r: Option<midly::Smf<'a>>)
    ensures
        r is None <==> smf_parse(bytes@) is None,
        r matches Some(s) ==> smf_parse(bytes@) == Some(smf_contents(s)),
{
    midly::Smf::parse(bytes).ok()
}

/// The header timing of a parsed file (`Header::timing`, with `u15::as_int`
/// and `Fps::as_int` for the numbers).
#[verifier::external_body]
fn smf_timing(smf: &midly::Smf) -> (r: FileTiming)
    ensures
        r == smf_contents(*smf).timing,
{
    match smf.header.timing {
        midly::Timing::Metrical(t) => FileTiming::Metrical { ticks_per_quarter: t.as_int() },
        midly::Timing::Timecode(f, s) => FileTiming::Timecode { fps: f.as_int(), subframe: s },
    }
}

/// The number of tracks of a parsed file (`Smf::tracks.len()`).
#[verifier::external_body]
fn smf_track_count(smf: &midly::Smf) -> (r: usize)
    ensures
        r == smf_contents(*smf).tracks.len(),
{
    smf.tracks.len()
}

/// The number of events of track `t` (`Vec::len` on `Smf::tracks[t]`).
#[verifier::external_body]
fn smf_track_len(smf: &midly::Smf, t: usize) -> (r: usize)
    requires
        t < smf_contents(*smf).tracks.len(),
    ensures
        r == smf_contents(*smf).tracks[t as int].len(),
{
    smf.tracks[t].len()
}

/// Event `e` of track `t`: its delta (`u28::as_int`) and, for a note-on, a
/// tempo meta-event or anything else, what the scheduler reads of it.
#[verifier::external_body]
fn smf_event(smf: &midly::Smf, t: usize, e: usize) -> (r: TrackEvent)
    requires
        t < smf_contents(*smf).tracks.len(),
        e < smf_contents(*smf).tracks[t as int].len(),
    ensures
        r == smf_contents(*smf).tracks[t as int][e as int],
{
    let ev = &smf.tracks[t][e];
    let kind = match ev.kind {
        midly::TrackEventKind::Midi { message: midly::MidiMessage::NoteOn { key, vel }, .. } =>
            EventKind::NoteOn { key: key.as_int(), vel: vel.as_int() },
        midly::TrackEventKind::Meta(midly::MetaMessage::Tempo(v)) =>
            EventKind::Tempo { us_per_quarter: v.as_int() },
        _ => EventKind::Other,
    };
    TrackEvent { delta: ev.delta.as_int(), kind }
}


/// An event placed at its absolute tick.
#[derive(Debug, Clone, Copy, PartialEq, Eq, Structural)]
pub struct TimedEvent {
    pub tick: u64,
    pub kind: EventKind,
}

/// A percussion note-on with its start time in microseconds from the start
/// of the file.
#[derive(Debug, Clone, Copy, PartialEq, Eq, Structural)]
pub struct ScheduledNote {
    pub offset_us: u64,
    pub note: u8,
    pub velocity: u8,
}

/// A percussion note-on at an absolute tick (for SMPTE-timed files, whose
/// tick length the caller turns into time).
#[derive(Debug, Clone, Copy, PartialEq, Eq, Structural)]
pub struct TickNote {
    pub tick: u64,
    pub note: u8,
    pub velocity: u8,
}

/// The schedule of a file.
#[derive(Debug)]
pub enum NoteSchedule {
    /// Tempo-mapped start times.
    Metrical(Vec<ScheduledNote>),
    /// Notes by tick, with the SMPTE rate that converts ticks to time.
    Timecode { fps: u8, subframe: u8, hits: Vec<TickNote> },
}

pub enum NoteScheduleView {
    Metrical(Seq<ScheduledNote>),
    Timecode { fps: u8, subframe: u8, hits: Seq<TickNote> },
}

impl View for NoteSchedule {
    type V = NoteScheduleView;

    open spec fn view(&self) -> NoteScheduleView {
        match self {
            NoteSchedule::Metrical(v) => NoteScheduleView::Metrical(v@),
            NoteSchedule::Timecode { fps, subframe, hits } => NoteScheduleView::Timecode {
                fps: *fps,
                subframe: *subframe,
                hits: hits@,
            },
        }
    }
}

/// Why a file yields no schedule.
#[derive(Debug, Clone, Copy, PartialEq, Eq, Structural)]
pub enum ScheduleError {
    /// `midly` refused the bytes.
    Parse,
    /// A metrical file with zero ticks per quarter note.
    ZeroTicksPerQuarter,
    /// An SMPTE file with a zero rate.
    InvalidSmpte,
    /// A tick or time that does not fit 64 bits (the 64-bit arithmetic of
    /// the schedule would overflow).
    Overflow,
}

/// Sum of the deltas of a track: the absolute tick of its last event.
pub open spec fn delta_total(t: Seq<TrackEvent>) -> int
    decreases t.len(),
{
    if t.len() == 0 {
        0
    } else {
        delta_total(t.drop_last()) + t.last().delta
    }
}

/// A track's events at their absolute ticks.
pub open spec fn track_timed(t: Seq<TrackEvent>) -> Seq<TimedEvent>
    decreases t.len(),
{
    if t.len() == 0 {
        Seq::empty()
    } else {
        track_timed(t.drop_last()).push(
            TimedEvent { tick: delta_total(t) as u64, kind: t.last().kind },
        )
    }
}

/// All tracks' timed events, track after track.
pub open spec fn flatten(ts: Seq<Seq<TrackEvent>>) -> Seq<TimedEvent>
    decreases ts.len(),
{
    if ts.len() == 0 {
        Seq::empty()
    } else {
        flatten(ts.drop_last()) + track_timed(ts.last())
    }
}

/// Every track's absolute ticks fit 64 bits.
pub open spec fn ticks_fit(ts: Seq<Seq<TrackEvent>>) -> bool {
    forall|i: int| 0 <= i < ts.len() ==> delta_total(#[trigger] ts[i]) <= u64::MAX
}

proof fn lemma_delta_total_prefix(t: Seq<TrackEvent>, k: int)
    requires
        0 <= k <= t.len(),
    ensures
        delta_total(t.subrange(0, k)) <= delta_total(t),
    decreases t.len() - k,
{
    if k < t.len() {
        lemma_delta_total_prefix(t, k + 1);
        assert(t.subrange(0, k + 1).drop_last() =~= t.subrange(0, k));
    } else {
        assert(t.subrange(0, k) =~= t);
    }
}

/// The events of every track at their absolute ticks, track after track.
/// `None` when some track's ticks do not fit 64 bits.
pub fn flatten_tracks(tracks: &Vec<Vec<TrackEvent>>) -> (r: Option<Vec<TimedEvent>>)
    ensures
        r is Some <==> ticks_fit(tracks@.map_values(|t: Vec<TrackEvent>| t@)),
        r matches Some(v) ==> v@ == flatten(tracks@.map_values(|t: Vec<TrackEvent>| t@)),
{
    let ghost ts = tracks@.map_values(|t: Vec<TrackEvent>| t@);
    let mut out: Vec<TimedEvent> = Vec::new();
    let mut i: usize = 0;
    while i < tracks.len()
        invariant
            ts == tracks@.map_values(|t: Vec<TrackEvent>| t@),
            i <= tracks@.len(),
            ticks_fit(ts.subrange(0, i as int)),
            out@ == flatten(ts.subrange(0, i as int)),
        decreases tracks@.len() - i,
    {
        let track = &tracks[i];
        assert(track@ == ts[i as int]);
        let ghost base = out@;
        let mut abs: u64 = 0;
        let mut j: usize = 0;
        while j < track.len()
            invariant
                ts == tracks@.map_values(|t: Vec<TrackEvent>| t@),
                i < tracks@.len(),
                track@ == ts[i as int],
                j <= track@.len(),
                abs as int == delta_total(track@.subrange(0, j as int)),
                out@ == base + track_timed(track@.subrange(0, j as int)),
            decreases track@.len() - j,
        {
            let ghost pre = track@.subrange(0, j + 1);
            assert(pre.drop_last() =~= track@.subrange(0, j as int));
            let ev = track[j];
            match abs.checked_add(ev.delta as u64) {
                Some(a) => {
                    abs = a;
                },
                None => {
                    proof {
                        lemma_delta_total_prefix(track@, j + 1);
                        assert(delta_total(pre) == abs + ev.delta);
                        assert(!ticks_fit(ts)) by {
                            assert(delta_total(ts[i as int]) > u64::MAX);
                        }
                        assert(!ticks_fit(tracks@.map_values(|t: Vec<TrackEvent>| t@)));
                    }
                    return None;
                },
            }
            out.push(TimedEvent { tick: abs, kind: ev.kind });
            j = j + 1;
            assert(out@ =~= base + track_timed(track@.subrange(0, j as int)));
        }
        assert(track@.subrange(0, track@.len() as int) =~= track@);
        let ghost nxt = ts.subrange(0, i + 1);
        assert(nxt.drop_last() =~= ts.subrange(0, i as int));
        assert(nxt.last() == track@);
        i = i + 1;
        assert forall|k: int| 0 <= k < i implies delta_total(#[trigger] ts.subrange(0, i as int)[k]) <= u64::MAX by {
            if k < i - 1 {
                assert(ts.subrange(0, i as int)[k] == ts.subrange(0, i - 1)[k]);
            }
        }
    }
    assert(ts.subrange(0, tracks@.len() as int) =~= ts);
    Some(out)
}

/// Index of the first event later than `tick` (the length when none is).
pub open spec fn first_after(r: Seq<TimedEvent>, tick: u64) -> int
    decreases r.len(),
{
    if r.len() == 0 {
        0
    } else if r[0].tick > tick {
        0
    } else {
        1 + first_after(r.drop_first(), tick)
    }
}

/// The events ordered by tick, events with equal ticks keeping their order
/// (what a stable `sort_by_key` on the tick gives).
pub open spec fn stable_sort(s: Seq<TimedEvent>) -> Seq<TimedEvent>
    decreases s.len(),
{
    if s.len() == 0 {
        Seq::empty()
    } else {
        let r = stable_sort(s.drop_last());
        r.insert(first_after(r, s.last().tick), s.last())
    }
}

pub open spec fn tick_sorted(s: Seq<TimedEvent>) -> bool {
    forall|i: int, j: int| 0 <= i < j < s.len() ==> (#[trigger] s[i]).tick <= (#[trigger] s[j]).tick
}

proof fn lemma_first_after(r: Seq<TimedEvent>, tick: u64)
    ensures
        0 <= first_after(r, tick) <= r.len(),
        forall|k: int| 0 <= k < first_after(r, tick) ==> (#[trigger] r[k]).tick <= tick,
        first_after(r, tick) < r.len() ==> r[first_after(r, tick)].tick > tick,
    decreases r.len(),
{
    if r.len() > 0 && r[0].tick <= tick {
        lemma_first_after(r.drop_first(), tick);
        assert forall|k: int| 0 <= k < first_after(r, tick) implies (#[trigger] r[k]).tick <= tick by {
            if k > 0 {
                assert(r[k] == r.drop_first()[k - 1]);
            }
        }
    }
}

/// Stable sorting orders the events by tick and keeps exactly the events it
/// was given.
pub proof fn lemma_stable_sort(s: Seq<TimedEvent>)
    ensures
        tick_sorted(stable_sort(s)),
        stable_sort(s).to_multiset() == s.to_multiset(),
    decreases s.len(),
{
    broadcast use vstd::seq_lib::group_to_multiset_ensures;

    if s.len() == 0 {
        assert(stable_sort(s) =~= s);
    } else {
        let r = stable_sort(s.drop_last());
        lemma_stable_sort(s.drop_last());
        let x = s.last();
        let p = first_after(r, x.tick);
        lemma_first_after(r, x.tick);
        let r2 = r.insert(p, x);
        assert forall|i: int, j: int| 0 <= i < j < r2.len() implies (#[trigger] r2[i]).tick <= (
        #[trigger] r2[j]).tick by {
            if j < p {
                assert(r[i].tick <= r[j].tick);
            } else if j == p {
                assert(r2[i] == r[i]);
            } else if i < p {
                assert(r2[j] == r[j - 1]);
                assert(r[i].tick <= r[j - 1].tick);
            } else if i == p {
                assert(r2[j] == r[j - 1]);
                if j - 1 > p {
                    assert(r[p].tick <= r[j - 1].tick);
                }
            } else {
                assert(r[i - 1].tick <= r[j - 1].tick);
            }
        }
        assert(s =~= s.drop_last().push(x));
    }
}

/// The events ordered by tick, stably.
pub fn sort_by_tick(v: &Vec<TimedEvent>) -> (r: Vec<TimedEvent>)
    ensures
        r@ == stable_sort(v@),
{
    let mut r: Vec<TimedEvent> = Vec::new();
    let mut i: usize = 0;
    while i < v.len()
        invariant
            i <= v@.len(),
            r@ == stable_sort(v@.subrange(0, i as int)),
        decreases v@.len() - i,
    {
        let x = v[i];
        let ghost pre = v@.subrange(0, i + 1);
        assert(pre.drop_last() =~= v@.subrange(0, i as int));
        let mut p: usize = 0;
        assert(r@.subrange(0, r@.len() as int) =~= r@);
        while p < r.len() && r[p].tick <= x.tick
            invariant
                p <= r@.len(),
                first_after(r@, x.tick) == p + first_after(r@.subrange(p as int, r@.len() as int), x.tick),
            decreases r@.len() - p,
        {
            let ghost rest = r@.subrange(p as int, r@.len() as int);
            assert(rest.drop_first() =~= r@.subrange(p + 1, r@.len() as int));
            p = p + 1;
        }
        proof {
            let rest = r@.subrange(p as int, r@.len() as int);
            if p < r@.len() {
                assert(rest[0] == r@[p as int]);
            }
        }
        r.insert(p, x);
        i = i + 1;
    }
    assert(v@.subrange(0, v@.len() as int) =~= v@);
    r
}

/// Parse a Standard MIDI File into timing and tracks.
pub fn read_midi_file(bytes: &[u8]) -> (r: Option<MidiFile>)
    ensures
        r is None <==> smf_parse(bytes@) is None,
        r matches Some(f) ==> smf_parse(bytes@) == Some(f@),
{
    let smf = match parse_smf(bytes) {
        Some(s) => s,
        None => return None,
    };
    let ghost c = smf_contents(smf);
    let timing = smf_timing(&smf);
    let n = smf_track_count(&smf);
    let mut tracks: Vec<Vec<TrackEvent>> = Vec::new();
    let mut t: usize = 0;
    while t < n
        invariant
            c == smf_contents(smf),
            n == c.tracks.len(),
            t <= n,
            tracks@.len() == t,
            forall|k: int| 0 <= k < t ==> (#[trigger] tracks@[k])@ == c.tracks[k],
        decreases n - t,
    {
        let len = smf_track_len(&smf, t);
        let mut track: Vec<TrackEvent> = Vec::new();
        let mut e: usize = 0;
        while e < len
            invariant
                c == smf_contents(smf),
                n == c.tracks.len(),
                t < n,
                len == c.tracks[t as int].len(),
                e <= len,
                track@ == c.tracks[t as int].subrange(0, e as int),
            decreases len - e,
        {
            let ev = smf_event(&smf, t, e);
            track.push(ev);
            e = e + 1;
            assert(track@ =~= c.tracks[t as int].subrange(0, e as int));
        }
        assert(track@ =~= c.tracks[t as int]);
        tracks.push(track);
        t = t + 1;
    }
    let f = MidiFile { timing, tracks };
    assert(f@.tracks =~= c.tracks);
    Some(f)
}


/// Whether an event is a percussion note-on that gets scheduled: a note-on
/// with non-zero velocity for a note in `35..=81`.
pub open spec fn is_percussion_hit(k: EventKind) -> bool {
    match k {
        EventKind::NoteOn { key, vel } => vel > 0 && GM_PERCUSSION_LOW <= key
            <= GM_PERCUSSION_HIGH,
        _ => false,
    }
}

/// The state of the tempo walk over a prefix of the events: the tick and
/// time reached, the tempo in force, whether all 64-bit arithmetic so far
/// stayed in range, and the notes scheduled.
pub struct Walk {
    pub last_tick: int,
    pub accum_us: int,
    pub tempo: int,
    pub fits: bool,
    pub notes: Seq<ScheduledNote>,
}

/// Walk the events in order. Each event advances the clock by
/// `(tick - last_tick) * tempo / ticks_per_quarter` microseconds; a tempo
/// event changes the tempo from its tick on; a percussion note-on is
/// scheduled at the time reached.
pub open spec fn walk(s: Seq<TimedEvent>, tpq: int) -> Walk
    decreases s.len(),
{
    if s.len() == 0 {
        Walk {
            last_tick: 0,
            accum_us: 0,
            tempo: DEFAULT_TEMPO_US_PER_QUARTER as int,
            fits: true,
            notes: Seq::empty(),
        }
    } else {
        let w = walk(s.drop_last(), tpq);
        let e = s.last();
        let prod = (e.tick - w.last_tick) * w.tempo;
        let acc = w.accum_us + prod / tpq;
        Walk {
            last_tick: e.tick as int,
            accum_us: acc,
            tempo: match e.kind {
                EventKind::Tempo { us_per_quarter } => us_per_quarter as int,
                _ => w.tempo,
            },
            fits: w.fits && e.tick >= w.last_tick && prod <= u64::MAX && acc <= u64::MAX,
            notes: match e.kind {
                EventKind::NoteOn { key, vel } => if is_percussion_hit(e.kind) {
                    w.notes.push(ScheduledNote { offset_us: acc as u64, note: key, velocity: vel })
                } else {
                    w.notes
                },
                _ => w.notes,
            },
        }
    }
}

proof fn lemma_walk_fits_prefix(s: Seq<TimedEvent>, tpq: int, k: int)
    requires
        0 <= k <= s.len(),
        walk(s, tpq).fits,
    ensures
        walk(s.subrange(0, k), tpq).fits,
    decreases s.len() - k,
{
    if k < s.len() {
        assert(s.drop_last() =~= s.subrange(0, s.len() - 1));
        lemma_walk_fits_prefix(s.drop_last(), tpq, k);
        assert(s.drop_last().subrange(0, k) =~= s.subrange(0, k));
    } else {
        assert(s.subrange(0, k) =~= s);
    }
}

/// Start times for the percussion notes of tick-ordered events in a file with
/// `tpq` ticks per quarter. `None` when the walk's 64-bit arithmetic would
/// overflow or an event precedes its predecessor.
pub fn schedule_metrical(tpq: u16, events: &Vec<TimedEvent>) -> (r: Option<Vec<ScheduledNote>>)
    requires
        tpq > 0,
    ensures
        r is Some <==> walk(events@, tpq as int).fits,
        r matches Some(v) ==> v@ == walk(events@, tpq as int).notes,
{
    let mut last: u64 = 0;
    let mut accum: u64 = 0;
    let mut tempo: u32 = DEFAULT_TEMPO_US_PER_QUARTER;
    let mut out: Vec<ScheduledNote> = Vec::new();
    let mut i: usize = 0;
    assert(events@.subrange(0, 0) =~= Seq::<TimedEvent>::empty());
    while i < events.len()
        invariant
            tpq > 0,
            i <= events@.len(),
            walk(events@.subrange(0, i as int), tpq as int).fits,
            last as int == walk(events@.subrange(0, i as int), tpq as int).last_tick,
            accum as int == walk(events@.subrange(0, i as int), tpq as int).accum_us,
            tempo as int == walk(events@.subrange(0, i as int), tpq as int).tempo,
            out@ == walk(events@.subrange(0, i as int), tpq as int).notes,
        decreases events@.len() - i,
    {
        let e = events[i];
        let ghost pre = events@.subrange(0, i + 1);
        assert(pre.drop_last() =~= events@.subrange(0, i as int));
        assert(pre.last() == e);
        if e.tick < last {
            proof {
                if walk(events@, tpq as int).fits {
                    lemma_walk_fits_prefix(events@, tpq as int, i + 1);
                }
            }
            return None;
        }
        let d = e.tick - last;
        let prod = match d.checked_mul(tempo as u64) {
            Some(p) => p,
            None => {
                proof {
                    if walk(events@, tpq as int).fits {
                        lemma_walk_fits_prefix(events@, tpq as int, i + 1);
                    }
                }
                return None;
            },
        };
        accum = match accum.checked_add(prod / (tpq as u64)) {
            Some(a) => a,
            None => {
                proof {
                    if walk(events@, tpq as int).fits {
                        lemma_walk_fits_prefix(events@, tpq as int, i + 1);
                    }
                }
                return None;
            },
        };
        last = e.tick;
        match e.kind {
            EventKind::Tempo { us_per_quarter } => {
                tempo = us_per_quarter;
            },
            EventKind::NoteOn { key, vel } => {
                if vel > 0 && GM_PERCUSSION_LOW <= key && key <= GM_PERCUSSION_HIGH {
                    out.push(ScheduledNote { offset_us: accum, note: key, velocity: vel });
                }
            },
            EventKind::Other => {},
        }
        i = i + 1;
    }
    assert(events@.subrange(0, events@.len() as int) =~= events@);
    Some(out)
}

/// The percussion note-ons of the events, in order, by tick.
pub open spec fn percussion_hits(s: Seq<TimedEvent>) -> Seq<TickNote>
    decreases s.len(),
{
    if s.len() == 0 {
        Seq::empty()
    } else {
        let rest = percussion_hits(s.drop_last());
        match s.last().kind {
            EventKind::NoteOn { key, vel } => if is_percussion_hit(s.last().kind) {
                rest.push(TickNote { tick: s.last().tick, note: key, velocity: vel })
            } else {
                rest
            },
            _ => rest,
        }
    }
}

/// The percussion note-ons of the events, by tick.
pub fn tick_hits(events: &Vec<TimedEvent>) -> (r: Vec<TickNote>)
    ensures
        r@ == percussion_hits(events@),
{
    let mut out: Vec<TickNote> = Vec::new();
    let mut i: usize = 0;
    while i < events.len()
        invariant
            i <= events@.len(),
            out@ == percussion_hits(events@.subrange(0, i as int)),
        decreases events@.len() - i,
    {
        let e = events[i];
        let ghost pre = events@.subrange(0, i + 1);
        assert(pre.drop_last() =~= events@.subrange(0, i as int));
        match e.kind {
            EventKind::NoteOn { key, vel } => {
                if vel > 0 && GM_PERCUSSION_LOW <= key && key <= GM_PERCUSSION_HIGH {
                    out.push(TickNote { tick: e.tick, note: key, velocity: vel });
                }
            },
            _ => {},
        }
        i = i + 1;
    }
    assert(events@.subrange(0, events@.len() as int) =~= events@);
    out
}

/// The schedule of a parsed file: tracks are merged by tick (stably), then
/// a metrical file is tempo-walked and an SMPTE file's hits are kept by tick.
pub open spec fn spec_schedule_file(f: MidiFileView) -> Result<NoteScheduleView, ScheduleError> {
    if !ticks_fit(f.tracks) {
        Err(ScheduleError::Overflow)
    } else {
        let ev = stable_sort(flatten(f.tracks));
        match f.timing {
            FileTiming::Metrical { ticks_per_quarter } => if ticks_per_quarter == 0 {
                Err(ScheduleError::ZeroTicksPerQuarter)
            } else if !walk(ev, ticks_per_quarter as int).fits {
                Err(ScheduleError::Overflow)
            } else {
                Ok(NoteScheduleView::Metrical(walk(ev, ticks_per_quarter as int).notes))
            },
            FileTiming::Timecode { fps, subframe } => if fps == 0 || subframe == 0 {
                Err(ScheduleError::InvalidSmpte)
            } else {
                Ok(NoteScheduleView::Timecode { fps, subframe, hits: percussion_hits(ev) })
            },
        }
    }
}

/// View of a schedule result.
pub open spec fn schedule_result_view(r: Result<NoteSchedule, ScheduleError>) -> Result<
    NoteScheduleView,
    ScheduleError,
> {
    match r {
        Ok(s) => Ok(s@),
        Err(e) => Err(e),
    }
}

/// Every percussion note-on is scheduled and nothing else is: appending an
/// event to the walk adds one note exactly when the event is a note-on with
/// non-zero velocity for a General MIDI percussion key, 35 to 81 inclusive
/// (with that key and velocity, at the time the walk has reached); any other
/// event adds none. The same holds of the hits kept by tick.
pub proof fn lemma_percussion_notes_scheduled(s: Seq<TimedEvent>, e: TimedEvent, tpq: int)
    ensures
        walk(s.push(e), tpq).notes == (match e.kind {
            EventKind::NoteOn { key, vel } => if vel > 0 && 35 <= key && key <= 81 {
                walk(s, tpq).notes.push(
                    ScheduledNote { offset_us: walk(s.push(e), tpq).accum_us as u64, note: key, velocity: vel },
                )
            } else {
                walk(s, tpq).notes
            },
            _ => walk(s, tpq).notes,
        }),
        percussion_hits(s.push(e)) == (match e.kind {
            EventKind::NoteOn { key, vel } => if vel > 0 && 35 <= key && key <= 81 {
                percussion_hits(s).push(TickNote { tick: e.tick, note: key, velocity: vel })
            } else {
                percussion_hits(s)
            },
            _ => percussion_hits(s),
        }),
{
    assert(s.push(e).drop_last() =~= s);
    assert(s.push(e).last() == e);
}

/// Schedule the percussion notes of a parsed file.
pub fn schedule_file(f: &MidiFile) -> (r: Result<NoteSchedule, ScheduleError>)
    ensures
        schedule_result_view(r) == spec_schedule_file(f@),
{
    let flat = match flatten_tracks(&f.tracks) {
        Some(v) => v,
        None => return Err(ScheduleError::Overflow),
    };
    let ev = sort_by_tick(&flat);
    match f.timing {
        FileTiming::Metrical { ticks_per_quarter } => {
            if ticks_per_quarter == 0 {
                Err(ScheduleError::ZeroTicksPerQuarter)
            } else {
                match schedule_metrical(ticks_per_quarter, &ev) {
                    Some(notes) => Ok(NoteSchedule::Metrical(notes)),
                    None => Err(ScheduleError::Overflow),
                }
            }
        },
        FileTiming::Timecode { fps, subframe } => {
            if fps == 0 || subframe == 0 {
                Err(ScheduleError::InvalidSmpte)
            } else {
                Ok(NoteSchedule::Timecode { fps, subframe, hits: tick_hits(&ev) })
            }
        },
    }
}

/// Parse a Standard MIDI File and schedule its percussion notes.
pub fn parse_events(bytes: &[u8]) -> (r: Result<NoteSchedule, ScheduleError>)
    ensures
        smf_parse(bytes@) is None ==> r == Err::<NoteSchedule, ScheduleError>(ScheduleError::Parse),
        smf_parse(bytes@) matches Some(f) ==> schedule_result_view(r) == spec_schedule_file(f),
{
    match read_midi_file(bytes) {
        Some(f) => schedule_file(&f),
        None => Err(ScheduleError::Parse),
    }
}

/// The scheduled notes come out in time order and never later than the time
/// the walk has reached.
pub proof fn lemma_walk_in_time_order(s: Seq<TimedEvent>, tpq: int)
    requires
        tpq > 0,
        walk(s, tpq).fits,
    ensures
        walk(s, tpq).tempo >= 0,
        walk(s, tpq).accum_us >= 0,
        forall|k: int| 0 <= k < walk(s, tpq).notes.len() ==> (#[trigger] walk(s, tpq).notes[k]).offset_us
            <= walk(s, tpq).accum_us,
        forall|i: int, j: int|
            0 <= i < j < walk(s, tpq).notes.len() ==> (#[trigger] walk(s, tpq).notes[i]).offset_us
                <= (#[trigger] walk(s, tpq).notes[j]).offset_us,
    decreases s.len(),
{
    if s.len() > 0 {
        let d = s.drop_last();
        lemma_walk_in_time_order(d, tpq);
        let w = walk(d, tpq);
        let e = s.last();
        let prod = (e.tick - w.last_tick) * w.tempo;
        assert(prod >= 0) by (nonlinear_arith)
            requires
                e.tick - w.last_tick >= 0,
                w.tempo >= 0,
                prod == (e.tick - w.last_tick) * w.tempo,
        ;
        assert(prod / tpq >= 0) by (nonlinear_arith)
            requires
                prod >= 0,
                tpq > 0,
        ;
        let w2 = walk(s, tpq);
        assert forall|k: int| 0 <= k < w2.notes.len() implies (#[trigger] w2.notes[k]).offset_us
            <= w2.accum_us by {
            if k < w.notes.len() {
                assert(w2.notes[k] == w.notes[k]);
            }
        }
        assert forall|i: int, j: int| 0 <= i < j < w2.notes.len() implies (#[trigger] w2.notes[i]).offset_us
            <= (#[trigger] w2.notes[j]).offset_us by {
            assert(w2.notes[i] == w.notes[i]);
            if j < w.notes.len() {
                assert(w2.notes[j] == w.notes[j]);
            }
        }
    }
}

} // verus!
