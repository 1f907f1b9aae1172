//! Decisions of the master clock and of the tempo detector's stability flag.

use vstd::prelude::*;

verus! {

/// Whether the master clock sends MIDI Start now: not yet started, and either
/// manual sync or auto sync with a stable tempo.
pub fn should_send_start(sync_active: bool, auto_sync: bool, tempo_stable: bool) -> (r: bool)
    ensures
        r == (!sync_active && ((auto_sync && tempo_stable) || !auto_sync)),
{
    !sync_active && ((auto_sync && tempo_stable) || !auto_sync)
}

/// Whether enabling auto sync has to start the clock thread.
pub fn auto_sync_starts_clock(enabled: bool, running: bool) -> (r: bool)
    ensures
        r == (enabled && !running),
{
    enabled && !running
}

/// The master clock's running state: whether MIDI Start has gone out, and
/// when the next MIDI Clock is due (nanoseconds on the clock thread's own
/// monotonic time line).
#[derive(Debug, Clone, Copy, PartialEq, Eq, Structural)]
pub struct ClockState {
    pub sync_active: bool,
    pub next_tick_ns: u64,
}

/// What one pass of the clock loop sends.
#[derive(Debug, Clone, Copy, PartialEq, Eq, Structural)]
pub struct ClockActions {
    pub send_start: bool,
    pub send_clock: bool,
}

/// One pass of the clock loop at time `now`, with a clock period of `tick`
/// (a 24th of a beat): Start goes out when `should_send_start` says so and
/// schedules a Clock at once; a due Clock goes out and the next is due one
/// period later, or one period after now when the loop has fallen more than
/// a period behind.
pub open spec fn spec_clock_step(s: ClockState, now: u64, tick: u64, auto_sync: bool, tempo_stable: bool) -> (
    ClockState,
    ClockActions,
) {
    let start = !s.sync_active && ((auto_sync && tempo_stable) || !auto_sync);
    let active = s.sync_active || start;
    let due_at = if start {
        now
    } else {
        s.next_tick_ns
    };
    let clock = active && now >= due_at;
    let after = (due_at + tick) as u64;
    let next = if !clock {
        due_at
    } else if now > after + tick {
        (now + tick) as u64
    } else {
        after
    };
    (ClockState { sync_active: active, next_tick_ns: next }, ClockActions { send_start: start, send_clock: clock })
}

/// One pass of the master clock loop. The times are bounded so that the
/// schedule cannot run past the end of the time line.
pub fn clock_step(s: ClockState, now: u64, tick: u64, auto_sync: bool, tempo_stable: bool) -> (r: (
    ClockState,
    ClockActions,
))
    requires
        now + 2 * tick <= u64::MAX,
        s.next_tick_ns + 2 * tick <= u64::MAX,
    ensures
        r == spec_clock_step(s, now, tick, auto_sync, tempo_stable),
{
    let start = should_send_start(s.sync_active, auto_sync, tempo_stable);
    let mut next = s.next_tick_ns;
    if start {
        next = now;
    }
    let active = s.sync_active || start;
    let mut clock = false;
    if active && now >= next {
        clock = true;
        next = next + tick;
        if now > next + tick {
            next = now + tick;
        }
    }
    (ClockState { sync_active: active, next_tick_ns: next }, ClockActions { send_start: start, send_clock: clock })
}

/// Start goes out at most once per run: a running clock stays running and
/// never sends Start again. A pass that sends a Clock leaves the schedule at
/// most one period behind the present, and the schedule never moves back.
pub proof fn lemma_clock_step(s: ClockState, now: u64, tick: u64, auto_sync: bool, tempo_stable: bool)
    requires
        now + 2 * tick <= u64::MAX,
        s.next_tick_ns + 2 * tick <= u64::MAX,
    ensures
        s.sync_active ==> spec_clock_step(s, now, tick, auto_sync, tempo_stable).0.sync_active
            && !spec_clock_step(s, now, tick, auto_sync, tempo_stable).1.send_start,
        spec_clock_step(s, now, tick, auto_sync, tempo_stable).1.send_clock ==> now
            <= spec_clock_step(s, now, tick, auto_sync, tempo_stable).0.next_tick_ns + tick,
        s.sync_active ==> s.next_tick_ns <= spec_clock_step(
            s,
            now,
            tick,
            auto_sync,
            tempo_stable,
        ).0.next_tick_ns,
{
}

/// Consecutive in-band estimates needed before a tempo counts as stable.
pub const STABLE_HITS: u32 = 2;

/// The tempo detector's stability bookkeeping.
#[derive(Debug, Clone, Copy, PartialEq, Eq, Structural)]
pub struct Stability {
    pub consecutive_stable_hits: u32,
    pub is_stable: bool,
}

/// The bookkeeping after one tempo estimate. The first estimate only seeds
/// the tempo. Later, an estimate within the stability band of the previous
/// one extends the run (saturating), one outside it resets the run and the
/// flag; a run of two or more marks the tempo stable.
pub open spec fn spec_stability_after(s: Stability, first_estimate: bool, within_band: bool) -> Stability {
    if first_estimate {
        s
    } else {
        let hits: u32 = if within_band {
            if s.consecutive_stable_hits == u32::MAX {
                u32::MAX
            } else {
                (s.consecutive_stable_hits + 1) as u32
            }
        } else {
            0
        };
        let stable = if within_band {
            s.is_stable
        } else {
            false
        };
        Stability { consecutive_stable_hits: hits, is_stable: stable || hits >= STABLE_HITS }
    }
}

/// Update the stability bookkeeping for one estimate.
pub fn stability_after(s: Stability, first_estimate: bool, within_band: bool) -> (r: Stability)
    ensures
        r == spec_stability_after(s, first_estimate, within_band),
{
    if first_estimate {
        return s;
    }
    let mut hits = s.consecutive_stable_hits;
    let mut stable = s.is_stable;
    if within_band {
        hits = hits.saturating_add(1);
    } else {
        hits = 0;
        stable = false;
    }
    if hits >= STABLE_HITS {
        stable = true;
    }
    Stability { consecutive_stable_hits: hits, is_stable: stable }
}

/// A stable tempo always rests on a run of at least `STABLE_HITS` in-band
/// estimates: every update keeps that so.
pub open spec fn stability_consistent(s: Stability) -> bool {
    s.is_stable ==> s.consecutive_stable_hits >= STABLE_HITS
}

/// Updates keep the bookkeeping consistent; two in-band estimates in a row
/// (after the first) make the tempo stable from any state; an out-of-band
/// estimate always makes it unstable.
pub proof fn lemma_stability_updates(s: Stability, first_estimate: bool, within_band: bool)
    ensures
        stability_consistent(s) ==> stability_consistent(
            spec_stability_after(s, first_estimate, within_band),
        ),
        spec_stability_after(spec_stability_after(s, false, true), false, true).is_stable,
        !spec_stability_after(s, false, false).is_stable,
        spec_stability_after(s, false, false).consecutive_stable_hits == 0,
{
}

/// The bookkeeping after a reset for inactivity.
pub fn stability_reset() -> (r: Stability)
    ensures
        r.consecutive_stable_hits == 0,
        !r.is_stable,
{
    Stability { consecutive_stable_hits: 0, is_stable: false }
}

} // verus!
