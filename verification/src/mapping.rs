//! MIDI note → drum slot mapping: the persisted mapping list, its edits, and
//! the 128-entry lookup table that the audio thread resolves notes through.

use vstd::prelude::*;

verus! {

/// Number of drum slots in a kit.
pub const NUM_SLOTS: usize = 16;

/// Number of MIDI notes.
pub const NUM_NOTES: usize = 128;

/// MIDI note number → slot index mapping for one slot.
#[derive(Debug, Clone, Copy, PartialEq, Eq, Structural)]
pub struct DrumMapping {
    pub note: u8,
    pub slot: usize,
}

/// The General-MIDI style defaults used when no mapping file can be read:
/// slot `k` listens to the `k`-th of these notes.
pub open spec fn default_notes() -> Seq<u8> {
    seq![36u8, 38, 42, 46, 41, 45, 48, 49, 51, 39, 40, 53, 44, 55, 57, 59]
}

/// The sixteen default mappings (kick, snare, closed hat, open hat, floor,
/// mid and high tom, crash, ride, clap, rim, ride bell, hat pedal, splash,
/// china, cowbell), slot `k` at `default_notes()[k]`.
pub fn default_mappings() -> (r: Vec<DrumMapping>)
    ensures
        r@.len() == NUM_SLOTS,
        forall|k: int|
            0 <= k < NUM_SLOTS ==> (#[trigger] r@[k]) == (DrumMapping {
                note: default_notes()[k],
                slot: k as usize,
            }),
{
    let notes: [u8; 16] = [36, 38, 42, 46, 41, 45, 48, 49, 51, 39, 40, 53, 44, 55, 57, 59];
    let mut r: Vec<DrumMapping> = Vec::new();
    let mut k: usize = 0;
    assert(notes@ =~= default_notes());
    while k < NUM_SLOTS
        invariant
            k <= NUM_SLOTS,
            notes@ == default_notes(),
            r@.len() == k,
            forall|j: int|
                0 <= j < k ==> (#[trigger] r@[j]) == (DrumMapping {
                    note: default_notes()[j],
                    slot: j as usize,
                }),
        decreases NUM_SLOTS - k,
    {
        r.push(DrumMapping { note: notes[k], slot: k });
        k = k + 1;
    }
    r
}

/// The mappings in force given what reading and decoding `mapping.toml`
/// produced: the stored list, or the sixteen defaults when the file is
/// missing, unreadable or malformed.
pub fn load_mappings(stored: Option<Vec<DrumMapping>>) -> (r: Vec<DrumMapping>)
    ensures
        match stored {
            Some(ms) => r@ == ms@,
            None => r@.len() == NUM_SLOTS && forall|k: int|
                0 <= k < NUM_SLOTS ==> (#[trigger] r@[k]) == (DrumMapping {
                    note: default_notes()[k],
                    slot: k as usize,
                }),
        },
{
    match stored {
        Some(ms) => ms,
        None => default_mappings(),
    }
}

/// Index of the first mapping for `slot`, if any.
pub open spec fn first_for_slot(ms: Seq<DrumMapping>, slot: usize) -> Option<int>
    decreases ms.len(),
{
    if ms.len() == 0 {
        None
    } else if ms[0].slot == slot {
        Some(0)
    } else {
        match first_for_slot(ms.subrange(1, ms.len() as int), slot) {
            Some(i) => Some(i + 1),
            None => None,
        }
    }
}

pub proof fn lemma_first_for_slot(ms: Seq<DrumMapping>, slot: usize)
    ensures
        match first_for_slot(ms, slot) {
            Some(i) => 0 <= i < ms.len() && ms[i].slot == slot && forall|j: int|
                0 <= j < i ==> (#[trigger] ms[j]).slot != slot,
            None => forall|j: int| 0 <= j < ms.len() ==> (#[trigger] ms[j]).slot != slot,
        },
    decreases ms.len(),
{
    if ms.len() > 0 && ms[0].slot != slot {
        let tail = ms.subrange(1, ms.len() as int);
        lemma_first_for_slot(tail, slot);
        assert forall|j: int| 1 <= j < ms.len() implies ms[j] == tail[j - 1] by {}
        match first_for_slot(tail, slot) {
            Some(i) => {
                assert forall|j: int| 0 <= j < i + 1 implies (#[trigger] ms[j]).slot != slot by {
                    if j > 0 {
                        assert(ms[j] == tail[j - 1]);
                    }
                }
            },
            None => {
                assert forall|j: int| 0 <= j < ms.len() implies (#[trigger] ms[j]).slot != slot by {
                    if j > 0 {
                        assert(ms[j] == tail[j - 1]);
                    }
                }
            },
        }
    }
}

/// The mapping list after `UPDATE_MAPPING:<slot>:<note>`: the first entry
/// for the slot takes the new note; if the slot had none, a new entry is
/// appended.
pub open spec fn spec_update_mapping(ms: Seq<DrumMapping>, slot: usize, note: u8) -> Seq<DrumMapping> {
    match first_for_slot(ms, slot) {
        Some(i) => ms.update(i, DrumMapping { note, slot }),
        None => ms.push(DrumMapping { note, slot }),
    }
}

/// Point `slot` at `note` in the mapping list.
pub fn update_mapping(mappings: &mut Vec<DrumMapping>, slot: usize, note: u8)
    ensures
        final(mappings)@ == spec_update_mapping(old(mappings)@, slot, note),
{
    match find_slot(mappings, slot) {
        Some(i) => {
            mappings.set(i, DrumMapping { note, slot });
        },
        None => {
            mappings.push(DrumMapping { note, slot });
        },
    }
}

/// Index of the first mapping for `slot`.
pub fn find_slot(mappings: &Vec<DrumMapping>, slot: usize) -> (r: Option<usize>)
    ensures
        match r {
            Some(i) => first_for_slot(mappings@, slot) == Some(i as int) && i < mappings@.len(),
            None => first_for_slot(mappings@, slot) is None,
        },
{
    let mut i: usize = 0;
    while i < mappings.len()
        invariant
            i <= mappings@.len(),
            forall|j: int| 0 <= j < i ==> (#[trigger] mappings@[j]).slot != slot,
        decreases mappings@.len() - i,
    {
        if mappings[i].slot == slot {
            proof {
                lemma_first_for_slot(mappings@, slot);
                match first_for_slot(mappings@, slot) {
                    Some(f) => {
                        if f < i {
                            assert(mappings@[f].slot != slot);
                        }
                        if f > i {
                            assert(mappings@[i as int].slot != slot);
                        }
                    },
                    None => {
                        assert(mappings@[i as int].slot != slot);
                    },
                }
            }
            return Some(i);
        }
        i = i + 1;
    }
    proof {
        lemma_first_for_slot(mappings@, slot);
        match first_for_slot(mappings@, slot) {
            Some(f) => {
                assert(mappings@[f].slot != slot);
            },
            None => {},
        }
    }
    None
}

/// The note that `TEST_TRIGGER:<slot>` plays: the note of the first mapping
/// for the slot, or `36 + (slot as u8)` when the slot has none.
pub open spec fn spec_test_trigger_note(ms: Seq<DrumMapping>, slot: usize) -> int {
    match first_for_slot(ms, slot) {
        Some(i) => ms[i].note as int,
        None => 36 + (slot % 256),
    }
}

/// Whether `test_trigger_note` has a value for this slot: a mapped slot, or
/// an unmapped one whose fallback note fits a byte.
pub open spec fn test_trigger_note_fits(ms: Seq<DrumMapping>, slot: usize) -> bool {
    first_for_slot(ms, slot) is Some || 36 + (slot % 256) < 256
}

/// The note that `TEST_TRIGGER:<slot>` plays.
pub fn test_trigger_note(mappings: &Vec<DrumMapping>, slot: usize) -> (r: u8)
    requires
        test_trigger_note_fits(mappings@, slot),
    ensures
        r as int == spec_test_trigger_note(mappings@, slot),
{
    match find_slot(mappings, slot) {
        Some(i) => mappings[i].note,
        None => 36 + (slot % 256) as u8,
    }
}

/// The slot that the explicit mappings give `note`: the first mapping for
/// the note whose note and slot are both in range ("first match wins").
pub open spec fn explicit_slot(ms: Seq<DrumMapping>, note: int) -> Option<usize>
    decreases ms.len(),
{
    if ms.len() == 0 {
        None
    } else {
        match explicit_slot(ms.drop_last(), note) {
            Some(s) => Some(s),
            None => {
                let m = ms.last();
                if m.note as int == note && (m.note as int) < NUM_NOTES && m.slot < NUM_SLOTS {
                    Some(m.slot)
                } else {
                    None
                }
            },
        }
    }
}

/// Some mapping (valid or not) names `slot`.
pub open spec fn slot_is_mapped(ms: Seq<DrumMapping>, slot: int) -> bool {
    exists|j: int| 0 <= j < ms.len() && (#[trigger] ms[j]).slot as int == slot
}

/// The note → slot table: explicit mappings first; then every loaded slot
/// that no mapping names falls back to note `36 + slot` if that note is free.
pub open spec fn spec_midi_map_entry(ms: Seq<DrumMapping>, loaded: Seq<bool>, note: int) -> Option<
    usize,
> {
    match explicit_slot(ms, note) {
        Some(s) => Some(s),
        None => if 36 <= note < 36 + NUM_SLOTS && loaded[note - 36] && !slot_is_mapped(
            ms,
            note - 36,
        ) {
            Some((note - 36) as usize)
        } else {
            None
        },
    }
}

/// Build the 128-entry note → slot table for a kit whose slot `k` holds a
/// voice exactly when `loaded[k]`.
pub fn build_midi_map(mappings: &Vec<DrumMapping>, loaded: &Vec<bool>) -> (r: Vec<Option<usize>>)
    requires
        loaded@.len() == NUM_SLOTS,
    ensures
        r@.len() == NUM_NOTES,
        forall|n: int|
            0 <= n < NUM_NOTES ==> #[trigger] r@[n] == spec_midi_map_entry(mappings@, loaded@, n),
        forall|n: int| 0 <= n < NUM_NOTES ==> (#[trigger] r@[n] matches Some(s) ==> s < NUM_SLOTS),
{
    let mut map: Vec<Option<usize>> = Vec::new();
    let mut n: usize = 0;
    while n < NUM_NOTES
        invariant
            n <= NUM_NOTES,
            map@.len() == n,
            forall|k: int| 0 <= k < n ==> (#[trigger] map@[k]) is None,
        decreases NUM_NOTES - n,
    {
        map.push(None);
        n = n + 1;
    }
    let mut i: usize = 0;
    while i < mappings.len()
        invariant
            i <= mappings@.len(),
            map@.len() == NUM_NOTES,
            forall|k: int|
                0 <= k < NUM_NOTES ==> #[trigger] map@[k] == explicit_slot(
                    mappings@.subrange(0, i as int),
                    k,
                ),
        decreases mappings@.len() - i,
    {
        let m = mappings[i];
        let ghost prev = mappings@.subrange(0, i as int);
        assert(mappings@.subrange(0, i + 1).drop_last() =~= prev);
        if m.note < 128 && m.slot < 16 && map[m.note as usize].is_none() {
            map.set(m.note as usize, Some(m.slot));
        }
        i = i + 1;
    }
    assert(mappings@.subrange(0, mappings@.len() as int) =~= mappings@);
    proof {
        assert forall|k: int| 0 <= k < NUM_NOTES implies (#[trigger] explicit_slot(mappings@, k)
            matches Some(s) ==> s < NUM_SLOTS) by {
            lemma_explicit_slot_in_range(mappings@, k);
        }
    }
    let mut idx: usize = 0;
    while idx < NUM_SLOTS
        invariant
            idx <= NUM_SLOTS,
            map@.len() == NUM_NOTES,
            loaded@.len() == NUM_SLOTS,
            forall|k: int|
                0 <= k < NUM_NOTES ==> #[trigger] map@[k] == if 36 <= k < 36 + idx {
                    spec_midi_map_entry(mappings@, loaded@, k)
                } else {
                    explicit_slot(mappings@, k)
                },
            forall|k: int| 0 <= k < NUM_NOTES ==> (#[trigger] explicit_slot(mappings@, k)
                matches Some(s) ==> s < NUM_SLOTS),
        decreases NUM_SLOTS - idx,
    {
        if loaded[idx] {
            let mapped = slot_has_mapping(mappings, idx);
            let note = 36 + idx;
            if !mapped && map[note].is_none() {
                map.set(note, Some(idx));
            }
        }
        idx = idx + 1;
    }
    map
}

proof fn lemma_explicit_slot_in_range(ms: Seq<DrumMapping>, note: int)
    ensures
        explicit_slot(ms, note) matches Some(s) ==> s < NUM_SLOTS,
    decreases ms.len(),
{
    if ms.len() > 0 {
        lemma_explicit_slot_in_range(ms.drop_last(), note);
    }
}

/// Whether any mapping names `slot`.
fn slot_has_mapping(mappings: &Vec<DrumMapping>, slot: usize) -> (r: bool)
    ensures
        r == slot_is_mapped(mappings@, slot as int),
{
    let mut j: usize = 0;
    while j < mappings.len()
        invariant
            j <= mappings@.len(),
            forall|k: int| 0 <= k < j ==> (#[trigger] mappings@[k]).slot != slot,
        decreases mappings@.len() - j,
    {
        if mappings[j].slot == slot {
            return true;
        }
        j = j + 1;
    }
    false
}

/// The slot a note-on for `note` fires, given the note table and the
/// per-slot mute flags: none for out-of-range notes, unmapped notes,
/// out-of-range slots and muted slots.
pub open spec fn spec_resolve_trigger(map: Seq<Option<usize>>, mutes: Seq<bool>, note: int) -> Option<
    usize,
> {
    if note >= NUM_NOTES {
        None
    } else {
        match map[note] {
            Some(s) => if s >= NUM_SLOTS || mutes[s as int] {
                None
            } else {
                Some(s)
            },
            None => None,
        }
    }
}

/// Route a note-on to a slot.
pub fn resolve_trigger(map: &Vec<Option<usize>>, mutes: &Vec<bool>, note: u8) -> (r: Option<usize>)
    requires
        map@.len() == NUM_NOTES,
        mutes@.len() == NUM_SLOTS,
    ensures
        r == spec_resolve_trigger(map@, mutes@, note as int),
{
    if note >= 128 {
        return None;
    }
    match map[note as usize] {
        Some(s) => {
            if s >= 16 || mutes[s] {
                None
            } else {
                Some(s)
            }
        },
        None => None,
    }
}


/// Pointing a slot at a note is what the slot's test trigger then plays, and
/// it leaves every other slot's test note as it was.
pub proof fn lemma_update_mapping_then_test_note(ms: Seq<DrumMapping>, slot: usize, note: u8, other: usize)
    requires
        other != slot,
    ensures
        spec_test_trigger_note(spec_update_mapping(ms, slot, note), slot) == note as int,
        spec_test_trigger_note(spec_update_mapping(ms, slot, note), other) == spec_test_trigger_note(ms, other),
{
    let u = spec_update_mapping(ms, slot, note);
    lemma_first_for_slot(ms, slot);
    lemma_first_for_slot(ms, other);
    lemma_first_for_slot(u, slot);
    lemma_first_for_slot(u, other);
    match first_for_slot(ms, slot) {
        Some(i) => {
            assert(u[i].slot == slot);
            match first_for_slot(u, slot) {
                Some(j) => {
                    if j < i {
                        assert(u[j] == ms[j]);
                    }
                    if j > i {
                        assert(u[i].slot == slot);
                    }
                },
                None => {
                    assert(u[i].slot == slot);
                },
            }
            match first_for_slot(u, other) {
                Some(j) => {
                    assert(j != i);
                    assert(u[j] == ms[j]);
                    match first_for_slot(ms, other) {
                        Some(k) => {
                            if k < j {
                                assert(k != i);
                                assert(u[k] == ms[k]);
                            }
                            if k > j {
                                assert(ms[j].slot == other);
                            }
                        },
                        None => {
                            assert(ms[j].slot != other);
                        },
                    }
                },
                None => {
                    match first_for_slot(ms, other) {
                        Some(k) => {
                            assert(k != i);
                            assert(u[k] == ms[k]);
                        },
                        None => {},
                    }
                },
            }
        },
        None => {
            assert(u.len() == ms.len() + 1);
            match first_for_slot(u, slot) {
                Some(j) => {
                    if j < ms.len() {
                        assert(u[j] == ms[j]);
                    }
                },
                None => {
                    assert(u[ms.len() as int].slot == slot);
                },
            }
            match first_for_slot(u, other) {
                Some(j) => {
                    if j < ms.len() {
                        assert(u[j] == ms[j]);
                        match first_for_slot(ms, other) {
                            Some(k) => {
                                if k < j {
                                    assert(u[k] == ms[k]);
                                }
                                if k > j {
                                    assert(ms[j].slot == other);
                                }
                            },
                            None => {
                                assert(ms[j].slot != other);
                            },
                        }
                    } else {
                        assert(u[j].slot == slot);
                    }
                },
                None => {
                    match first_for_slot(ms, other) {
                        Some(k) => {
                            assert(u[k] == ms[k]);
                        },
                        None => {},
                    }
                },
            }
        },
    }
}

proof fn lemma_explicit_slot_unique(ms: Seq<DrumMapping>, n: int, i: int)
    requires
        0 <= i < ms.len(),
        ms[i].note as int == n,
        n < NUM_NOTES,
        ms[i].slot < NUM_SLOTS,
        forall|j: int| 0 <= j < ms.len() && j != i ==> (#[trigger] ms[j]).note as int != n,
    ensures
        explicit_slot(ms, n) == Some(ms[i].slot),
    decreases ms.len(),
{
    if i < ms.len() - 1 {
        let d = ms.drop_last();
        assert forall|j: int| 0 <= j < d.len() && j != i implies (#[trigger] d[j]).note as int != n by {
            assert(d[j] == ms[j]);
        }
        assert(ms.last().note as int != n);
        lemma_explicit_slot_unique(d, n, i);
    } else {
        let d = ms.drop_last();
        assert forall|j: int| 0 <= j < d.len() implies (#[trigger] d[j]).note as int != n by {
            assert(d[j] == ms[j]);
        }
        lemma_explicit_slot_none(d, n);
    }
}

proof fn lemma_explicit_slot_none(ms: Seq<DrumMapping>, n: int)
    requires
        forall|j: int| 0 <= j < ms.len() ==> (#[trigger] ms[j]).note as int != n,
    ensures
        explicit_slot(ms, n) is None,
    decreases ms.len(),
{
    if ms.len() > 0 {
        let d = ms.drop_last();
        assert forall|j: int| 0 <= j < d.len() implies (#[trigger] d[j]).note as int != n by {
            assert(d[j] == ms[j]);
        }
        lemma_explicit_slot_none(d, n);
        assert(ms[ms.len() - 1].note as int != n);
    }
}

/// Mapping a slot to a note that no mapping used yet routes that note to the
/// slot: after `UPDATE_MAPPING:<slot>:<note>` the rebuilt note table sends
/// hits on the note to the slot, unless the slot is muted.
pub proof fn lemma_update_mapping_routes_note(
    ms: Seq<DrumMapping>,
    loaded: Seq<bool>,
    mutes: Seq<bool>,
    slot: usize,
    note: u8,
)
    requires
        (note as int) < NUM_NOTES,
        slot < NUM_SLOTS,
        loaded.len() == NUM_SLOTS,
        mutes.len() == NUM_SLOTS,
        forall|j: int| 0 <= j < ms.len() ==> (#[trigger] ms[j]).note != note,
    ensures
        spec_resolve_trigger(
            Seq::new(NUM_NOTES as nat, |n: int| spec_midi_map_entry(spec_update_mapping(ms, slot, note), loaded, n)),
            mutes,
            note as int,
        ) == if mutes[slot as int] {
            None
        } else {
            Some(slot)
        },
{
    let u = spec_update_mapping(ms, slot, note);
    lemma_first_for_slot(ms, slot);
    let i = match first_for_slot(ms, slot) {
        Some(f) => f,
        None => ms.len() as int,
    };
    assert(u[i] == DrumMapping { note, slot });
    assert forall|j: int| 0 <= j < u.len() && j != i implies (#[trigger] u[j]).note as int != note as int by {
        assert(u[j] == ms[j]);
    }
    lemma_explicit_slot_unique(u, note as int, i);
}

} // verus!
