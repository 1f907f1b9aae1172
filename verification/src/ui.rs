//! Small pieces of the engine's bookkeeping around the UI: the modulation
//! value table, device choice on start-up, the throttle on MIDI echo
//! messages, and the mapping listing.

use vstd::prelude::*;
use crate::mapping::DrumMapping;
use crate::text::{decimal_digits, push_decimal};

verus! {

/// Number of modulation sources reported per slot.
pub const SOURCES_PER_SLOT: usize = 5;

/// Position of `(slot, source)` in the flat modulation value table, for slots
/// below 16 and sources below 5.
pub fn mod_value_index(slot: usize, source: usize) -> (r: Option<usize>)
    ensures
        r == (if slot < 16 && source < 5 {
            Some((slot * 5 + source) as usize)
        } else {
            None::<usize>
        }),
{
    if slot < 16 && source < 5 {
        Some(slot * 5 + source)
    } else {
        None
    }
}

/// The flat 80-value table as 16 rows of 5 (`get_values_nested`).
pub fn nest_values<T: Copy>(flat: &Vec<T>) -> (r: Vec<Vec<T>>)
    requires
        flat@.len() == 80,
    ensures
        r@.len() == 16,
        forall|s: int| 0 <= s < 16 ==> (#[trigger] r@[s])@.len() == 5,
        forall|s: int, k: int| 0 <= s < 16 && 0 <= k < 5 ==> #[trigger] r@[s]@[k] == flat@[s * 5 + k],
{
    let mut r: Vec<Vec<T>> = Vec::new();
    let mut s: usize = 0;
    while s < 16
        invariant
            flat@.len() == 80,
            s <= 16,
            r@.len() == s,
            forall|i: int| 0 <= i < s ==> (#[trigger] r@[i])@.len() == 5,
            forall|i: int, k: int| 0 <= i < s && 0 <= k < 5 ==> #[trigger] r@[i]@[k] == flat@[i * 5 + k],
        decreases 16 - s,
    {
        let mut row: Vec<T> = Vec::new();
        let mut k: usize = 0;
        while k < 5
            invariant
                flat@.len() == 80,
                s < 16,
                k <= 5,
                row@.len() == k,
                forall|j: int| 0 <= j < k ==> row@[j] == flat@[s * 5 + j],
            decreases 5 - k,
        {
            row.push(flat[s * 5 + k]);
            k = k + 1;
        }
        r.push(row);
        s = s + 1;
    }
    r
}

/// Index of the first name equal to `name`.
pub open spec fn first_index_of(names: Seq<Seq<char>>, name: Seq<char>) -> Option<int>
    decreases names.len(),
{
    if names.len() == 0 {
        None
    } else {
        match first_index_of(names.drop_last(), name) {
            Some(i) => Some(i),
            None => if names.last() == name {
                Some(names.len() - 1)
            } else {
                None
            },
        }
    }
}

pub open spec fn name_views(v: Seq<String>) -> Seq<Seq<char>> {
    v.map_values(|s: String| s@)
}

/// Position of `name` in `names` (`iter().position(|n| n == name)`).
pub fn position_of(names: &Vec<String>, name: &String) -> (r: Option<usize>)
    ensures
        match r {
            Some(i) => first_index_of(name_views(names@), name@) == Some(i as int),
            None => first_index_of(name_views(names@), name@) is None,
        },
{
    let ghost ns = name_views(names@);
    let mut i: usize = 0;
    assert(ns.subrange(0, 0) =~= Seq::<Seq<char>>::empty());
    while i < names.len()
        invariant
            ns == name_views(names@),
            i <= names@.len(),
            first_index_of(ns.subrange(0, i as int), name@) is None,
        decreases names@.len() - i,
    {
        let ghost pre = ns.subrange(0, i + 1);
        assert(pre.drop_last() =~= ns.subrange(0, i as int));
        if names[i] == *name {
            proof {
                lemma_first_index_extend(ns, name@, i as int);
            }
            return Some(i);
        }
        i = i + 1;
    }
    assert(ns.subrange(0, names@.len() as int) =~= ns);
    None
}

proof fn lemma_first_index_extend(ns: Seq<Seq<char>>, name: Seq<char>, k: int)
    requires
        0 <= k < ns.len(),
        first_index_of(ns.subrange(0, k), name) is None,
        ns[k] == name,
    ensures
        first_index_of(ns, name) == Some(k),
    decreases ns.len() - k,
{
    assert(ns.subrange(0, k + 1).drop_last() =~= ns.subrange(0, k));
    if k + 1 < ns.len() {
        assert(ns.drop_last().subrange(0, k) =~= ns.subrange(0, k));
        lemma_first_index_extend(ns.drop_last(), name, k);
    } else {
        assert(ns.subrange(0, k + 1) =~= ns);
    }
}

pub open spec fn opt_position(names: Seq<Seq<char>>, name: Option<String>) -> Option<int> {
    match name {
        Some(n) => first_index_of(names, n@),
        None => None,
    }
}

/// The device (or port) to open: the remembered one if it is present, else
/// the system default if it is present, else the first.
pub open spec fn spec_choose_index(names: Seq<Seq<char>>, remembered: Option<String>, default: Option<String>) -> int {
    match opt_position(names, remembered) {
        Some(i) => i,
        None => match opt_position(names, default) {
            Some(i) => i,
            None => 0,
        },
    }
}

/// Choose a device (or MIDI port) index.
pub fn choose_index(names: &Vec<String>, remembered: &Option<String>, default: &Option<String>) -> (r: usize)
    ensures
        r as int == spec_choose_index(name_views(names@), *remembered, *default),
{
    let a = match remembered {
        Some(n) => position_of(names, n),
        None => None,
    };
    match a {
        Some(i) => i,
        None => {
            let b = match default {
                Some(n) => position_of(names, n),
                None => None,
            };
            match b {
                Some(i) => i,
                None => 0,
            }
        },
    }
}

/// Echo messages waiting to be sent to the UI.
pub struct MidiBacklog {
    pending: Vec<String>,
}

/// Most echo messages one throttle tick sends (the newest ones).
pub const MAX_ECHO_PER_TICK: usize = 8;

impl MidiBacklog {
    pub closed spec fn pending(&self) -> Seq<Seq<char>> {
        name_views(self.pending@)
    }

    pub fn new() -> (r: Self)
        ensures
            r.pending() == Seq::<Seq<char>>::empty(),
    {
        let r = MidiBacklog { pending: Vec::new() };
        assert(r.pending() =~= Seq::<Seq<char>>::empty());
        r
    }

    /// A new echo message. When the backlog (with it) is shorter than 3 and
    /// more than 50 ms have passed since the last send, the whole backlog is
    /// sent now (and the send clock restarts); otherwise it waits.
    pub fn on_message(&mut self, msg: String, ms_since_send: u64) -> (sent: Vec<String>)
        ensures
            ({
                let b = old(self).pending().push(msg@);
                if b.len() < 3 && ms_since_send > 50 {
                    name_views(sent@) == b && final(self).pending() == Seq::<Seq<char>>::empty()
                } else {
                    sent@.len() == 0 && final(self).pending() == b
                }
            }),
    {
        self.pending.push(msg);
        assert(name_views(self.pending@) =~= old(self).pending().push(msg@));
        if self.pending.len() < 3 && ms_since_send > 50 {
            let mut sent: Vec<String> = Vec::new();
            std::mem::swap(&mut sent, &mut self.pending);
            assert(name_views(self.pending@) =~= Seq::<Seq<char>>::empty());
            sent
        } else {
            Vec::new()
        }
    }

    /// A throttle tick: a non-empty backlog is cleared and its newest (up to
    /// 8) messages are sent, oldest first (and the send clock restarts).
    pub fn on_tick(&mut self) -> (sent: Vec<String>)
        ensures
            final(self).pending() == Seq::<Seq<char>>::empty(),
            ({
                let b = old(self).pending();
                let start = if b.len() > MAX_ECHO_PER_TICK {
                    b.len() - MAX_ECHO_PER_TICK
                } else {
                    0
                };
                name_views(sent@) == b.subrange(start, b.len() as int)
            }),
    {
        let mut all: Vec<String> = Vec::new();
        std::mem::swap(&mut all, &mut self.pending);
        assert(name_views(self.pending@) =~= Seq::<Seq<char>>::empty());
        assert(name_views(all@) == old(self).pending());
        let n = all.len();
        let start = if n > MAX_ECHO_PER_TICK {
            n - MAX_ECHO_PER_TICK
        } else {
            0
        };
        let mut sent: Vec<String> = Vec::new();
        let mut i = start;
        assert(name_views(sent@) =~= name_views(all@).subrange(start as int, start as int));
        while i < n
            invariant
                n == all@.len(),
                start <= i <= n,
                name_views(sent@) == name_views(all@).subrange(start as int, i as int),
            decreases n - i,
        {
            let c = all[i].clone();
            let ghost before = sent@;
            sent.push(c);
            assert(sent@ == before.push(c));
            assert(name_views(sent@) =~= name_views(before).push(all@[i as int]@));
            assert(name_views(all@).subrange(start as int, i + 1) =~= name_views(all@).subrange(start as int, i as int).push(all@[i as int]@));
            i = i + 1;
            assert(name_views(sent@) =~= name_views(all@).subrange(start as int, i as int));
        }
        sent
    }
}

/// One row of the mapping listing sent to the UI.
#[derive(Debug)]
pub struct MappingRole {
    pub slot: usize,
    pub name: String,
    pub note: u8,
}

/// The name shown for a mapped slot: the sound's name, or `Empty Slot <n>`
/// for a slot past the end of the kit.
pub open spec fn spec_role_name(sound_names: Seq<Seq<char>>, slot: usize) -> Seq<char> {
    if slot < sound_names.len() {
        sound_names[slot as int]
    } else {
        "Empty Slot "@ + decimal_digits(slot as nat)
    }
}

/// The mapping listing: one row per mapping, in order.
pub fn mapping_roles(mappings: &Vec<DrumMapping>, sound_names: &Vec<String>) -> (r: Vec<MappingRole>)
    ensures
        r@.len() == mappings@.len(),
        forall|k: int|
            0 <= k < r@.len() ==> (#[trigger] r@[k]).slot == mappings@[k].slot && r@[k].note
                == mappings@[k].note && r@[k].name@ == spec_role_name(
                name_views(sound_names@),
                mappings@[k].slot,
            ),
{
    let mut r: Vec<MappingRole> = Vec::new();
    let mut k: usize = 0;
    while k < mappings.len()
        invariant
            k <= mappings@.len(),
            r@.len() == k,
            forall|j: int|
                0 <= j < k ==> (#[trigger] r@[j]).slot == mappings@[j].slot && r@[j].note
                    == mappings@[j].note && r@[j].name@ == spec_role_name(
                    name_views(sound_names@),
                    mappings@[j].slot,
                ),
        decreases mappings@.len() - k,
    {
        let m = mappings[k];
        let name = if m.slot < sound_names.len() {
            sound_names[m.slot].clone()
        } else {
            let mut s = String::from_str("Empty Slot ");
            push_decimal(&mut s, m.slot as u64);
            s
        };
        r.push(MappingRole { slot: m.slot, name, note: m.note });
        k = k + 1;
    }
    r
}

} // verus!
