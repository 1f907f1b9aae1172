//! Names of on-disk presets and preview tracks: which directory entries count,
//! what they are listed as, in what order, and which track names may be
//! turned into a path.

use vstd::prelude::*;
use crate::text::{
    ends_with, trim_end_all, remove_all, contains_seq, chars_of, has_suffix, has_char,
    has_substring, remove_all_range, substring,
};

verus! {

/// Directory that holds the preview tracks.
pub open spec fn tracks_dir() -> Seq<char> {
    "presets/midi/"@
}

/// The string views of a list of strings.
pub open spec fn views(v: Seq<String>) -> Seq<Seq<char>> {
    v.map_values(|s: String| s@)
}

/// Lexicographic order on characters by code point, the order `str`'s `Ord`
/// gives (UTF-8 preserves code-point order).
pub open spec fn str_le(a: Seq<char>, b: Seq<char>) -> bool
    decreases a.len(),
{
    if a.len() == 0 {
        true
    } else if b.len() == 0 {
        false
    } else if a[0] != b[0] {
        a[0] < b[0]
    } else {
        str_le(a.drop_first(), b.drop_first())
    }
}

pub open spec fn is_sorted(s: Seq<Seq<char>>) -> bool {
    forall|i: int, j: int| 0 <= i < j < s.len() ==> str_le(#[trigger] s[i], #[trigger] s[j])
}

pub proof fn lemma_str_le_total(a: Seq<char>, b: Seq<char>)
    ensures
        str_le(a, b) || str_le(b, a),
    decreases a.len(),
{
    if a.len() > 0 && b.len() > 0 && a[0] == b[0] {
        lemma_str_le_total(a.drop_first(), b.drop_first());
    }
}

pub proof fn lemma_str_le_trans(a: Seq<char>, b: Seq<char>, c: Seq<char>)
    requires
        str_le(a, b),
        str_le(b, c),
    ensures
        str_le(a, c),
    decreases a.len(),
{
    if a.len() > 0 && b.len() > 0 && c.len() > 0 && a[0] == b[0] && b[0] == c[0] {
        lemma_str_le_trans(a.drop_first(), b.drop_first(), c.drop_first());
    }
}

/// `a <= b` in the string order.
pub fn chars_le(a: &Vec<char>, b: &Vec<char>) -> (r: bool)
    ensures
        r == str_le(a@, b@),
{
    let mut i: usize = 0;
    assert(a@.subrange(0, a@.len() as int) =~= a@);
    assert(b@.subrange(0, b@.len() as int) =~= b@);
    assert(a@.subrange(0, 0) =~= b@.subrange(0, 0));
    while i < a.len() && i < b.len()
        invariant
            i <= a@.len(),
            i <= b@.len(),
            a@.subrange(0, i as int) == b@.subrange(0, i as int),
            str_le(a@, b@) == str_le(a@.subrange(i as int, a@.len() as int), b@.subrange(i as int, b@.len() as int)),
        decreases a@.len() - i,
    {
        if a[i] != b[i] {
            let r = a[i] < b[i];
            return r;
        }
        let ghost sa = a@.subrange(i as int, a@.len() as int);
        let ghost sb = b@.subrange(i as int, b@.len() as int);
        assert(sa.drop_first() =~= a@.subrange(i + 1, a@.len() as int));
        assert(sb.drop_first() =~= b@.subrange(i + 1, b@.len() as int));
        assert(a@.subrange(0, i + 1) =~= a@.subrange(0, i as int).push(a@[i as int]));
        assert(b@.subrange(0, i + 1) =~= b@.subrange(0, i as int).push(b@[i as int]));
        i = i + 1;
    }
    i == a.len()
}

/// The listing name of a directory entry for a preview track: entries ending
/// in `.mid`, with every trailing `.mid` trimmed.
pub open spec fn track_entry_name(s: Seq<char>) -> Option<Seq<char>> {
    if ends_with(s, ".mid"@) {
        Some(trim_end_all(s, ".mid"@))
    } else {
        None
    }
}

/// The listing name of a directory entry for a kit or mapping preset: entries
/// ending in `.toml`, with every `.toml` removed.
pub open spec fn preset_entry_name(s: Seq<char>) -> Option<Seq<char>> {
    if ends_with(s, ".toml"@) {
        Some(remove_all(s, ".toml"@))
    } else {
        None
    }
}

/// The names a list of entries yields, in entry order.
pub open spec fn listed(entries: Seq<Seq<char>>, track: bool) -> Seq<Seq<char>>
    decreases entries.len(),
{
    if entries.len() == 0 {
        Seq::empty()
    } else {
        let rest = listed(entries.drop_last(), track);
        let n = if track {
            track_entry_name(entries.last())
        } else {
            preset_entry_name(entries.last())
        };
        match n {
            Some(x) => rest.push(x),
            None => rest,
        }
    }
}

/// The listing name of one entry, if it is listed.
fn entry_name(entry: &String, track: bool) -> (r: Option<String>)
    ensures
        match r {
            Some(x) => (if track {
                track_entry_name(entry@)
            } else {
                preset_entry_name(entry@)
            }) == Some(x@),
            None => (if track {
                track_entry_name(entry@)
            } else {
                preset_entry_name(entry@)
            }) is None,
        },
{
    let text = entry.as_str();
    let s = chars_of(text);
    if track {
        if !has_suffix(&s, ".mid") {
            return None;
        }
        let n = ".mid".unicode_len();
        let mut hi = s.len();
        proof {
            assert(s@.subrange(0, hi as int) =~= s@);
        }
        while n > 0 && n <= hi && ends_with_at(&s, hi, ".mid")
            invariant
                hi <= s@.len(),
                n == ".mid"@.len(),
                trim_end_all(s@.subrange(0, hi as int), ".mid"@) == trim_end_all(s@, ".mid"@),
            decreases hi,
        {
            assert(s@.subrange(0, hi as int).subrange(0, hi - n) =~= s@.subrange(0, hi - n));
            hi = hi - n;
        }
        proof {
            let t = s@.subrange(0, hi as int);
            if n > 0 && ends_with(t, ".mid"@) {
                assert(t.subrange(t.len() - n, t.len() as int) =~= s@.subrange(hi - n, hi as int));
            }
        }
        Some(substring(text, 0, hi))
    } else {
        if !has_suffix(&s, ".toml") {
            return None;
        }
        let r = remove_all_range(text, &s, 0, s.len(), ".toml");
        assert(s@.subrange(0, s@.len() as int) =~= s@);
        Some(r)
    }
}

/// Whether `s[..hi]` ends with `p`.
fn ends_with_at(s: &Vec<char>, hi: usize, p: &str) -> (r: bool)
    requires
        hi <= s@.len(),
    ensures
        r == ends_with(s@.subrange(0, hi as int), p@),
{
    let n = p.unicode_len();
    if n > hi {
        return false;
    }
    let r = crate::text::matches_at(s, hi - n, p);
    assert(s@.subrange(0, hi as int).subrange(hi - n, hi as int) =~= s@.subrange(hi - n, hi as int));
    r
}

/// Insert `x` into the sorted `res` (with `keys` holding their characters)
/// after every name that sorts before or equal to it.
fn insert_sorted(res: &mut Vec<String>, keys: &mut Vec<Vec<char>>, x: String)
    requires
        old(res)@.len() == old(keys)@.len(),
        forall|j: int| 0 <= j < old(res)@.len() ==> (#[trigger] old(keys)@[j])@ == old(res)@[j]@,
        is_sorted(views(old(res)@)),
    ensures
        final(res)@.len() == final(keys)@.len(),
        forall|j: int| 0 <= j < final(res)@.len() ==> (#[trigger] final(keys)@[j])@ == final(res)@[j]@,
        is_sorted(views(final(res)@)),
        views(final(res)@).to_multiset() == views(old(res)@).to_multiset().insert(x@),
{
    let key = chars_of(x.as_str());
    let mut p: usize = 0;
    while p < keys.len() && chars_le(&keys[p], &key)
        invariant
            p <= keys@.len(),
            res@.len() == keys@.len(),
            forall|j: int| 0 <= j < res@.len() ==> (#[trigger] keys@[j])@ == res@[j]@,
            forall|j: int| 0 <= j < p ==> str_le(#[trigger] res@[j]@, key@),
        decreases keys@.len() - p,
    {
        p = p + 1;
    }
    let ghost before = views(res@);
    assert forall|j: int| p <= j < res@.len() implies str_le(key@, #[trigger] res@[j]@) && !str_le(res@[j]@, key@) by {
        assert(before[p as int] == res@[p as int]@);
        assert(before[j] == res@[j]@);
        assert(!str_le(res@[p as int]@, key@));
        if str_le(res@[j]@, key@) {
            if j > p {
                assert(str_le(before[p as int], before[j]));
            }
            lemma_str_le_trans(res@[p as int]@, res@[j]@, key@);
        }
        lemma_str_le_total(key@, res@[j]@);
    }
    res.insert(p, x);
    keys.insert(p, key);
    proof {
        let after = views(res@);
        assert(after =~= before.insert(p as int, x@));
        assert forall|i: int, j: int| 0 <= i < j < after.len() implies str_le(
            #[trigger] after[i],
            #[trigger] after[j],
        ) by {
            if i < p && j < p {
                assert(str_le(before[i], before[j]));
            } else if i < p && j == p {
            } else if i < p && j > p {
                assert(str_le(before[i], before[j - 1]));
            } else if i == p {
            } else {
                assert(str_le(before[i - 1], before[j - 1]));
            }
        }
        vstd::seq_lib::to_multiset_insert(before, p as int, x@);
    }
}

/// The preview tracks a directory listing offers, sorted: entries ending in
/// `.mid`, with the extension trimmed.
pub fn track_names(entries: &Vec<String>) -> (r: Vec<String>)
    ensures
        is_sorted(views(r@)),
        views(r@).to_multiset() == listed(views(entries@), true).to_multiset(),
{
    let mut res: Vec<String> = Vec::new();
    let mut keys: Vec<Vec<char>> = Vec::new();
    let mut i: usize = 0;
    assert(views(entries@).subrange(0, 0) =~= Seq::<Seq<char>>::empty());
    assert(views(res@) =~= Seq::<Seq<char>>::empty());
    while i < entries.len()
        invariant
            i <= entries@.len(),
            res@.len() == keys@.len(),
            forall|j: int| 0 <= j < res@.len() ==> (#[trigger] keys@[j])@ == res@[j]@,
            is_sorted(views(res@)),
            views(res@).to_multiset() == listed(views(entries@).subrange(0, i as int), true).to_multiset(),
        decreases entries@.len() - i,
    {
        let ghost prefix = views(entries@).subrange(0, i + 1);
        assert(prefix.drop_last() =~= views(entries@).subrange(0, i as int));
        assert(prefix.last() == entries@[i as int]@);
        match entry_name(&entries[i], true) {
            Some(x) => {
                insert_sorted(&mut res, &mut keys, x);
                proof {
                    vstd::seq_lib::to_multiset_build(
                        listed(views(entries@).subrange(0, i as int), true),
                        x@,
                    );
                }
            },
            None => {},
        }
        i = i + 1;
    }
    assert(views(entries@).subrange(0, entries@.len() as int) =~= views(entries@));
    res
}

/// The kit or mapping presets a directory listing offers, in listing order:
/// entries ending in `.toml`, with `.toml` removed.
pub fn preset_names(entries: &Vec<String>) -> (r: Vec<String>)
    ensures
        views(r@) == listed(views(entries@), false),
{
    let mut res: Vec<String> = Vec::new();
    let mut i: usize = 0;
    assert(views(entries@).subrange(0, 0) =~= Seq::<Seq<char>>::empty());
    assert(views(res@) =~= Seq::<Seq<char>>::empty());
    while i < entries.len()
        invariant
            i <= entries@.len(),
            views(res@) == listed(views(entries@).subrange(0, i as int), false),
        decreases entries@.len() - i,
    {
        let ghost prefix = views(entries@).subrange(0, i + 1);
        assert(prefix.drop_last() =~= views(entries@).subrange(0, i as int));
        assert(prefix.last() == entries@[i as int]@);
        match entry_name(&entries[i], false) {
            Some(x) => {
                res.push(x);
                assert(views(res@) =~= listed(views(entries@).subrange(0, i as int), false).push(
                    x@,
                ));
            },
            None => {},
        }
        i = i + 1;
    }
    assert(views(entries@).subrange(0, entries@.len() as int) =~= views(entries@));
    res
}

/// A preview-track name is accepted when it is non-empty and holds no path
/// separator, no `..` and no NUL.
pub open spec fn valid_track_name(n: Seq<char>) -> bool {
    n.len() > 0 && !n.contains('/') && !n.contains('\\') && !contains_seq(n, ".."@) && !n.contains(
        '\0',
    )
}

/// Why a preview-track name was refused.
#[derive(Debug, Clone, Copy, PartialEq, Eq, Structural)]
pub enum TrackError {
    /// The name is empty or could leave the tracks directory.
    InvalidName,
    /// No such track file exists.
    NotFound,
}

/// The path of the `.mid` file for an accepted track name (relative to the
/// working directory). Whether the file exists is for the caller to check.
pub fn resolve_track(name: &str) -> (r: Result<String, TrackError>)
    ensures
        r is Ok <==> valid_track_name(name@),
        r matches Ok(p) ==> p@ == tracks_dir() + name@ + ".mid"@,
        r matches Err(e) ==> e == TrackError::InvalidName,
{
    let s = chars_of(name);
    if s.len() == 0 || has_char(&s, '/') || has_char(&s, '\\') || has_substring(&s, "..")
        || has_char(&s, '\0') {
        return Err(TrackError::InvalidName);
    }
    let mut path = String::from_str("presets/midi/");
    path.append(name);
    path.append(".mid");
    Ok(path)
}

} // verus!
