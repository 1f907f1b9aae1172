//! Character-level text primitives used by the command protocol and the
//! preset / track name handling. Every executable function here is tied to a
//! spec function over `Seq<char>` that states what `str` would compute.

use vstd::prelude::*;
use vstd::string::*;

verus! {

/// `s` begins with `p` (as `str::starts_with`).
pub open spec fn starts_with(s: Seq<char>, p: Seq<char>) -> bool {
    p.len() <= s.len() && s.subrange(0, p.len() as int) == p
}

/// `s` ends with `p` (as `str::ends_with`).
pub open spec fn ends_with(s: Seq<char>, p: Seq<char>) -> bool {
    p.len() <= s.len() && s.subrange(s.len() - p.len(), s.len() as int) == p
}

/// `p` occurs somewhere in `s` (as `str::contains` with a string pattern).
pub open spec fn contains_at(s: Seq<char>, p: Seq<char>, i: int) -> bool {
    0 <= i && i + p.len() <= s.len() && s.subrange(i, i + p.len()) == p
}

pub open spec fn contains_seq(s: Seq<char>, p: Seq<char>) -> bool {
    exists|i: int| contains_at(s, p, i)
}

/// Every non-overlapping occurrence of `p`, scanned left to right, deleted
/// from `s` (as `s.replace(p, "")` for a non-empty pattern).
pub open spec fn remove_all(s: Seq<char>, p: Seq<char>) -> Seq<char>
    decreases s.len(),
{
    if s.len() == 0 || p.len() == 0 {
        s
    } else if starts_with(s, p) {
        remove_all(s.subrange(p.len() as int, s.len() as int), p)
    } else {
        seq![s[0]] + remove_all(s.subrange(1, s.len() as int), p)
    }
}

/// Repeatedly strip the suffix `p` (as `str::trim_end_matches` with a
/// non-empty string pattern).
pub open spec fn trim_end_all(s: Seq<char>, p: Seq<char>) -> Seq<char>
    decreases s.len(),
{
    if p.len() > 0 && ends_with(s, p) {
        trim_end_all(s.subrange(0, s.len() - p.len()), p)
    } else {
        s
    }
}

/// The pieces of `s` between occurrences of `c` (as `str::split` with a char
/// pattern): always at least one piece, and empty pieces are kept.
pub open spec fn split(s: Seq<char>, c: char) -> Seq<Seq<char>>
    decreases s.len(),
{
    if s.len() == 0 {
        seq![Seq::<char>::empty()]
    } else {
        let rest = split(s.drop_last(), c);
        if s.last() == c {
            rest.push(Seq::<char>::empty())
        } else {
            rest.update(rest.len() - 1, rest.last().push(s.last()))
        }
    }
}

pub open spec fn is_digit(c: char) -> bool {
    '0' <= c && c <= '9'
}

pub open spec fn digit_value(c: char) -> nat {
    (c as int - '0' as int) as nat
}

pub open spec fn all_digits(s: Seq<char>) -> bool {
    forall|i: int| 0 <= i < s.len() ==> is_digit(#[trigger] s[i])
}

/// The decimal value of a string of digits.
pub open spec fn decimal_value(s: Seq<char>) -> nat
    decreases s.len(),
{
    if s.len() == 0 {
        0
    } else {
        decimal_value(s.drop_last()) * 10 + digit_value(s.last())
    }
}

/// The digits that `from_str` reads for an unsigned integer: one leading `+`
/// is accepted and skipped.
pub open spec fn unsigned_digits(s: Seq<char>) -> Seq<char> {
    if s.len() > 0 && s[0] == '+' {
        s.subrange(1, s.len() as int)
    } else {
        s
    }
}

/// What `str::parse` returns for an unsigned integer type whose largest value
/// is `max`: a value for an optional `+` followed by at least one decimal
/// digit whose value fits, and nothing otherwise.
pub open spec fn parse_unsigned(s: Seq<char>, max: nat) -> Option<nat> {
    let d = unsigned_digits(s);
    if d.len() > 0 && all_digits(d) && decimal_value(d) <= max {
        Some(decimal_value(d))
    } else {
        None
    }
}

/// A longer run of digits never has a smaller value.
pub proof fn lemma_decimal_value_prefix(s: Seq<char>, k: int)
    requires
        0 <= k <= s.len(),
        all_digits(s),
    ensures
        decimal_value(s.subrange(0, k)) <= decimal_value(s),
    decreases s.len() - k,
{
    if k < s.len() {
        lemma_decimal_value_prefix(s, k + 1);
        let t = s.subrange(0, k + 1);
        assert(t.drop_last() =~= s.subrange(0, k));
        assert(decimal_value(t) == decimal_value(t.drop_last()) * 10 + digit_value(t.last()));
        assert(decimal_value(s.subrange(0, k)) <= decimal_value(t));
    } else {
        assert(s.subrange(0, k) =~= s);
    }
}

/// Copy the characters of `s` into a vector.
pub fn chars_of(s: &str) -> (v: Vec<char>)
    ensures
        v@ == s@,
{
    let n = s.unicode_len();
    let mut v: Vec<char> = Vec::new();
    let mut i: usize = 0;
    while i < n
        invariant
            n == s@.len(),
            i <= n,
            v@ == s@.subrange(0, i as int),
        decreases n - i,
    {
        let c = s.get_char(i);
        v.push(c);
        i = i + 1;
        assert(v@ =~= s@.subrange(0, i as int));
    }
    assert(v@ =~= s@);
    v
}

/// The characters `text[lo..hi]` as an owned string.
pub fn substring(text: &str, lo: usize, hi: usize) -> (r: String)
    requires
        lo <= hi <= text@.len(),
    ensures
        r@ == text@.subrange(lo as int, hi as int),
{
    String::from_str(text.substring_char(lo, hi))
}

/// Whether `s` starts with `p` at position `at`.
pub fn matches_at(s: &Vec<char>, at: usize, p: &str) -> (r: bool)
    requires
        at <= s@.len(),
    ensures
        r == contains_at(s@, p@, at as int),
{
    let n = p.unicode_len();
    if n > s.len() - at {
        return false;
    }
    let mut j: usize = 0;
    while j < n
        invariant
            n == p@.len(),
            at + n <= s.len(),
            j <= n,
            forall|k: int| 0 <= k < j ==> s@[at + k] == p@[k],
        decreases n - j,
    {
        if s[at + j] != p.get_char(j) {
            assert(s@.subrange(at as int, at + n)[j as int] != p@[j as int]);
            return false;
        }
        j = j + 1;
    }
    assert(s@.subrange(at as int, at + n) =~= p@);
    true
}

/// `s == p` on characters.
pub fn chars_equal(s: &Vec<char>, p: &str) -> (r: bool)
    ensures
        r == (s@ == p@),
{
    let n = p.unicode_len();
    if n != s.len() {
        return false;
    }
    let r = matches_at(s, 0, p);
    assert(s@.subrange(0, n as int) =~= s@);
    r
}

/// `s.starts_with(p)` on characters.
pub fn has_prefix(s: &Vec<char>, p: &str) -> (r: bool)
    ensures
        r == starts_with(s@, p@),
{
    matches_at(s, 0, p)
}

/// `s.ends_with(p)` on characters.
pub fn has_suffix(s: &Vec<char>, p: &str) -> (r: bool)
    ensures
        r == ends_with(s@, p@),
{
    let n = p.unicode_len();
    if n > s.len() {
        return false;
    }
    matches_at(s, s.len() - n, p)
}

/// `s.contains(p)` for a string pattern.
pub fn has_substring(s: &Vec<char>, p: &str) -> (r: bool)
    ensures
        r == contains_seq(s@, p@),
{
    let n = p.unicode_len();
    if n > s.len() {
        return false;
    }
    let limit = s.len() - n;
    let mut i: usize = 0;
    while i < limit
        invariant
            limit == s@.len() - p@.len(),
            i <= limit,
            forall|k: int| 0 <= k < i ==> !contains_at(s@, p@, k),
        decreases limit - i,
    {
        if matches_at(s, i, p) {
            return true;
        }
        i = i + 1;
    }
    if matches_at(s, limit, p) {
        return true;
    }
    assert forall|k: int| !contains_at(s@, p@, k) by {
        if 0 <= k && k + p@.len() <= s@.len() {
            assert(k <= limit);
        }
    }
    false
}

/// `s.contains(c)` for a character.
pub fn has_char(s: &Vec<char>, c: char) -> (r: bool)
    ensures
        r == s@.contains(c),
{
    let mut i: usize = 0;
    while i < s.len()
        invariant
            i <= s@.len(),
            forall|k: int| 0 <= k < i ==> s@[k] != c,
        decreases s@.len() - i,
    {
        if s[i] == c {
            assert(s@[i as int] == c);
            return true;
        }
        i = i + 1;
    }
    false
}

/// The unsigned integer that `text[lo..hi].parse()` gives for a type whose
/// largest value is `max`.
pub fn parse_unsigned_range(s: &Vec<char>, lo: usize, hi: usize, max: u64) -> (r: Option<u64>)
    requires
        lo <= hi <= s@.len(),
    ensures
        r matches Some(v) ==> parse_unsigned(s@.subrange(lo as int, hi as int), max as nat)
            == Some(v as nat),
        r is None ==> parse_unsigned(s@.subrange(lo as int, hi as int), max as nat) is None,
{
    let ghost t = s@.subrange(lo as int, hi as int);
    let mut start = lo;
    if lo < hi && s[lo] == '+' {
        start = lo + 1;
    }
    let ghost d = s@.subrange(start as int, hi as int);
    assert(d =~= unsigned_digits(t));
    if start == hi {
        return None;
    }
    let mut acc: u128 = 0;
    let mut i = start;
    while i < hi
        invariant
            lo <= start <= i <= hi <= s@.len(),
            d == s@.subrange(start as int, hi as int),
            d == unsigned_digits(s@.subrange(lo as int, hi as int)),
            all_digits(s@.subrange(start as int, i as int)),
            acc as nat == decimal_value(s@.subrange(start as int, i as int)),
            acc <= max,
        decreases hi - i,
    {
        let c = s[i];
        if !('0' <= c && c <= '9') {
            assert(d[i - start] == c);
            return None;
        }
        let dv = (c as u32 - '0' as u32) as u128;
        let ghost prev = s@.subrange(start as int, i as int);
        acc = acc * 10 + dv;
        i = i + 1;
        assert(s@.subrange(start as int, i as int).drop_last() =~= prev);
        assert(all_digits(s@.subrange(start as int, i as int))) by {
            assert forall|k: int| 0 <= k < i - start implies is_digit(
                #[trigger] s@.subrange(start as int, i as int)[k],
            ) by {
                if k < i - 1 - start {
                    assert(s@.subrange(start as int, i as int)[k] == prev[k]);
                }
            }
        }
        if acc > max as u128 {
            proof {
                let e = s@.subrange(start as int, i as int);
                if all_digits(d) {
                    lemma_decimal_value_prefix(d, i - start);
                    assert(d.subrange(0, i - start) =~= e);
                }
            }
            return None;
        }
    }
    assert(s@.subrange(start as int, i as int) =~= d);
    Some(acc as u64)
}

/// The characters of `text[lo..hi]` with every occurrence of `p` removed.
pub fn remove_all_range(text: &str, s: &Vec<char>, lo: usize, hi: usize, p: &str) -> (r: String)
    requires
        s@ == text@,
        lo <= hi <= s@.len(),
    ensures
        r@ == remove_all(s@.subrange(lo as int, hi as int), p@),
{
    let ghost whole = s@.subrange(lo as int, hi as int);
    let n = p.unicode_len();
    if n == 0 {
        return substring(text, lo, hi);
    }
    let mut out = String::new();
    let mut i = lo;
    while i < hi
        invariant
            s@ == text@,
            lo <= i <= hi <= s@.len(),
            n == p@.len(),
            n > 0,
            whole == s@.subrange(lo as int, hi as int),
            out@ + remove_all(s@.subrange(i as int, hi as int), p@) == remove_all(whole, p@),
        decreases hi - i,
    {
        let ghost rest = s@.subrange(i as int, hi as int);
        let hit = if n <= hi - i {
            matches_at(s, i, p)
        } else {
            false
        };
        if hit {
            assert(rest.subrange(0, n as int) =~= s@.subrange(i as int, i + n));
            assert(starts_with(rest, p@));
            assert(rest.subrange(n as int, rest.len() as int) =~= s@.subrange(i + n, hi as int));
            i = i + n;
        } else {
            proof {
                if starts_with(rest, p@) {
                    assert(rest.subrange(0, n as int) =~= s@.subrange(i as int, i + n));
                }
            }
            let piece = text.substring_char(i, i + 1);
            out.append(piece);
            assert(rest.subrange(1, rest.len() as int) =~= s@.subrange(i + 1, hi as int));
            assert(piece@ =~= seq![rest[0]]);
            assert(out@ + remove_all(s@.subrange(i + 1, hi as int), p@) =~= remove_all(whole, p@));
            i = i + 1;
        }
    }
    assert(remove_all(s@.subrange(i as int, hi as int), p@) =~= Seq::<char>::empty());
    assert(out@ =~= remove_all(whole, p@));
    out
}

/// The piece boundaries of `split(text[lo..hi], c)`: piece `k` is
/// `text[r[k].0 .. r[k].1]`.
pub fn split_ranges(s: &Vec<char>, lo: usize, hi: usize, c: char) -> (r: Vec<(usize, usize)>)
    requires
        lo <= hi <= s@.len(),
    ensures
        r@.len() == split(s@.subrange(lo as int, hi as int), c).len(),
        forall|k: int|
            0 <= k < r@.len() ==> lo <= (#[trigger] r@[k]).0 <= r@[k].1 <= hi && s@.subrange(
                r@[k].0 as int,
                r@[k].1 as int,
            ) == split(s@.subrange(lo as int, hi as int), c)[k],
{
    let mut r: Vec<(usize, usize)> = Vec::new();
    let mut cur = lo;
    let mut i = lo;
    assert(s@.subrange(lo as int, lo as int) =~= Seq::<char>::empty());
    while i < hi
        invariant
            lo <= cur <= i <= hi <= s@.len(),
            r@.len() + 1 == split(s@.subrange(lo as int, i as int), c).len(),
            forall|k: int|
                0 <= k < r@.len() ==> lo <= (#[trigger] r@[k]).0 <= r@[k].1 <= i && s@.subrange(
                    r@[k].0 as int,
                    r@[k].1 as int,
                ) == split(s@.subrange(lo as int, i as int), c)[k],
            s@.subrange(cur as int, i as int) == split(s@.subrange(lo as int, i as int), c).last(),
        decreases hi - i,
    {
        let ghost before = split(s@.subrange(lo as int, i as int), c);
        let ghost sub = s@.subrange(lo as int, i + 1);
        assert(sub.drop_last() =~= s@.subrange(lo as int, i as int));
        assert(sub.last() == s@[i as int]);
        if s[i] == c {
            r.push((cur, i));
            cur = i + 1;
            i = i + 1;
            assert(s@.subrange(cur as int, i as int) =~= Seq::<char>::empty());
        } else {
            assert(s@.subrange(cur as int, i + 1) =~= s@.subrange(cur as int, i as int).push(s@[i as int]));
            i = i + 1;
        }
    }
    r.push((cur, hi));
    r
}


/// The character of a decimal digit.
pub open spec fn digit_char(d: nat) -> char {
    (48 + d) as char
}

/// The decimal representation of `n`, without leading zeros.
pub open spec fn decimal_digits(n: nat) -> Seq<char>
    decreases n,
{
    if n < 10 {
        seq![digit_char(n)]
    } else {
        decimal_digits(n / 10).push(digit_char(n % 10))
    }
}

/// Append the decimal representation of `n` (as `format!("{}", n)`).
pub fn push_decimal(out: &mut String, n: u64)
    ensures
        final(out)@ == old(out)@ + decimal_digits(n as nat),
    decreases n,
{
    if n >= 10 {
        push_decimal(out, n / 10);
    }
    let d = (n % 10) as usize;
    let digits = "0123456789";
    proof {
        reveal_strlit("0123456789");
    }
    let piece = digits.substring_char(d, d + 1);
    assert(piece@ =~= seq![digit_char(d as nat)]);
    out.append(piece);
    proof {
        if n >= 10 {
            assert(decimal_digits(n as nat) == decimal_digits((n / 10) as nat).push(digit_char((n % 10) as nat)));
        }
    }
    assert(out@ =~= old(out)@ + decimal_digits(n as nat));
}

/// `format!("{}", n)`.
pub fn decimal_string(n: u64) -> (r: String)
    ensures
        r@ == decimal_digits(n as nat),
{
    let mut s = String::new();
    push_decimal(&mut s, n);
    assert(s@ =~= decimal_digits(n as nat));
    s
}


pub proof fn lemma_decimal_digits(n: nat)
    ensures
        decimal_digits(n).len() > 0,
        all_digits(decimal_digits(n)),
        decimal_value(decimal_digits(n)) == n,
    decreases n,
{
    let k = n % 10;
    assert(digit_char(k) as int == 48 + k);
    assert(digit_value(digit_char(k)) == k);
    if n >= 10 {
        lemma_decimal_digits(n / 10);
        let d = decimal_digits(n / 10);
        let s = d.push(digit_char(n % 10));
        assert(s.drop_last() =~= d);
        assert forall|i: int| 0 <= i < s.len() implies is_digit(#[trigger] s[i]) by {
            if i < d.len() {
                assert(s[i] == d[i]);
            }
        }
        assert(decimal_value(s) == decimal_value(d) * 10 + digit_value(s.last()));
        assert(n == (n / 10) * 10 + n % 10);
    } else {
        let s = decimal_digits(n);
        assert(s.drop_last() =~= Seq::<char>::empty());
        assert(decimal_value(s) == decimal_value(s.drop_last()) * 10 + digit_value(s.last()));
    }
}

/// Reading back a formatted number gives the number: for any `n` within the
/// type's range, `format!("{}", n).parse()` is `Ok(n)`.
pub proof fn lemma_parse_formatted(n: nat, max: nat)
    requires
        n <= max,
    ensures
        parse_unsigned(decimal_digits(n), max) == Some(n),
{
    lemma_decimal_digits(n);
    let d = decimal_digits(n);
    assert(is_digit(d[0]));
    assert(unsigned_digits(d) == d);
}

/// A piece without the separator splits into itself.
pub proof fn lemma_split_single(a: Seq<char>, c: char)
    requires
        !a.contains(c),
    ensures
        split(a, c) == seq![a],
    decreases a.len(),
{
    if a.len() > 0 {
        let d = a.drop_last();
        assert(!d.contains(c)) by {
            if d.contains(c) {
                let k = choose|k: int| 0 <= k < d.len() && d[k] == c;
                assert(a[k] == c);
            }
        }
        lemma_split_single(d, c);
        assert(a[a.len() - 1] != c);
        assert(d.push(a.last()) =~= a);
        assert(split(a, c) =~= seq![d].update(0, d.push(a.last())));
    } else {
        assert(a =~= Seq::<char>::empty());
    }
}

/// Splitting at the first separator: a first piece without the separator,
/// then the pieces of the rest.
pub proof fn lemma_split_first(a: Seq<char>, b: Seq<char>, c: char)
    requires
        !a.contains(c),
    ensures
        split(a + seq![c] + b, c) == seq![a] + split(b, c),
    decreases b.len(),
{
    let t = a + seq![c] + b;
    if b.len() == 0 {
        lemma_split_single(a, c);
        assert(t.drop_last() =~= a);
        assert(split(b, c) == seq![Seq::<char>::empty()]);
        assert(split(t, c) =~= seq![a] + split(b, c));
    } else {
        let b2 = b.drop_last();
        lemma_split_first(a, b2, c);
        assert(t.drop_last() =~= a + seq![c] + b2);
        assert(t.last() == b.last());
        let rest = split(b2, c);
        assert(rest.len() > 0) by {
            lemma_split_nonempty(b2, c);
        }
        if b.last() == c {
            assert(split(t, c) =~= seq![a] + split(b, c));
        } else {
            let whole = seq![a] + rest;
            assert(whole.update(whole.len() - 1, whole.last().push(b.last())) =~= seq![a] + rest.update(
                rest.len() - 1,
                rest.last().push(b.last()),
            ));
        }
    }
}

proof fn lemma_split_nonempty(s: Seq<char>, c: char)
    ensures
        split(s, c).len() > 0,
    decreases s.len(),
{
    if s.len() > 0 {
        lemma_split_nonempty(s.drop_last(), c);
    }
}

/// Decimal digits never contain a character that is not a digit.
pub proof fn lemma_digits_lack(n: nat, c: char)
    requires
        !is_digit(c),
    ensures
        !decimal_digits(n).contains(c),
{
    lemma_decimal_digits(n);
    if decimal_digits(n).contains(c) {
        let k = choose|k: int| 0 <= k < decimal_digits(n).len() && decimal_digits(n)[k] == c;
        assert(is_digit(decimal_digits(n)[k]));
    }
}

} // verus!
