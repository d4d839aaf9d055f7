//! Character-level scanning primitives over `&str` and their `Seq<char>`
//! specifications: first/last occurrence of a character, first occurrence of
//! a substring, whitespace skipping, and substring appending.

use vstd::prelude::*;

verus! {

/// Mathematical image of an optional owned string.
pub open spec fn opt_view(o: Option<String>) -> Option<Seq<char>> {
    match o {
        Some(v) => Some(v@),
        None => None,
    }
}

/// Mathematical image of a list of owned strings.
pub open spec fn string_views(v: Seq<String>) -> Seq<Seq<char>> {
    v.map_values(|s: String| s@)
}

/// Maps an executable search result to its mathematical counterpart.
pub open spec fn opt_int(o: Option<usize>) -> Option<int> {
    match o {
        Some(j) => Some(j as int),
        None => None,
    }
}

/// Index of the first occurrence of `c` in `s` at or after `i`.
pub open spec fn find_char_from(s: Seq<char>, i: int, c: char) -> Option<int>
    decreases s.len() - i,
{
    if i < 0 || i >= s.len() {
        None
    } else if s[i] == c {
        Some(i)
    } else {
        find_char_from(s, i + 1, c)
    }
}

/// Index of the last occurrence of `c` in `s`.
pub open spec fn last_index_of(s: Seq<char>, c: char) -> Option<int>
    decreases s.len(),
{
    if s.len() == 0 {
        None
    } else if s[s.len() - 1] == c {
        Some(s.len() - 1)
    } else {
        last_index_of(s.drop_last(), c)
    }
}

/// A found position is at or after `i`, in range, and holds `c`.
pub proof fn lemma_find_char_from_bounds(s: Seq<char>, i: int, c: char)
    ensures
        find_char_from(s, i, c) matches Some(j) ==> i <= j < s.len() && s[j] == c,
    decreases s.len() - i,
{
    if 0 <= i && i < s.len() && s[i] != c {
        lemma_find_char_from_bounds(s, i + 1, c);
    }
}

/// The last occurrence of `c` in `s + t` is the head of `t`, when `t` starts
/// with `c` and holds no later one.
pub proof fn lemma_last_index_of_append(s: Seq<char>, t: Seq<char>, c: char)
    requires
        t.len() > 0,
        t[0] == c,
        forall|k: int| 1 <= k < t.len() ==> t[k] != c,
    ensures
        last_index_of(s + t, c) == Some(s.len() as int),
    decreases t.len(),
{
    if t.len() == 1 {
        assert((s + t).last() == t[0]);
    } else {
        assert((s + t).last() == t[t.len() - 1]);
        assert((s + t).drop_last() =~= s + t.drop_last());
        lemma_last_index_of_append(s, t.drop_last(), c);
    }
}

/// `t` occurs in `s` starting at position `i`.
pub open spec fn matches_at(s: Seq<char>, t: Seq<char>, i: int) -> bool {
    0 <= i && i + t.len() <= s.len() && s.subrange(i, i + t.len()) == t
}

/// Index of the first occurrence of `t` in `s` at or after `i`; an empty `t`
/// is found immediately.
pub open spec fn find_sub_from(s: Seq<char>, t: Seq<char>, i: int) -> Option<int>
    decreases s.len() - i,
{
    if i < 0 || i + t.len() > s.len() {
        None
    } else if t.len() == 0 {
        Some(i)
    } else if s.subrange(i, i + t.len()) == t {
        Some(i)
    } else {
        find_sub_from(s, t, i + 1)
    }
}

/// `t` occurs somewhere in `s`.
pub open spec fn has_sub(s: Seq<char>, t: Seq<char>) -> bool {
    find_sub_from(s, t, 0) is Some
}

/// The whitespace characters recognised between tokens of the diagnostic
/// payload and of the settings document.
pub open spec fn is_ws(c: char) -> bool {
    c == ' ' || c == '\t' || c == '\n' || c == '\r'
}

/// First position at or after `i` holding a non-whitespace character (or the
/// end of `s`).
pub open spec fn skip_ws(s: Seq<char>, i: int) -> int
    decreases s.len() - i,
{
    if 0 <= i && i < s.len() && is_ws(s[i]) {
        skip_ws(s, i + 1)
    } else {
        i
    }
}

/// Skipping whitespace never moves backwards nor past the end.
pub proof fn lemma_skip_ws_range(s: Seq<char>, i: int)
    ensures
        i <= skip_ws(s, i),
        i <= s.len() ==> skip_ws(s, i) <= s.len(),
    decreases s.len() - i,
{
    if 0 <= i && i < s.len() && is_ws(s[i]) {
        lemma_skip_ws_range(s, i + 1);
    }
}

pub fn char_is_ws(c: char) -> (r: bool)
    ensures
        r == is_ws(c),
{
    c == ' ' || c == '\t' || c == '\n' || c == '\r'
}

pub fn advance_ws(s: &str, from: usize) -> (r: usize)
    requires
        from <= s@.len(),
    ensures
        r as int == skip_ws(s@, from as int),
        from <= r <= s@.len(),
{
    let slen = s.unicode_len();
    let mut i = from;
    while i < slen && char_is_ws(s.get_char(i))
        invariant
            from <= i <= slen,
            slen == s@.len(),
            skip_ws(s@, from as int) == skip_ws(s@, i as int),
        decreases slen - i,
    {
        i = i + 1;
    }
    i
}

pub fn find_char(s: &str, from: usize, c: char) -> (r: Option<usize>)
    requires
        from <= s@.len(),
    ensures
        opt_int(r) == find_char_from(s@, from as int, c),
        r matches Some(j) ==> from <= j < s@.len() && s@[j as int] == c,
    {
    let slen = s.unicode_len();
    let mut i = from;
    while i < slen
        invariant
            from <= i <= slen,
            slen == s@.len(),
            find_char_from(s@, from as int, c) == find_char_from(s@, i as int, c),
        decreases slen - i,
    {
        if s.get_char(i) == c {
            return Some(i);
        }
        i = i + 1;
    }
    None
}

pub fn find_last_char(s: &str, c: char) -> (r: Option<usize>)
    ensures
        opt_int(r) == last_index_of(s@, c),
        r matches Some(j) ==> j < s@.len() && s@[j as int] == c,
{
    let slen = s.unicode_len();
    let mut i = slen;
    proof {
        assert(s@.take(slen as int) =~= s@);
    }
    while i > 0
        invariant
            i <= slen,
            slen == s@.len(),
            last_index_of(s@, c) == last_index_of(s@.take(i as int), c),
        decreases i,
    {
        let ch = s.get_char(i - 1);
        proof {
            assert(s@.take(i as int).last() == s@[i - 1]);
        }
        if ch == c {
            return Some(i - 1);
        }
        proof {
            assert(s@.take(i as int).drop_last() =~= s@.take(i - 1));
        }
        i = i - 1;
    }
    proof {
        assert(s@.take(0) =~= Seq::<char>::empty());
    }
    None
}

/// Character-by-character comparison of `t` against `s` at position `i`.
pub fn str_matches_at(s: &str, t: &str, i: usize) -> (r: bool)
    requires
        i + t@.len() <= s@.len(),
    ensures
        r == matches_at(s@, t@, i as int),
{
    let tlen = t.unicode_len();
    let slen = s.unicode_len();
    let mut k: usize = 0;
    while k < tlen
        invariant
            k <= tlen,
            tlen == t@.len(),
            slen == s@.len(),
            i + tlen <= slen,
            forall|m: int| 0 <= m < k ==> s@[i + m] == t@[m],
        decreases tlen - k,
    {
        if s.get_char(i + k) != t.get_char(k) {
            proof {
                assert(s@.subrange(i as int, i + t@.len())[k as int] == s@[i + k]);
            }
            return false;
        }
        k = k + 1;
    }
    proof {
        assert(s@.subrange(i as int, i + t@.len()) =~= t@);
    }
    true
}

pub fn find_substring_from(s: &str, t: &str, from: usize) -> (r: Option<usize>)
    requires
        from <= s@.len(),
    ensures
        opt_int(r) == find_sub_from(s@, t@, from as int),
        r matches Some(j) ==> from <= j && matches_at(s@, t@, j as int),
{
    let slen = s.unicode_len();
    let tlen = t.unicode_len();
    if tlen == 0 {
        proof {
            assert(s@.subrange(from as int, from as int) =~= t@);
        }
        return Some(from);
    }
    if tlen > slen - from {
        return None;
    }
    let bound = slen - tlen;
    let mut i = from;
    while i <= bound
        invariant
            from <= i,
            i <= bound + 1,
            bound == slen - tlen,
            tlen >= 1,
            tlen <= slen,
            slen == s@.len(),
            tlen == t@.len(),
            find_sub_from(s@, t@, from as int) == find_sub_from(s@, t@, i as int),
        decreases bound + 1 - i,
    {
        if str_matches_at(s, t, i) {
            return Some(i);
        }
        i = i + 1;
    }
    None
}

/// Character-for-character equality of two string slices.
pub fn str_eq(a: &str, b: &str) -> (r: bool)
    ensures
        r == (a@ == b@),
{
    let alen = a.unicode_len();
    let blen = b.unicode_len();
    if alen != blen {
        return false;
    }
    let r = str_matches_at(a, b, 0);
    proof {
        assert(a@.subrange(0, b@.len() as int) =~= a@);
    }
    r
}

/// Whether `t` occurs anywhere in `s`.
pub fn contains_substring(s: &str, t: &str) -> (r: bool)
    ensures
        r == has_sub(s@, t@),
{
    let r = find_substring_from(s, t, 0);
    r.is_some()
}

/// Appends the characters of `s` between `from` and `to` onto `out`.
pub fn append_char_range(out: &mut String, s: &str, from: usize, to: usize)
    requires
        from <= to <= s@.len(),
    ensures
        final(out)@ == old(out)@ + s@.subrange(from as int, to as int),
{
    let piece = s.substring_char(from, to);
    out.append(piece);
}

/// Appends the single character of `s` at position `i` onto `out`.
pub fn append_char_at(out: &mut String, s: &str, i: usize)
    requires
        i < s@.len(),
    ensures
        final(out)@ == old(out)@ + seq![s@[i as int]],
{
    // The measured length bounds `s@.len()`, which keeps `i + 1` in range.
    let _slen = s.unicode_len();
    append_char_range(out, s, i, i + 1);
    proof {
        assert(s@.subrange(i as int, i + 1) =~= seq![s@[i as int]]);
    }
}

} // verus!
