//! Run settings: the base filter-chain template and the output bitrate,
//! together with the flat key-value document they are stored in. An entry
//! of the document is `key = "value"` on a line of its own; a backslash or
//! double quote inside a value is written behind a backslash. A document
//! missing an entry falls back to that entry's default; a document that
//! does not parse, or names an entry twice, is rejected as a whole.

use vstd::prelude::*;
use crate::kv::{key_count, first_value, pair_views, lookup_single};
use crate::text::{skip_ws, advance_ws, append_char_at, lemma_skip_ws_range};

verus! {

/// The two configurable values of a run. Immutable once loaded.
pub struct DpcNormSettings {
    pub base_filter_params: String,
    pub output_bitrate: String,
}

/// Mathematical image of a settings value.
#[verifier::ext_equal]
pub struct SettingsFields {
    pub base_filter_params: Seq<char>,
    pub output_bitrate: Seq<char>,
}

impl View for DpcNormSettings {
    type V = SettingsFields;

    open spec fn view(&self) -> SettingsFields {
        SettingsFields {
            base_filter_params: self.base_filter_params@,
            output_bitrate: self.output_bitrate@,
        }
    }
}

/// The default template names the two-pass correction filter.
pub open spec fn default_base_filter_params() -> Seq<char> {
    "loudnorm=I=-16"@
}

pub open spec fn default_output_bitrate() -> Seq<char> {
    "192k"@
}

/// The settings used when no stored document exists or the stored one does
/// not parse.
pub fn get_default_settings() -> (r: DpcNormSettings)
    ensures
        r.base_filter_params@ == default_base_filter_params(),
        r.output_bitrate@ == default_output_bitrate(),
{
    DpcNormSettings {
        base_filter_params: "loudnorm=I=-16".to_owned(),
        output_bitrate: "192k".to_owned(),
    }
}

/// How one character of a stored value is written: a backslash or double
/// quote goes behind a backslash, anything else stands as itself.
pub open spec fn escape_char(c: char) -> Seq<char> {
    if c == '\\' || c == '"' {
        seq!['\\', c]
    } else {
        seq![c]
    }
}

/// How a whole stored value is written.
pub open spec fn escaped(s: Seq<char>) -> Seq<char>
    decreases s.len(),
{
    if s.len() == 0 {
        Seq::empty()
    } else {
        escape_char(s[0]) + escaped(s.drop_first())
    }
}

/// Writing a concatenation writes the parts in order.
pub proof fn lemma_escaped_append(a: Seq<char>, b: Seq<char>)
    ensures
        escaped(a + b) == escaped(a) + escaped(b),
    decreases a.len(),
{
    if a.len() == 0 {
        assert(a + b =~= b);
        assert(escaped(a) + escaped(b) =~= escaped(b));
    } else {
        assert((a + b).drop_first() =~= a.drop_first() + b);
        lemma_escaped_append(a.drop_first(), b);
        assert(escape_char((a + b)[0]) + (escaped(a.drop_first()) + escaped(b)) =~= (escape_char(
            a[0],
        ) + escaped(a.drop_first())) + escaped(b));
    }
}

/// One stored entry: the key, an equals sign, and the quoted value, on a
/// line of its own.
pub open spec fn rendered_entry(key: Seq<char>, value: Seq<char>) -> Seq<char> {
    key + " = \""@ + escaped(value) + "\"\n"@
}

/// The whole stored document for a settings value.
pub open spec fn settings_doc(s: SettingsFields) -> Seq<char> {
    rendered_entry("base_filter_params"@, s.base_filter_params) + rendered_entry(
        "output_bitrate"@,
        s.output_bitrate,
    )
}

fn append_escaped(out: &mut String, s: &str)
    ensures
        final(out)@ == old(out)@ + escaped(s@),
{
    let slen = s.unicode_len();
    let mut i: usize = 0;
    proof {
        assert(escaped(s@.take(0)) =~= Seq::<char>::empty());
        assert(out@ =~= out@ + escaped(s@.take(0)));
    }
    while i < slen
        invariant
            i <= slen,
            slen == s@.len(),
            out@ == old(out)@ + escaped(s@.take(i as int)),
        decreases slen - i,
    {
        let ghost prev = out@;
        let c = s.get_char(i);
        if c == '\\' {
            proof {
                reveal_strlit("\\\\");
            }
            out.append("\\\\");
            proof {
                assert("\\\\"@ =~= escape_char(s@[i as int]));
            }
        } else if c == '"' {
            proof {
                reveal_strlit("\\\"");
            }
            out.append("\\\"");
            proof {
                assert("\\\""@ =~= escape_char(s@[i as int]));
            }
        } else {
            append_char_at(out, s, i);
            proof {
                assert(seq![s@[i as int]] =~= escape_char(s@[i as int]));
            }
        }
        proof {
            assert(s@.take(i + 1) =~= s@.take(i as int) + seq![s@[i as int]]);
            lemma_escaped_append(s@.take(i as int), seq![s@[i as int]]);
            assert(seq![s@[i as int]].drop_first() =~= Seq::<char>::empty());
            assert(escaped(Seq::<char>::empty()) =~= Seq::<char>::empty());
            assert(escaped(seq![s@[i as int]]) == escape_char(s@[i as int]) + escaped(
                Seq::<char>::empty(),
            ));
            assert(escape_char(s@[i as int]) + Seq::<char>::empty() =~= escape_char(
                s@[i as int],
            ));
            assert(escaped(seq![s@[i as int]]) =~= escape_char(s@[i as int]));
            assert(out@ =~= old(out)@ + escaped(s@.take(i + 1)));
        }
        i = i + 1;
    }
    proof {
        assert(s@.take(slen as int) =~= s@);
    }
}

/// Renders a settings value as its stored document.
pub fn encode_settings(s: &DpcNormSettings) -> (r: String)
    ensures
        r@ == settings_doc(s@),
{
    let mut out = String::new();
    out.append("base_filter_params");
    out.append(" = \"");
    append_escaped(&mut out, s.base_filter_params.as_str());
    out.append("\"\n");
    out.append("output_bitrate");
    out.append(" = \"");
    append_escaped(&mut out, s.output_bitrate.as_str());
    out.append("\"\n");
    proof {
        assert(out@ =~= settings_doc(s@));
    }
    out
}

/// A character a key may be made of.
pub open spec fn is_key_char(c: char) -> bool {
    ('a' <= c && c <= 'z') || ('A' <= c && c <= 'Z') || ('0' <= c && c <= '9') || c == '_' || c
        == '-'
}

fn char_is_key(c: char) -> (r: bool)
    ensures
        r == is_key_char(c),
{
    ('a' <= c && c <= 'z') || ('A' <= c && c <= 'Z') || ('0' <= c && c <= '9') || c == '_' || c
        == '-'
}

/// First position at or after `i` past the key characters.
pub open spec fn key_end(s: Seq<char>, i: int) -> int
    decreases s.len() - i,
{
    if 0 <= i && i < s.len() && is_key_char(s[i]) {
        key_end(s, i + 1)
    } else {
        i
    }
}

/// Scanning a key never moves backwards nor past the end.
pub proof fn lemma_key_end_range(s: Seq<char>, i: int)
    ensures
        i <= key_end(s, i),
        i <= s.len() ==> key_end(s, i) <= s.len(),
    decreases s.len() - i,
{
    if 0 <= i && i < s.len() && is_key_char(s[i]) {
        lemma_key_end_range(s, i + 1);
    }
}

/// A quoted value from position `i` (just past the opening quote) to its
/// closing quote: a backslash takes the next character literally, an
/// unescaped quote ends the value. Yields the value and the position after
/// the closing quote.
pub open spec fn parse_qstring(s: Seq<char>, i: int) -> Option<(Seq<char>, int)>
    decreases s.len() - i,
{
    if i < 0 || i >= s.len() {
        None
    } else if s[i] == '"' {
        Some((Seq::empty(), i + 1))
    } else if s[i] == '\\' {
        if i + 1 < s.len() {
            match parse_qstring(s, i + 2) {
                Some((rest, e)) => Some((seq![s[i + 1]] + rest, e)),
                None => None,
            }
        } else {
            None
        }
    } else {
        match parse_qstring(s, i + 1) {
            Some((rest, e)) => Some((seq![s[i]] + rest, e)),
            None => None,
        }
    }
}

/// A parsed value ends after its starting position and within `s`.
pub proof fn lemma_parse_qstring_bounds(s: Seq<char>, i: int)
    ensures
        parse_qstring(s, i) matches Some(r) ==> i < r.1 <= s.len(),
    decreases s.len() - i,
{
    if 0 <= i && i < s.len() {
        if s[i] == '\\' {
            if i + 1 < s.len() {
                lemma_parse_qstring_bounds(s, i + 2);
            }
        } else if s[i] != '"' {
            lemma_parse_qstring_bounds(s, i + 1);
        }
    }
}

/// One entry at position `i`: a nonempty key, `=`, and a quoted value.
pub open spec fn parse_entry(s: Seq<char>, i: int) -> Option<((Seq<char>, Seq<char>), int)> {
    let j = key_end(s, i);
    if i < j {
        let k = skip_ws(s, j);
        if k < s.len() && s[k] == '=' {
            let m = skip_ws(s, k + 1);
            if m < s.len() && s[m] == '"' {
                match parse_qstring(s, m + 1) {
                    Some((val, e)) => Some(((s.subrange(i, j), val), e)),
                    None => None,
                }
            } else {
                None
            }
        } else {
            None
        }
    } else {
        None
    }
}

/// A parsed entry ends after its starting position and within `s`.
pub proof fn lemma_parse_entry_bounds(s: Seq<char>, i: int)
    ensures
        parse_entry(s, i) matches Some(r) ==> i < r.1 <= s.len(),
{
    lemma_key_end_range(s, i);
    let j = key_end(s, i);
    lemma_skip_ws_range(s, j);
    let k = skip_ws(s, j);
    lemma_skip_ws_range(s, k + 1);
    lemma_parse_qstring_bounds(s, skip_ws(s, k + 1) + 1);
}

/// All entries from position `i` to the end of the document.
pub open spec fn parse_entries(s: Seq<char>, i: int) -> Option<Seq<(Seq<char>, Seq<char>)>>
    decreases s.len() - i,
    via parse_entries_decreases
{
    let j = skip_ws(s, i);
    if j >= s.len() {
        Some(Seq::empty())
    } else {
        match parse_entry(s, j) {
            Some((kv, e)) => match parse_entries(s, e) {
                Some(rest) => Some(seq![kv] + rest),
                None => None,
            },
            None => None,
        }
    }
}

#[via_fn]
proof fn parse_entries_decreases(s: Seq<char>, i: int) {
    lemma_skip_ws_range(s, i);
    lemma_parse_entry_bounds(s, skip_ws(s, i));
}

/// The settings a parsed document yields: each entry at most once, a
/// missing entry defaulted, entries under other keys ignored.
pub open spec fn settings_of_pairs(pairs: Seq<(Seq<char>, Seq<char>)>) -> Option<SettingsFields> {
    if key_count(pairs, "base_filter_params"@) <= 1 && key_count(pairs, "output_bitrate"@) <= 1 {
        Some(
            SettingsFields {
                base_filter_params: match first_value(pairs, "base_filter_params"@) {
                    Some(v) => v,
                    None => default_base_filter_params(),
                },
                output_bitrate: match first_value(pairs, "output_bitrate"@) {
                    Some(v) => v,
                    None => default_output_bitrate(),
                },
            },
        )
    } else {
        None
    }
}

/// The settings a stored document yields, when it parses.
pub open spec fn parsed_settings(doc: Seq<char>) -> Option<SettingsFields> {
    match parse_entries(doc, 0) {
        Some(pairs) => settings_of_pairs(pairs),
        None => None,
    }
}

fn parse_qstring_exec(s: &str, i: usize) -> (r: Option<(String, usize)>)
    requires
        i <= s@.len(),
    ensures
        (r is Some) == (parse_qstring(s@, i as int) is Some),
        r matches Some(p) ==> parse_qstring(s@, i as int) == Some((p.0@, p.1 as int)) && i < p.1
            <= s@.len(),
    decreases s@.len() - i,
{
    let slen = s.unicode_len();
    if i >= slen {
        return None;
    }
    let c = s.get_char(i);
    if c == '"' {
        let v = String::new();
        proof {
            assert(v@ =~= Seq::<char>::empty());
        }
        Some((v, i + 1))
    } else if c == '\\' {
        if i + 1 < slen {
            match parse_qstring_exec(s, i + 2) {
                Some((rest, e)) => {
                    let mut v = s.substring_char(i + 1, i + 2).to_owned();
                    v.append(rest.as_str());
                    proof {
                        assert(s@.subrange(i + 1, i + 2) =~= seq![s@[i + 1]]);
                    }
                    Some((v, e))
                },
                None => None,
            }
        } else {
            None
        }
    } else {
        match parse_qstring_exec(s, i + 1) {
            Some((rest, e)) => {
                let mut v = s.substring_char(i, i + 1).to_owned();
                v.append(rest.as_str());
                proof {
                    assert(s@.subrange(i as int, i + 1) =~= seq![s@[i as int]]);
                }
                Some((v, e))
            },
            None => None,
        }
    }
}

fn key_end_exec(s: &str, from: usize) -> (r: usize)
    requires
        from <= s@.len(),
    ensures
        r as int == key_end(s@, from as int),
        from <= r <= s@.len(),
{
    let slen = s.unicode_len();
    let mut i = from;
    while i < slen && char_is_key(s.get_char(i))
        invariant
            from <= i <= slen,
            slen == s@.len(),
            key_end(s@, from as int) == key_end(s@, i as int),
        decreases slen - i,
    {
        i = i + 1;
    }
    i
}

fn parse_entry_exec(s: &str, i: usize) -> (r: Option<((String, String), usize)>)
    requires
        i <= s@.len(),
    ensures
        (r is Some) == (parse_entry(s@, i as int) is Some),
        r matches Some(p) ==> parse_entry(s@, i as int) == Some(((p.0.0@, p.0.1@), p.1 as int))
            && i < p.1 <= s@.len(),
{
    let slen = s.unicode_len();
    let j = key_end_exec(s, i);
    if i < j {
        let k = advance_ws(s, j);
        if k < slen && s.get_char(k) == '=' {
            let m = advance_ws(s, k + 1);
            if m < slen && s.get_char(m) == '"' {
                match parse_qstring_exec(s, m + 1) {
                    Some((val, e)) => {
                        let key = s.substring_char(i, j).to_owned();
                        Some(((key, val), e))
                    },
                    None => None,
                }
            } else {
                None
            }
        } else {
            None
        }
    } else {
        None
    }
}

fn parse_entries_exec(s: &str, i: usize) -> (r: Option<Vec<(String, String)>>)
    requires
        i <= s@.len(),
    ensures
        (r is Some) == (parse_entries(s@, i as int) is Some),
        r matches Some(v) ==> parse_entries(s@, i as int) == Some(pair_views(v@)),
    decreases s@.len() - i,
{
    let j = advance_ws(s, i);
    let slen = s.unicode_len();
    if j >= slen {
        let v: Vec<(String, String)> = Vec::new();
        proof {
            assert(pair_views(v@) =~= Seq::<(Seq<char>, Seq<char>)>::empty());
        }
        return Some(v);
    }
    match parse_entry_exec(s, j) {
        Some((kv, e)) => {
            match parse_entries_exec(s, e) {
                Some(mut rest) => {
                    let ghost rest_views = pair_views(rest@);
                    let ghost kv_view = (kv.0@, kv.1@);
                    rest.insert(0, kv);
                    proof {
                        assert(pair_views(rest@) =~= seq![kv_view] + rest_views);
                    }
                    Some(rest)
                },
                None => None,
            }
        },
        None => None,
    }
}

/// Parses a stored document; a document that does not parse, or that names
/// an entry twice, yields nothing.
pub fn parse_settings(doc: &str) -> (r: Option<DpcNormSettings>)
    ensures
        (r is Some) == (parsed_settings(doc@) is Some),
        r matches Some(s) ==> Some(s@) == parsed_settings(doc@),
{
    match parse_entries_exec(doc, 0) {
        Some(pairs) => {
            let base = lookup_single(&pairs, "base_filter_params");
            let rate = lookup_single(&pairs, "output_bitrate");
            match (base, rate) {
                (Some(base), Some(rate)) => {
                    let base_filter_params = match base {
                        Some(v) => v,
                        None => "loudnorm=I=-16".to_owned(),
                    };
                    let output_bitrate = match rate {
                        Some(v) => v,
                        None => "192k".to_owned(),
                    };
                    Some(DpcNormSettings { base_filter_params, output_bitrate })
                },
                _ => None,
            }
        },
        None => None,
    }
}

/// Reading back an escaped value consumes it up to its closing quote and
/// recovers it exactly, whatever stands before and after.
proof fn lemma_parse_qstring_escaped(pre: Seq<char>, value: Seq<char>, suf: Seq<char>)
    ensures
        parse_qstring(pre + escaped(value) + seq!['"'] + suf, pre.len() as int) == Some(
            (value, (pre.len() + escaped(value).len() + 1) as int),
        ),
    decreases value.len(),
{
    let s = pre + escaped(value) + seq!['"'] + suf;
    if value.len() == 0 {
        assert(escaped(value) =~= Seq::<char>::empty());
        assert(s[pre.len() as int] == '"');
        assert(value =~= Seq::<char>::empty());
    } else {
        let c = value[0];
        let rest = value.drop_first();
        assert(escaped(value) == escape_char(c) + escaped(rest));
        if c == '\\' || c == '"' {
            assert(s[pre.len() as int] == '\\');
            assert(s[pre.len() as int + 1] == c);
            let pre2 = pre + seq!['\\', c];
            assert(s =~= pre2 + escaped(rest) + seq!['"'] + suf);
            lemma_parse_qstring_escaped(pre2, rest, suf);
            assert(seq![s[pre.len() as int + 1]] + rest =~= value);
        } else {
            assert(s[pre.len() as int] == c);
            let pre2 = pre + seq![c];
            assert(s =~= pre2 + escaped(rest) + seq!['"'] + suf);
            lemma_parse_qstring_escaped(pre2, rest, suf);
            assert(seq![s[pre.len() as int]] + rest =~= value);
        }
    }
}

/// Scanning a key over its rendered characters stops exactly at its end.
proof fn lemma_key_end_rendered(pre: Seq<char>, key: Seq<char>, suf: Seq<char>)
    requires
        forall|k: int| 0 <= k < key.len() ==> is_key_char(key[k]),
        suf.len() > 0,
        !is_key_char(suf[0]),
    ensures
        key_end(pre + key + suf, pre.len() as int) == pre.len() + key.len(),
    decreases key.len(),
{
    let s = pre + key + suf;
    if key.len() == 0 {
        assert(s[pre.len() as int] == suf[0]);
    } else {
        assert(s[pre.len() as int] == key[0]);
        let pre2 = pre + seq![key[0]];
        assert(s =~= pre2 + key.drop_first() + suf);
        lemma_key_end_rendered(pre2, key.drop_first(), suf);
    }
}

/// Reading back a rendered entry recovers its key and value and stops on
/// the entry's final newline.
proof fn lemma_parse_entry_rendered(
    pre: Seq<char>,
    key: Seq<char>,
    value: Seq<char>,
    suf: Seq<char>,
)
    requires
        key.len() > 0,
        forall|k: int| 0 <= k < key.len() ==> is_key_char(key[k]),
    ensures
        parse_entry(pre + rendered_entry(key, value) + suf, pre.len() as int) == Some(
            ((key, value), pre.len() + rendered_entry(key, value).len() - 1),
        ),
{
    reveal_strlit(" = \"");
    reveal_strlit("\"\n");
    let s = pre + rendered_entry(key, value) + suf;
    let mid: Seq<char> = seq![' ', '=', ' ', '"'];
    let tail: Seq<char> = seq!['"', '\n'];
    assert(" = \""@ =~= mid);
    assert("\"\n"@ =~= tail);
    let sufb = mid + escaped(value) + tail + suf;
    assert(s =~= pre + key + sufb);
    assert(sufb[0] == ' ');
    assert(!is_key_char(' '));
    lemma_key_end_rendered(pre, key, sufb);
    let p = pre.len() as int + key.len();
    assert(key_end(s, pre.len() as int) == p);
    assert(s.subrange(pre.len() as int, p as int) =~= key);
    assert(s[p as int] == ' ');
    assert(s[p + 1] == '=');
    assert(skip_ws(s, p as int) == skip_ws(s, p + 1));
    assert(skip_ws(s, p + 1) == p + 1);
    assert(s[p + 2] == ' ');
    assert(s[p + 3] == '"');
    assert(skip_ws(s, p + 2) == skip_ws(s, p + 3));
    assert(skip_ws(s, p + 3) == p + 3);
    let pre2 = pre + key + mid;
    let suf2 = seq!['\n'] + suf;
    assert(s =~= pre2 + escaped(value) + seq!['"'] + suf2);
    lemma_parse_qstring_escaped(pre2, value, suf2);
    assert(parse_qstring(s, p + 4) == Some((value, p + 4 + escaped(value).len() + 1)));
    assert(rendered_entry(key, value).len() == key.len() + 4 + escaped(value).len() + 2);
}

/// A settings value written to the store and read back yields the same
/// value, field for field.
pub proof fn lemma_settings_round_trip(s: SettingsFields)
    ensures
        parsed_settings(settings_doc(s)) == Some(s),
{
    reveal_strlit("base_filter_params");
    reveal_strlit("output_bitrate");
    reveal_strlit(" = \"");
    reveal_strlit("\"\n");
    let k1 = "base_filter_params"@;
    let k2 = "output_bitrate"@;
    let v1 = s.base_filter_params;
    let v2 = s.output_bitrate;
    let r1 = rendered_entry(k1, v1);
    let r2 = rendered_entry(k2, v2);
    let doc = settings_doc(s);
    assert(forall|k: int| 0 <= k < k1.len() ==> is_key_char(#[trigger] k1[k]));
    assert(forall|k: int| 0 <= k < k2.len() ==> is_key_char(#[trigger] k2[k]));
    assert(r1.len() == k1.len() + 4 + escaped(v1).len() + 2);
    assert(r2.len() == k2.len() + 4 + escaped(v2).len() + 2);

    // The first entry opens the document.
    assert(doc[0] == 'b');
    assert(skip_ws(doc, 0) == 0);
    assert(doc =~= Seq::<char>::empty() + r1 + r2);
    lemma_parse_entry_rendered(Seq::empty(), k1, v1, r2);
    let e1 = r1.len() - 1;
    assert(parse_entry(doc, 0) == Some(((k1, v1), e1 as int)));

    // Its final newline is skipped and the second entry follows.
    assert(doc[e1 as int] == '\n');
    assert(doc[r1.len() as int] == 'o');
    assert(skip_ws(doc, e1 as int) == skip_ws(doc, r1.len() as int));
    assert(skip_ws(doc, r1.len() as int) == r1.len());
    assert(doc =~= r1 + r2 + Seq::<char>::empty());
    lemma_parse_entry_rendered(r1, k2, v2, Seq::empty());
    let e2 = doc.len() - 1;
    assert(parse_entry(doc, r1.len() as int) == Some(((k2, v2), e2 as int)));

    // The second entry's newline ends the document.
    assert(doc[e2 as int] == '\n');
    assert(skip_ws(doc, e2 as int) == skip_ws(doc, doc.len() as int));
    assert(skip_ws(doc, doc.len() as int) == doc.len());
    assert(parse_entries(doc, e2 as int) == Some(Seq::<(Seq<char>, Seq<char>)>::empty()));

    let kv1 = (k1, v1);
    let kv2 = (k2, v2);
    assert(seq![kv2] + Seq::<(Seq<char>, Seq<char>)>::empty() =~= seq![kv2]);
    assert(parse_entries(doc, e1 as int) == Some(seq![kv2]));
    let pairs: Seq<(Seq<char>, Seq<char>)> = seq![kv1, kv2];
    assert(seq![kv1] + seq![kv2] =~= pairs);
    assert(parse_entries(doc, 0) == Some(pairs));

    // The two keys differ, so each occurs exactly once.
    assert(k1.len() != k2.len());
    assert(pairs.drop_first() =~= seq![kv2]);
    assert(seq![kv2].drop_first() =~= Seq::<(Seq<char>, Seq<char>)>::empty());
    assert(key_count(Seq::<(Seq<char>, Seq<char>)>::empty(), k1) == 0);
    assert(key_count(Seq::<(Seq<char>, Seq<char>)>::empty(), k2) == 0);
    assert(key_count(seq![kv2], k1) == 0);
    assert(key_count(seq![kv2], k2) == 1);
    assert(key_count(pairs, k1) == 1);
    assert(key_count(pairs, k2) == 1);
    assert(first_value(seq![kv2], k2) == Some(v2));
    assert(first_value(pairs, k1) == Some(v1));
    assert(first_value(pairs, k2) == Some(v2));
    assert(settings_of_pairs(pairs) matches Some(f) && f =~= s);
}

} // verus!
