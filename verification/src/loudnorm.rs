//! Structured-mode diagnostic parsing: the measurement pass of the two-pass
//! loudness strategy ends its diagnostic stream with one flat structured
//! payload — an object of quoted keys and quoted values — preceded by
//! arbitrary log noise. The payload is located as the region from the last
//! `{` to the end of the stream, and the five loudness statistics are read
//! out of it.

use vstd::prelude::*;
use crate::errors::NormError;
use crate::kv::{key_count, pair_views, unique_value, lookup_unique};
use crate::text::{
    find_char_from, last_index_of, skip_ws, find_char, find_last_char, advance_ws,
    lemma_find_char_from_bounds, lemma_skip_ws_range, lemma_last_index_of_append,
};

verus! {

/// The five statistics of a measurement pass, each kept as the numeric
/// token the analysis tool printed.
pub struct LoudnormMeasurement {
    pub output_i: String,
    pub output_tp: String,
    pub output_lra: String,
    pub output_thresh: String,
    pub target_offset: String,
}

/// Mathematical image of a measurement: the five statistics as character
/// sequences.
pub struct LoudnormFields {
    pub output_i: Seq<char>,
    pub output_tp: Seq<char>,
    pub output_lra: Seq<char>,
    pub output_thresh: Seq<char>,
    pub target_offset: Seq<char>,
}

impl View for LoudnormMeasurement {
    type V = LoudnormFields;

    open spec fn view(&self) -> LoudnormFields {
        LoudnormFields {
            output_i: self.output_i@,
            output_tp: self.output_tp@,
            output_lra: self.output_lra@,
            output_thresh: self.output_thresh@,
            target_offset: self.target_offset@,
        }
    }
}

/// A quoted token at position `i`: a `"`, its content (which holds no `"`),
/// and the closing `"`. Yields the content and the position after it.
pub open spec fn parse_quoted(s: Seq<char>, i: int) -> Option<(Seq<char>, int)> {
    if 0 <= i && i < s.len() && s[i] == '"' {
        match find_char_from(s, i + 1, '"') {
            Some(j) => Some((s.subrange(i + 1, j), j + 1)),
            None => None,
        }
    } else {
        None
    }
}

/// A successful quoted token ends after its opening position and within `s`.
pub proof fn lemma_parse_quoted_bounds(s: Seq<char>, i: int)
    ensures
        parse_quoted(s, i) matches Some(r) ==> i + 2 <= r.1 <= s.len(),
{
    lemma_find_char_from_bounds(s, i + 1, '"');
}

/// One `"key" : "value"` member starting at position `i`.
pub open spec fn parse_member(s: Seq<char>, i: int) -> Option<((Seq<char>, Seq<char>), int)> {
    match parse_quoted(s, i) {
        Some((key, j)) => {
            let k = skip_ws(s, j);
            if k < s.len() && s[k] == ':' {
                let m = skip_ws(s, k + 1);
                match parse_quoted(s, m) {
                    Some((val, n)) => Some(((key, val), n)),
                    None => None,
                }
            } else {
                None
            }
        },
        None => None,
    }
}

/// A successful member ends after its starting position and within `s`.
pub proof fn lemma_parse_member_bounds(s: Seq<char>, i: int)
    ensures
        parse_member(s, i) matches Some(r) ==> i < r.1 <= s.len(),
{
    lemma_parse_quoted_bounds(s, i);
    if let Some((key, j)) = parse_quoted(s, i) {
        lemma_skip_ws_range(s, j);
        let k = skip_ws(s, j);
        lemma_parse_quoted_bounds(s, skip_ws(s, k + 1));
        lemma_skip_ws_range(s, k + 1);
    }
}

/// The members of the payload from position `i` to the closing `}`,
/// separated by commas. An immediately closing `}` is accepted only at the
/// start of the member list. Yields the pairs in order and the position
/// after the `}`.
pub open spec fn parse_pairs(s: Seq<char>, i: int, first: bool) -> Option<
    (Seq<(Seq<char>, Seq<char>)>, int),
>
    decreases s.len() - i,
    via parse_pairs_decreases
{
    let j = skip_ws(s, i);
    if first && j < s.len() && s[j] == '}' {
        Some((Seq::empty(), j + 1))
    } else {
        match parse_member(s, j) {
            Some((kv, k)) => {
                let m = skip_ws(s, k);
                if m < s.len() && s[m] == ',' {
                    match parse_pairs(s, m + 1, false) {
                        Some((rest, e)) => Some((seq![kv] + rest, e)),
                        None => None,
                    }
                } else if m < s.len() && s[m] == '}' {
                    Some((seq![kv], m + 1))
                } else {
                    None
                }
            },
            None => None,
        }
    }
}

#[via_fn]
proof fn parse_pairs_decreases(s: Seq<char>, i: int, first: bool) {
    lemma_skip_ws_range(s, i);
    let j = skip_ws(s, i);
    lemma_parse_member_bounds(s, j);
    if let Some((kv, k)) = parse_member(s, j) {
        lemma_skip_ws_range(s, k);
    }
}

/// The whole payload region: a `{`, its members, the closing `}`, and
/// nothing but whitespace after it.
pub open spec fn payload_pairs(s: Seq<char>) -> Option<Seq<(Seq<char>, Seq<char>)>> {
    if s.len() > 0 && s[0] == '{' {
        match parse_pairs(s, 1, true) {
            Some((pairs, e)) => {
                if skip_ws(s, e) == s.len() {
                    Some(pairs)
                } else {
                    None
                }
            },
            None => None,
        }
    } else {
        None
    }
}

/// The five statistics read from a parsed pair list; each must be present
/// exactly once, and members under any other key are ignored.
pub open spec fn fields_of(pairs: Seq<(Seq<char>, Seq<char>)>) -> Option<LoudnormFields> {
    let oi = unique_value(pairs, "output_i"@);
    let otp = unique_value(pairs, "output_tp"@);
    let olra = unique_value(pairs, "output_lra"@);
    let oth = unique_value(pairs, "output_thresh"@);
    let toff = unique_value(pairs, "target_offset"@);
    if oi is Some && otp is Some && olra is Some && oth is Some && toff is Some {
        Some(
            LoudnormFields {
                output_i: oi->Some_0,
                output_tp: otp->Some_0,
                output_lra: olra->Some_0,
                output_thresh: oth->Some_0,
                target_offset: toff->Some_0,
            },
        )
    } else {
        None
    }
}

/// The statistics of a payload region, when it parses.
pub open spec fn loudnorm_fields_of_payload(region: Seq<char>) -> Option<LoudnormFields> {
    match payload_pairs(region) {
        Some(pairs) => fields_of(pairs),
        None => None,
    }
}

/// The statistics of a whole diagnostic stream: those of the region from
/// the last `{` to the end.
pub open spec fn structured_fields(s: Seq<char>) -> Option<LoudnormFields> {
    match last_index_of(s, '{') {
        Some(j) => loudnorm_fields_of_payload(s.subrange(j, s.len() as int)),
        None => None,
    }
}

fn parse_quoted_exec(s: &str, i: usize) -> (r: Option<(String, usize)>)
    requires
        i <= s@.len(),
    ensures
        (r is Some) == (parse_quoted(s@, i as int) is Some),
        r matches Some(p) ==> parse_quoted(s@, i as int) == Some((p.0@, p.1 as int)) && i + 2 <= p.1
            <= s@.len(),
{
    let slen = s.unicode_len();
    if i < slen && s.get_char(i) == '"' {
        match find_char(s, i + 1, '"') {
            Some(j) => {
                let v = s.substring_char(i + 1, j).to_owned();
                Some((v, j + 1))
            },
            None => None,
        }
    } else {
        None
    }
}

fn parse_member_exec(s: &str, i: usize) -> (r: Option<((String, String), usize)>)
    requires
        i <= s@.len(),
    ensures
        (r is Some) == (parse_member(s@, i as int) is Some),
        r matches Some(p) ==> parse_member(s@, i as int) == Some(((p.0.0@, p.0.1@), p.1 as int))
            && i < p.1 <= s@.len(),
{
    let slen = s.unicode_len();
    match parse_quoted_exec(s, i) {
        Some((key, j)) => {
            let k = advance_ws(s, j);
            if k < slen && s.get_char(k) == ':' {
                let m = advance_ws(s, k + 1);
                match parse_quoted_exec(s, m) {
                    Some((val, n)) => Some(((key, val), n)),
                    None => None,
                }
            } else {
                None
            }
        },
        None => None,
    }
}

fn parse_pairs_exec(s: &str, i: usize, first: bool) -> (r: Option<(Vec<(String, String)>, usize)>)
    requires
        i <= s@.len(),
    ensures
        (r is Some) == (parse_pairs(s@, i as int, first) is Some),
        r matches Some(p) ==> parse_pairs(s@, i as int, first) == Some(
            (pair_views(p.0@), p.1 as int),
        ) && i < p.1 <= s@.len(),
    decreases s@.len() - i,
{
    let slen = s.unicode_len();
    let j = advance_ws(s, i);
    if first && j < slen && s.get_char(j) == '}' {
        proof {
            assert(pair_views(Seq::<(String, String)>::empty()) =~= Seq::<
                (Seq<char>, Seq<char>),
            >::empty());
        }
        return Some((Vec::new(), j + 1));
    }
    match parse_member_exec(s, j) {
        Some((kv, k)) => {
            let m = advance_ws(s, k);
            if m < slen && s.get_char(m) == ',' {
                match parse_pairs_exec(s, m + 1, false) {
                    Some((mut rest, e)) => {
                        let ghost rest_snap = rest@;
                        rest.insert(0, kv);
                        proof {
                            assert(pair_views(rest@) =~= seq![(rest@[0].0@, rest@[0].1@)]
                                + pair_views(rest_snap));
                        }
                        Some((rest, e))
                    },
                    None => None,
                }
            } else if m < slen && s.get_char(m) == '}' {
                let mut v: Vec<(String, String)> = Vec::new();
                let ghost kv_view = (kv.0@, kv.1@);
                v.push(kv);
                proof {
                    assert(pair_views(v@) =~= seq![kv_view]);
                }
                Some((v, m + 1))
            } else {
                None
            }
        },
        None => None,
    }
}

/// Parses a payload region into its member pairs.
fn parse_payload_exec(s: &str) -> (r: Option<Vec<(String, String)>>)
    ensures
        (r is Some) == (payload_pairs(s@) is Some),
        r matches Some(v) ==> payload_pairs(s@) == Some(pair_views(v@)),
{
    let slen = s.unicode_len();
    if slen > 0 && s.get_char(0) == '{' {
        match parse_pairs_exec(s, 1, true) {
            Some((pairs, e)) => {
                let w = advance_ws(s, e);
                if w == slen {
                    Some(pairs)
                } else {
                    None
                }
            },
            None => None,
        }
    } else {
        None
    }
}

/// Reads the five statistics out of a payload region.
pub fn parse_loudnorm_payload(region: &str) -> (r: Option<LoudnormMeasurement>)
    ensures
        (r is Some) == (loudnorm_fields_of_payload(region@) is Some),
        r matches Some(m) ==> Some(m@) == loudnorm_fields_of_payload(region@),
{
    match parse_payload_exec(region) {
        Some(pairs) => {
            let oi = lookup_unique(&pairs, "output_i");
            let otp = lookup_unique(&pairs, "output_tp");
            let olra = lookup_unique(&pairs, "output_lra");
            let oth = lookup_unique(&pairs, "output_thresh");
            let toff = lookup_unique(&pairs, "target_offset");
            match (oi, otp, olra, oth, toff) {
                (Some(oi), Some(otp), Some(olra), Some(oth), Some(toff)) => Some(
                    LoudnormMeasurement {
                        output_i: oi,
                        output_tp: otp,
                        output_lra: olra,
                        output_thresh: oth,
                        target_offset: toff,
                    },
                ),
                _ => None,
            }
        },
        None => None,
    }
}

/// Parses a whole structured-mode diagnostic stream: locates the payload as
/// the region from the last `{` to the end and reads the five statistics.
/// A stream with no `{`, or whose final region does not parse, is rejected.
pub fn parse_structured_diagnostic(s: &str) -> (r: Result<LoudnormMeasurement, NormError>)
    ensures
        (r is Ok) == (structured_fields(s@) is Some),
        r matches Ok(m) ==> Some(m@) == structured_fields(s@),
        r is Err ==> r == Err::<LoudnormMeasurement, NormError>(NormError::MalformedAnalysisOutput),
{
    let slen = s.unicode_len();
    match find_last_char(s, '{') {
        Some(j) => {
            let region = s.substring_char(j, slen);
            match parse_loudnorm_payload(region) {
                Some(m) => Ok(m),
                None => Err(NormError::MalformedAnalysisOutput),
            }
        },
        None => Err(NormError::MalformedAnalysisOutput),
    }
}

/// Log noise ahead of the payload never changes what is extracted: for any
/// stream made of arbitrary noise followed by a payload region that opens
/// with the stream's last `{`, the statistics are those of the payload
/// region alone.
pub proof fn lemma_noise_before_payload_irrelevant(noise: Seq<char>, payload: Seq<char>)
    requires
        payload.len() > 0,
        payload[0] == '{',
        forall|k: int| 1 <= k < payload.len() ==> payload[k] != '{',
    ensures
        structured_fields(noise + payload) == loudnorm_fields_of_payload(payload),
{
    lemma_last_index_of_append(noise, payload, '{');
    let whole = noise + payload;
    assert(whole.subrange(noise.len() as int, whole.len() as int) =~= payload);
}

} // verus!
