//! Line-pattern diagnostic parsing: the measurement pass of the single-pass
//! strategy prints peak and mean volume statistics somewhere in its
//! diagnostic stream. The stream is scanned line by line for a marker; the
//! first matching line is kept from the marker's first occurrence on, and
//! the statistic is the whitespace-delimited token after the marker. A
//! missing statistic is not an error: it degrades to the neutral
//! adjustment.

use vstd::prelude::*;
use crate::text::{
    find_char_from, find_sub_from, find_char, find_substring_from,
    lemma_find_char_from_bounds, opt_view, opt_int, string_views, str_eq,
};

verus! {

/// The two statistics of a volume-detection pass, each the token that
/// followed its marker on the first matching diagnostic line.
pub struct VolumeMeasurement {
    pub mean_volume: Option<String>,
    pub max_volume: Option<String>,
}

/// Mathematical image of a volume measurement.
pub struct VolumeFields {
    pub mean_volume: Option<Seq<char>>,
    pub max_volume: Option<Seq<char>>,
}

impl View for VolumeMeasurement {
    type V = VolumeFields;

    open spec fn view(&self) -> VolumeFields {
        VolumeFields { mean_volume: opt_view(self.mean_volume), max_volume: opt_view(self.max_volume) }
    }
}

/// The first line of `s` containing `t`, kept from the first occurrence of
/// `t` to the line's end. Lines are separated by `\n`; a `\r` before the
/// separator is not part of the line.
pub open spec fn line_match(s: Seq<char>, t: Seq<char>) -> Option<Seq<char>>
    decreases s.len(),
    via line_match_decreases
{
    match find_char_from(s, 0, '\n') {
        Some(nl) => {
            let raw = s.subrange(0, nl);
            let line = if raw.len() > 0 && raw.last() == '\r' {
                raw.drop_last()
            } else {
                raw
            };
            match find_sub_from(line, t, 0) {
                Some(p) => Some(line.subrange(p, line.len() as int)),
                None => line_match(s.subrange(nl + 1, s.len() as int), t),
            }
        },
        None => {
            match find_sub_from(s, t, 0) {
                Some(p) => Some(s.subrange(p, s.len() as int)),
                None => None,
            }
        },
    }
}

#[via_fn]
proof fn line_match_decreases(s: Seq<char>, t: Seq<char>) {
    lemma_find_char_from_bounds(s, 0, '\n');
}

/// The token between the first and second space of `line`, when a first
/// space exists; the token runs to the line's end when no second space
/// follows.
pub open spec fn second_token(line: Seq<char>) -> Option<Seq<char>> {
    match find_char_from(line, 0, ' ') {
        Some(sp) => {
            let rest = line.subrange(sp + 1, line.len() as int);
            match find_char_from(rest, 0, ' ') {
                Some(sp2) => Some(rest.subrange(0, sp2)),
                None => Some(rest),
            }
        },
        None => None,
    }
}

/// The statistic for `marker` in a diagnostic stream: the token after the
/// marker on the first line containing it.
pub open spec fn stat_token(stream: Seq<char>, marker: Seq<char>) -> Option<Seq<char>> {
    match line_match(stream, marker) {
        Some(line) => second_token(line),
        None => None,
    }
}

/// The gain-adjustment magnitude derived from a peak-volume token: the
/// token with a leading `-` stripped, and the neutral `0` when there is no
/// token at all.
pub open spec fn adjustment_of(max_tok: Option<Seq<char>>) -> Seq<char> {
    match max_tok {
        Some(tok) => {
            if tok.len() > 0 && tok[0] == '-' {
                tok.subrange(1, tok.len() as int)
            } else {
                tok
            }
        },
        None => "0"@,
    }
}

/// The adjustment a whole line-pattern diagnostic stream yields.
pub open spec fn stream_adjustment(stream: Seq<char>) -> Seq<char> {
    adjustment_of(stat_token(stream, "max_volume"@))
}

/// Returns the first line of `cmd_output` containing `target_string`, from
/// the first occurrence of `target_string` to the line's end.
pub fn get_end_of_line_containing(cmd_output: &str, target_string: &str) -> (r: Option<String>)
    ensures
        (r is Some) == (line_match(cmd_output@, target_string@) is Some),
        r matches Some(v) ==> Some(v@) == line_match(cmd_output@, target_string@),
    decreases cmd_output@.len(),
{
    let slen = cmd_output.unicode_len();
    match find_char(cmd_output, 0, '\n') {
        Some(nl) => {
            let line_end = if nl > 0 && cmd_output.get_char(nl - 1) == '\r' {
                nl - 1
            } else {
                nl
            };
            let line = cmd_output.substring_char(0, line_end);
            proof {
                let raw = cmd_output@.subrange(0, nl as int);
                if raw.len() > 0 && raw.last() == '\r' {
                    assert(raw.drop_last() =~= cmd_output@.subrange(0, line_end as int));
                }
            }
            match find_substring_from(line, target_string, 0) {
                Some(p) => {
                    let v = line.substring_char(p, line_end).to_owned();
                    Some(v)
                },
                None => {
                    let rest = cmd_output.substring_char(nl + 1, slen);
                    get_end_of_line_containing(rest, target_string)
                },
            }
        },
        None => {
            match find_substring_from(cmd_output, target_string, 0) {
                Some(p) => {
                    let v = cmd_output.substring_char(p, slen).to_owned();
                    Some(v)
                },
                None => None,
            }
        },
    }
}

/// Extracts the token between the first and second space of `line`.
pub fn extract_second_token(line: &str) -> (r: Option<String>)
    ensures
        opt_view(r) == second_token(line@),
{
    let llen = line.unicode_len();
    match find_char(line, 0, ' ') {
        Some(sp) => {
            let rest = line.substring_char(sp + 1, llen);
            match find_char(rest, 0, ' ') {
                Some(sp2) => Some(rest.substring_char(0, sp2).to_owned()),
                None => Some(rest.to_owned()),
            }
        },
        None => None,
    }
}

/// Scans a line-pattern diagnostic stream for both volume statistics.
pub fn parse_volume_diagnostic(stream: &str) -> (r: VolumeMeasurement)
    ensures
        opt_view(r.mean_volume) == stat_token(stream@, "mean_volume"@),
        opt_view(r.max_volume) == stat_token(stream@, "max_volume"@),
{
    let mean_volume = match get_end_of_line_containing(stream, "mean_volume") {
        Some(line) => extract_second_token(line.as_str()),
        None => None,
    };
    let max_volume = match get_end_of_line_containing(stream, "max_volume") {
        Some(line) => extract_second_token(line.as_str()),
        None => None,
    };
    VolumeMeasurement { mean_volume, max_volume }
}

/// The gain-adjustment magnitude of a measurement: its peak-volume token
/// with a leading `-` stripped, or `0` when the statistic is absent.
pub fn volume_adjustment_of(m: &VolumeMeasurement) -> (r: String)
    ensures
        r@ == adjustment_of(opt_view(m.max_volume)),
{
    match &m.max_volume {
        Some(tok) => {
            let tlen = tok.as_str().unicode_len();
            if tlen > 0 && tok.as_str().get_char(0) == '-' {
                tok.as_str().substring_char(1, tlen).to_owned()
            } else {
                tok.clone()
            }
        },
        None => "0".to_owned(),
    }
}

/// The space-separated tokens of a line; adjacent separators yield empty
/// tokens.
pub open spec fn tokens_of(s: Seq<char>) -> Seq<Seq<char>>
    decreases s.len(),
    via tokens_of_decreases
{
    match find_char_from(s, 0, ' ') {
        Some(sp) => seq![s.subrange(0, sp)] + tokens_of(s.subrange(sp + 1, s.len() as int)),
        None => seq![s],
    }
}

#[via_fn]
proof fn tokens_of_decreases(s: Seq<char>) {
    lemma_find_char_from_bounds(s, 0, ' ');
}

/// A token naming the sample-rate unit.
pub open spec fn is_hz_marker(t: Seq<char>) -> bool {
    t == "Hz"@ || t == "Hz,"@
}

/// Index of the first Hz marker among the tokens, at or after `i`.
pub open spec fn first_hz_from(ts: Seq<Seq<char>>, i: int) -> Option<int>
    decreases ts.len() - i,
{
    if i < 0 || i >= ts.len() {
        None
    } else if is_hz_marker(ts[i]) {
        Some(i)
    } else {
        first_hz_from(ts, i + 1)
    }
}

/// A found marker position is at or after `i` and in range.
pub proof fn lemma_first_hz_from_bounds(ts: Seq<Seq<char>>, i: int)
    ensures
        first_hz_from(ts, i) matches Some(j) ==> i <= j < ts.len(),
    decreases ts.len() - i,
{
    if 0 <= i && i < ts.len() && !is_hz_marker(ts[i]) {
        lemma_first_hz_from_bounds(ts, i + 1);
    }
}

/// The sample rate named on a line: the token immediately before the first
/// Hz marker, when the marker is not the line's first token.
pub open spec fn line_sample_rate(line: Seq<char>) -> Option<Seq<char>> {
    let ts = tokens_of(line);
    match first_hz_from(ts, 0) {
        Some(i) => {
            if i >= 1 {
                Some(ts[i - 1])
            } else {
                None
            }
        },
        None => None,
    }
}

/// The sample rate of a diagnostic stream: the one named on the first line
/// describing the audio stream.
pub open spec fn stream_sample_rate(stream: Seq<char>) -> Option<Seq<char>> {
    match line_match(stream, "Audio:"@) {
        Some(line) => line_sample_rate(line),
        None => None,
    }
}

/// Splits a line at every space.
pub fn split_tokens(line: &str) -> (r: Vec<String>)
    ensures
        string_views(r@) == tokens_of(line@),
    decreases line@.len(),
{
    let llen = line.unicode_len();
    match find_char(line, 0, ' ') {
        Some(sp) => {
            let head = line.substring_char(0, sp).to_owned();
            let ghost head_view = head@;
            let rest = line.substring_char(sp + 1, llen);
            let mut v = split_tokens(rest);
            let ghost tail_views = string_views(v@);
            v.insert(0, head);
            proof {
                assert(string_views(v@) =~= seq![head_view] + tail_views);
            }
            v
        },
        None => {
            let mut v: Vec<String> = Vec::new();
            v.push(line.to_owned());
            proof {
                assert(string_views(v@) =~= seq![line@]);
            }
            v
        },
    }
}

fn find_hz_index(tokens: &Vec<String>) -> (r: Option<usize>)
    ensures
        opt_int(r) == first_hz_from(string_views(tokens@), 0),
{
    let n = tokens.len();
    let mut i: usize = 0;
    while i < n
        invariant
            i <= n,
            n == tokens@.len(),
            first_hz_from(string_views(tokens@), 0) == first_hz_from(
                string_views(tokens@),
                i as int,
            ),
        decreases n - i,
    {
        if str_eq(tokens[i].as_str(), "Hz") || str_eq(tokens[i].as_str(), "Hz,") {
            return Some(i);
        }
        i = i + 1;
    }
    None
}

/// Reads the sample rate named on a line.
pub fn sample_rate_of_line(line: &str) -> (r: Option<String>)
    ensures
        opt_view(r) == line_sample_rate(line@),
{
    let ts = split_tokens(line);
    proof {
        lemma_first_hz_from_bounds(string_views(ts@), 0);
    }
    match find_hz_index(&ts) {
        Some(i) => {
            if i >= 1 {
                Some(ts[i - 1].clone())
            } else {
                None
            }
        },
        None => None,
    }
}

/// Scans a diagnostic stream for the sample rate of its audio stream.
pub fn sample_rate_from_diagnostic(stream: &str) -> (r: Option<String>)
    ensures
        opt_view(r) == stream_sample_rate(stream@),
{
    match get_end_of_line_containing(stream, "Audio:") {
        Some(line) => sample_rate_of_line(line.as_str()),
        None => None,
    }
}

} // verus!
