//! Argument lists for the two invocations of the external tool: the
//! measurement pass (diagnostic output only, primary output discarded) and
//! the encode pass (input, bitrate, filter chain, optional resample rate,
//! output), together with the display form of a command line and the
//! default output-file name.

use vstd::prelude::*;
use crate::text::{has_sub, contains_substring, string_views, opt_view, append_char_at};

verus! {

/// Which analysis filter the measurement pass runs: the loudness-statistics
/// filter with its structured output, or the peak/mean volume detector.
#[derive(Clone, Copy, PartialEq, Eq, Structural)]
pub enum AnalysisMode {
    Structured,
    LinePattern,
}

/// Picks the analysis mode the settings call for: the structured loudness
/// statistics when the template selects the two-pass strategy, and the
/// volume detector otherwise.
pub fn analysis_mode_for(settings: &crate::settings::DpcNormSettings) -> (r: AnalysisMode)
    ensures
        (r is Structured) == crate::synth::uses_two_pass(settings.base_filter_params@),
{
    if crate::synth::settings_use_two_pass(settings) {
        AnalysisMode::Structured
    } else {
        AnalysisMode::LinePattern
    }
}

/// The analysis filter argument for a mode.
pub open spec fn analysis_filter(mode: AnalysisMode) -> Seq<char> {
    match mode {
        AnalysisMode::Structured => "loudnorm=print_format=json"@,
        AnalysisMode::LinePattern => "volumedetect"@,
    }
}

/// The argument list of the measurement pass: the input file, the analysis
/// filter for the mode, and a null sink for the primary output.
pub open spec fn analysis_args_view(input: Seq<char>, mode: AnalysisMode) -> Seq<Seq<char>> {
    seq![
        "-hide_banner"@,
        "-i"@,
        input,
        "-af"@,
        analysis_filter(mode),
        "-f"@,
        "null"@,
        "/dev/null"@,
    ]
}

/// Builds the measurement-pass argument list.
pub fn build_analysis_args(input_file: &str, mode: AnalysisMode) -> (r: Vec<String>)
    ensures
        string_views(r@) == analysis_args_view(input_file@, mode),
{
    let mut v: Vec<String> = Vec::new();
    v.push("-hide_banner".to_owned());
    v.push("-i".to_owned());
    v.push(input_file.to_owned());
    v.push("-af".to_owned());
    match mode {
        AnalysisMode::Structured => v.push("loudnorm=print_format=json".to_owned()),
        AnalysisMode::LinePattern => v.push("volumedetect".to_owned()),
    }
    v.push("-f".to_owned());
    v.push("null".to_owned());
    v.push("/dev/null".to_owned());
    proof {
        assert(string_views(v@) =~= analysis_args_view(input_file@, mode));
    }
    v
}

/// One encode invocation: where to read, where to write, and the
/// synthesized chain and bitrate to encode with.
pub struct EncodeJob {
    pub input_path: String,
    pub output_path: String,
    pub filter_chain: String,
    pub bitrate: String,
}

/// Mathematical image of an encode job.
pub struct EncodeJobFields {
    pub input_path: Seq<char>,
    pub output_path: Seq<char>,
    pub filter_chain: Seq<char>,
    pub bitrate: Seq<char>,
}

impl View for EncodeJob {
    type V = EncodeJobFields;

    open spec fn view(&self) -> EncodeJobFields {
        EncodeJobFields {
            input_path: self.input_path@,
            output_path: self.output_path@,
            filter_chain: self.filter_chain@,
            bitrate: self.bitrate@,
        }
    }
}

/// The argument list of the encode pass. A derived sample rate is inserted
/// as a resample argument immediately before the output path.
pub open spec fn encode_args_view(job: EncodeJobFields, sample_rate: Option<Seq<char>>) -> Seq<
    Seq<char>,
> {
    let head = seq![
        "-hide_banner"@,
        "-i"@,
        job.input_path,
        "-b:a"@,
        job.bitrate,
        "-filter:a"@,
        job.filter_chain,
    ];
    match sample_rate {
        Some(rate) => head + seq!["-ar"@, rate, job.output_path],
        None => head + seq![job.output_path],
    }
}

/// Builds the encode-pass argument list.
pub fn build_encode_args(job: &EncodeJob, sample_rate: &Option<String>) -> (r: Vec<String>)
    ensures
        string_views(r@) == encode_args_view(job@, opt_view(*sample_rate)),
{
    let mut v: Vec<String> = Vec::new();
    v.push("-hide_banner".to_owned());
    v.push("-i".to_owned());
    v.push(job.input_path.clone());
    v.push("-b:a".to_owned());
    v.push(job.bitrate.clone());
    v.push("-filter:a".to_owned());
    v.push(job.filter_chain.clone());
    match sample_rate {
        Some(rate) => {
            v.push("-ar".to_owned());
            v.push(rate.clone());
        },
        None => {},
    }
    v.push(job.output_path.clone());
    proof {
        assert(string_views(v@) =~= encode_args_view(job@, opt_view(*sample_rate)));
    }
    v
}

/// A token as shown to the user: wrapped in single quotes when it holds a
/// space.
pub open spec fn quoted_token(s: Seq<char>) -> Seq<char> {
    if has_sub(s, " "@) {
        "'"@ + s + "'"@
    } else {
        s
    }
}

/// The display form of an argument list: its tokens quoted where needed
/// and joined by single spaces.
pub open spec fn display_of(args: Seq<Seq<char>>) -> Seq<char>
    decreases args.len(),
{
    if args.len() == 0 {
        Seq::empty()
    } else if args.len() == 1 {
        quoted_token(args[0])
    } else {
        display_of(args.drop_last()) + " "@ + quoted_token(args.last())
    }
}

fn quote_token_exec(s: &str) -> (r: String)
    ensures
        r@ == quoted_token(s@),
{
    if contains_substring(s, " ") {
        let mut out = "'".to_owned();
        out.append(s);
        out.append("'");
        out
    } else {
        s.to_owned()
    }
}

/// Renders an argument list for display.
pub fn display_command(args: &Vec<String>) -> (r: String)
    ensures
        r@ == display_of(string_views(args@)),
{
    let mut out = String::new();
    let n = args.len();
    let mut i: usize = 0;
    proof {
        assert(string_views(args@).take(0) =~= Seq::<Seq<char>>::empty());
    }
    while i < n
        invariant
            i <= n,
            n == args@.len(),
            out@ == display_of(string_views(args@).take(i as int)),
        decreases n - i,
    {
        if i > 0 {
            out.append(" ");
        }
        let q = quote_token_exec(args[i].as_str());
        out.append(q.as_str());
        proof {
            let views = string_views(args@);
            assert(views.take(i + 1).drop_last() =~= views.take(i as int));
            assert(views.take(i + 1).last() == views[i as int]);
        }
        i = i + 1;
    }
    proof {
        assert(string_views(args@).take(n as int) =~= string_views(args@));
    }
    out
}

/// A character of an output-file name: a single quote becomes a dash.
pub open spec fn dash_for_quote(c: char) -> char {
    if c == '\'' {
        '-'
    } else {
        c
    }
}

/// The default output name for an input stem: the stem with single quotes
/// replaced by dashes, marked as normalized, with the fixed output
/// extension.
pub open spec fn default_output_name_of(stem: Seq<char>) -> Seq<char> {
    stem.map_values(|c: char| dash_for_quote(c)) + "-normalized.mp3"@
}

/// Derives the default output-file name from an input file's stem.
pub fn default_output_name(stem: &str) -> (r: String)
    ensures
        r@ == default_output_name_of(stem@),
{
    let mut out = String::new();
    let slen = stem.unicode_len();
    let mut i: usize = 0;
    proof {
        assert(stem@.take(0).map_values(|c: char| dash_for_quote(c)) =~= Seq::<char>::empty());
    }
    while i < slen
        invariant
            i <= slen,
            slen == stem@.len(),
            out@ == stem@.take(i as int).map_values(|c: char| dash_for_quote(c)),
        decreases slen - i,
    {
        let ghost prev = out@;
        let c = stem.get_char(i);
        if c == '\'' {
            proof {
                reveal_strlit("-");
            }
            out.append("-");
            proof {
                assert("-"@ =~= seq![dash_for_quote(stem@[i as int])]);
            }
        } else {
            append_char_at(&mut out, stem, i);
        }
        proof {
            let f = |c: char| dash_for_quote(c);
            assert(out@ =~= prev + seq![dash_for_quote(stem@[i as int])]);
            assert(stem@.take(i + 1).map_values(f) =~= stem@.take(i as int).map_values(f) + seq![
                dash_for_quote(stem@[i as int]),
            ]);
        }
        i = i + 1;
    }
    proof {
        assert(stem@.take(slen as int) =~= stem@);
    }
    out.append("-normalized.mp3");
    out
}

} // verus!
