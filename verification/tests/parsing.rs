use dpcnorm::errors::NormError;
use dpcnorm::loudnorm::parse_structured_diagnostic;
use dpcnorm::volume::{
    get_end_of_line_containing, parse_volume_diagnostic, sample_rate_from_diagnostic,
    volume_adjustment_of,
};

fn payload() -> &'static str {
    "{\n\t\"input_i\" : \"-27.61\",\n\t\"input_tp\" : \"-5.22\",\n\t\"output_i\" : \"-23.1\",\n\t\"output_tp\" : \"-1.2\",\n\t\"output_lra\" : \"4.5\",\n\t\"output_thresh\" : \"-34.0\",\n\t\"normalization_type\" : \"dynamic\",\n\t\"target_offset\" : \"0.3\"\n}\n"
}

#[test]
fn structured_payload_extracted_after_noise() {
    let stream = format!(
        "Input #0, wav, from 'x.wav':\n  Duration: 00:03:10.00\nsome {{ earlier brace\n[Parsed_loudnorm_0 @ 0x55] \n{}",
        payload()
    );
    let m = parse_structured_diagnostic(&stream).ok().unwrap();
    assert_eq!(m.output_i, "-23.1");
    assert_eq!(m.output_tp, "-1.2");
    assert_eq!(m.output_lra, "4.5");
    assert_eq!(m.output_thresh, "-34.0");
    assert_eq!(m.target_offset, "0.3");
}

#[test]
fn structured_payload_alone_parses() {
    let m = parse_structured_diagnostic(payload()).ok().unwrap();
    assert_eq!(m.output_i, "-23.1");
    assert_eq!(m.target_offset, "0.3");
}

#[test]
fn noise_content_does_not_change_fields() {
    let a = format!("short noise\n{}", payload());
    let b = format!(
        "a much longer and completely different pile of log noise {{ with braces\nand more lines\n{}",
        payload()
    );
    let ma = parse_structured_diagnostic(&a).ok().unwrap();
    let mb = parse_structured_diagnostic(&b).ok().unwrap();
    assert_eq!(ma.output_i, mb.output_i);
    assert_eq!(ma.output_tp, mb.output_tp);
    assert_eq!(ma.output_lra, mb.output_lra);
    assert_eq!(ma.output_thresh, mb.output_thresh);
    assert_eq!(ma.target_offset, mb.target_offset);
}

#[test]
fn stream_without_brace_is_malformed() {
    let r = parse_structured_diagnostic("no structured payload anywhere\n");
    assert!(matches!(r, Err(NormError::MalformedAnalysisOutput)));
}

#[test]
fn payload_missing_field_is_malformed() {
    let stream = "{ \"output_i\" : \"-23.1\", \"output_tp\" : \"-1.2\", \"output_lra\" : \"4.5\", \"output_thresh\" : \"-34.0\" }";
    let r = parse_structured_diagnostic(stream);
    assert!(matches!(r, Err(NormError::MalformedAnalysisOutput)));
}

#[test]
fn payload_duplicate_field_is_malformed() {
    let stream = "{ \"output_i\" : \"-23.1\", \"output_i\" : \"-9.9\", \"output_tp\" : \"-1.2\", \"output_lra\" : \"4.5\", \"output_thresh\" : \"-34.0\", \"target_offset\" : \"0.3\" }";
    let r = parse_structured_diagnostic(stream);
    assert!(matches!(r, Err(NormError::MalformedAnalysisOutput)));
}

#[test]
fn payload_with_trailing_text_is_malformed() {
    let stream = format!("{}after the payload", payload());
    let r = parse_structured_diagnostic(&stream);
    assert!(matches!(r, Err(NormError::MalformedAnalysisOutput)));
}

#[test]
fn truncated_payload_is_malformed() {
    let r = parse_structured_diagnostic("noise\n{ \"output_i\" : \"-23.1\"");
    assert!(matches!(r, Err(NormError::MalformedAnalysisOutput)));
}

#[test]
fn volume_statistics_extracted() {
    let stream = "[Parsed_volumedetect_0 @ 0x1] n_samples: 4096\n[Parsed_volumedetect_0 @ 0x1] mean_volume: -20.5 dB\n[Parsed_volumedetect_0 @ 0x1] max_volume: -7.3 dB\n";
    let m = parse_volume_diagnostic(stream);
    assert_eq!(m.mean_volume.as_deref(), Some("-20.5"));
    assert_eq!(m.max_volume.as_deref(), Some("-7.3"));
}

#[test]
fn absent_max_volume_gives_neutral_adjustment() {
    let stream = "nothing useful here\nmean_volume: -20.5 dB\n";
    let m = parse_volume_diagnostic(stream);
    assert!(m.max_volume.is_none());
    assert_eq!(volume_adjustment_of(&m), "0");
}

#[test]
fn negative_peak_becomes_magnitude() {
    let stream = "max_volume: -7.3 dB\n";
    let m = parse_volume_diagnostic(stream);
    assert_eq!(volume_adjustment_of(&m), "7.3");
}

#[test]
fn positive_peak_kept_as_is() {
    let stream = "max_volume: 2.1 dB\n";
    let m = parse_volume_diagnostic(stream);
    assert_eq!(volume_adjustment_of(&m), "2.1");
}

#[test]
fn first_matching_line_wins() {
    let stream = "max_volume: -7.3 dB\nmax_volume: -9.9 dB\n";
    let m = parse_volume_diagnostic(stream);
    assert_eq!(m.max_volume.as_deref(), Some("-7.3"));
}

#[test]
fn line_kept_from_marker_occurrence() {
    let line = get_end_of_line_containing("prefix text max_volume: -1.0 dB\nrest", "max_volume");
    assert_eq!(line.as_deref(), Some("max_volume: -1.0 dB"));
}

#[test]
fn carriage_return_stripped_before_separator() {
    let line = get_end_of_line_containing("max_volume: -1.0 dB\r\nnext", "max_volume");
    assert_eq!(line.as_deref(), Some("max_volume: -1.0 dB"));
}

#[test]
fn unmatched_marker_finds_nothing() {
    assert!(get_end_of_line_containing("mean_volume: -2 dB\n", "max_volume").is_none());
}

#[test]
fn adjacent_spaces_yield_empty_token() {
    let stream = "max_volume:  -7.3 dB\n";
    let m = parse_volume_diagnostic(stream);
    assert_eq!(m.max_volume.as_deref(), Some(""));
}

#[test]
fn sample_rate_read_before_hz_marker() {
    let stream = "Input #0, wav, from 'x.wav':\n  Stream #0:0: Audio: pcm_s16le, 44100 Hz, stereo, s16, 1411 kb/s\n";
    assert_eq!(sample_rate_from_diagnostic(stream).as_deref(), Some("44100"));
}

#[test]
fn sample_rate_absent_without_marker() {
    assert!(sample_rate_from_diagnostic("  Stream #0:0: Video: h264\n").is_none());
}

#[test]
fn sample_rate_absent_without_hz_token() {
    assert!(sample_rate_from_diagnostic("  Stream #0:0: Audio: pcm_s16le, stereo\n").is_none());
}
