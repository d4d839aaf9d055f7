use dpcnorm::errors::NormError;
use dpcnorm::invoke::{analysis_mode_for, AnalysisMode};
use dpcnorm::loudnorm::LoudnormMeasurement;
use dpcnorm::settings::DpcNormSettings;
use dpcnorm::synth::{
    filter_chain_from_diagnostic, settings_use_two_pass, synthesize, synthesize_single_pass,
    synthesize_two_pass, Measurement,
};
use dpcnorm::volume::{parse_volume_diagnostic, volume_adjustment_of};

fn two_pass_settings() -> DpcNormSettings {
    DpcNormSettings {
        base_filter_params: "loudnorm=I=-23".to_owned(),
        output_bitrate: "192k".to_owned(),
    }
}

fn single_pass_settings() -> DpcNormSettings {
    DpcNormSettings {
        base_filter_params: "speechnorm=e=6.25:r=0.00001".to_owned(),
        output_bitrate: "192k".to_owned(),
    }
}

fn measurement() -> LoudnormMeasurement {
    LoudnormMeasurement {
        output_i: "-23.1".to_owned(),
        output_tp: "-1.2".to_owned(),
        output_lra: "4.5".to_owned(),
        output_thresh: "-34.0".to_owned(),
        target_offset: "0.3".to_owned(),
    }
}

#[test]
fn two_pass_chain_appends_statistics_in_order() {
    let chain = synthesize_two_pass(&two_pass_settings(), &measurement());
    assert_eq!(
        chain,
        "loudnorm=I=-23:measured_I=-23.1:measured_LRA=4.5:measured_TP=-1.2:measured_thresh=-34.0:offset=0.3:linear=true"
    );
}

#[test]
fn single_pass_chain_prepends_gain_stage() {
    let chain = synthesize_single_pass(&single_pass_settings(), "7.3");
    assert_eq!(chain, "volume=7.3dB,speechnorm=e=6.25:r=0.00001");
    assert!(chain.starts_with("volume=7.3dB,"));
}

#[test]
fn neutral_adjustment_leaves_template_verbatim() {
    let chain = synthesize_single_pass(&single_pass_settings(), "0");
    assert_eq!(chain, "speechnorm=e=6.25:r=0.00001");
}

#[test]
fn measured_peak_drives_gain_stage() {
    let stream = "max_volume: -7.3 dB\n";
    let m = parse_volume_diagnostic(stream);
    let adjustment = volume_adjustment_of(&m);
    assert_eq!(adjustment, "7.3");
    let chain = synthesize_single_pass(&single_pass_settings(), &adjustment);
    assert!(chain.starts_with("volume=7.3dB,"));
}

#[test]
fn zero_peak_is_neutral() {
    let m = parse_volume_diagnostic("max_volume: 0 dB\n");
    let chain = synthesize_single_pass(&single_pass_settings(), &volume_adjustment_of(&m));
    assert_eq!(chain, "speechnorm=e=6.25:r=0.00001");
}

#[test]
fn stream_without_peak_leaves_template_verbatim() {
    let settings = single_pass_settings();
    let chain = filter_chain_from_diagnostic(&settings, "irrelevant log output\n").ok().unwrap();
    assert_eq!(chain, "speechnorm=e=6.25:r=0.00001");
}

#[test]
fn synthesis_is_idempotent() {
    let settings = two_pass_settings();
    let m = Measurement::Loudnorm(measurement());
    let first = synthesize(&settings, &m);
    let second = synthesize(&settings, &m);
    assert_eq!(first, second);

    let settings = single_pass_settings();
    let m = Measurement::Volume(parse_volume_diagnostic("max_volume: -3.0 dB\n"));
    let first = synthesize(&settings, &m);
    let second = synthesize(&settings, &m);
    assert_eq!(first, second);
}

#[test]
fn template_marker_selects_strategy() {
    assert!(settings_use_two_pass(&two_pass_settings()));
    assert!(!settings_use_two_pass(&single_pass_settings()));
    assert!(matches!(analysis_mode_for(&two_pass_settings()), AnalysisMode::Structured));
    assert!(matches!(analysis_mode_for(&single_pass_settings()), AnalysisMode::LinePattern));
}

#[test]
fn structured_pipeline_builds_full_chain() {
    let settings = two_pass_settings();
    let stream = "noise line\n{ \"output_i\" : \"-23.1\", \"output_tp\" : \"-1.2\", \"output_lra\" : \"4.5\", \"output_thresh\" : \"-34.0\", \"target_offset\" : \"0.3\" }\n";
    let chain = filter_chain_from_diagnostic(&settings, stream).ok().unwrap();
    assert_eq!(
        chain,
        "loudnorm=I=-23:measured_I=-23.1:measured_LRA=4.5:measured_TP=-1.2:measured_thresh=-34.0:offset=0.3:linear=true"
    );
}

#[test]
fn structured_pipeline_fails_on_malformed_stream() {
    let settings = two_pass_settings();
    let r = filter_chain_from_diagnostic(&settings, "no payload at all\n");
    assert!(matches!(r, Err(NormError::MalformedAnalysisOutput)));
}

#[test]
fn error_messages_are_fixed() {
    assert_eq!(NormError::AnalysisFailed.message(), "analysis pass failed to run");
    assert_eq!(NormError::MalformedAnalysisOutput.message(), "analysis output was malformed");
    assert_eq!(NormError::EncodeSpawnFailed.message(), "encode pass failed to spawn");
}
