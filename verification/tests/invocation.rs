use dpcnorm::invoke::{
    build_analysis_args, build_encode_args, default_output_name, display_command, AnalysisMode,
    EncodeJob,
};

#[test]
fn analysis_args_structured_mode() {
    let args = build_analysis_args("in.wav", AnalysisMode::Structured);
    assert_eq!(
        args,
        vec![
            "-hide_banner",
            "-i",
            "in.wav",
            "-af",
            "loudnorm=print_format=json",
            "-f",
            "null",
            "/dev/null"
        ]
    );
}

#[test]
fn analysis_args_line_pattern_mode() {
    let args = build_analysis_args("in.wav", AnalysisMode::LinePattern);
    assert_eq!(
        args,
        vec!["-hide_banner", "-i", "in.wav", "-af", "volumedetect", "-f", "null", "/dev/null"]
    );
}

fn job() -> EncodeJob {
    EncodeJob {
        input_path: "in.wav".to_owned(),
        output_path: "in-normalized.mp3".to_owned(),
        filter_chain: "volume=7.3dB,speechnorm=e=6.25".to_owned(),
        bitrate: "192k".to_owned(),
    }
}

#[test]
fn encode_args_without_sample_rate() {
    let args = build_encode_args(&job(), &None);
    assert_eq!(
        args,
        vec![
            "-hide_banner",
            "-i",
            "in.wav",
            "-b:a",
            "192k",
            "-filter:a",
            "volume=7.3dB,speechnorm=e=6.25",
            "in-normalized.mp3"
        ]
    );
}

#[test]
fn encode_args_insert_sample_rate_before_output() {
    let args = build_encode_args(&job(), &Some("44100".to_owned()));
    assert_eq!(
        args,
        vec![
            "-hide_banner",
            "-i",
            "in.wav",
            "-b:a",
            "192k",
            "-filter:a",
            "volume=7.3dB,speechnorm=e=6.25",
            "-ar",
            "44100",
            "in-normalized.mp3"
        ]
    );
}

#[test]
fn display_quotes_tokens_with_spaces() {
    let args = vec!["-i".to_owned(), "my file.wav".to_owned(), "out.mp3".to_owned()];
    assert_eq!(display_command(&args), "-i 'my file.wav' out.mp3");
}

#[test]
fn display_of_empty_command_is_empty() {
    let args: Vec<String> = Vec::new();
    assert_eq!(display_command(&args), "");
}

#[test]
fn output_name_marks_and_sanitizes_stem() {
    assert_eq!(default_output_name("My Song"), "My Song-normalized.mp3");
    assert_eq!(default_output_name("It's Mine"), "It-s Mine-normalized.mp3");
    assert_eq!(default_output_name(""), "-normalized.mp3");
}
