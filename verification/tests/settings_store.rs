use dpcnorm::settings::{encode_settings, get_default_settings, parse_settings, DpcNormSettings};

#[test]
fn defaults_are_documented_values() {
    let s = get_default_settings();
    assert_eq!(s.base_filter_params, "loudnorm=I=-16");
    assert_eq!(s.output_bitrate, "192k");
}

#[test]
fn default_document_text_is_flat_key_value() {
    let doc = encode_settings(&get_default_settings());
    assert_eq!(doc, "base_filter_params = \"loudnorm=I=-16\"\noutput_bitrate = \"192k\"\n");
}

#[test]
fn written_settings_reload_identically() {
    let s = DpcNormSettings {
        base_filter_params: "speechnorm=e=6.25:r=0.00001".to_owned(),
        output_bitrate: "256k".to_owned(),
    };
    let doc = encode_settings(&s);
    let r = parse_settings(&doc).unwrap();
    assert_eq!(r.base_filter_params, s.base_filter_params);
    assert_eq!(r.output_bitrate, s.output_bitrate);
}

#[test]
fn quotes_and_backslashes_survive_the_store() {
    let s = DpcNormSettings {
        base_filter_params: "pan=stereo|c0=\"FL\"\\back".to_owned(),
        output_bitrate: "192k".to_owned(),
    };
    let doc = encode_settings(&s);
    let r = parse_settings(&doc).unwrap();
    assert_eq!(r.base_filter_params, s.base_filter_params);
    assert_eq!(r.output_bitrate, s.output_bitrate);
}

#[test]
fn missing_entry_falls_back_to_default() {
    let r = parse_settings("output_bitrate = \"320k\"\n").unwrap();
    assert_eq!(r.base_filter_params, "loudnorm=I=-16");
    assert_eq!(r.output_bitrate, "320k");
}

#[test]
fn empty_document_yields_defaults() {
    let r = parse_settings("").unwrap();
    assert_eq!(r.base_filter_params, "loudnorm=I=-16");
    assert_eq!(r.output_bitrate, "192k");
}

#[test]
fn entry_order_does_not_matter() {
    let r = parse_settings(
        "output_bitrate = \"128k\"\nbase_filter_params = \"loudnorm=I=-20\"\n",
    )
    .unwrap();
    assert_eq!(r.base_filter_params, "loudnorm=I=-20");
    assert_eq!(r.output_bitrate, "128k");
}

#[test]
fn unknown_entries_are_ignored() {
    let r = parse_settings(
        "comment = \"anything\"\nbase_filter_params = \"loudnorm=I=-18\"\n",
    )
    .unwrap();
    assert_eq!(r.base_filter_params, "loudnorm=I=-18");
    assert_eq!(r.output_bitrate, "192k");
}

#[test]
fn repeated_entry_is_rejected() {
    let r = parse_settings(
        "output_bitrate = \"128k\"\noutput_bitrate = \"192k\"\n",
    );
    assert!(r.is_none());
}

#[test]
fn unparsable_document_is_rejected() {
    assert!(parse_settings("this is not a settings document").is_none());
    assert!(parse_settings("base_filter_params = unquoted\n").is_none());
    assert!(parse_settings("base_filter_params = \"unterminated\n").is_none());
}
