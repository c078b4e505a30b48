use ff_transcode_helper::options::{scan_opts, Options};
use ff_transcode_helper::{opts_assign_nul, parse_opts, TranscoderError};

fn pairs(o: &Options) -> Vec<(String, String)> {
    (0..o.len())
        .map(|i| (o.key(i).to_string(), o.value(i).to_string()))
        .collect()
}

fn kv(list: &[(&str, &str)]) -> Vec<(String, String)> {
    list.iter().map(|(k, v)| (k.to_string(), v.to_string())).collect()
}

#[test]
fn parses_x265_preset_options() {
    let o = parse_opts("crf=23,preset=slow").unwrap();
    assert_eq!(pairs(&o), kv(&[("crf", "23"), ("preset", "slow")]));
}

#[test]
fn parses_av1_hdr_preset_options() {
    let spec = [
        "crf=25",
        "pixel_format=yuv420p10le",
        "color_space=bt2020nc",
        "color_primaries=bt2020",
        "color_trc=smpte2084",
        "color_range=tv",
        "preset=4",
    ]
    .join(",");
    let o = parse_opts(&spec).unwrap();
    assert_eq!(o.len(), 7);
    assert_eq!(o.key(1), "pixel_format");
    assert_eq!(o.value(1), "yuv420p10le");
    assert_eq!(o.key(6), "preset");
    assert_eq!(o.value(6), "4");
}

#[test]
fn parses_audio_options() {
    let o = parse_opts("b=256k,sample_rate=48k,sample_fmt=s16").unwrap();
    assert_eq!(
        pairs(&o),
        kv(&[("b", "256k"), ("sample_rate", "48k"), ("sample_fmt", "s16")])
    );
}

#[test]
fn trims_parts_but_not_keys_or_values() {
    let o = parse_opts("  a = b ,\tc=d\n").unwrap();
    assert_eq!(pairs(&o), kv(&[("a ", " b"), ("c", "d")]));
}

#[test]
fn trims_unicode_white_space() {
    let o = parse_opts("\u{3000}k=v\u{00A0}").unwrap();
    assert_eq!(pairs(&o), kv(&[("k", "v")]));
}

#[test]
fn splits_at_the_first_equals_sign() {
    let o = parse_opts("x=a=b").unwrap();
    assert_eq!(pairs(&o), kv(&[("x", "a=b")]));
}

#[test]
fn empty_key_and_value_are_accepted() {
    let o = parse_opts("=").unwrap();
    assert_eq!(pairs(&o), kv(&[("", "")]));
}

#[test]
fn repeated_keys_are_kept_in_order() {
    let o = parse_opts("a=1,a=2").unwrap();
    assert_eq!(pairs(&o), kv(&[("a", "1"), ("a", "2")]));
}

#[test]
fn empty_string_is_an_error() {
    assert_eq!(
        parse_opts("").unwrap_err(),
        TranscoderError::OptionParseError { part: String::new() }
    );
}

#[test]
fn trailing_comma_is_an_error() {
    assert_eq!(
        parse_opts("a=1,").unwrap_err(),
        TranscoderError::OptionParseError { part: String::new() }
    );
}

#[test]
fn first_malformed_part_is_reported_trimmed() {
    assert_eq!(
        parse_opts("a=1,  bad  ,worse,c=2").unwrap_err(),
        TranscoderError::OptionParseError { part: "bad".to_string() }
    );
}

#[test]
fn scan_reports_assignments_before_the_error() {
    let (o, bad) = scan_opts("a=1,b=2,oops,c=3");
    assert_eq!(pairs(&o), kv(&[("a", "1"), ("b", "2")]));
    assert_eq!(bad, Some("oops".to_string()));
}

#[test]
fn joined_strings_parse_to_concatenated_assignments() {
    let a = parse_opts("a=1, b=2").unwrap();
    let b = parse_opts("c=3").unwrap();
    let ab = parse_opts("a=1, b=2,c=3").unwrap();
    let mut expected = pairs(&a);
    expected.extend(pairs(&b));
    assert_eq!(pairs(&ab), expected);
}

#[test]
fn one_assignment_per_part() {
    let o = parse_opts("a=,b=,c=,d=").unwrap();
    assert_eq!(o.len(), 4);
}

#[test]
fn nul_in_an_assignment_is_detected() {
    assert!(opts_assign_nul("a=1,b\0=2"));
    assert!(opts_assign_nul("a=\0"));
    assert!(!opts_assign_nul("a=1,b=2"));
}

#[test]
fn nul_after_the_first_error_is_not_assigned() {
    assert!(!opts_assign_nul("a=1,bad,b\0=2"));
}

#[test]
fn options_set_appends() {
    let mut o = Options::new();
    assert_eq!(o.len(), 0);
    o.set("k", "v");
    o.set("k", "w");
    assert_eq!(pairs(&o), kv(&[("k", "v"), ("k", "w")]));
}
