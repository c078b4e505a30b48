use ff_transcode_helper::options::Options;
use ff_transcode_helper::{parse_opts, Converter, TranscoderError};

fn pairs(o: &Options) -> Vec<(String, String)> {
    (0..o.len())
        .map(|i| (o.key(i).to_string(), o.value(i).to_string()))
        .collect()
}

fn kv(list: &[(&str, &str)]) -> Vec<(String, String)> {
    list.iter().map(|(k, v)| (k.to_string(), v.to_string())).collect()
}

fn x265() -> Converter {
    Converter::new(
        "mp4",
        "libx265",
        "libopus",
        parse_opts("crf=23,preset=slow").unwrap(),
        parse_opts("b=256k").unwrap(),
        Some("format=yuv420p"),
        Some(""),
    )
    .unwrap()
}

#[test]
fn new_keeps_its_settings() {
    let c = x265();
    assert_eq!(c.ext(), "mp4");
    assert_eq!(c.v_encoder_name(), "libx265");
    assert_eq!(c.a_encoder_name(), "libopus");
    assert_eq!(pairs(c.v_opts()), kv(&[("crf", "23"), ("preset", "slow")]));
    assert_eq!(pairs(c.a_opts()), kv(&[("b", "256k")]));
}

#[test]
fn set_v_opts_replaces_video_options_only() {
    let mut c = x265();
    c.set_v_opts("crf=30").unwrap();
    assert_eq!(pairs(c.v_opts()), kv(&[("crf", "30")]));
    assert_eq!(pairs(c.a_opts()), kv(&[("b", "256k")]));
}

#[test]
fn set_a_opts_replaces_audio_options_only() {
    let mut c = x265();
    c.set_a_opts("b=128k,ac=2").unwrap();
    assert_eq!(pairs(c.a_opts()), kv(&[("b", "128k"), ("ac", "2")]));
    assert_eq!(pairs(c.v_opts()), kv(&[("crf", "23"), ("preset", "slow")]));
}

#[test]
fn update_v_opts_applies_on_top() {
    let mut c = x265();
    c.update_v_opts("crf=20").unwrap();
    assert_eq!(
        pairs(c.v_opts()),
        kv(&[("crf", "23"), ("preset", "slow"), ("crf", "20")])
    );
}

#[test]
fn update_a_opts_applies_on_top() {
    let mut c = x265();
    c.update_a_opts("b=96k").unwrap();
    assert_eq!(pairs(c.a_opts()), kv(&[("b", "256k"), ("b", "96k")]));
}

#[test]
fn two_updates_equal_one_joined_update() {
    let mut one = x265();
    one.update_v_opts("a=1").unwrap();
    one.update_v_opts("b=2").unwrap();
    let mut two = x265();
    two.update_v_opts("a=1,b=2").unwrap();
    assert_eq!(pairs(one.v_opts()), pairs(two.v_opts()));
}

#[test]
fn malformed_options_change_nothing() {
    let mut c = x265();
    let err = c.set_v_opts("crf=1,oops").unwrap_err();
    assert_eq!(err, TranscoderError::OptionParseError { part: "oops".to_string() });
    assert_eq!(pairs(c.v_opts()), kv(&[("crf", "23"), ("preset", "slow")]));
    let err = c.update_a_opts(" nope ").unwrap_err();
    assert_eq!(err, TranscoderError::OptionParseError { part: "nope".to_string() });
    assert_eq!(pairs(c.a_opts()), kv(&[("b", "256k")]));
    assert!(c.set_a_opts("").is_err());
    assert!(c.update_v_opts("x=1,").is_err());
    assert_eq!(pairs(c.v_opts()), kv(&[("crf", "23"), ("preset", "slow")]));
}

#[test]
fn output_name_appends_the_extension() {
    let c = x265();
    assert_eq!(c.output_name(Some("clip".to_string()), "x").unwrap(), "clip.mp4");
    assert_eq!(
        c.output_name(None, "in/").unwrap_err(),
        TranscoderError::NotAFileError { path: "in/".to_string() }
    );
}

#[test]
fn output_path_uses_the_file_stem() {
    let c = x265();
    assert_eq!(c.output_path("movies/holiday.mkv").unwrap(), "holiday.mp4");
    assert_eq!(c.output_path("archive.tar.gz").unwrap(), "archive.tar.mp4");
    assert_eq!(c.output_path(".hidden").unwrap(), ".hidden.mp4");
    assert_eq!(c.output_path("plain").unwrap(), "plain.mp4");
}

#[test]
fn output_path_without_file_name_is_an_error() {
    let c = x265();
    assert_eq!(
        c.output_path("a/..").unwrap_err(),
        TranscoderError::NotAFileError { path: "a/..".to_string() }
    );
    for input in ["/", ".", "..", "a/..", "/.."] {
        assert_eq!(
            c.output_path(input).unwrap_err(),
            TranscoderError::NotAFileError { path: input.to_string() }
        );
    }
}

#[test]
fn webm_converter_names_its_outputs() {
    let c = Converter::new(
        "webm",
        "libsvtav1",
        "libopus",
        Options::new(),
        Options::new(),
        None,
        None,
    )
    .unwrap();
    assert_eq!(c.output_path("/tmp/in.mov").unwrap(), "in.webm");
}

#[test]
fn new_keeps_its_filters() {
    let c = x265();
    assert_eq!(c.v_filters(), Some("format=yuv420p"));
    assert_eq!(c.a_filters(), Some(""));
    let d = Converter::new("mkv", "v", "a", Options::new(), Options::new(), None, None).unwrap();
    assert_eq!(d.v_filters(), None);
    assert_eq!(d.a_filters(), None);
}

#[test]
fn empty_input_names_no_file() {
    let c = x265();
    assert_eq!(
        c.output_path("").unwrap_err(),
        TranscoderError::NotAFileError { path: String::new() }
    );
}

#[test]
fn plain_names_are_cut_at_their_last_dot() {
    let c = x265();
    assert_eq!(c.output_path("clip.mkv").unwrap(), "clip.mp4");
    assert_eq!(c.output_path("a.b.c").unwrap(), "a.b.mp4");
    assert_eq!(c.output_path("name.").unwrap(), "name.mp4");
    assert_eq!(c.output_path("..x").unwrap(), "..mp4");
    assert_eq!(c.output_path("...").unwrap(), "...mp4");
}

#[test]
fn names_after_directories_are_cut_at_their_last_dot() {
    let c = x265();
    assert_eq!(c.output_path("videos/clip.mkv").unwrap(), "clip.mp4");
    assert_eq!(c.output_path("a/b/c.d.e").unwrap(), "c.d.mp4");
    assert_eq!(c.output_path("../up/.cfg").unwrap(), ".cfg.mp4");
    assert_eq!(c.output_path("/abs.mov").unwrap(), "abs.mp4");
}
