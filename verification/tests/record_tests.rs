use trackbuild::config::{Build, Clip, ClipsOpt, Output, Sox};
use trackbuild::record::{
    build_record_text, clip_record_text, output_record_text, parse_build_record,
    parse_clip_record, parse_output_record, parse_sox_record, sox_record_text, StageKind,
};

fn sample_output() -> Output {
    Output {
        name: String::from("kernel"),
        build_command: Some(String::from("make -j8")),
        cache: Some(true),
        debug: None,
        output_command: String::from("cat vmlinux"),
        output_buffer: String::from("1M"),
    }
}

fn sample_sox() -> Sox {
    Sox {
        bit_depth: 16,
        sample_rate: 44100,
        channels: 2,
        encoding: String::from("signed-integer"),
        other_options_pre: Some(String::from("--norm")),
        other_options_post: None,
        tempo: Some(String::from("1.25")),
    }
}

fn sample_build() -> Build {
    Build {
        build_command: String::from("make defconfig && make"),
        http_sources: vec![
            String::from("https://example.org/linux.tar.xz"),
            String::from("https://example.org/patch-1.xz"),
        ],
        git_sources: vec![String::from("https://example.org/repo.git")],
        git_update: Some(false),
        always_rebuild: None,
        copy_me: true,
    }
}

#[test]
fn output_record_round_trip() {
    let cfg = sample_output();
    let text = output_record_text(&cfg);
    let back = parse_output_record(text.as_str());
    assert_eq!(back, Some(cfg));
}

#[test]
fn output_record_round_trip_empty_fields() {
    let cfg = Output {
        name: String::new(),
        build_command: None,
        cache: None,
        debug: Some(false),
        output_command: String::new(),
        output_buffer: String::from("0"),
    };
    let text = output_record_text(&cfg);
    assert_eq!(parse_output_record(text.as_str()), Some(cfg));
}

#[test]
fn sox_record_round_trip() {
    let cfg = sample_sox();
    let text = sox_record_text(&cfg);
    assert_eq!(parse_sox_record(text.as_str()), Some(cfg));
}

#[test]
fn build_record_round_trip() {
    let cfg = sample_build();
    let text = build_record_text(&cfg);
    assert_eq!(parse_build_record(text.as_str()), Some(cfg));
}

#[test]
fn build_record_round_trip_no_sources() {
    let cfg = Build {
        build_command: String::new(),
        http_sources: vec![],
        git_sources: vec![],
        git_update: None,
        always_rebuild: Some(true),
        copy_me: false,
    };
    let text = build_record_text(&cfg);
    assert_eq!(parse_build_record(text.as_str()), Some(cfg));
}

#[test]
fn clip_record_round_trip_absent_list() {
    let cfg = ClipsOpt { clip: None };
    let text = clip_record_text(&cfg);
    assert_eq!(parse_clip_record(text.as_str()), Some(cfg));
}

#[test]
fn clip_record_round_trip_empty_list() {
    // an empty declared list is distinct from no list at all
    let cfg = ClipsOpt { clip: Some(vec![]) };
    let text = clip_record_text(&cfg);
    let absent = ClipsOpt { clip: None };
    assert_eq!(parse_clip_record(text.as_str()), Some(cfg));
    assert_ne!(parse_clip_record(text.as_str()), Some(absent));
}

#[test]
fn clip_record_round_trip_clips() {
    let cfg = ClipsOpt {
        clip: Some(vec![
            Clip { start: 0, end: 95, position: String::from("absolute") },
            Clip { start: 5, end: 30, position: String::from("relative") },
        ]),
    };
    let text = clip_record_text(&cfg);
    assert_eq!(parse_clip_record(text.as_str()), Some(cfg));
}

#[test]
fn strings_with_separators_round_trip() {
    // field contents may hold newlines, quotes, colons and record tags
    let cfg = Output {
        name: String::from("o7:'x'\nnext"),
        build_command: Some(String::from("a:b:c\n\nd")),
        cache: Some(false),
        debug: Some(true),
        output_command: String::from("echo 'hi' | tr a-z A-Z"),
        output_buffer: String::from("64K"),
    };
    let text = output_record_text(&cfg);
    assert_eq!(parse_output_record(text.as_str()), Some(cfg));
}

#[test]
fn corrupt_records_parse_to_absent() {
    for garbage in [
        "",
        "not a record at all",
        "o",
        "ogarbage",
        "o6:kernel-",
        "s16:",
        "b???",
        "c*",
        "\u{0}\u{1}\u{2}",
    ] {
        assert_eq!(parse_output_record(garbage), None);
        assert_eq!(parse_sox_record(garbage), None);
        assert_eq!(parse_build_record(garbage), None);
        assert_eq!(parse_clip_record(garbage), None);
    }
}

#[test]
fn record_with_trailing_junk_is_rejected() {
    let cfg = sample_output();
    let mut text = output_record_text(&cfg);
    text.push_str("x");
    assert_eq!(parse_output_record(text.as_str()), None);
}

#[test]
fn wrong_stage_record_is_rejected() {
    let text = output_record_text(&sample_output());
    assert_eq!(parse_sox_record(text.as_str()), None);
    assert_eq!(parse_build_record(text.as_str()), None);
    assert_eq!(parse_clip_record(text.as_str()), None);
}

#[test]
fn non_canonical_number_fields_are_rejected() {
    // the canonical record of this configuration starts with `o6:kernel`;
    // a hand-edited copy with a leading zero in the length is not a record
    let cfg = sample_output();
    let text = output_record_text(&cfg);
    assert!(text.starts_with("o6:kernel"));
    let tampered = text.replacen("o6:", "o06:", 1);
    assert_eq!(parse_output_record(tampered.as_str()), None);
}

#[test]
fn record_filenames() {
    assert_eq!(StageKind::Acquisition.record_filename(), "build.record");
    assert_eq!(StageKind::RawOutput.record_filename(), "output.record");
    assert_eq!(StageKind::Transform.record_filename(), "sox.record");
    assert_eq!(StageKind::Edit.record_filename(), "clip.record");
}
