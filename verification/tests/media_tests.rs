use trackbuild::album::{
    album_recombine_needed, album_track_file, album_track_needs_copy, concat_list_text,
    cumulative_runtimes, interleave_with, runtime_from_clock, track_dir_name, AlbumName, Runtime,
};
use trackbuild::clip::{edit_filter_arg, normalize_clips, ClipError};
use trackbuild::config::{Clip, Sox, TrackConfig};
use trackbuild::pipeline::{StageSnapshot, TrackData};
use trackbuild::sox_args::SoxArgs;
use trackbuild::track::{parse_runtime, TrackName};

fn clip(start: u32, end: u32, position: &str) -> Clip {
    Clip { start, end, position: String::from(position) }
}

#[test]
fn absolute_clips_pass_through() {
    let clips = vec![clip(10, 20, "absolute"), clip(30, 40, "absolute")];
    let out = normalize_clips(&clips).unwrap();
    assert_eq!(out, vec![clip(10, 20, "absolute"), clip(30, 40, "absolute")]);
}

#[test]
fn relative_clips_chain_after_the_previous_end() {
    // a relative clip starts its offset after the previous end and lasts its
    // own length; the first clip is relative to the start of the track
    let clips = vec![clip(10, 20, "absolute"), clip(5, 30, "relative"), clip(2, 4, "relative")];
    let out = normalize_clips(&clips).unwrap();
    assert_eq!(
        out,
        vec![clip(10, 20, "absolute"), clip(25, 55, "absolute"), clip(57, 61, "absolute")]
    );
}

#[test]
fn first_relative_clip_counts_from_zero() {
    let clips = vec![clip(7, 11, "relative")];
    let out = normalize_clips(&clips).unwrap();
    assert_eq!(out, vec![clip(7, 18, "absolute")]);
}

#[test]
fn invalid_clip_position_is_rejected() {
    let clips = vec![clip(0, 1, "absolute"), clip(0, 1, "sideways")];
    assert_eq!(normalize_clips(&clips), Err(ClipError::InvalidPosition));
}

#[test]
fn overflowing_clip_times_are_rejected() {
    let clips = vec![clip(0, u32::MAX, "absolute"), clip(5, 5, "relative")];
    assert_eq!(normalize_clips(&clips), Err(ClipError::TimeOverflow));
}

#[test]
fn edit_filter_text() {
    let clips = vec![clip(0, 5, "absolute"), clip(10, 20, "absolute")];
    let arg = edit_filter_arg("atempo=1.5", &clips);
    assert_eq!(
        arg,
        "atempo=1.5,aselect='between(t,0,5)+between(t,10,20)',asetpts=N/SR/TB"
    );
}

fn sample_track_data() -> TrackData {
    let config = TrackConfig {
        output: trackbuild::config::Output {
            name: String::from("song"),
            build_command: None,
            cache: None,
            debug: None,
            output_command: String::from("cat data"),
            output_buffer: String::from("1M"),
        },
        sox: Sox {
            bit_depth: 16,
            sample_rate: 44100,
            channels: 2,
            encoding: String::from("signed-integer"),
            other_options_pre: None,
            other_options_post: None,
            tempo: None,
        },
        build: None,
        clip: None,
    };
    let snap = StageSnapshot {
        build_record: None,
        output_record: None,
        sox_record: None,
        clip_record: None,
        raw_exists: false,
        unprocessed_exists: false,
        processed_exists: false,
        build_lock_exists: false,
    };
    TrackData::load_from_snapshot(config, &snap)
}

#[test]
fn sox_argument_list() {
    let name = TrackName::new(
        String::from("song"),
        String::from("tracks"),
        String::from("target/tracks"),
    );
    let data = sample_track_data();
    let pre = vec![String::from("--norm")];
    let post = vec![String::from("--guard")];
    let s = SoxArgs::new(&name, &data, &pre, &post);
    let expected: Vec<&str> = vec![
        "-b",
        "16",
        "-r",
        "44100",
        "-c",
        "2",
        "-e",
        "signed-integer",
        "--norm",
        "-t",
        "raw",
        "target/tracks/song/intermediate.raw",
        "-t",
        "flac",
        "--guard",
        "target/tracks/song/unprocessed.flac",
    ];
    assert_eq!(s.args, expected);
    assert_eq!(s.buffer_args_n_pre, 1);
    assert_eq!(s.buffer_args_n_post, 1);
}

#[test]
fn sox_command_line_quotes_the_paths() {
    let name = TrackName::new(
        String::from("it's"),
        String::from("tracks"),
        String::from("target/tracks"),
    );
    let data = sample_track_data();
    let pre: Vec<String> = vec![];
    let post: Vec<String> = vec![];
    let s = SoxArgs::new(&name, &data, &pre, &post);
    let line = s.command_line();
    assert_eq!(
        line,
        "-b 16 -r 44100 -c 2 -e signed-integer -t raw \
         'target/tracks/it\\'s/intermediate.raw' -t flac \
         'target/tracks/it\\'s/unprocessed.flac'"
    );
}

#[test]
fn track_paths() {
    let name = TrackName::new(
        String::from("ls"),
        String::from("tracks"),
        String::from("target/tracks"),
    );
    assert_eq!(name.get_name(), "ls");
    assert_eq!(name.source_dir(), "tracks/ls");
    assert_eq!(name.dest_dir(), "target/tracks/ls");
    assert_eq!(name.build_dir(), "target/tracks/ls/build");
    assert_eq!(name.config_file(), "tracks/ls/config.toml");
    assert_eq!(name.artifact_path("output.record"), "target/tracks/ls/output.record");
}

#[test]
fn album_paths() {
    let name = AlbumName::new(
        String::from("best-of"),
        String::from("albums"),
        String::from("target/albums"),
    );
    assert_eq!(name.get_name(), "best-of");
    assert_eq!(name.source_file(), "albums/best-of.toml");
    assert_eq!(name.dest_dir(), "target/albums/best-of");
    assert_eq!(name.build_dir(), "target/albums/best-of/build");
    assert_eq!(name.combined_artifact("Best Of"), "target/albums/best-of/Best Of.flac");
    assert_eq!(track_dir_name(), "individual_tracks");
    assert_eq!(
        album_track_file("target/albums/best-of", "song"),
        "target/albums/best-of/individual_tracks/song.flac"
    );
}

#[test]
fn album_copy_decision() {
    assert!(!album_track_needs_copy(Some(10), Some(20)));
    assert!(album_track_needs_copy(Some(20), Some(10)));
    assert!(album_track_needs_copy(Some(10), Some(10)));
    assert!(album_track_needs_copy(None, Some(20)));
    assert!(album_track_needs_copy(Some(10), None));
}

#[test]
fn album_recombines_when_something_was_copied_or_missing() {
    assert!(!album_recombine_needed(&vec![false, false], true));
    assert!(album_recombine_needed(&vec![false, true], true));
    assert!(album_recombine_needed(&vec![false, false], false));
    assert!(album_recombine_needed(&vec![], false));
    assert!(!album_recombine_needed(&vec![], true));
}

#[test]
fn concatenation_list_lines() {
    let paths = vec![String::from("a.flac"), String::from("b's.flac")];
    let text = concat_list_text(&paths);
    assert_eq!(text, "file 'a.flac'\nfile 'b\\'s.flac'");
    assert_eq!(concat_list_text(&vec![]), "");
}

#[test]
fn interleaving_tracks_with_silence() {
    let files = vec![String::from("one.flac"), String::from("two.flac")];
    let mixed = interleave_with(&files, "silence.flac");
    assert_eq!(
        mixed,
        vec![
            String::from("one.flac"),
            String::from("silence.flac"),
            String::from("two.flac"),
            String::from("silence.flac"),
        ]
    );
}

#[test]
fn runtimes_are_parsed_from_probe_output() {
    // the probe prints sexagesimal with a fraction; the fraction is brought
    // to nine digits before parsing
    let r = parse_runtime("0:03:25.60\n");
    assert_eq!(r, Some((205, 600_000_000)));
    assert_eq!(parse_runtime("1:00:00.000000001"), Some((3600, 1)));
    assert_eq!(parse_runtime("not a duration"), None);
}

#[test]
fn runtimes_accumulate_with_carry() {
    let a = runtime_from_clock(205, 600_000_000);
    let b = runtime_from_clock(100, 700_000_000);
    let c = runtime_from_clock(3600, 1_999_999_999);
    assert_eq!(c, Runtime { secs: 3601, nanos: 999_999_999 });
    let totals = cumulative_runtimes(&vec![a, b, c]);
    assert_eq!(totals[0], Runtime { secs: 205, nanos: 600_000_000 });
    assert_eq!(totals[1], Runtime { secs: 306, nanos: 300_000_000 });
    assert_eq!(totals[2], Runtime { secs: 3908, nanos: 299_999_999 });
}
