use trackbuild::config::{Build, Clip, ClipsOpt, Output, Sox, TrackConfig};
use trackbuild::pipeline::{load_updates, run_item, StageSnapshot, TrackData};
use trackbuild::record::output_record_text;
use trackbuild::updates::Updates;

fn simple_output(cmd: &str, buffer: &str) -> Output {
    Output {
        name: String::from("track"),
        build_command: None,
        cache: None,
        debug: None,
        output_command: String::from(cmd),
        output_buffer: String::from(buffer),
    }
}

fn simple_sox() -> Sox {
    Sox {
        bit_depth: 16,
        sample_rate: 44100,
        channels: 2,
        encoding: String::from("signed-integer"),
        other_options_pre: None,
        other_options_post: None,
        tempo: None,
    }
}

fn empty_snapshot() -> StageSnapshot {
    StageSnapshot {
        build_record: None,
        output_record: None,
        sox_record: None,
        clip_record: None,
        raw_exists: false,
        unprocessed_exists: false,
        processed_exists: false,
        build_lock_exists: false,
    }
}

fn clean_snapshot_for(config: &TrackConfig) -> StageSnapshot {
    StageSnapshot {
        build_record: config.build.clone(),
        output_record: Some(config.output.clone()),
        sox_record: Some(config.sox.clone()),
        clip_record: Some(ClipsOpt { clip: config.clip.clone() }),
        raw_exists: true,
        unprocessed_exists: true,
        processed_exists: true,
        build_lock_exists: true,
    }
}

#[test]
fn cascade_invariant_holds_in_reachable_states() {
    // loading applies the forward cascade
    let u = Updates::from_stage_state(false, true, false, false);
    assert!(!u.needs_build_update);
    assert!(u.needs_raw_update);
    assert!(u.needs_preprocessed_update);
    assert!(u.needs_ffmpeg_update);

    let u2 = Updates::from_stage_state(true, false, false, false);
    assert!(u2.needs_build_update && u2.needs_raw_update);
    assert!(u2.needs_preprocessed_update && u2.needs_ffmpeg_update);

    // strengthening keeps the chain
    let mut u3 = Updates::from_stage_state(false, false, false, false);
    u3.rebuilt();
    assert!(!u3.needs_build_update);
    assert!(u3.needs_raw_update && u3.needs_preprocessed_update && u3.needs_ffmpeg_update);

    let mut u4 = Updates::from_stage_state(false, false, false, false);
    u4.build_updated();
    assert!(u4.needs_build_update && u4.needs_raw_update);
    assert!(u4.needs_preprocessed_update && u4.needs_ffmpeg_update);
}

#[test]
fn edit_only_staleness_runs_edit_alone() {
    let config = TrackConfig {
        output: simple_output("cat data", "1M"),
        sox: simple_sox(),
        build: None,
        clip: Some(vec![Clip { start: 1, end: 2, position: String::from("absolute") }]),
    };
    let snap = StageSnapshot {
        clip_record: Some(ClipsOpt { clip: None }),
        ..clean_snapshot_for(&config)
    };
    let u = load_updates(&config, &snap);
    assert!(!u.needs_build_update && !u.needs_raw_update && !u.needs_preprocessed_update);
    assert!(u.needs_ffmpeg_update);
}

#[test]
fn first_run_executes_raw_dump_and_second_run_skips() {
    // an item with only an output command and no prior cache
    let config = TrackConfig {
        output: simple_output("echo AAAA", "4"),
        sox: simple_sox(),
        build: None,
        clip: None,
    };
    assert_eq!(config.output.raw_dump_command(), "echo AAAA | head --bytes=4");

    let (first, after) = run_item(&config, &empty_snapshot(), false, false, false);
    assert!(first.ran_raw_dump);
    assert!(first.ran_transform);
    assert!(first.ran_edit);
    assert!(!first.ran_build_command);
    assert!(after.raw_exists && after.unprocessed_exists && after.processed_exists);

    // identical configuration, no source changes: nothing runs
    let (second, after2) = run_item(&config, &after, false, false, false);
    assert!(!second.ran_raw_dump && !second.ran_transform && !second.ran_edit);
    assert!(!second.ran_build_command);
    assert!(!second.flags.needs_build_update && !second.flags.needs_raw_update);
    assert!(!second.flags.needs_preprocessed_update && !second.flags.needs_ffmpeg_update);
    assert_eq!(after2.raw_exists, after.raw_exists);
}

#[test]
fn changed_clip_list_reruns_only_the_edit_stage() {
    let old_clips = vec![Clip { start: 0, end: 10, position: String::from("absolute") }];
    let new_clips = vec![Clip { start: 0, end: 20, position: String::from("absolute") }];
    let old_config = TrackConfig {
        output: simple_output("cat data", "1M"),
        sox: simple_sox(),
        build: None,
        clip: Some(old_clips),
    };
    let new_config = TrackConfig { clip: Some(new_clips), ..old_config.clone() };

    let snap = clean_snapshot_for(&old_config);
    let output_record_before = output_record_text(snap.output_record.as_ref().unwrap());

    let (outcome, after) = run_item(&new_config, &snap, false, false, false);
    assert!(outcome.ran_edit);
    assert!(!outcome.ran_raw_dump && !outcome.ran_transform && !outcome.ran_build_command);

    // the untouched stages' fingerprints are byte-identical afterwards
    let output_record_after = output_record_text(after.output_record.as_ref().unwrap());
    assert_eq!(output_record_before, output_record_after);
    assert_eq!(after.sox_record, snap.sox_record);
    // the edit stage's fingerprint was rewritten to the new configuration
    assert_eq!(after.clip_record, Some(ClipsOpt { clip: new_config.clip.clone() }));
}

#[test]
fn quiet_http_sources_leave_acquisition_clean() {
    // a declared HTTP source list, local copies present, and a remote that
    // never reports Last-Modified: the probe yields no timestamp, the policy
    // says up to date, and the acquisition flag stays false
    let config = TrackConfig {
        output: simple_output("cat data", "1M"),
        sox: simple_sox(),
        build: Some(Build {
            build_command: String::new(),
            http_sources: vec![String::from("https://example.org/a.bin")],
            git_sources: vec![],
            git_update: None,
            always_rebuild: None,
            copy_me: false,
        }),
        clip: None,
    };
    let headers = vec![
        String::from("HTTP/1.1 200 OK"),
        String::from("Content-Type: application/octet-stream"),
    ];
    let remote = trackbuild::freshness::last_modified_from_headers(&headers);
    assert_eq!(remote, None);
    let local_copy_time = Some(1_700_000_000_i64);
    let stale = trackbuild::freshness::http_source_stale(true, local_copy_time, remote);
    assert!(!stale);

    let snap = clean_snapshot_for(&config);
    let (outcome, _) = run_item(&config, &snap, false, stale, false);
    assert!(!outcome.flags.needs_build_update);
    assert!(!outcome.ran_raw_dump && !outcome.ran_transform && !outcome.ran_edit);
}

#[test]
fn corrupt_record_marks_stage_stale_without_error() {
    // a fingerprint file replaced with invalid content parses to absent,
    // which forces the owning stage (and the cascade) to rebuild
    let config = TrackConfig {
        output: simple_output("cat data", "1M"),
        sox: simple_sox(),
        build: None,
        clip: None,
    };
    let parsed = trackbuild::record::parse_sox_record("!! scribbles !!");
    assert_eq!(parsed, None);
    let snap = StageSnapshot { sox_record: parsed, ..clean_snapshot_for(&config) };
    let u = load_updates(&config, &snap);
    assert!(!u.needs_build_update && !u.needs_raw_update);
    assert!(u.needs_preprocessed_update && u.needs_ffmpeg_update);
}

#[test]
fn source_change_forces_full_cascade() {
    let config = TrackConfig {
        output: simple_output("cat data", "1M"),
        sox: simple_sox(),
        build: Some(Build {
            build_command: String::from("make"),
            http_sources: vec![String::from("https://example.org/a.bin")],
            git_sources: vec![],
            git_update: None,
            always_rebuild: None,
            copy_me: false,
        }),
        clip: None,
    };
    let snap = clean_snapshot_for(&config);
    let (outcome, after) = run_item(&config, &snap, false, true, false);
    assert!(outcome.flags.needs_build_update);
    assert!(outcome.ran_raw_dump && outcome.ran_transform && outcome.ran_edit);
    // the run settles: a second run with quiet sources does nothing
    let (second, _) = run_item(&config, &after, false, false, false);
    assert!(!second.ran_build_command && !second.ran_raw_dump);
    assert!(!second.ran_transform && !second.ran_edit);
}

#[test]
fn track_data_getters() {
    let config = TrackConfig {
        output: simple_output("cat data", "1M"),
        sox: simple_sox(),
        build: None,
        clip: Some(vec![Clip { start: 3, end: 9, position: String::from("absolute") }]),
    };
    let data = TrackData::load_from_snapshot(config.clone(), &empty_snapshot());
    assert_eq!(data.output(), &config.output);
    assert_eq!(data.sox(), &config.sox);
    assert_eq!(data.build(), &None);
    assert_eq!(data.clips(), config.clip.clone().unwrap());
    assert!(data.updates.needs_raw_update && data.updates.needs_ffmpeg_update);
    assert_eq!(TrackData::raw_filename(), "intermediate.raw");
    assert_eq!(TrackData::unprocessed_filename(), "unprocessed.flac");
    assert_eq!(TrackData::processed_filename(), "processed.flac");
}
