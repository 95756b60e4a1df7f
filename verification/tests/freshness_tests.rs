use trackbuild::freshness::{
    entry_relative_path, git_status_behind, header_date, http_source_stale,
    last_modified_from_headers, local_entry_stale, should_probe_remote, should_run_build,
};

#[test]
fn http_policy_refetches_only_when_remote_is_newer() {
    // re-fetched iff NOT (remote <= local)
    assert!(!http_source_stale(true, Some(100), Some(50)));
    assert!(!http_source_stale(true, Some(100), Some(100)));
    assert!(http_source_stale(true, Some(100), Some(101)));
}

#[test]
fn http_policy_unknown_remote_keeps_local_copy() {
    assert!(!http_source_stale(true, Some(100), None));
}

#[test]
fn http_policy_missing_local_copy_always_fetches() {
    assert!(http_source_stale(true, None, None));
    assert!(http_source_stale(true, None, Some(50)));
}

#[test]
fn http_policy_cache_disabled_always_fetches() {
    assert!(http_source_stale(false, Some(100), Some(50)));
    assert!(http_source_stale(false, Some(100), None));
}

#[test]
fn remote_probe_needs_a_cached_local_copy() {
    assert!(should_probe_remote(true, &Some(5)));
    assert!(!should_probe_remote(true, &None));
    assert!(!should_probe_remote(false, &Some(5)));
}

#[test]
fn last_modified_header_is_parsed() {
    // 2015-10-21 07:28:00 UTC
    let d = header_date("Last-Modified: Wed, 21 Oct 2015 07:28:00 GMT\r\n");
    assert_eq!(d, Some(1445412480));
}

#[test]
fn other_headers_carry_no_timestamp() {
    assert_eq!(header_date("Content-Length: 42\r\n"), None);
    assert_eq!(header_date("Last-Modified: yesterday, more or less\r\n"), None);
    assert_eq!(header_date(""), None);
}

#[test]
fn last_parseable_header_wins() {
    let headers = vec![
        String::from("HTTP/1.1 200 OK"),
        String::from("Last-Modified: Wed, 21 Oct 2015 07:28:00 GMT"),
        String::from("Last-Modified: not a date"),
        String::from("Last-Modified: Thu, 22 Oct 2015 07:28:00 GMT"),
        String::from("Content-Length: 42"),
    ];
    assert_eq!(last_modified_from_headers(&headers), Some(1445498880));
}

#[test]
fn no_headers_mean_no_timestamp() {
    assert_eq!(last_modified_from_headers(&vec![]), None);
}

#[test]
fn git_behind_is_read_from_the_second_line() {
    let behind = "On branch main\nYour branch is behind 'origin/main' by 2 commits.\n";
    assert!(git_status_behind(behind));
    let current = "On branch main\nYour branch is up to date with 'origin/main'.\n";
    assert!(!git_status_behind(current));
    assert!(!git_status_behind(""));
    assert!(!git_status_behind("only one line"));
    // the phrase counts only on the second line
    assert!(!git_status_behind("Your branch is behind\nsomething else\n"));
}

#[test]
fn local_entries_copy_unless_destination_is_newer() {
    assert!(!local_entry_stale(true, Some(10), Some(20)));
    assert!(local_entry_stale(true, Some(20), Some(10)));
    assert!(local_entry_stale(true, Some(10), Some(10)));
    assert!(local_entry_stale(true, None, Some(20)));
    assert!(local_entry_stale(true, Some(10), None));
    // caching disabled copies unconditionally
    assert!(local_entry_stale(false, Some(10), Some(20)));
}

#[test]
fn build_command_runs_without_sentinel_or_when_forced() {
    assert!(should_run_build(&None, false));
    assert!(!should_run_build(&None, true));
    assert!(!should_run_build(&Some(false), true));
    assert!(should_run_build(&Some(true), true));
    assert!(should_run_build(&Some(true), false));
}

#[test]
fn relative_entry_paths() {
    assert_eq!(
        entry_relative_path("tracks/ls/data/one.bin", "tracks/ls/"),
        Some(String::from("data/one.bin"))
    );
    assert_eq!(entry_relative_path("elsewhere/one.bin", "tracks/ls/"), None);
    assert_eq!(entry_relative_path("tracks/ls/", "tracks/ls/"), Some(String::new()));
}
