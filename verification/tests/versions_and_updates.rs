//! Versions, build times, replies of the server and updates.
use rusplorer::github::{
    blob_url, commits_url, contents_url, latest_release_url, read_commit_date,
    read_default_branch, read_exe, read_release, repo_url, AssetFacts, ReleaseFacts,
};
use rusplorer::paths::{FsPath, PathPrefix};
use rusplorer::updater::{
    check_for_update, check_release_update, check_repo_exe_update, checksum_source,
    judge_release, judge_repo_exe, match_checksum, parse_checksum, readable, render_update_button, script_path,
    sha256_hex, staged_path, verify_download, version_label, write_update_script, ButtonClick,
    CheckStep, ChecksumSource, ReleaseReply, UpdateApplyResult, UpdateCheckResult, UpdateUiState,
    Updater,
};
use rusplorer::versions::{
    compare_simple_version, compare_timestamp_ymdhm, cut_bytes, format_github_datetime,
    is_remote_newer, is_remote_timestamp_newer, normalize_timestamp_ymdhm, parse_simple_version,
    strip_tag_prefix, Order,
};

#[test]
fn versions_are_read_from_tags() {
    assert_eq!(strip_tag_prefix("v1.2"), "1.2");
    assert_eq!(parse_simple_version("1.20.3"), Some(vec![1, 20, 3]));
    assert_eq!(parse_simple_version("nothing"), None);
}

#[test]
fn the_order_of_versions_turns_about_and_carries_over() {
    let (a, b, c) = (vec![1, 2], vec![1, 10], vec![2]);
    assert!(compare_simple_version(&a, &b) == Order::Less);
    assert!(compare_simple_version(&b, &a) == Order::Greater);
    assert!(compare_simple_version(&b, &c) == Order::Less);
    assert!(compare_simple_version(&a, &c) == Order::Less);
    assert!(compare_simple_version(&vec![1], &vec![1, 0]) == Order::Equal);
}

#[test]
fn newer_tags_are_newer_one_way() {
    assert!(is_remote_newer("1.2.3", "v1.3"));
    assert!(!is_remote_newer("1.3", "v1.2.3"));
    assert!(!is_remote_newer("1.2.3", "v1.2.3"));
}

#[test]
fn texts_are_cut_at_bytes() {
    assert_eq!(cut_bytes("abcd", 3), ("abc".to_string(), true));
    assert_eq!(cut_bytes("a\u{e9}b", 2).1, false);
    assert_eq!(cut_bytes("a\u{e9}b", 3), ("a\u{e9}".to_string(), true));
    assert_eq!(cut_bytes("ab", 9), ("ab".to_string(), true));
}

#[test]
fn build_times_are_compared_by_the_minute() {
    assert_eq!(format_github_datetime("2026-02-17T14:30:59Z"), "2026-02-17 14:30");
    assert_eq!(format_github_datetime("short"), "short");
    assert_eq!(normalize_timestamp_ymdhm(" 2026-02-17 14:30 ").as_deref(), Some("202602171430"));
    assert!(normalize_timestamp_ymdhm("yesterday").is_none());
    assert!(normalize_timestamp_ymdhm("2026-02-17T14:31:00Z").is_none());
    assert!(compare_timestamp_ymdhm("2026-02-17 14:30", "2026-02-17 14:31:00") == Some(Order::Less));
    assert!(is_remote_timestamp_newer("2026-02-17 14:30", "2026-02-17 14:31"));
    assert!(!is_remote_timestamp_newer("2026-02-17 14:31", "2026-02-17 14:30"));
}

const RELEASE: &str = r#"{
    "tag_name": "v2.0", "html_url": "https://e/r", "published_at": "2026-02-17T14:30:00Z",
    "assets": [
        {"name": "notes.txt", "browser_download_url": "https://e/n"},
        {"name": "Rusplorer.exe", "browser_download_url": "https://e/x"},
        {"name": "rusplorer.exe.SHA256", "browser_download_url": "https://e/c"}
    ]
}"#;

#[test]
fn a_release_is_read_from_the_reply() {
    let r = read_release(RELEASE.as_bytes()).unwrap();
    assert_eq!(r.tag_name.as_deref(), Some("v2.0"));
    assert_eq!(r.published_at.as_deref(), Some("2026-02-17T14:30:00Z"));
    let assets = r.assets.unwrap();
    assert_eq!(assets.len(), 3);
    assert_eq!(assets[1].name.as_deref(), Some("Rusplorer.exe"));
    assert_eq!(assets[1].url.as_deref(), Some("https://e/x"));
    assert!(read_release(b"no json").is_none());
    assert!(read_release(b"{}").unwrap().assets.is_none());
}

#[test]
fn other_replies_are_read_too() {
    assert_eq!(read_default_branch(br#"{"default_branch": "main"}"#).as_deref(), Some("main"));
    let exe = read_exe(br#"{"download_url": "https://e/x", "sha": "abc"}"#).unwrap();
    assert_eq!((exe.download_url.as_deref(), exe.sha.as_deref()), (Some("https://e/x"), Some("abc")));
    let commits = br#"[{"commit": {"committer": {"date": "2026-01-02T03:04:05Z"}}}]"#;
    assert_eq!(read_commit_date(commits).as_deref(), Some("2026-01-02T03:04:05Z"));
    assert_eq!(read_commit_date(b"[]"), None);
    assert!(latest_release_url().ends_with("/releases/latest"));
    assert!(contents_url("main").ends_with("ref=main"));
    assert!(commits_url("main").contains("main"));
    assert!(blob_url("main").contains("/blob/main/"));
    assert!(repo_url().contains("api.github.com"));
}

#[test]
fn a_newer_release_is_offered_with_its_checksum() {
    match check_release_update(RELEASE.as_bytes(), "1.0", "2026-01-01 00:00") {
        Some(UpdateCheckResult::Available(o)) => {
            assert_eq!(o.version_display, "2026-02-17 14:30");
            assert_eq!(o.exe_url, "https://e/x");
            assert_eq!(o.checksum_url.as_deref(), Some("https://e/c"));
            assert_eq!(o.html_url, "https://e/r");
            assert!(matches!(checksum_source(&o), ChecksumSource::Download(u) if u == "https://e/c"));
        }
        _ => panic!("the release is newer"),
    }
}

#[test]
fn ones_own_release_is_not_offered() {
    assert!(matches!(
        check_release_update(RELEASE.as_bytes(), "2.0", "2026-01-01 00:00"),
        Some(UpdateCheckResult::UpToDate(v)) if v == "2026-02-17 14:30"
    ));
    assert!(matches!(
        check_release_update(RELEASE.as_bytes(), "1.0", "2026-02-17 14:30"),
        Some(UpdateCheckResult::UpToDate(_))
    ));
}

fn facts(tag: bool, assets: Option<Vec<&str>>) -> ReleaseFacts {
    ReleaseFacts {
        tag_name: if tag { Some("v9".to_string()) } else { None },
        html_url: None,
        published_at: None,
        assets: assets.map(|v| {
            v.into_iter()
                .map(|n| AssetFacts { name: Some(n.to_string()), url: Some("u".to_string()) })
                .collect()
        }),
    }
}

fn complaint(f: ReleaseFacts) -> String {
    assert!(readable(&f, "1", "2026-01-01 00:00"));
    match judge_release(&f, "1", "2026-01-01 00:00") {
        UpdateCheckResult::Error(e) => e,
        _ => panic!("something is missing"),
    }
}

#[test]
fn what_a_release_lacks_is_told() {
    assert_eq!(complaint(facts(false, None)), "release payload missing tag_name");
    assert_eq!(complaint(facts(true, None)), "release payload missing assets");
    assert_eq!(
        complaint(facts(true, Some(vec!["a"]))),
        "latest release does not contain rusplorer.exe asset"
    );
    assert_eq!(
        complaint(facts(true, Some(vec!["rusplorer.exe"]))),
        "latest release is missing checksum asset (expected rusplorer.exe.sha256)"
    );
}

#[test]
fn a_missing_release_leads_to_the_repository() {
    let step = check_for_update(&ReleaseReply::NotFound, "1.0", "2026-01-01 00:00");
    assert!(matches!(step, Some(CheckStep::AskRepository)));
    let step = check_for_update(&ReleaseReply::Failed("offline".to_string()), "1.0", "2026-01-01 00:00");
    assert!(matches!(step, Some(CheckStep::Done(UpdateCheckResult::Error(_)))));
    let step = check_for_update(&ReleaseReply::Body(b"{".to_vec()), "1.0", "2026-01-01 00:00");
    match step {
        Some(CheckStep::Done(UpdateCheckResult::Error(e))) => {
            assert!(e.starts_with("invalid release payload"));
        }
        _ => panic!("the reply is no release"),
    }
}

#[test]
fn the_executable_of_the_repository_is_compared() {
    let judge = |remote: &str| {
        judge_repo_exe("2026-03-01 10:00", "2026-01-01 00:00", "u", "main", remote, "ABC")
    };
    assert!(matches!(judge("abc"), UpdateCheckResult::UpToDate(_)));
    match judge("abd") {
        UpdateCheckResult::Available(o) => {
            assert_eq!(o.expected_sha256.as_deref(), Some("abd"));
            assert!(matches!(checksum_source(&o), ChecksumSource::Known(k) if k == "abd"));
        }
        _ => panic!("the contents differ"),
    }
    assert_eq!(version_label(Some("abcdef0123")), "repo-abcdef0");
    assert_eq!(version_label(Some("abc")), "repo-latest");
    assert_eq!(version_label(None), "repo-latest");
}

#[test]
fn the_executable_that_runs_is_not_offered_again() {
    let check = |remote: &[u8], shown: &str| {
        check_repo_exe_update(shown, "2026-01-01 00:00", "u", "main", remote, b"abc")
    };
    let newer = "2026-03-01 10:00";
    assert!(matches!(check(b"abc", newer), UpdateCheckResult::UpToDate(d) if d == newer));
    let older = "2025-03-01 10:00";
    assert!(matches!(check(b"abd", older), UpdateCheckResult::UpToDate(d) if d == older));
    match check(b"abd", newer) {
        UpdateCheckResult::Available(o) => {
            let sum = o.expected_sha256.unwrap();
            assert_eq!(sum, sha256_hex(b"abd"));
            assert_eq!(verify_download(&sum, b"abd"), None);
            assert_eq!(o.html_url, "https://github.com/jeremythille/Rusplorer/blob/main/rusplorer.exe");
        }
        _ => panic!("the contents differ"),
    }
}

#[test]
fn checksums_are_computed_and_compared() {
    let abc = "ba7816bf8f01cfea414140de5dae2223b00361a396177a9cb410ff61f20015ad";
    assert_eq!(sha256_hex(b"abc"), abc);
    assert_eq!(verify_download(&abc.to_uppercase(), b"abc"), None);
    let wrong = verify_download("00", b"abc").unwrap();
    assert_eq!(wrong, format!("checksum mismatch for downloaded update (expected 00, got {})", abc));
    assert_eq!(match_checksum("aB", "Ab"), None);
    assert_eq!(parse_checksum(&format!("SHA256 {} *x.exe", abc.to_uppercase())).as_deref(), Some(abc));
    assert_eq!(parse_checksum("abc"), None);
}

#[test]
fn an_update_goes_through_its_states() {
    let mut u = Updater::new();
    assert!(u.start_update_check());
    assert!(!u.start_update_check());
    let found = check_release_update(RELEASE.as_bytes(), "1.0", "2026-01-01 00:00").unwrap();
    u.on_check_result(found);
    assert!(render_update_button(&u.state, "b").click == ButtonClick::Install);
    let release = u.start_apply_update().unwrap();
    assert_eq!(release.exe_url, "https://e/x");
    assert!(u.start_apply_update().is_none());
    let button = render_update_button(&u.state, "b1");
    assert_eq!(button.label, "Downloading 2026-02-17 14:30...");
    assert_eq!(button.tip, "Current version: b1\nAvailable version: 2026-02-17 14:30");
    assert!(u.on_apply_result(UpdateApplyResult::ReadyToRestart("x".to_string())));
    let told = u.on_script_started("x", None).unwrap();
    assert_eq!(told, "Applying update to x. Rusplorer will restart shortly...");
    assert!(u.on_script_started("x", Some("denied")).is_none());
    assert!(matches!(&u.state, UpdateUiState::Error(e) if e == "Failed to launch updater helper: denied"));
    assert!(!u.on_apply_result(UpdateApplyResult::Error("e".to_string())));
    assert!(render_update_button(&u.state, "b").click == ButtonClick::Check);
}

#[test]
fn an_update_waits_beside_the_program() {
    let dir = FsPath::plain(PathPrefix::Disk(b'C'), true, vec!["p".to_string()]);
    assert_eq!(staged_path(&dir).to_text(), "C:\\p\\rusplorer.update.new.exe");
    assert_eq!(script_path(&dir).to_text(), "C:\\p\\rusplorer.update.apply.cmd");
    let script = write_update_script("T.exe", "S.exe");
    assert!(script.starts_with("@echo off\r\nsetlocal\r\nset \"TARGET=T.exe\"\r\nset \"STAGED=S.exe\"\r\n"));
    assert!(script.ends_with("exit /b 1\r\n"));
}
