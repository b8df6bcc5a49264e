use std::path::PathBuf;

use cubil::updater::{
    cache_entry_now, cache_path_from, cache_is_fresh, cache_is_fresh_at, current_version, detect_target_from,
    download_url, is_newer, latest_release_url, latest_version_from_body, parse_version,
    stale_after_fetch, stale_check_start, stale_message, stale_step, target_from_override, target_from_parts, user_agent, version_from_tag,
    CacheEntry, StaleStep, Target, TargetError,
};

#[test]
fn parse_version_strips_v_and_prerelease() {
    assert_eq!(parse_version("0.1.2"), Some((0, 1, 2)));
    assert_eq!(parse_version("v0.1.2"), Some((0, 1, 2)));
    assert_eq!(parse_version("v1.2.3-rc.1"), Some((1, 2, 3)));
    assert_eq!(parse_version("garbage"), None);
    assert_eq!(parse_version("1.2"), None);
}

#[test]
fn parse_version_edge_cases() {
    assert_eq!(parse_version("1.2.3.4"), Some((1, 2, 3)));
    assert_eq!(parse_version("+1.2.3"), Some((1, 2, 3)));
    assert_eq!(parse_version("1.2.x"), None);
    assert_eq!(parse_version("1..3"), None);
    assert_eq!(parse_version("vv1.2.3"), None);
    assert_eq!(parse_version("4294967296.0.0"), None);
    assert_eq!(parse_version(""), None);
}

#[test]
fn is_newer_compares_semver_tuples() {
    assert!(is_newer("0.2.0", "0.1.9"));
    assert!(is_newer("1.0.0", "0.99.0"));
    assert!(!is_newer("0.1.0", "0.1.0"));
    assert!(!is_newer("0.1.0", "0.2.0"));
    assert!(!is_newer("garbage", "0.1.0"));
}

#[test]
fn is_newer_never_holds_both_ways() {
    for (a, b) in [("1.2.3", "1.2.4"), ("v2.0.0", "1.9.9-beta"), ("0.0.1", "0.0.1")] {
        assert!(!(is_newer(a, b) && is_newer(b, a)));
    }
    assert!(is_newer("0.1.10", "0.1.9"));
    assert!(!is_newer("0.1.0", "garbage"));
}

#[test]
fn target_macos_x86_is_unsupported() {
    let err = target_from_parts("x86_64", "macos").unwrap_err();
    assert!(matches!(err, TargetError::MacosX86));
    assert!(err.message().contains("x86_64 macOS is not supported"));
}

#[test]
fn target_linux_x86_64() {
    let t = target_from_parts("x86_64", "linux").unwrap();
    assert_eq!(t.triple, "x86_64-unknown-linux-gnu");
}

#[test]
fn target_linux_aarch64() {
    let t = target_from_parts("aarch64", "linux").unwrap();
    assert_eq!(t.triple, "aarch64-unknown-linux-gnu");
}

#[test]
fn target_macos_aarch64() {
    let t = target_from_parts("aarch64", "macos").unwrap();
    assert_eq!(t.triple, "aarch64-apple-darwin");
}

#[test]
fn target_errors_for_unknown_os_and_arch() {
    match target_from_parts("x86_64", "windows") {
        Err(TargetError::UnsupportedOs(s)) => assert_eq!(s, "windows"),
        other => panic!("unexpected {other:?}"),
    }
    match target_from_parts("riscv64", "linux") {
        Err(e @ TargetError::UnsupportedArch(_)) => {
            assert_eq!(e.message(), "Unsupported architecture: riscv64")
        }
        other => panic!("unexpected {other:?}"),
    }
    assert_eq!(
        TargetError::UnsupportedOs("plan9".to_string()).message(),
        "Unsupported OS: plan9"
    );
    assert_eq!(target_from_parts("arm64", "macos").unwrap().triple, "aarch64-apple-darwin");
}

#[test]
fn target_override_splits_at_first_colon_or_is_the_triple() {
    assert!(matches!(target_from_override("x86_64:macos"), Err(TargetError::MacosX86)));
    assert_eq!(target_from_override("aarch64:linux").unwrap().triple, "aarch64-unknown-linux-gnu");
    assert_eq!(target_from_override("custom-triple").unwrap().triple, "custom-triple");
    match target_from_override("x86_64:linux:extra") {
        Err(TargetError::UnsupportedOs(s)) => assert_eq!(s, "linux:extra"),
        other => panic!("unexpected {other:?}"),
    }
    assert_eq!(
        detect_target_from(None, "x86_64", "linux").unwrap().triple,
        "x86_64-unknown-linux-gnu"
    );
    assert_eq!(detect_target_from(Some("t"), "x86_64", "macos").unwrap().triple, "t");
}

#[test]
fn cache_freshness_uses_one_day() {
    let e = CacheEntry { checked_at: 1_000, latest: "1.0.0".to_string() };
    assert!(cache_is_fresh_at(&e, 1_000));
    assert!(cache_is_fresh_at(&e, 1_000 + 86_399));
    assert!(!cache_is_fresh_at(&e, 1_000 + 86_400));
    assert!(cache_is_fresh_at(&e, 10));
    let old = CacheEntry { checked_at: 0, latest: "1.0.0".to_string() };
    assert!(!cache_is_fresh(&old));
    let now = cache_entry_now("2.0.0");
    assert_eq!(now.latest, "2.0.0");
    assert!(cache_is_fresh(&now));
}

#[test]
fn stale_message_only_when_newer() {
    assert_eq!(
        stale_message("9.99.99", "0.1.4").as_deref(),
        Some("warning: cubil 0.1.4 is out of date (latest: 9.99.99). Run `cubil update` to upgrade.")
    );
    assert_eq!(stale_message("0.1.4", "0.1.4"), None);
    assert_eq!(stale_message("garbage", "0.1.4"), None);
}

#[test]
fn urls_and_agent() {
    assert_eq!(
        latest_release_url("http://127.0.0.1:9"),
        "http://127.0.0.1:9/repos/frantufro/cubil/releases/latest"
    );
    let t = Target { triple: "x86_64-unknown-linux-gnu".to_string() };
    assert_eq!(
        download_url("https://github.com", &t, "9.99.99"),
        "https://github.com/frantufro/cubil/releases/download/v9.99.99/cubil-x86_64-unknown-linux-gnu.tar.gz"
    );
    assert_eq!(current_version(), "0.1.4");
    assert_eq!(user_agent(), "cubil/0.1.4");
}

#[test]
fn version_from_release_answer() {
    assert_eq!(version_from_tag(Some("v9.99.99".to_string())).unwrap(), "9.99.99");
    assert_eq!(version_from_tag(Some("1.0.0".to_string())).unwrap(), "1.0.0");
    assert_eq!(version_from_tag(None).unwrap_err(), "missing tag_name in API response");
    assert_eq!(latest_version_from_body(r#"{"tag_name":"v9.99.99"}"#).unwrap(), "9.99.99");
    assert_eq!(
        latest_version_from_body(r#"{"name":"x"}"#).unwrap_err(),
        "missing tag_name in API response"
    );
    assert_eq!(
        latest_version_from_body(r#"{"tag_name":7}"#).unwrap_err(),
        "missing tag_name in API response"
    );
    assert!(latest_version_from_body("not json").unwrap_err().starts_with("invalid JSON: "));
}

#[test]
fn stale_check_steps() {
    let e = CacheEntry { checked_at: 1_000, latest: "9.0.0".to_string() };
    assert!(matches!(stale_step(true, Some(e.clone()), 1_000), StaleStep::Skip));
    match stale_step(false, Some(e.clone()), 2_000) {
        StaleStep::Compare(v) => assert_eq!(v, "9.0.0"),
        other => panic!("unexpected {other:?}"),
    }
    assert!(matches!(stale_step(false, Some(e.clone()), 1_000 + 86_400), StaleStep::Fetch));
    assert!(matches!(stale_step(false, None, 0), StaleStep::Fetch));
    assert!(matches!(stale_check_start(true, None), StaleStep::Skip));
    assert!(matches!(stale_check_start(false, Some(e)), StaleStep::Fetch));
    let (w, c) = stale_after_fetch(Ok("9.99.99".to_string()), "0.1.4");
    assert_eq!(
        w.as_deref(),
        Some("warning: cubil 0.1.4 is out of date (latest: 9.99.99). Run `cubil update` to upgrade.")
    );
    assert_eq!(c.as_deref(), Some("9.99.99"));
    let (w, c) = stale_after_fetch(Ok("0.1.4".to_string()), "0.1.4");
    assert_eq!((w, c.as_deref()), (None, Some("0.1.4")));
    assert_eq!(stale_after_fetch(Err("network error: x".to_string()), "0.1.4"), (None, None));
}

#[test]
fn invalid_json_message_carries_parser_text() {
    let parser = serde_json::from_str::<serde_json::Value>("not json").unwrap_err().to_string();
    assert_eq!(
        latest_version_from_body("not json").unwrap_err(),
        format!("invalid JSON: {parser}")
    );
}

#[test]
fn cache_path_prefers_cubil_dir_then_xdg_then_home() {
    let s = |t: &str| Some(t.to_string());
    assert_eq!(
        cache_path_from(s("/c"), s("/x"), s("/h")),
        Some(PathBuf::from("/c/latest.json"))
    );
    assert_eq!(cache_path_from(None, s("/x"), s("/h")), Some(PathBuf::from("/x/cubil/latest.json")));
    assert_eq!(
        cache_path_from(None, None, s("/h")),
        Some(PathBuf::from("/h/.cache/cubil/latest.json"))
    );
    assert_eq!(cache_path_from(None, None, None), None);
}
