use std::path::PathBuf;

use cubil::commands::{finish, mv, start, transition};
use cubil::error::CubilError;
use cubil::slug::TaskEntry;

fn entry(status: &str, slug: &str) -> TaskEntry {
    TaskEntry {
        status: status.to_string(),
        slug: slug.to_string(),
        path: PathBuf::from(format!("/r/.cubil/{status}/{slug}.md")),
    }
}

#[test]
fn start_moves_backlog_task_to_doing() {
    let (path, target) = start::run(vec![entry("backlog", "foo")], "foo").unwrap();
    assert_eq!(path, PathBuf::from("/r/.cubil/backlog/foo.md"));
    assert_eq!(target, "doing");
}

#[test]
fn start_refuses_task_in_other_status() {
    let err = start::run(vec![entry("doing", "foo")], "foo").unwrap_err();
    assert_eq!(err.message(), "task `foo` is in `doing`, not `backlog`");
    let err = start::run(vec![entry("done", "foo")], "foo").unwrap_err();
    assert_eq!(err.message(), "task `foo` is in `done`, not `backlog`");
}

#[test]
fn start_reports_missing_and_ambiguous_slugs() {
    let err = start::run(vec![entry("backlog", "foo")], "ghost").unwrap_err();
    assert_eq!(err.message(), "task not found: ghost");
    let err = start::run(vec![entry("backlog", "dup"), entry("done", "dup")], "dup").unwrap_err();
    assert!(err.message().contains("slug `dup` exists in multiple statuses"));
    assert_eq!(err.message(), "slug `dup` exists in multiple statuses: backlog, done");
}

#[test]
fn finish_moves_doing_task_to_done() {
    let (path, target) = finish::run(vec![entry("doing", "foo")], "foo").unwrap();
    assert_eq!(path, PathBuf::from("/r/.cubil/doing/foo.md"));
    assert_eq!(target, "done");
    match finish::run(vec![entry("backlog", "foo")], "foo") {
        Err(CubilError::StatusMismatch { slug, expected, actual }) => {
            assert_eq!((slug.as_str(), expected.as_str(), actual.as_str()), ("foo", "doing", "backlog"));
        }
        other => panic!("unexpected {other:?}"),
    }
    assert!(transition(vec![entry("x", "a")], "a", "x", "y").is_ok());
}

#[test]
fn mv_plan_and_destination_checks() {
    assert!(mv::plan(vec![entry("doing", "foo")], "foo", "doing").unwrap().is_none());
    assert_eq!(
        mv::plan(vec![entry("doing", "foo")], "foo", "done").unwrap(),
        Some(PathBuf::from("/r/.cubil/doing/foo.md"))
    );
    assert!(matches!(
        mv::plan(vec![entry("doing", "foo")], "bar", "done"),
        Err(CubilError::SlugNotFound(_))
    ));
    match mv::check_destination("foo", "blocked", false, false) {
        Err(e @ CubilError::StatusMissing(_)) => {
            assert_eq!(e.message(), "status folder missing: blocked")
        }
        other => panic!("unexpected {other:?}"),
    }
    match mv::check_destination("foo", "blocked", true, true) {
        Err(e @ CubilError::SlugCollision { .. }) => {
            assert_eq!(e.message(), "slug `foo` already exists in blocked/")
        }
        other => panic!("unexpected {other:?}"),
    }
    assert!(mv::check_destination("foo", "blocked", true, false).is_ok());
}
