use std::path::PathBuf;

use cubil::error::CubilError;
use cubil::commands::init::{check_root, init_folders};
use cubil::slug::{is_status_folder, resolve_slug, slug_of_file_name, slugify, TaskEntry};

fn entry(status: &str, slug: &str) -> TaskEntry {
    TaskEntry {
        status: status.to_string(),
        slug: slug.to_string(),
        path: PathBuf::from(format!("/r/.cubil/{status}/{slug}.md")),
    }
}

#[test]
fn slugify_basic() {
    assert_eq!(slugify("Hello World").unwrap(), "hello-world");
}

#[test]
fn slugify_collapses_separators_and_trims() {
    assert_eq!(slugify("  Foo --- Bar / Baz!!!").unwrap(), "foo-bar-baz");
}

#[test]
fn slugify_strips_non_ascii() {
    assert_eq!(slugify("Café résumé").unwrap(), "caf-r-sum");
}

#[test]
fn slugify_preserves_digits() {
    assert_eq!(slugify("release v1.2.3").unwrap(), "release-v1-2-3");
}

#[test]
fn slugify_rejects_empty_result() {
    assert!(matches!(slugify("!!!").unwrap_err(), CubilError::InvalidSlug));
    assert!(matches!(slugify("").unwrap_err(), CubilError::InvalidSlug));
}

#[test]
fn slugify_is_idempotent() {
    let once = slugify("  Mixed CASE -- title_2 ").unwrap();
    assert_eq!(once, "mixed-case-title-2");
    assert_eq!(slugify(&once).unwrap(), once);
}

#[test]
fn resolve_slug_finds_single_match() {
    let entries = vec![entry("backlog", "foo"), entry("doing", "bar")];
    let (status, path) = resolve_slug(entries, "bar").unwrap();
    assert_eq!(status, "doing");
    assert_eq!(path, PathBuf::from("/r/.cubil/doing/bar.md"));
}

#[test]
fn resolve_slug_errors_when_missing() {
    let entries = vec![entry("backlog", "foo")];
    match resolve_slug(entries, "nope") {
        Err(CubilError::SlugNotFound(s)) => assert_eq!(s, "nope"),
        other => panic!("unexpected {other:?}"),
    }
}

#[test]
fn resolve_slug_errors_when_ambiguous() {
    let entries = vec![entry("backlog", "dup"), entry("x", "other"), entry("done", "dup")];
    match resolve_slug(entries, "dup") {
        Err(CubilError::SlugAmbiguous { slug, statuses }) => {
            assert_eq!(slug, "dup");
            assert_eq!(statuses, vec!["backlog".to_string(), "done".to_string()]);
        }
        other => panic!("unexpected {other:?}"),
    }
}

#[test]
fn roadmaps_folder_is_not_a_status() {
    assert!(is_status_folder("backlog"));
    assert!(is_status_folder("blocked"));
    assert!(!is_status_folder("roadmaps"));
    assert_eq!(init_folders(), vec!["backlog", "doing", "done", "roadmaps"]);
}

#[test]
fn task_files_end_in_md() {
    assert_eq!(slug_of_file_name("foo.md").as_deref(), Some("foo"));
    assert_eq!(slug_of_file_name(".md").as_deref(), Some(""));
    assert_eq!(slug_of_file_name("notes.txt"), None);
    assert_eq!(slug_of_file_name(".gitkeep"), None);
    assert_eq!(slug_of_file_name("md"), None);
}

#[test]
fn init_refuses_a_file_named_cubil() {
    let p = PathBuf::from("/w/.cubil");
    assert_eq!(check_root(p.clone(), false, false).unwrap(), p);
    assert_eq!(check_root(p.clone(), true, true).unwrap(), p);
    match check_root(p.clone(), true, false) {
        Err(CubilError::RootIsFile(q)) => assert_eq!(q, p),
        other => panic!("unexpected {other:?}"),
    }
}
