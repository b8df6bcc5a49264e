use std::path::PathBuf;

use cubil::commands::new::{assemble, iso_date, new_slug, today_iso};
use cubil::error::CubilError;
use cubil::frontmatter::{parse_frontmatter, TaskMeta};
use cubil::slug::TaskEntry;

#[test]
fn today_iso_is_well_formed() {
    let s = today_iso();
    assert_eq!(s.len(), 10);
    assert_eq!(s.as_bytes()[4], b'-');
    assert_eq!(s.as_bytes()[7], b'-');
    assert!(s[0..4].chars().all(|c| c.is_ascii_digit()));
    assert!(s[5..7].chars().all(|c| c.is_ascii_digit()));
    assert!(s[8..10].chars().all(|c| c.is_ascii_digit()));
}

#[test]
fn assemble_empty_body_has_no_trailing_blank_line() {
    let meta = TaskMeta {
        created: Some("2026-04-19".into()),
        priority: None,
        extra: Vec::new(),
    };
    let out = assemble(&meta, "Hello World", "");
    assert_eq!(out, "---\ncreated: 2026-04-19\n---\n\n# Hello World\n");
}

#[test]
fn assemble_with_body_adds_trailing_newline_when_missing() {
    let meta = TaskMeta {
        created: Some("2026-04-19".into()),
        priority: None,
        extra: Vec::new(),
    };
    let out = assemble(&meta, "T", "line");
    assert_eq!(out, "---\ncreated: 2026-04-19\n---\n\n# T\n\nline\n");
}

#[test]
fn assemble_preserves_body_trailing_newlines() {
    let meta = TaskMeta {
        created: Some("2026-04-19".into()),
        priority: None,
        extra: Vec::new(),
    };
    let out = assemble(&meta, "T", "line\n\n");
    assert_eq!(out, "---\ncreated: 2026-04-19\n---\n\n# T\n\nline\n\n");
}

#[test]
fn assembled_task_reads_back() {
    let meta = TaskMeta { created: Some("2026-04-19".into()), priority: None, extra: Vec::new() };
    let out = assemble(&meta, "T", "body");
    let (back, rest) = parse_frontmatter(&out);
    assert_eq!(back, meta);
    assert_eq!(rest, "\n# T\n\nbody\n");
}

#[test]
fn iso_date_pads_like_format() {
    assert_eq!(iso_date(2026, 4, 9), "2026-04-09");
    assert_eq!(iso_date(987, 12, 31), "0987-12-31");
    assert_eq!(iso_date(-5, 1, 1), "-005-01-01");
    assert_eq!(iso_date(12345, 10, 10), "12345-10-10");
    assert_eq!(iso_date(-2026, 1, 1), "-2026-01-01");
    for (y, m, d) in [(2026, 4, 9), (987, 12, 31), (-5, 1, 1), (-2026, 1, 1)] {
        assert_eq!(iso_date(y, m, d), format!("{:04}-{:02}-{:02}", y, m, d));
    }
}

#[test]
fn new_slug_checks_title_and_collisions() {
    let entries = vec![TaskEntry {
        status: "doing".into(),
        slug: "hello-world".into(),
        path: PathBuf::from("/d/hello-world.md"),
    }];
    assert!(matches!(new_slug(&entries, "!!!"), Err(CubilError::InvalidSlug)));
    match new_slug(&entries, "Hello, World") {
        Err(CubilError::SlugCollision { slug, status }) => {
            assert_eq!(slug, "hello-world");
            assert_eq!(status, "doing");
        }
        other => panic!("unexpected {other:?}"),
    }
    assert_eq!(new_slug(&entries, "Another One").unwrap(), "another-one");
}
