use std::path::PathBuf;

use cubil::error::CubilError;
use cubil::roadmap::{
    extract_roadmap_title, is_slug_shaped, parse_h2_heading, parse_milestone_heading,
    parse_task_line, parse_top_heading, resolve_roadmap, roadmap_file_name, roadmap_path,
    TaskStatus,
};

#[test]
fn parse_task_line_bare() {
    let l = parse_task_line("- [ ] foo").unwrap();
    assert_eq!(l.indent, "");
    assert_eq!(l.slug, "foo");
}

#[test]
fn parse_task_line_with_indent() {
    let l = parse_task_line("  - [✓] my-slug — Title").unwrap();
    assert_eq!(l.indent, "  ");
    assert_eq!(l.slug, "my-slug");
}

#[test]
fn parse_task_line_recognizes_all_checkboxes() {
    for c in [' ', '~', '✓', '?', 'x', 'X'] {
        let line = format!("- [{c}] foo");
        assert!(parse_task_line(&line).is_some(), "should parse: {line}");
    }
}

#[test]
fn parse_task_line_rejects_non_slug_text() {
    assert!(parse_task_line("- [ ] Buy milk").is_none());
    assert!(parse_task_line("- [ ] UPPER").is_none());
    assert!(parse_task_line("- [ ] -leading-dash").is_none());
    assert!(parse_task_line("- [ ] trailing-dash-").is_none());
    assert!(parse_task_line("- [ ] double--dash").is_none());
}

#[test]
fn parse_task_line_rejects_prose_after_slug_shaped_word() {
    assert!(parse_task_line("- [ ] write the docs").is_none());
    assert!(parse_task_line("- [ ] foo bar baz").is_none());
}

#[test]
fn parse_task_line_accepts_em_dash_title() {
    let l = parse_task_line("- [✓] foo \u{2014} The Foo Title").unwrap();
    assert_eq!(l.slug, "foo");
}

#[test]
fn parse_task_line_rejects_non_checkbox_lines() {
    assert!(parse_task_line("- foo").is_none());
    assert!(parse_task_line("foo").is_none());
    assert!(parse_task_line("# foo").is_none());
    assert!(parse_task_line("## Milestone: foo").is_none());
}

#[test]
fn parse_task_line_keeps_tab_indent_and_ignores_trailing_space() {
    let l = parse_task_line("\t- [~] a-1   ").unwrap();
    assert_eq!(l.indent, "\t");
    assert_eq!(l.slug, "a-1");
    assert!(parse_task_line("- [] foo").is_none());
    assert!(parse_task_line("- [ ]foo").is_none());
}

#[test]
fn parse_milestone_heading_recognizes() {
    assert_eq!(parse_milestone_heading("## Milestone: Schema ready"), Some("Schema ready"));
    assert_eq!(parse_milestone_heading("## Milestone:   Padded  "), Some("Padded"));
}

#[test]
fn parse_milestone_heading_rejects_non_milestone() {
    assert!(parse_milestone_heading("# Title").is_none());
    assert!(parse_milestone_heading("## Other").is_none());
    assert!(parse_milestone_heading("## Milestone:").is_none());
}

#[test]
fn parse_top_heading_recognizes() {
    assert_eq!(parse_top_heading("# Migrate to Postgres"), Some("Migrate to Postgres"));
}

#[test]
fn parse_top_heading_rejects_other() {
    assert!(parse_top_heading("## Sub").is_none());
    assert!(parse_top_heading("Title").is_none());
    assert!(parse_top_heading("# ").is_none());
}

#[test]
fn parse_h2_heading_takes_any_second_level_heading() {
    assert_eq!(parse_h2_heading("## Milestone: A"), Some("Milestone: A"));
    assert_eq!(parse_h2_heading("##   Notes "), Some("Notes"));
    assert!(parse_h2_heading("# Title").is_none());
    assert!(parse_h2_heading("###").is_none());
    assert!(parse_h2_heading("## ").is_none());
}

#[test]
fn extract_roadmap_title_finds_first_h1() {
    let src = "# Migrate\n\n## Milestone: A\n";
    assert_eq!(extract_roadmap_title(src).as_deref(), Some("Migrate"));
}

#[test]
fn extract_roadmap_title_none_when_absent() {
    let src = "## Milestone: A\n- [ ] x\n";
    assert_eq!(extract_roadmap_title(src), None);
}

#[test]
fn extract_roadmap_title_skips_lines_before_and_strips_crlf() {
    let src = "intro\r\n#  Second \r\n# Third\n";
    assert_eq!(extract_roadmap_title(src).as_deref(), Some("Second"));
}

#[test]
fn task_status_checkbox() {
    assert_eq!(TaskStatus::Backlog.checkbox(), ' ');
    assert_eq!(TaskStatus::Doing.checkbox(), '~');
    assert_eq!(TaskStatus::Done.checkbox(), '✓');
    assert_eq!(TaskStatus::Other.checkbox(), ' ');
    assert_eq!(TaskStatus::Missing.checkbox(), '?');
}

#[test]
fn task_status_from_status_name() {
    assert_eq!(TaskStatus::from_status_name("backlog"), TaskStatus::Backlog);
    assert_eq!(TaskStatus::from_status_name("doing"), TaskStatus::Doing);
    assert_eq!(TaskStatus::from_status_name("done"), TaskStatus::Done);
    assert_eq!(TaskStatus::from_status_name("blocked"), TaskStatus::Other);
    assert_eq!(TaskStatus::from_status_name("Done"), TaskStatus::Other);
    assert!(TaskStatus::Done.is_done());
    assert!(!TaskStatus::Doing.is_done());
    assert!(TaskStatus::Missing.is_missing());
    assert!(!TaskStatus::Other.is_missing());
}

#[test]
fn is_slug_shaped_accepts_normal() {
    assert!(is_slug_shaped("foo"));
    assert!(is_slug_shaped("foo-bar"));
    assert!(is_slug_shaped("a1b2"));
    assert!(is_slug_shaped("foo-bar-baz-1-2-3"));
}

#[test]
fn is_slug_shaped_rejects_bad() {
    assert!(!is_slug_shaped(""));
    assert!(!is_slug_shaped("Foo"));
    assert!(!is_slug_shaped("foo bar"));
    assert!(!is_slug_shaped("-foo"));
    assert!(!is_slug_shaped("foo-"));
    assert!(!is_slug_shaped("foo--bar"));
}

#[test]
fn resolve_roadmap_requires_a_file() {
    let path = PathBuf::from("/tmp/roadmaps/r.md");
    assert_eq!(resolve_roadmap(path.clone(), "r", true).unwrap(), path);
    match resolve_roadmap(path, "r", false) {
        Err(CubilError::RoadmapNotFound(s)) => assert_eq!(s, "r"),
        other => panic!("unexpected {other:?}"),
    }
    assert_eq!(roadmap_file_name("migrate"), "migrate.md");
}

#[test]
fn roadmap_path_joins_folder_and_file_name() {
    let root = PathBuf::from("/w/.cubil");
    assert_eq!(roadmap_path(&root, "migrate"), PathBuf::from("/w/.cubil/roadmaps/migrate.md"));
}
