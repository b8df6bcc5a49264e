use std::path::PathBuf;

use cubil::commands::roadmap::add::{add_task, find_existing_task, insert_task_line, task_exists};
use cubil::error::CubilError;
use cubil::slug::TaskEntry;

#[test]
fn insert_into_file_with_no_milestones_appends_at_eof() {
    let src = "# Roadmap\n\nNarrative.\n";
    let out = insert_task_line(src, None, "r", "task-1").unwrap();
    assert_eq!(out, "# Roadmap\n\nNarrative.\n- [ ] task-1\n");
}

#[test]
fn insert_into_file_with_no_trailing_newline_adds_one() {
    let src = "# Roadmap";
    let out = insert_task_line(src, None, "r", "task-1").unwrap();
    assert_eq!(out, "# Roadmap\n- [ ] task-1\n");
}

#[test]
fn default_appends_to_last_milestone() {
    let src = "\
# Roadmap

## Milestone: A
- [ ] task-1

## Milestone: B
- [ ] task-3
";
    let out = insert_task_line(src, None, "r", "task-4").unwrap();
    let expected = "\
# Roadmap

## Milestone: A
- [ ] task-1

## Milestone: B
- [ ] task-3
- [ ] task-4
";
    assert_eq!(out, expected);
}

#[test]
fn named_milestone_inserts_before_trailing_blank() {
    let src = "\
# Roadmap

## Milestone: A
- [ ] task-1
- [ ] task-2

## Milestone: B
- [ ] task-3
";
    let out = insert_task_line(src, Some("A"), "r", "task-x").unwrap();
    let expected = "\
# Roadmap

## Milestone: A
- [ ] task-1
- [ ] task-2
- [ ] task-x

## Milestone: B
- [ ] task-3
";
    assert_eq!(out, expected);
}

#[test]
fn named_milestone_with_no_body_inserts_right_after_heading() {
    let src = "\
## Milestone: A
## Milestone: B
- [ ] task-3
";
    let out = insert_task_line(src, Some("A"), "r", "task-x").unwrap();
    let expected = "\
## Milestone: A
- [ ] task-x
## Milestone: B
- [ ] task-3
";
    assert_eq!(out, expected);
}

#[test]
fn named_milestone_missing_lists_available() {
    let src = "## Milestone: A\n- [ ] x\n## Milestone: B\n";
    let err = insert_task_line(src, Some("Z"), "rmap", "task-x").unwrap_err();
    match err {
        CubilError::MilestoneNotFound {
            roadmap,
            milestone,
            available,
        } => {
            assert_eq!(roadmap, "rmap");
            assert_eq!(milestone, "Z");
            assert_eq!(available, vec!["A".to_string(), "B".to_string()]);
        }
        other => panic!("expected MilestoneNotFound, got {other:?}"),
    }
}

#[test]
fn named_milestone_ambiguous_errors() {
    let src = "## Milestone: A\n- [ ] x\n## Milestone: A\n";
    let err = insert_task_line(src, Some("A"), "rmap", "task-x").unwrap_err();
    assert!(matches!(err, CubilError::MilestoneAmbiguous { .. }));
}

#[test]
fn case_sensitive_milestone_match() {
    let src = "## Milestone: Schema ready\n";
    let err = insert_task_line(src, Some("schema ready"), "rmap", "task-x").unwrap_err();
    assert!(matches!(err, CubilError::MilestoneNotFound { .. }));
}

#[test]
fn find_existing_task_detects_anywhere() {
    let src = "## Milestone: A\n- [ ] foo\n## Milestone: B\n- [✓] bar — Title\n";
    assert!(find_existing_task(src, "foo"));
    assert!(find_existing_task(src, "bar"));
    assert!(!find_existing_task(src, "baz"));
}

#[test]
fn find_existing_task_ignores_non_slug_checkboxes() {
    let src = "- [ ] write the docs\n";
    assert!(!find_existing_task(src, "write"));
}

#[test]
fn insert_into_section_with_narrative_no_tasks() {
    let src = "## Milestone: A\nSome notes.\n## Milestone: B\n";
    let out = insert_task_line(src, Some("A"), "r", "task-x").unwrap();
    let expected = "## Milestone: A\nSome notes.\n- [ ] task-x\n## Milestone: B\n";
    assert_eq!(out, expected);
}

#[test]
fn insert_into_empty_file_and_crlf_file() {
    assert_eq!(insert_task_line("", None, "r", "t").unwrap(), "- [ ] t\n");
    assert_eq!(
        insert_task_line("## Milestone: A\r\n- [ ] a\r\n\r\n", None, "r", "t").unwrap(),
        "## Milestone: A\r\n- [ ] a\r\n- [ ] t\n\r\n"
    );
}

#[test]
fn section_ends_at_any_second_level_heading() {
    let src = "## Milestone: A\n- [ ] a\n## Notes\ntext\n";
    assert_eq!(
        insert_task_line(src, None, "r", "t").unwrap(),
        "## Milestone: A\n- [ ] a\n- [ ] t\n## Notes\ntext\n"
    );
}

#[test]
fn added_task_is_found_afterwards() {
    let src = "# R\n\n## Milestone: A\n- [ ] a — A\n\n## Milestone: B\n";
    for m in [None, Some("A"), Some("B")] {
        let out = insert_task_line(src, m, "r", "new-task").unwrap();
        assert!(find_existing_task(&out, "new-task"));
        assert!(find_existing_task(&out, "a"));
    }
}

fn entry(status: &str, slug: &str) -> TaskEntry {
    TaskEntry {
        status: status.to_string(),
        slug: slug.to_string(),
        path: PathBuf::from(format!("/r/{status}/{slug}.md")),
    }
}

#[test]
fn add_task_checks_task_and_duplicates() {
    let entries = vec![entry("backlog", "task-x"), entry("done", "earlier")];
    let src = "## Milestone: A\n- [ ] earlier\n";
    assert!(task_exists(&entries, "task-x"));
    assert!(!task_exists(&entries, "ghost"));
    match add_task(&entries, src, "r", "ghost", None) {
        Err(CubilError::SlugNotFound(s)) => assert_eq!(s, "ghost"),
        other => panic!("unexpected {other:?}"),
    }
    match add_task(&entries, src, "r", "earlier", None) {
        Err(CubilError::TaskAlreadyInRoadmap { roadmap, task }) => {
            assert_eq!(roadmap, "r");
            assert_eq!(task, "earlier");
        }
        other => panic!("unexpected {other:?}"),
    }
    assert_eq!(
        add_task(&entries, src, "r", "task-x", Some("A")).unwrap(),
        "## Milestone: A\n- [ ] earlier\n- [ ] task-x\n"
    );
    assert!(matches!(
        add_task(&entries, src, "r", "task-x", Some("Z")),
        Err(CubilError::MilestoneNotFound { .. })
    ));
}
