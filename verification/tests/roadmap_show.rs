use std::path::PathBuf;

use cubil::commands::roadmap::show::{
    add_title, build_lookup, referenced_slugs, render_task_line, rewrite, TaskInfo,
};
use cubil::roadmap::{parse_task_line, TaskStatus};
use cubil::slug::TaskEntry;
use cubil::slug_map::SlugMap;

fn maps(
    items: &[(&str, &str, Option<&str>)],
) -> (SlugMap<(String, PathBuf)>, SlugMap<Option<String>>) {
    let mut lookup = SlugMap::new();
    let mut titles = SlugMap::new();
    for (slug, status, title) in items {
        lookup.insert_if_absent(
            (*slug).to_string(),
            ((*status).to_string(), PathBuf::from(format!("/x/{status}/{slug}.md"))),
        );
        titles.insert_if_absent((*slug).to_string(), title.map(String::from));
    }
    (lookup, titles)
}

#[test]
fn rewrite_resolves_all_status_markers() {
    let (lookup, titles) = maps(&[
        ("a", "done", Some("Task A")),
        ("b", "doing", Some("Task B")),
        ("c", "backlog", Some("Task C")),
    ]);
    let src = "\
# Roadmap

## Milestone: M
- [ ] a
- [ ] b
- [ ] c
- [ ] missing-task
";
    let out = rewrite(src, &lookup, &titles);
    let expected = "\
# Roadmap

## Milestone: M
- [\u{2713}] a \u{2014} Task A
- [~] b \u{2014} Task B
- [ ] c \u{2014} Task C
- [?] missing-task \u{2014} (missing)
";
    assert_eq!(out, expected);
}

#[test]
fn rewrite_preserves_non_task_lines_byte_for_byte() {
    let (lookup, titles) = maps(&[("a", "done", Some("A"))]);
    let src = "\
# Title

Some narrative.

## Milestone: First
Notes inside section.
- [ ] a
  - sub bullet
- not a checkbox
";
    let out = rewrite(src, &lookup, &titles);
    assert!(out.contains("Some narrative.\n"));
    assert!(out.contains("Notes inside section.\n"));
    assert!(out.contains("  - sub bullet\n"));
    assert!(out.contains("- not a checkbox\n"));
    assert!(out.contains("- [\u{2713}] a \u{2014} A\n"));
}

#[test]
fn rewrite_handles_already_resolved_lines() {
    let (lookup, titles) = maps(&[("a", "done", Some("New Title"))]);
    let src = "- [ ] a — Old Title\n";
    let out = rewrite(src, &lookup, &titles);
    assert_eq!(out, "- [\u{2713}] a \u{2014} New Title\n");
}

#[test]
fn rewrite_uses_untitled_when_task_has_no_h1() {
    let (lookup, titles) = maps(&[("a", "done", None)]);
    let src = "- [ ] a\n";
    let out = rewrite(src, &lookup, &titles);
    assert_eq!(out, "- [\u{2713}] a \u{2014} (untitled)\n");
}

#[test]
fn rewrite_treats_unknown_status_as_backlog_marker() {
    let (lookup, titles) = maps(&[("a", "blocked", Some("A"))]);
    let src = "- [✓] a — Old\n";
    let out = rewrite(src, &lookup, &titles);
    assert_eq!(out, "- [ ] a \u{2014} A\n");
}

#[test]
fn rewrite_keeps_line_endings_and_indent() {
    let (lookup, titles) = maps(&[("a", "doing", Some("A"))]);
    let src = "  - [ ] a\r\n- [ ] free text\r\n- [ ] a";
    let out = rewrite(src, &lookup, &titles);
    assert_eq!(out, "  - [~] a \u{2014} A\r\n- [ ] free text\r\n- [~] a \u{2014} A");
}

#[test]
fn rewrite_twice_changes_nothing() {
    let (lookup, titles) = maps(&[("a", "done", Some("A")), ("b", "doing", None)]);
    let src = "# R\n- [ ] a\n- [?] b — old\n- [ ] gone\ntext";
    let once = rewrite(src, &lookup, &titles);
    assert_eq!(rewrite(&once, &lookup, &titles), once);
}

#[test]
fn referenced_slugs_in_order() {
    let src = "# R\n- [ ] b\n  - [x] a — A\n- [ ] write the docs\n- [ ] b\n";
    assert_eq!(referenced_slugs(src), vec!["b", "a", "b"]);
}

#[test]
fn render_task_line_forms() {
    let info = TaskInfo { status: TaskStatus::Missing, title: Some("ignored".into()) };
    assert_eq!(render_task_line("", "x", &info), "- [?] x \u{2014} (missing)");
    let info = TaskInfo { status: TaskStatus::Other, title: Some("T".into()) };
    assert_eq!(render_task_line("\t", "x", &info), "\t- [ ] x \u{2014} T");
}

#[test]
fn build_lookup_first_entry_wins() {
    let entries = vec![
        TaskEntry { status: "backlog".into(), slug: "a".into(), path: PathBuf::from("/b/a.md") },
        TaskEntry { status: "done".into(), slug: "a".into(), path: PathBuf::from("/d/a.md") },
    ];
    let lookup = build_lookup(entries);
    let (status, path) = lookup.get("a").unwrap();
    assert_eq!(status, "backlog");
    assert_eq!(path, &PathBuf::from("/b/a.md"));
}

#[test]
fn rendered_line_parses_back() {
    let info = TaskInfo { status: TaskStatus::Done, title: Some("Has — dash and  spaces".into()) };
    let line = render_task_line("  ", "my-task", &info);
    let parsed = parse_task_line(&line).unwrap();
    assert_eq!(parsed.indent, "  ");
    assert_eq!(parsed.slug, "my-task");
}

#[test]
fn titles_read_from_files_rewrite_stably() {
    let (lookup, _) = maps(&[("a", "done", None), ("b", "doing", None)]);
    let mut titles: SlugMap<Option<String>> = SlugMap::new();
    add_title(&mut titles, "a".to_string(), "---\npriority: 1\n---\n#  Task A \r\nbody\n");
    add_title(&mut titles, "b".to_string(), "no heading\n");
    add_title(&mut titles, "a".to_string(), "# Other\n");
    assert_eq!(titles.get("a"), Some(&Some("Task A".to_string())));
    assert_eq!(titles.get("b"), Some(&None));
    let once = rewrite("- [ ] a\n- [ ] b\r\n", &lookup, &titles);
    assert_eq!(once, "- [\u{2713}] a \u{2014} Task A\n- [~] b \u{2014} (untitled)\r\n");
    assert_eq!(rewrite(&once, &lookup, &titles), once);
}
