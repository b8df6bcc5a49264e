use std::path::PathBuf;

use cubil::commands::roadmap::next::{build_status_lookup, first_not_done};
use cubil::slug::TaskEntry;
use cubil::slug_map::SlugMap;

fn lookup(items: &[(&str, &str)]) -> SlugMap<String> {
    let mut map = SlugMap::new();
    for (s, t) in items {
        map.insert_if_absent((*s).to_string(), (*t).to_string());
    }
    map
}

#[test]
fn returns_first_backlog_task() {
    let map = lookup(&[("a", "done"), ("b", "backlog"), ("c", "backlog")]);
    let src = "- [ ] a\n- [ ] b\n- [ ] c\n";
    assert_eq!(first_not_done(src, &map).as_deref(), Some("b"));
}

#[test]
fn returns_first_doing_task_over_later_backlog() {
    let map = lookup(&[("a", "done"), ("b", "doing"), ("c", "backlog")]);
    let src = "- [ ] a\n- [ ] b\n- [ ] c\n";
    assert_eq!(first_not_done(src, &map).as_deref(), Some("b"));
}

#[test]
fn returns_none_when_all_done() {
    let map = lookup(&[("a", "done"), ("b", "done")]);
    let src = "- [ ] a\n- [ ] b\n";
    assert_eq!(first_not_done(src, &map), None);
}

#[test]
fn returns_none_for_empty_roadmap() {
    let map = lookup(&[]);
    assert_eq!(first_not_done("# Just a title\n", &map), None);
}

#[test]
fn skips_missing_tasks() {
    let map = lookup(&[("a", "done"), ("c", "backlog")]);
    let src = "- [ ] a\n- [ ] missing\n- [ ] c\n";
    assert_eq!(first_not_done(src, &map).as_deref(), Some("c"));
}

#[test]
fn ignores_milestone_headings_and_narrative() {
    let map = lookup(&[("first-task", "backlog")]);
    let src = "\
# Roadmap

Narrative.

## Milestone: M
- [ ] first-task
";
    assert_eq!(first_not_done(src, &map).as_deref(), Some("first-task"));
}

#[test]
fn status_lookup_keeps_first_entry_per_slug() {
    let entries = vec![
        TaskEntry { status: "done".into(), slug: "a".into(), path: PathBuf::from("/d/a.md") },
        TaskEntry { status: "backlog".into(), slug: "a".into(), path: PathBuf::from("/b/a.md") },
        TaskEntry { status: "blocked".into(), slug: "b".into(), path: PathBuf::from("/r/b.md") },
    ];
    let map = build_status_lookup(&entries);
    assert_eq!(map.get("a").map(|s| s.as_str()), Some("done"));
    assert_eq!(map.get("b").map(|s| s.as_str()), Some("blocked"));
    assert!(map.get("c").is_none());
    assert_eq!(first_not_done("- [ ] a\n- [x] b — B\n", &map).as_deref(), Some("b"));
}
