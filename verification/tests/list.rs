use std::cmp::Ordering;
use std::path::PathBuf;

use cubil::commands::list::{
    check_status_filter, cmp_priority, collect_rows, filter_entries, keep_status, push_json_string,
    render_json, render_table, row_lt, sort_rows, Row,
};
use cubil::error::CubilError;
use cubil::frontmatter::TaskMeta;
use cubil::slug::TaskEntry;

fn row(slug: &str, status: &str, priority: Option<u32>, created: Option<&str>) -> Row {
    Row {
        slug: slug.into(),
        status: status.into(),
        priority,
        created: created.map(String::from),
    }
}

#[test]
fn render_table_has_headers_and_aligns_columns() {
    let rows = vec![
        row("a", "backlog", Some(1), Some("2026-04-19")),
        row("long-slug-here", "doing", None, None),
    ];
    let out = render_table(&rows);
    let lines: Vec<&str> = out.lines().collect();
    assert_eq!(lines.len(), 3);
    assert!(lines[0].starts_with("slug"));
    assert!(lines[0].contains("status"));
    assert!(lines[0].contains("priority"));
    assert!(lines[0].contains("created"));
    assert!(lines[1].starts_with("a             "));
    assert!(lines[2].starts_with("long-slug-here"));
    assert!(lines[2].contains("-"));
}

#[test]
fn render_json_emits_nulls_for_missing() {
    let rows = vec![row("tidy-readme", "backlog", None, None)];
    let out = render_json(&rows);
    assert_eq!(
        out,
        r#"[{"slug":"tidy-readme","status":"backlog","priority":null,"created":null}]"#
    );
}

#[test]
fn render_json_emits_number_for_priority() {
    let rows = vec![row("implement-new", "doing", Some(1), Some("2026-04-19"))];
    let out = render_json(&rows);
    assert_eq!(
        out,
        r#"[{"slug":"implement-new","status":"doing","priority":1,"created":"2026-04-19"}]"#
    );
}

#[test]
fn render_json_empty_is_empty_array() {
    assert_eq!(render_json(&[]), "[]");
}

#[test]
fn push_json_string_escapes_quotes_backslash_and_controls() {
    let mut out = String::new();
    push_json_string(&mut out, "a\"b\\c\nd\te\u{01}f");
    assert_eq!(out, r#""a\"b\\c\nd\te\u0001f""#);
}

#[test]
fn cmp_priority_puts_none_last() {
    assert_eq!(cmp_priority(Some(1), Some(2)), Ordering::Less);
    assert_eq!(cmp_priority(Some(1), None), Ordering::Less);
    assert_eq!(cmp_priority(None, Some(1)), Ordering::Greater);
    assert_eq!(cmp_priority(None, None), Ordering::Equal);
}

#[test]
fn render_table_pads_by_char_count_not_byte_len() {
    let rows = vec![
        row("naïve-café", "backlog", Some(1), Some("2026-04-19")),
        row("abcd", "doing", None, None),
    ];
    let out = render_table(&rows);
    let lines: Vec<&str> = out.lines().collect();
    let char_offset = |line: &str, needle: &str| -> usize {
        line.char_indices()
            .position(|(i, _)| line[i..].starts_with(needle))
            .expect("needle present")
    };
    assert_eq!(char_offset(lines[1], "backlog"), 12);
    assert_eq!(char_offset(lines[2], "doing"), 12);
}

#[test]
fn render_table_exact_text_has_no_trailing_padding() {
    let rows = vec![row("a", "backlog", Some(12), None)];
    assert_eq!(
        render_table(&rows),
        "slug  status   priority  created\na     backlog  12        -\n"
    );
    assert_eq!(render_table(&[]), "slug  status  priority  created\n");
}

#[test]
fn keep_status_filters_as_list_does() {
    assert!(keep_status("backlog", false, None));
    assert!(!keep_status("done", false, None));
    assert!(keep_status("done", true, None));
    assert!(keep_status("done", false, Some("done")));
    assert!(!keep_status("doing", true, Some("done")));
}

#[test]
fn sort_rows_orders_by_status_priority_slug() {
    let rows = vec![
        row("z", "doing", None, None),
        row("b", "backlog", None, None),
        row("c", "backlog", Some(2), None),
        row("a", "backlog", None, None),
        row("d", "backlog", Some(1), None),
    ];
    let sorted = sort_rows(rows);
    let slugs: Vec<&str> = sorted.iter().map(|r| r.slug.as_str()).collect();
    assert_eq!(slugs, vec!["d", "c", "a", "b", "z"]);
    assert!(row_lt(&sorted[0], &sorted[1]));
    assert!(!row_lt(&sorted[1], &sorted[0]));
    assert!(sort_rows(Vec::new()).is_empty());
}

#[test]
fn listing_filters_then_sorts() {
    let entry = |status: &str, slug: &str| TaskEntry {
        status: status.to_string(),
        slug: slug.to_string(),
        path: PathBuf::from(format!("/{status}/{slug}.md")),
    };
    let entries = vec![entry("done", "old"), entry("doing", "b"), entry("backlog", "a")];
    let kept = filter_entries(entries, false, None);
    let slugs: Vec<&str> = kept.iter().map(|e| e.slug.as_str()).collect();
    assert_eq!(slugs, vec!["b", "a"]);
    let meta = |p: Option<u32>| TaskMeta { created: None, priority: p, extra: Vec::new() };
    let listed: Vec<(TaskEntry, TaskMeta)> =
        kept.into_iter().zip([meta(None), meta(Some(1))]).collect();
    let rows = collect_rows(listed);
    assert_eq!(rows[0].slug, "a");
    assert_eq!(rows[0].priority, Some(1));
    assert_eq!(rows[1].slug, "b");
    assert!(check_status_filter(None, false).is_ok());
    assert!(check_status_filter(Some("doing"), true).is_ok());
    match check_status_filter(Some("blocked"), false) {
        Err(CubilError::StatusMissing(s)) => assert_eq!(s, "blocked"),
        other => panic!("unexpected {other:?}"),
    }
}
