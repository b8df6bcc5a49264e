use cubil::commands::roadmap::list::{render_json, render_table, sort_slugs, Row};

fn row(slug: &str, title: Option<&str>) -> Row {
    Row {
        slug: slug.into(),
        title: title.map(String::from),
    }
}

#[test]
fn render_table_has_headers() {
    let rows = vec![row("foo", Some("Foo Roadmap")), row("bar", None)];
    let out = render_table(&rows);
    let lines: Vec<&str> = out.lines().collect();
    assert_eq!(lines.len(), 3);
    assert!(lines[0].starts_with("slug"));
    assert!(lines[0].contains("title"));
}

#[test]
fn render_table_pads_slug_column() {
    let rows = vec![row("a", Some("X")), row("long-slug", Some("Y"))];
    let out = render_table(&rows);
    let lines: Vec<&str> = out.lines().collect();
    assert!(lines[1].starts_with("a        "));
    assert!(lines[2].starts_with("long-slug"));
}

#[test]
fn render_json_emits_null_for_missing_title() {
    let rows = vec![row("foo", None)];
    assert_eq!(render_json(&rows), r#"[{"slug":"foo","title":null}]"#);
}

#[test]
fn render_json_empty() {
    assert_eq!(render_json(&[]), "[]");
}

#[test]
fn render_json_escapes_title() {
    let rows = vec![row("foo", Some("a\"b"))];
    assert_eq!(render_json(&rows), r#"[{"slug":"foo","title":"a\"b"}]"#);
}

#[test]
fn render_table_exact_text() {
    let rows = vec![row("alpha", Some("Alpha")), row("z", None)];
    assert_eq!(render_table(&rows), "slug   title\nalpha  Alpha\nz      -\n");
}

#[test]
fn sort_slugs_orders_by_code_point() {
    let slugs = vec!["zebra".to_string(), "alpha".to_string(), "Beta".to_string(), "alp".to_string()];
    assert_eq!(sort_slugs(slugs), vec!["Beta", "alp", "alpha", "zebra"]);
}
