use cubil::frontmatter::{parse_frontmatter, render_frontmatter, TaskMeta};

#[test]
fn no_frontmatter_returns_default_and_full_input() {
    let src = "# Just a title\n\nBody here.\n";
    let (meta, body) = parse_frontmatter(src);
    assert_eq!(meta, TaskMeta::default());
    assert_eq!(body, src);
}

#[test]
fn parses_created_and_priority() {
    let src = "---\ncreated: 2026-04-19\npriority: 2\n---\nBody\n";
    let (meta, body) = parse_frontmatter(src);
    assert_eq!(meta.created.as_deref(), Some("2026-04-19"));
    assert_eq!(meta.priority, Some(2));
    assert!(meta.extra.is_empty());
    assert_eq!(body, "Body\n");
}

#[test]
fn preserves_unknown_keys_in_extra() {
    let src = "---\ncreated: 2026-04-19\nowner: alice\ntags: foo,bar\n---\n";
    let (meta, body) = parse_frontmatter(src);
    assert_eq!(meta.created.as_deref(), Some("2026-04-19"));
    assert_eq!(meta.extra, vec!["owner: alice", "tags: foo,bar"]);
    assert_eq!(body, "");
}

#[test]
fn round_trip_preserves_known_and_extra() {
    let text = "---\ncreated: 2026-04-19\npriority: 1\nowner: alice\n---\nhello\n";
    let (meta, body) = parse_frontmatter(text);
    let rendered = format!("{}{}", render_frontmatter(&meta), body);
    assert_eq!(rendered, text);
}

#[test]
fn missing_closing_delimiter_treats_as_no_frontmatter() {
    let src = "---\ncreated: 2026-04-19\nno closing here\n";
    let (meta, body) = parse_frontmatter(src);
    assert_eq!(meta, TaskMeta::default());
    assert_eq!(body, src);
}

#[test]
fn invalid_priority_falls_into_extra() {
    let src = "---\npriority: high\n---\n";
    let (meta, _) = parse_frontmatter(src);
    assert_eq!(meta.priority, None);
    assert_eq!(meta.extra, vec!["priority: high"]);
}

#[test]
fn render_default_meta_is_empty() {
    assert_eq!(render_frontmatter(&TaskMeta::default()), "");
}

#[test]
fn round_trip_no_frontmatter_is_lossless() {
    let src = "# Just a title\n\nBody here.\n";
    let (meta, body) = parse_frontmatter(src);
    let rendered = format!("{}{}", render_frontmatter(&meta), body);
    assert_eq!(rendered, src);
}

#[test]
fn value_preserves_embedded_colons() {
    let src = "---\ncreated: 2026-04-19T00:00:00Z\n---\n";
    let (meta, _) = parse_frontmatter(src);
    assert_eq!(meta.created.as_deref(), Some("2026-04-19T00:00:00Z"));
}

#[test]
fn render_then_parse_gives_back_meta_and_body() {
    let meta = TaskMeta {
        created: Some("2026-04-19".to_string()),
        priority: Some(3),
        extra: vec!["owner: bob".to_string()],
    };
    let text = format!("{}# T\n", render_frontmatter(&meta));
    assert_eq!(text, "---\ncreated: 2026-04-19\npriority: 3\nowner: bob\n---\n# T\n");
    let (back, body) = parse_frontmatter(&text);
    assert_eq!(back, meta);
    assert_eq!(body, "# T\n");
}

#[test]
fn crlf_delimiters_and_blank_header_lines() {
    let src = "---\r\ncreated:  2026-01-02 \r\n\r\npriority: +7\r\n---\r\nrest";
    let (meta, body) = parse_frontmatter(src);
    assert_eq!(meta.created.as_deref(), Some("2026-01-02"));
    assert_eq!(meta.priority, Some(7));
    assert!(meta.extra.is_empty());
    assert_eq!(body, "rest");
}
