use cubil::commands::roadmap::new::assemble;
use cubil::roadmap::extract_roadmap_title;

#[test]
fn assemble_empty_body() {
    assert_eq!(assemble("Migrate", ""), "# Migrate\n");
}

#[test]
fn assemble_with_body_adds_blank_line_and_trailing_newline() {
    assert_eq!(assemble("Migrate", "Narrative."), "# Migrate\n\nNarrative.\n");
}

#[test]
fn new_assemble_preserves_body_trailing_newlines() {
    assert_eq!(assemble("Migrate", "line\n\n"), "# Migrate\n\nline\n\n");
}

#[test]
fn new_roadmap_title_reads_back() {
    let text = assemble("Migrate to Postgres", "# Not the title\n");
    assert_eq!(extract_roadmap_title(&text).as_deref(), Some("Migrate to Postgres"));
}
