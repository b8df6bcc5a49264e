use cubil::commands::edit::{split_editor, split_words};

#[test]
fn split_editor_handles_args() {
    let (program, rest) = split_editor("code --wait");
    assert_eq!(program, "code");
    assert_eq!(rest, vec!["--wait"]);
}

#[test]
fn split_editor_falls_back_when_empty() {
    let (program, rest) = split_editor("");
    assert_eq!(program, "vi");
    assert!(rest.is_empty());
}

#[test]
fn split_editor_falls_back_when_whitespace_only() {
    let (program, rest) = split_editor("   ");
    assert_eq!(program, "vi");
    assert!(rest.is_empty());
}

#[test]
fn split_words_uses_ascii_whitespace_only() {
    assert_eq!(split_words(" vim\t-O \n\u{c}x\r"), vec!["vim", "-O", "x"]);
    assert_eq!(split_words("a\u{a0}b"), vec!["a\u{a0}b"]);
    assert_eq!(split_words("a\u{b}b"), vec!["a\u{b}b"]);
    let (program, rest) = split_editor("  emacs -nw  --no-splash ");
    assert_eq!(program, "emacs");
    assert_eq!(rest, vec!["-nw", "--no-splash"]);
}
