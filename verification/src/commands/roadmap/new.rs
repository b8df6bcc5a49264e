//! `cubil roadmap new`: the contents of a new roadmap file.
use vstd::prelude::*;

use crate::commands::new::{body_block, push_body_block};
use crate::roadmap::{first_h1, heading_text};
use crate::text::{
    is_ws, lemma_split_lines_append, lemma_split_one_line, lemma_trim_end_prefix, lemma_trim_start_suffix, line_content,
    lines, push_str, split_lines, string_of, trim, trim_end, trim_start,
};

verus! {

/// A new roadmap: plain Markdown with a top-level `# <title>` heading, then
/// the optional narrative after a blank line; no frontmatter.
pub fn assemble(title: &str, body: &str) -> (r: String)
    ensures
        r@ == "# "@ + title@ + "\n"@ + body_block(body@),
{
    let mut out: Vec<char> = Vec::new();
    push_str(&mut out, "# ");
    push_str(&mut out, title);
    push_str(&mut out, "\n");
    push_body_block(&mut out, body);
    string_of(&out)
}

/// The title a new roadmap was created with is the title read back from it
/// (the one `cubil roadmap list` shows), for a one-line title with no
/// surrounding whitespace.
pub proof fn lemma_new_roadmap_title(title: Seq<char>, body: Seq<char>)
    requires
        title.len() > 0,
        forall|i: int| 0 <= i < title.len() ==> title[i] != '\n',
        trim(title) == title,
    ensures
        first_h1(lines("# "@ + title + "\n"@ + body_block(body))) == Some(title),
{
    reveal_strlit("# ");
    reveal_strlit("\n");
    let l = "# "@ + title;
    let first = l.push('\n');
    let s = "# "@ + title + "\n"@ + body_block(body);
    assert(s =~= first + body_block(body));
    assert forall|i: int| 0 <= i < l.len() implies l[i] != '\n' by {
        if i >= 2 {
            assert(l[i] == title[i - 2]);
        }
    }
    lemma_split_one_line(l);
    lemma_split_lines_append(first, body_block(body));
    assert(split_lines(s)[0] == first);
    assert(lines(s)[0] == line_content(first));
    lemma_trim_start_suffix(title);
    lemma_trim_end_prefix(trim_start(title));
    assert(trim_start(title) =~= title);
    assert(title.last() != '\r') by {
        assert(!is_ws(trim_end(trim_start(title)).last()));
    }
    assert(first.drop_last() =~= l);
    assert(line_content(first) == l);
    assert(l.take(2) =~= "# "@);
    assert(l.skip(2) =~= title);
    assert(heading_text(l, "# "@) == Some(title));
}

} // verus!
