//! The roadmap file format: task reference lines, milestone headings and
//! titles, and the status of a referenced task.
use std::path::PathBuf;
use vstd::prelude::*;

use crate::error::CubilError;

use crate::text::{
    chars_of, is_whitespace, is_ws, lemma_trim_end_keeps_first, lemma_trim_end_prefix,
    lemma_trim_start_suffix, line_content, line_content_end, line_spans, lines, push_span,
    push_str, span_eq, span_pieces, span_starts_with, spans_of_lines, split_lines, string_of, trim,
    trim_span, trim_start,
};

verus! {

pub const ROADMAPS_DIR: &'static str = "roadmaps";

pub const MILESTONE_PREFIX: &'static str = "## Milestone: ";

/// What `Path::join` returns for `base` and `part`: `base` with `part`
/// appended as a further component (or `part` alone when it is absolute).
/// It depends on its arguments alone.
pub uninterp spec fn path_joined(base: PathBuf, part: Seq<char>) -> PathBuf;

/// `Path::join`. Its result is named [`path_joined`]; nothing more is stated
/// of the joined path.
#[verifier::external_body]
pub(crate) fn path_join(base: &PathBuf, part: &str) -> (r: PathBuf)
    ensures
        r == path_joined(*base, part@),
{
    base.join(part)
}

/// The file name of roadmap `slug`.
pub fn roadmap_file_name(slug: &str) -> (r: String)
    ensures
        r@ == slug@ + ".md"@,
{
    let mut out: Vec<char> = Vec::new();
    push_str(&mut out, slug);
    push_str(&mut out, ".md");
    string_of(&out)
}

/// Where roadmap `slug` lives: `<root>/roadmaps/<slug>.md`.
pub fn roadmap_path(root: &PathBuf, slug: &str) -> (r: PathBuf)
    ensures
        r == path_joined(path_joined(*root, ROADMAPS_DIR@), slug@ + ".md"@),
{
    let dir = path_join(root, ROADMAPS_DIR);
    let name = roadmap_file_name(slug);
    path_join(&dir, name.as_str())
}

/// Roadmap `slug`, at `path`, exists when that path is a file; otherwise
/// the roadmap is not found.
pub fn resolve_roadmap(path: PathBuf, slug: &str, is_file: bool) -> (r: Result<PathBuf, CubilError>)
    ensures
        is_file ==> r == Ok::<PathBuf, CubilError>(path),
        !is_file ==> (r matches Err(CubilError::RoadmapNotFound(s)) && s@ == slug@),
{
    if !is_file {
        return Err(CubilError::RoadmapNotFound(slug.to_owned()));
    }
    Ok(path)
}

/// Resolved status of a task slug referenced by a roadmap.
#[derive(Debug, Clone, Copy, PartialEq, Eq, Structural)]
pub enum TaskStatus {
    Backlog,
    Doing,
    Done,
    /// Task lives in a status folder other than the three canonical ones.
    Other,
    /// No task file with this slug exists in any status folder.
    Missing,
}

/// The status that a status folder's name stands for.
pub open spec fn status_of_name(name: Seq<char>) -> TaskStatus {
    if name == "backlog"@ {
        TaskStatus::Backlog
    } else if name == "doing"@ {
        TaskStatus::Doing
    } else if name == "done"@ {
        TaskStatus::Done
    } else {
        TaskStatus::Other
    }
}

/// The marker written between the brackets of `- [<x>] slug`.
pub open spec fn checkbox_of(s: TaskStatus) -> char {
    match s {
        TaskStatus::Done => '\u{2713}',
        TaskStatus::Doing => '~',
        TaskStatus::Backlog | TaskStatus::Other => ' ',
        TaskStatus::Missing => '?',
    }
}

impl TaskStatus {
    pub fn from_status_name(name: &str) -> (r: Self)
        ensures
            r == status_of_name(name@),
    {
        let v = chars_of(name);
        assert(v@.subrange(0, v@.len() as int) =~= name@);
        if span_eq(&v, 0, v.len(), "backlog") {
            TaskStatus::Backlog
        } else if span_eq(&v, 0, v.len(), "doing") {
            TaskStatus::Doing
        } else if span_eq(&v, 0, v.len(), "done") {
            TaskStatus::Done
        } else {
            proof {
                assert(v@.subrange(0, v@.len() as int) =~= name@);
            }
            TaskStatus::Other
        }
    }

    /// Marker character rendered between the brackets in `- [<x>] slug`.
    pub fn checkbox(&self) -> (c: char)
        ensures
            c == checkbox_of(*self),
    {
        match self {
            TaskStatus::Done => '\u{2713}',
            TaskStatus::Doing => '~',
            TaskStatus::Backlog | TaskStatus::Other => ' ',
            TaskStatus::Missing => '?',
        }
    }

    pub fn is_done(&self) -> (r: bool)
        ensures
            r == (*self == TaskStatus::Done),
    {
        matches!(self, TaskStatus::Done)
    }

    pub fn is_missing(&self) -> (r: bool)
        ensures
            r == (*self == TaskStatus::Missing),
    {
        matches!(self, TaskStatus::Missing)
    }
}

/// A line parsed as a checkbox-style task reference.
#[derive(Debug, Clone, PartialEq, Eq)]
pub struct TaskLine {
    pub indent: String,
    pub slug: String,
}

// ---------------------------------------------------------------------------
// Slugs
// ---------------------------------------------------------------------------

pub open spec fn is_slug_char(c: char) -> bool {
    ('a' <= c && c <= 'z') || ('0' <= c && c <= '9')
}

/// Lowercase ASCII letters and digits in runs joined by single `-`, with no
/// `-` at either end.
pub open spec fn slug_shaped(s: Seq<char>) -> bool {
    &&& s.len() > 0
    &&& s[0] != '-'
    &&& s.last() != '-'
    &&& forall|i: int| 0 <= i < s.len() ==> (#[trigger] is_slug_char(s[i]) || s[i] == '-')
    &&& forall|i: int| 0 <= i < s.len() - 1 ==> !(#[trigger] s[i] == '-' && s[i + 1] == '-')
}

/// Whether `v[a..b]` is slug-shaped.
pub fn is_slug_shaped_span(v: &Vec<char>, a: usize, b: usize) -> (r: bool)
    requires
        a <= b <= v@.len(),
    ensures
        r == slug_shaped(v@.subrange(a as int, b as int)),
{
    let ghost s = v@.subrange(a as int, b as int);
    if a == b {
        return false;
    }
    if v[a] == '-' || v[b - 1] == '-' {
        assert(s[0] == v@[a as int]);
        assert(s.last() == v@[b - 1]);
        return false;
    }
    let mut prev_dash = false;
    let mut i = a;
    while i < b
        invariant
            a < b <= v@.len(),
            a <= i <= b,
            s == v@.subrange(a as int, b as int),
            forall|j: int| a <= j < i ==> (#[trigger] is_slug_char(v@[j]) || v@[j] == '-'),
            forall|j: int| a <= j < i - 1 ==> !(#[trigger] v@[j] == '-' && v@[j + 1] == '-'),
            prev_dash == (i > a && v@[i - 1] == '-'),
        decreases b - i,
    {
        let c = v[i];
        if c == '-' {
            if prev_dash {
                proof {
                    assert(s[i - 1 - a] == '-' && s[i - a] == '-');
                }
                return false;
            }
            prev_dash = true;
        } else if ('a' <= c && c <= 'z') || ('0' <= c && c <= '9') {
            prev_dash = false;
        } else {
            proof {
                assert(!is_slug_char(s[i - a]) && s[i - a] != '-');
            }
            return false;
        }
        i = i + 1;
    }
    proof {
        assert forall|j: int| 0 <= j < s.len() implies (#[trigger] is_slug_char(s[j]) || s[j]
            == '-') by {
            assert(s[j] == v@[a + j]);
        }
        assert forall|j: int| 0 <= j < s.len() - 1 implies !(#[trigger] s[j] == '-' && s[j + 1]
            == '-') by {
            assert(s[j] == v@[a + j]);
            assert(s[j + 1] == v@[a + j + 1]);
        }
    }
    true
}

/// Whether `s` is slug-shaped.
pub fn is_slug_shaped(s: &str) -> (r: bool)
    ensures
        r == slug_shaped(s@),
{
    let v = chars_of(s);
    proof {
        assert(v@.subrange(0, v@.len() as int) =~= s@);
    }
    is_slug_shaped_span(&v, 0, v.len())
}

// ---------------------------------------------------------------------------
// Task reference lines
// ---------------------------------------------------------------------------

/// Number of leading spaces and tabs.
pub open spec fn indent_len(s: Seq<char>) -> nat
    decreases s.len(),
{
    if s.len() > 0 && (s[0] == ' ' || s[0] == '\t') {
        1 + indent_len(s.drop_first())
    } else {
        0
    }
}

/// Index of the first whitespace character, or the length.
pub open spec fn ws_index(s: Seq<char>) -> nat
    decreases s.len(),
{
    if s.len() == 0 || is_ws(s[0]) {
        0
    } else {
        1 + ws_index(s.drop_first())
    }
}

/// `<indent>- [<x>] <slug>`, optionally followed by whitespace and then
/// text that begins with `'—'` (U+2014): the indent and the slug.
pub open spec fn task_line(s: Seq<char>) -> Option<(Seq<char>, Seq<char>)> {
    let k = indent_len(s) as int;
    let rest = s.skip(k);
    let after = rest.skip(6);
    let slug = after.take(ws_index(after) as int);
    let suffix = trim_start(after.skip(ws_index(after) as int));
    if rest.len() >= 6 && rest.take(3) == "- ["@ && rest.subrange(4, 6) == "] "@ && slug_shaped(slug)
        && (suffix.len() == 0 || suffix[0] == '\u{2014}') {
        Some((s.take(k), slug))
    } else {
        None
    }
}

/// The slug of a task reference line.
pub open spec fn task_slug_in(l: Seq<char>) -> Option<Seq<char>> {
    match task_line(l) {
        Some((_, slug)) => Some(slug),
        None => None,
    }
}

pub proof fn lemma_indent_len(s: Seq<char>, i: int)
    requires
        0 <= i <= s.len(),
        forall|j: int| 0 <= j < i ==> (#[trigger] s[j] == ' ' || s[j] == '\t'),
        i == s.len() || (s[i] != ' ' && s[i] != '\t'),
    ensures
        indent_len(s) == i,
    decreases i,
{
    if i > 0 {
        lemma_indent_len(s.drop_first(), i - 1);
    }
}

pub proof fn lemma_ws_index(s: Seq<char>, i: int)
    requires
        0 <= i <= s.len(),
        forall|j: int| 0 <= j < i ==> !is_ws(#[trigger] s[j]),
        i == s.len() || is_ws(s[i]),
    ensures
        ws_index(s) == i,
    decreases i,
{
    if i > 0 {
        lemma_ws_index(s.drop_first(), i - 1);
    }
}

/// Recognizes a task reference in `v[a..b]`: the bounds of its indent
/// (`a..indent_end`) and of its slug.
pub fn task_line_span(v: &Vec<char>, a: usize, b: usize) -> (r: Option<(usize, usize, usize)>)
    requires
        a <= b <= v@.len(),
    ensures
        match task_line(v@.subrange(a as int, b as int)) {
            Some((indent, slug)) => r is Some && {
                let (ie, ss, se) = r->0;
                &&& a <= ie <= ss <= se <= b
                &&& v@.subrange(a as int, ie as int) == indent
                &&& v@.subrange(ss as int, se as int) == slug
            },
            None => r is None,
        },
{
    let ghost s = v@.subrange(a as int, b as int);
    let mut i = a;
    while i < b && (v[i] == ' ' || v[i] == '\t')
        invariant
            a <= i <= b <= v@.len(),
            forall|j: int| a <= j < i ==> (#[trigger] v@[j] == ' ' || v@[j] == '\t'),
        decreases b - i,
    {
        i = i + 1;
    }
    let ie = i;
    proof {
        assert forall|j: int| 0 <= j < ie - a implies (#[trigger] s[j] == ' ' || s[j] == '\t') by {
            assert(s[j] == v@[a + j]);
        }
        if ie < b {
            assert(s[ie - a] == v@[ie as int]);
        }
        lemma_indent_len(s, ie - a);
    }
    let ghost rest = s.skip(ie - a);
    assert(rest =~= v@.subrange(ie as int, b as int));
    if !(b - ie >= 6 && span_eq(v, ie, ie + 3, "- [") && span_eq(v, ie + 4, ie + 6, "] ")) {
        proof {
            if rest.len() >= 6 {
                assert(rest.take(3) =~= v@.subrange(ie as int, ie + 3));
                assert(rest.subrange(4, 6) =~= v@.subrange(ie + 4, ie + 6));
            }
        }
        return None;
    }
    proof {
        assert(rest.take(3) =~= v@.subrange(ie as int, ie + 3));
        assert(rest.subrange(4, 6) =~= v@.subrange(ie + 4, ie + 6));
    }
    let ss = ie + 6;
    let ghost after = rest.skip(6);
    assert(after =~= v@.subrange(ss as int, b as int));
    let mut j = ss;
    while j < b && !is_whitespace(v[j])
        invariant
            ss <= j <= b <= v@.len(),
            forall|m: int| ss <= m < j ==> !is_ws(#[trigger] v@[m]),
        decreases b - j,
    {
        j = j + 1;
    }
    let se = j;
    proof {
        assert forall|m: int| 0 <= m < se - ss implies !is_ws(#[trigger] after[m]) by {
            assert(after[m] == v@[ss + m]);
        }
        if se < b {
            assert(after[se - ss] == v@[se as int]);
        }
        lemma_ws_index(after, se - ss);
        assert(after.take(se - ss) =~= v@.subrange(ss as int, se as int));
    }
    if !is_slug_shaped_span(v, ss, se) {
        return None;
    }
    let (ts, te) = trim_span(v, se, b);
    let ghost tail = after.skip(se - ss);
    assert(tail =~= v@.subrange(se as int, b as int));
    proof {
        assert(v@.subrange(ts as int, te as int) =~= v@.subrange(se as int, b as int).subrange(
            ts - se,
            te - se,
        ));
        lemma_trim_span_start(v@.subrange(se as int, b as int), ts - se, te - se);
        if ts < te {
            assert(v@.subrange(se as int, b as int)[ts - se] == v@[ts as int]);
        }
    }
    if ts < te && v[ts] != '\u{2014}' {
        return None;
    }
    Some((ie, ss, se))
}

/// If `trim(s) == s[a..b]`, then `trim_start(s)` begins as `s[a..b]` does.
pub proof fn lemma_trim_span_start(s: Seq<char>, a: int, b: int)
    requires
        0 <= a <= b <= s.len(),
        s.subrange(a, b) == trim(s),
    ensures
        (trim_start(s).len() == 0) == (a == b),
        a < b ==> trim_start(s)[0] == s[a],
{
    lemma_trim_start_suffix(s);
    lemma_trim_end_prefix(trim_start(s));
    let t = trim_start(s);
    if t.len() > 0 {
        lemma_trim_end_keeps_first(t);
    }
}

/// Recognize `<indent>- [<x>] <slug>` optionally followed by ` — <anything>`.
///
/// The slug must be slug-shaped, and the text after it (with leading
/// whitespace removed) must be empty or start with `—` (U+2014); other
/// checkbox items are prose and are not task references.
pub fn parse_task_line(line: &str) -> (r: Option<TaskLine>)
    ensures
        match task_line(line@) {
            Some((indent, slug)) => r is Some && r->0.indent@ == indent && r->0.slug@ == slug,
            None => r is None,
        },
{
    let v = chars_of(line);
    proof {
        assert(v@.subrange(0, v@.len() as int) =~= line@);
    }
    match task_line_span(&v, 0, v.len()) {
        Some((ie, ss, se)) => {
            let mut indent: Vec<char> = Vec::new();
            push_span(&mut indent, &v, 0, ie);
            let mut slug: Vec<char> = Vec::new();
            push_span(&mut slug, &v, ss, se);
            Some(TaskLine { indent: string_of(&indent), slug: string_of(&slug) })
        },
        None => None,
    }
}

// ---------------------------------------------------------------------------
// Headings and titles
// ---------------------------------------------------------------------------

/// If `s` starts with `prefix`, and what follows it is not all whitespace,
/// what follows it, trimmed.
pub open spec fn heading_text(s: Seq<char>, prefix: Seq<char>) -> Option<Seq<char>> {
    if prefix.len() <= s.len() && s.take(prefix.len() as int) == prefix && trim(
        s.skip(prefix.len() as int),
    ).len() > 0 {
        Some(trim(s.skip(prefix.len() as int)))
    } else {
        None
    }
}

/// `heading_text(v[a..b], prefix)`, as bounds into `v`.
pub fn heading_span(v: &Vec<char>, a: usize, b: usize, prefix: &str) -> (r: Option<(usize, usize)>)
    requires
        a <= b <= v@.len(),
    ensures
        match heading_text(v@.subrange(a as int, b as int), prefix@) {
            Some(t) => r matches Some((x, y)) && a <= x <= y <= b && v@.subrange(x as int, y as int)
                == t,
            None => r is None,
        },
{
    let ghost s = v@.subrange(a as int, b as int);
    if !span_starts_with(v, a, b, prefix) {
        proof {
            if prefix@.len() <= s.len() {
                assert(s.take(prefix@.len() as int) =~= v@.subrange(a as int, a + prefix@.len()));
            }
        }
        return None;
    }
    let n = prefix.unicode_len();
    proof {
        assert(s.take(prefix@.len() as int) =~= v@.subrange(a as int, a + prefix@.len()));
        assert(s.skip(n as int) =~= v@.subrange(a + n, b as int));
    }
    let (x, y) = trim_span(v, a + n, b);
    if x == y {
        return None;
    }
    Some((x, y))
}

/// `heading_text(line, prefix)`, as a slice of `line`.
fn heading<'a>(line: &'a str, prefix: &str) -> (r: Option<&'a str>)
    ensures
        match heading_text(line@, prefix@) {
            Some(t) => r is Some && r->0@ == t,
            None => r is None,
        },
{
    let v = chars_of(line);
    proof {
        assert(v@.subrange(0, v@.len() as int) =~= line@);
    }
    match heading_span(&v, 0, v.len(), prefix) {
        Some((x, y)) => Some(line.substring_char(x, y)),
        None => None,
    }
}

/// If `line` is a `## Milestone: <name>` heading, return the name (trimmed).
pub fn parse_milestone_heading(line: &str) -> (r: Option<&str>)
    ensures
        match heading_text(line@, "## Milestone: "@) {
            Some(t) => r is Some && r->0@ == t,
            None => r is None,
        },
{
    heading(line, MILESTONE_PREFIX)
}

/// If `line` is a top-level `# <title>` heading, return the title (trimmed).
pub fn parse_top_heading(line: &str) -> (r: Option<&str>)
    ensures
        match heading_text(line@, "# "@) {
            Some(t) => r is Some && r->0@ == t,
            None => r is None,
        },
{
    heading(line, "# ")
}

/// If `line` is any `## ` heading, return its text. A milestone section ends
/// at the next such heading.
pub fn parse_h2_heading(line: &str) -> (r: Option<&str>)
    ensures
        match heading_text(line@, "## "@) {
            Some(t) => r is Some && r->0@ == t,
            None => r is None,
        },
{
    heading(line, "## ")
}

/// The title of the first `# <title>` line among `ls`.
pub open spec fn first_h1(ls: Seq<Seq<char>>) -> Option<Seq<char>>
    decreases ls.len(),
{
    if ls.len() == 0 {
        None
    } else {
        match heading_text(ls[0], "# "@) {
            Some(t) => Some(t),
            None => first_h1(ls.drop_first()),
        }
    }
}

/// The first `# <title>` heading of a file, trimmed.
pub fn extract_first_h1(src: &str) -> (r: Option<&str>)
    ensures
        match first_h1(lines(src@)) {
            Some(t) => r is Some && r->0@ == t,
            None => r is None,
        },
{
    let v = chars_of(src);
    let spans = line_spans(&v);
    let ghost ls = lines(v@);
    let mut k: usize = 0;
    assert(ls.skip(0) =~= ls);
    while k < spans.len()
        invariant
            v@ == src@,
            spans_of_lines(v@, spans@),
            ls == lines(v@),
            k <= spans@.len(),
            first_h1(ls) == first_h1(ls.skip(k as int)),
        decreases spans@.len() - k,
    {
        let (a, b) = spans[k];
        let e = line_content_end(&v, a, b);
        proof {
            assert(span_pieces(v@, spans@)[k as int] == v@.subrange(a as int, b as int));
            assert(ls[k as int] == line_content(split_lines(v@)[k as int]));
            assert(ls.skip(k as int)[0] == ls[k as int]);
            assert(ls.skip(k as int).drop_first() =~= ls.skip(k + 1));
            assert(v@.subrange(a as int, e as int) == ls[k as int]);
        }
        match heading_span(&v, a, e, "# ") {
            Some((x, y)) => {
                return Some(src.substring_char(x, y));
            },
            None => {},
        }
        k = k + 1;
    }
    proof {
        assert(ls.skip(k as int).len() == 0);
    }
    None
}

/// Extract the roadmap title (first `# ` heading) from raw file contents.
pub fn extract_roadmap_title(src: &str) -> (r: Option<String>)
    ensures
        match first_h1(lines(src@)) {
            Some(t) => r is Some && r->0@ == t,
            None => r is None,
        },
{
    match extract_first_h1(src) {
        Some(t) => Some(t.to_owned()),
        None => None,
    }
}

} // verus!
