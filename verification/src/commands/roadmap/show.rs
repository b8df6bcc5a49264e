//! `cubil roadmap show`: rewrite each task line of a roadmap with the task's
//! current status and title; every other line passes through unchanged.
use std::path::PathBuf;
use vstd::prelude::*;

use crate::commands::list::opt_view;
use crate::roadmap::{
    extract_roadmap_title, first_h1, heading_text, checkbox_of, indent_len, is_slug_char, slug_shaped, status_of_name, task_line,
    task_line_span, task_slug_in, TaskStatus,
};
use crate::slug::{with_slug, TaskEntry};
use crate::slug_map::SlugMap;
use crate::text::{
    chars_of, is_ws, line_content, line_content_end, line_spans, lines, push_span, push_str,
    span_pieces, spans_of_lines, split_lines, string_of, trim_end, trim_start,
};

verus! {

/// What a roadmap line shows for a referenced task.
pub struct TaskInfo {
    pub status: TaskStatus,
    pub title: Option<String>,
}

/// The text after the em dash: `(missing)` for a task with no file, else
/// its title, or `(untitled)` when it has none.
pub open spec fn suffix_of(status: TaskStatus, title: Option<Seq<char>>) -> Seq<char> {
    if status == TaskStatus::Missing {
        "(missing)"@
    } else {
        match title {
            Some(t) => t,
            None => "(untitled)"@,
        }
    }
}

/// `<indent>- [<checkbox>] <slug> — <suffix>`.
pub open spec fn rendered(indent: Seq<char>, slug: Seq<char>, status: TaskStatus, title: Option<Seq<char>>) -> Seq<char> {
    indent + "- ["@ + seq![checkbox_of(status)] + "] "@ + slug + " \u{2014} "@ + suffix_of(
        status,
        title,
    )
}

/// Renders a resolved task line.
pub fn render_task_line(indent: &str, slug: &str, info: &TaskInfo) -> (r: String)
    ensures
        r@ == rendered(indent@, slug@, info.status, opt_view(info.title)),
{
    let mut out: Vec<char> = Vec::new();
    push_str(&mut out, indent);
    push_str(&mut out, "- [");
    out.push(info.status.checkbox());
    push_str(&mut out, "] ");
    push_str(&mut out, slug);
    push_str(&mut out, " \u{2014} ");
    if info.status.is_missing() {
        push_str(&mut out, "(missing)");
    } else {
        match &info.title {
            Some(t) => push_str(&mut out, t.as_str()),
            None => push_str(&mut out, "(untitled)"),
        }
    }
    string_of(&out)
}

/// For each slug, the status folder and path of its first entry.
pub open spec fn entry_map(es: Seq<TaskEntry>) -> Map<Seq<char>, (String, PathBuf)>
    decreases es.len(),
{
    if es.len() == 0 {
        Map::empty()
    } else {
        let m = entry_map(es.drop_last());
        if m.contains_key(es.last().slug@) {
            m
        } else {
            m.insert(es.last().slug@, (es.last().status, es.last().path))
        }
    }
}

/// Maps each slug to the status folder and path of its task file. When a
/// slug is in several folders, the first entry wins: rendering picks one,
/// and `cubil list` or `cubil show` reveal the duplicate.
pub fn build_lookup(entries: Vec<TaskEntry>) -> (r: SlugMap<(String, PathBuf)>)
    ensures
        r@ == entry_map(entries@),
{
    let ghost es = entries@;
    let mut map: SlugMap<(String, PathBuf)> = SlugMap::new();
    let mut entries = entries;
    let mut i: usize = 0;
    let n = entries.len();
    while i < n
        invariant
            n == es.len(),
            i <= n,
            entries@ == es.skip(i as int),
            map@ == entry_map(es.take(i as int)),
        decreases n - i,
    {
        let e = entries.remove(0);
        proof {
            assert(e == es[i as int]);
            assert(es.take(i + 1).drop_last() =~= es.take(i as int));
            assert(es.take(i + 1).last() == es[i as int]);
            assert(entries@ =~= es.skip(i + 1));
        }
        map.insert_if_absent(e.slug, (e.status, e.path));
        i = i + 1;
    }
    proof {
        assert(es.take(n as int) =~= es);
    }
    map
}

/// The lookup keeps the first entry of each slug.
pub proof fn lemma_entry_map_first_wins(es: Seq<TaskEntry>, slug: Seq<char>)
    ensures
        entry_map(es).contains_key(slug) == (with_slug(es, slug).len() > 0),
        with_slug(es, slug).len() > 0 ==> entry_map(es)[slug] == (
            with_slug(es, slug)[0].status,
            with_slug(es, slug)[0].path,
        ),
    decreases es.len(),
{
    if es.len() > 0 {
        lemma_entry_map_first_wins(es.drop_last(), slug);
    }
}

/// The status and title shown for `slug`: a slug with no task file is
/// missing; the title is the one read for that slug, if any.
pub open spec fn info_of(
    slug: Seq<char>,
    lookup: Map<Seq<char>, (String, PathBuf)>,
    titles: Map<Seq<char>, Option<String>>,
) -> (TaskStatus, Option<Seq<char>>) {
    if !lookup.contains_key(slug) {
        (TaskStatus::Missing, None)
    } else {
        (
            status_of_name(lookup[slug].0@),
            if titles.contains_key(slug) {
                opt_view(titles[slug])
            } else {
                None
            },
        )
    }
}

/// One piece of `split_inclusive('\n')`, rewritten: a task line gets its
/// resolved form and keeps its line ending; any other piece is unchanged.
pub open spec fn rewrite_piece(
    p: Seq<char>,
    lookup: Map<Seq<char>, (String, PathBuf)>,
    titles: Map<Seq<char>, Option<String>>,
) -> Seq<char> {
    let body = line_content(p);
    match task_line(body) {
        Some((indent, slug)) => {
            let (status, title) = info_of(slug, lookup, titles);
            rendered(indent, slug, status, title) + p.skip(body.len() as int)
        },
        None => p,
    }
}

/// The pieces of `s`, each rewritten.
pub open spec fn rewritten_pieces(
    s: Seq<char>,
    lookup: Map<Seq<char>, (String, PathBuf)>,
    titles: Map<Seq<char>, Option<String>>,
) -> Seq<Seq<char>> {
    split_lines(s).map_values(|p: Seq<char>| rewrite_piece(p, lookup, titles))
}

/// The whole roadmap, rewritten.
pub open spec fn rewritten(
    s: Seq<char>,
    lookup: Map<Seq<char>, (String, PathBuf)>,
    titles: Map<Seq<char>, Option<String>>,
) -> Seq<char> {
    rewritten_pieces(s, lookup, titles).flatten()
}

/// The slugs of the task lines among `ls`, in order.
pub open spec fn slugs_in(ls: Seq<Seq<char>>) -> Seq<Seq<char>>
    decreases ls.len(),
{
    if ls.len() == 0 {
        Seq::empty()
    } else {
        match task_slug_in(ls.last()) {
            Some(slug) => slugs_in(ls.drop_last()).push(slug),
            None => slugs_in(ls.drop_last()),
        }
    }
}

/// The slugs that the task lines of `src` refer to, in order: the tasks
/// whose titles a rewrite shows.
pub fn referenced_slugs(src: &str) -> (r: Vec<String>)
    ensures
        crate::error::texts(r@) == slugs_in(lines(src@)),
{
    let v = chars_of(src);
    let spans = line_spans(&v);
    let ghost ls = lines(v@);
    let mut out: Vec<String> = Vec::new();
    let mut k: usize = 0;
    while k < spans.len()
        invariant
            v@ == src@,
            spans_of_lines(v@, spans@),
            ls == lines(v@),
            k <= spans@.len(),
            crate::error::texts(out@) == slugs_in(ls.take(k as int)),
        decreases spans@.len() - k,
    {
        let (a, b) = spans[k];
        let e = line_content_end(&v, a, b);
        proof {
            assert(span_pieces(v@, spans@)[k as int] == v@.subrange(a as int, b as int));
            assert(ls[k as int] == line_content(split_lines(v@)[k as int]));
            assert(ls.take(k + 1).drop_last() =~= ls.take(k as int));
            assert(ls.take(k + 1).last() == ls[k as int]);
        }
        match task_line_span(&v, a, e) {
            Some((_ie, ss, se)) => {
                let mut chars: Vec<char> = Vec::new();
                push_span(&mut chars, &v, ss, se);
                let slug = string_of(&chars);
                let ghost before = out@;
                out.push(slug);
                proof {
                    assert(crate::error::texts(out@) =~= crate::error::texts(before).push(slug@));
                }
            },
            None => {},
        }
        k = k + 1;
    }
    proof {
        assert(ls.take(spans@.len() as int) =~= ls);
    }
    out
}

/// The status and title for `slug`.
fn resolve(slug: &str, lookup: &SlugMap<(String, PathBuf)>, titles: &SlugMap<Option<String>>) -> (r: TaskInfo)
    ensures
        (r.status, opt_view(r.title)) == info_of(slug@, lookup@, titles@),
{
    match lookup.get(slug) {
        None => TaskInfo { status: TaskStatus::Missing, title: None },
        Some(found) => {
            let status = TaskStatus::from_status_name(found.0.as_str());
            let title = match titles.get(slug) {
                Some(Some(t)) => Some(t.clone()),
                _ => None,
            };
            TaskInfo { status, title }
        },
    }
}

/// Rewrites every task line of `src` as `<indent>- [<x>] <slug> — <title>`
/// with the status and title of the task it names (`✓` done, `~` doing,
/// ` ` backlog or any other folder, `?` and `(missing)` for a slug with no
/// task file, `(untitled)` for a task with no `# ` heading). Every other
/// line passes through unchanged, and each line keeps its line ending.
pub fn rewrite(src: &str, lookup: &SlugMap<(String, PathBuf)>, titles: &SlugMap<Option<String>>) -> (r: String)
    ensures
        r@ == rewritten(src@, lookup@, titles@),
{
    let v = chars_of(src);
    let spans = line_spans(&v);
    let ghost qs = rewritten_pieces(v@, lookup@, titles@);
    let mut out: Vec<char> = Vec::new();
    let mut k: usize = 0;
    assert(qs.take(0) =~= Seq::<Seq<char>>::empty());
    while k < spans.len()
        invariant
            v@ == src@,
            spans_of_lines(v@, spans@),
            qs == rewritten_pieces(v@, lookup@, titles@),
            k <= spans@.len(),
            out@ == qs.take(k as int).flatten(),
        decreases spans@.len() - k,
    {
        let (a, b) = spans[k];
        let e = line_content_end(&v, a, b);
        let ghost p = split_lines(v@)[k as int];
        proof {
            assert(span_pieces(v@, spans@)[k as int] == v@.subrange(a as int, b as int));
            assert(p == v@.subrange(a as int, b as int));
            assert(qs[k as int] == rewrite_piece(p, lookup@, titles@));
            assert(qs.take(k + 1) =~= qs.take(k as int).push(qs[k as int]));
            qs.take(k as int).lemma_flatten_push(qs[k as int]);
            assert(p.skip(line_content(p).len() as int) =~= v@.subrange(e as int, b as int));
        }
        let ghost before = out@;
        match task_line_span(&v, a, e) {
            Some((ie, ss, se)) => {
                let mut indent: Vec<char> = Vec::new();
                push_span(&mut indent, &v, a, ie);
                let mut slug: Vec<char> = Vec::new();
                push_span(&mut slug, &v, ss, se);
                let indent = string_of(&indent);
                let slug = string_of(&slug);
                let info = resolve(slug.as_str(), lookup, titles);
                let line = render_task_line(indent.as_str(), slug.as_str(), &info);
                push_str(&mut out, line.as_str());
                push_span(&mut out, &v, e, b);
                assert(out@ =~= before + qs[k as int]);
            },
            None => {
                push_span(&mut out, &v, a, b);
            },
        }
        k = k + 1;
    }
    proof {
        assert(qs.take(spans@.len() as int) =~= qs);
    }
    string_of(&out)
}

// ---------------------------------------------------------------------------
// Rewriting twice changes nothing
// ---------------------------------------------------------------------------

/// Titles that fit on one line and do not end with a carriage return, as
/// titles read from `# ` headings are.
pub open spec fn one_line_titles(titles: Map<Seq<char>, Option<String>>) -> bool {
    forall|k: Seq<char>|
        #[trigger] titles.contains_key(k) ==> match titles[k] {
            Some(t) => (forall|j: int| 0 <= j < t@.len() ==> t@[j] != '\n') && (t@.len() == 0
                || t@.last() != '\r'),
            None => true,
        }
}

/// Pieces that `split_lines` gives back: none empty, none with a `'\n'`
/// before its end, and all but the last ending with one.
pub open spec fn line_pieces(qs: Seq<Seq<char>>) -> bool {
    &&& forall|i: int| 0 <= i < qs.len() ==> #[trigger] qs[i].len() > 0
    &&& forall|i: int, j: int|
        0 <= i < qs.len() && 0 <= j < qs[i].len() - 1 ==> #[trigger] qs[i][j] != '\n'
    &&& forall|i: int| 0 <= i < qs.len() - 1 ==> #[trigger] qs[i].last() == '\n'
}

/// A piece with no `'\n'` before its end splits into itself.
proof fn lemma_one_piece(p: Seq<char>)
    requires
        p.len() > 0,
        forall|j: int| 0 <= j < p.len() - 1 ==> p[j] != '\n',
    ensures
        split_lines(p) == seq![p],
{
    if p.last() == '\n' {
        crate::text::lemma_line_len_first_nl(p, p.len() - 1);
    } else {
        crate::text::lemma_line_len_no_nl(p);
    }
    crate::text::lemma_split_lines_unfold(p);
    assert(p.take(p.len() as int) =~= p);
    assert(p.skip(p.len() as int).len() == 0);
    assert(split_lines(p.skip(p.len() as int)) =~= Seq::<Seq<char>>::empty());
}

/// Joining such pieces and splitting again gives the same pieces.
proof fn lemma_split_flatten(qs: Seq<Seq<char>>)
    requires
        line_pieces(qs),
    ensures
        split_lines(qs.flatten()) == qs,
    decreases qs.len(),
{
    if qs.len() == 0 {
        assert(split_lines(Seq::<char>::empty()) =~= Seq::<Seq<char>>::empty());
    } else {
        let first = qs[0];
        let rest = qs.drop_first();
        assert forall|j: int| 0 <= j < first.len() - 1 implies first[j] != '\n' by {
            assert(qs[0][j] != '\n');
        }
        assert(qs[0].len() > 0);
        lemma_one_piece(first);
        if qs.len() == 1 {
            assert(rest.flatten() =~= Seq::<char>::empty());
            assert(qs.flatten() =~= first);
            assert(qs =~= seq![first]);
        } else {
            assert(qs[0].last() == '\n');
            assert forall|i: int| 0 <= i < rest.len() implies #[trigger] rest[i].len() > 0 by {
                assert(rest[i] == qs[i + 1]);
            }
            assert forall|i: int, j: int|
                0 <= i < rest.len() && 0 <= j < rest[i].len() - 1 implies #[trigger] rest[i][j]
                != '\n' by {
                assert(rest[i] == qs[i + 1]);
            }
            assert forall|i: int| 0 <= i < rest.len() - 1 implies #[trigger] rest[i].last()
                == '\n' by {
                assert(rest[i] == qs[i + 1]);
            }
            lemma_split_flatten(rest);
            crate::text::lemma_split_lines_append(first, rest.flatten());
            assert(qs.flatten() == first + rest.flatten());
            assert(qs =~= seq![first] + rest);
        }
    }
}

/// The indent of a task line is spaces and tabs.
proof fn lemma_indent_chars(s: Seq<char>)
    ensures
        indent_len(s) <= s.len(),
        forall|j: int| 0 <= j < indent_len(s) ==> (#[trigger] s[j] == ' ' || s[j] == '\t'),
    decreases s.len(),
{
    if s.len() > 0 && (s[0] == ' ' || s[0] == '\t') {
        lemma_indent_chars(s.drop_first());
        assert forall|j: int| 0 <= j < indent_len(s) implies (#[trigger] s[j] == ' ' || s[j]
            == '\t') by {
            if j > 0 {
                assert(s[j] == s.drop_first()[j - 1]);
            }
        }
    }
}

/// A rendered task line reads back as a task line with the same indent and
/// slug, whatever status and title it shows.
pub proof fn lemma_rendered_parses(indent: Seq<char>, slug: Seq<char>, status: TaskStatus, title: Option<Seq<char>>)
    requires
        forall|j: int| 0 <= j < indent.len() ==> (#[trigger] indent[j] == ' ' || indent[j] == '\t'),
        slug_shaped(slug),
    ensures
        task_line(rendered(indent, slug, status, title)) == Some((indent, slug)),
{
    reveal_strlit("- [");
    reveal_strlit("] ");
    reveal_strlit(" \u{2014} ");
    let r = rendered(indent, slug, status, title);
    let k = indent.len() as int;
    let rest = "- ["@ + seq![checkbox_of(status)] + "] "@ + slug + " \u{2014} "@ + suffix_of(
        status,
        title,
    );
    assert(r =~= indent + rest);
    assert forall|j: int| 0 <= j < k implies (#[trigger] r[j] == ' ' || r[j] == '\t') by {
        assert(r[j] == indent[j]);
    }
    assert(r[k] == '-');
    crate::roadmap::lemma_indent_len(r, k);
    assert(r.skip(k) =~= rest);
    assert(r.take(k) =~= indent);
    assert(rest.take(3) =~= "- ["@);
    assert(rest.subrange(4, 6) =~= "] "@);
    let after = rest.skip(6);
    let tail = " \u{2014} "@ + suffix_of(status, title);
    assert(after =~= slug + tail);
    assert forall|j: int| 0 <= j < slug.len() implies !is_ws(#[trigger] after[j]) by {
        assert(after[j] == slug[j]);
        assert(is_slug_char(slug[j]) || slug[j] == '-');
    }
    assert(after[slug.len() as int] == ' ');
    crate::roadmap::lemma_ws_index(after, slug.len() as int);
    assert(after.take(slug.len() as int) =~= slug);
    assert(after.skip(slug.len() as int) =~= tail);
    assert(tail.drop_first()[0] == '\u{2014}');
    assert(trim_start(tail) == trim_start(tail.drop_first()));
    assert(!is_ws('\u{2014}'));
}

/// Rewriting one piece keeps it a piece, and rewriting it again changes
/// nothing.
proof fn lemma_rewrite_piece_stable(
    p: Seq<char>,
    lookup: Map<Seq<char>, (String, PathBuf)>,
    titles: Map<Seq<char>, Option<String>>,
)
    requires
        one_line_titles(titles),
        p.len() > 0,
        forall|j: int| 0 <= j < p.len() - 1 ==> p[j] != '\n',
    ensures
        ({
            let q = rewrite_piece(p, lookup, titles);
            &&& q.len() > 0
            &&& forall|j: int| 0 <= j < q.len() - 1 ==> q[j] != '\n'
            &&& (q.last() == '\n') == (p.last() == '\n')
            &&& rewrite_piece(q, lookup, titles) == q
        }),
{
    let body = line_content(p);
    if let Some((indent, slug)) = task_line(body) {
        reveal_strlit("- [");
        reveal_strlit("] ");
        reveal_strlit(" \u{2014} ");
        reveal_strlit("(missing)");
        reveal_strlit("(untitled)");
        let (status, title) = info_of(slug, lookup, titles);
        let eol = p.skip(body.len() as int);
        let rline = rendered(indent, slug, status, title);
        let q = rline + eol;
        let sfx = suffix_of(status, title);
        // The body is a prefix of the piece, without its line ending.
        assert(body.len() <= p.len());
        assert(body =~= p.take(body.len() as int));
        let k = indent_len(body) as int;
        lemma_indent_chars(body);
        assert(indent =~= body.take(k));
        // What the suffix may hold.
        if !(status == TaskStatus::Missing) {
            if let Some(t) = title {
                assert(lookup.contains_key(slug) && titles.contains_key(slug));
                assert(titles.contains_key(slug));
            }
        }
        assert(sfx.len() == 0 ==> title == Some(Seq::<char>::empty()));
        assert(forall|j: int| 0 <= j < sfx.len() ==> sfx[j] != '\n');
        assert(sfx.len() > 0 ==> sfx.last() != '\r');
        // The rendered line has no line break in it.
        let pre = indent + "- ["@ + seq![checkbox_of(status)] + "] "@ + slug + " \u{2014} "@;
        assert(rline =~= pre + sfx);
        assert forall|j: int| 0 <= j < rline.len() implies rline[j] != '\n' by {
            if j < k {
                assert(rline[j] == indent[j]);
            } else if j >= pre.len() {
                assert(rline[j] == sfx[j - pre.len()]);
            } else if k + 6 <= j < k + 6 + slug.len() {
                assert(rline[j] == slug[j - k - 6]);
                assert(is_slug_char(slug[j - k - 6]) || slug[j - k - 6] == '-');
            }
        }
        assert(rline.len() > 0 && rline.last() != '\r' && rline.last() != '\n') by {
            if sfx.len() > 0 {
                assert(rline.last() == sfx.last());
            } else {
                assert(rline.last() == ' ');
            }
        }
        // The line ending is one of "", "\n", "\r\n".
        assert(eol == Seq::<char>::empty() || eol == seq!['\n'] || eol == seq!['\r', '\n']);
        assert forall|j: int| 0 <= j < q.len() - 1 implies q[j] != '\n' by {
            if j < rline.len() {
                assert(q[j] == rline[j]);
            } else {
                assert(q[j] == eol[j - rline.len()]);
            }
        }
        assert(line_content(q) =~= rline);
        assert(q.skip(rline.len() as int) =~= eol);
        lemma_rendered_parses(indent, slug, status, title);
        assert((q.last() == '\n') == (p.last() == '\n')) by {
            if eol.len() > 0 {
                assert(q.last() == eol.last());
            } else {
                assert(q.last() == rline.last());
            }
        }
    }
}

/// Showing a roadmap twice gives what showing it once gave: the rewritten
/// text is a fixed point of the rewrite, for the same tasks and titles.
pub proof fn lemma_rewrite_idempotent(
    s: Seq<char>,
    lookup: Map<Seq<char>, (String, PathBuf)>,
    titles: Map<Seq<char>, Option<String>>,
)
    requires
        one_line_titles(titles),
    ensures
        rewritten(rewritten(s, lookup, titles), lookup, titles) == rewritten(s, lookup, titles),
{
    let ps = split_lines(s);
    let qs = rewritten_pieces(s, lookup, titles);
    crate::text::lemma_split_lines_pieces(s);
    assert forall|i: int| 0 <= i < ps.len() implies ({
        let q = #[trigger] qs[i];
        &&& q.len() > 0
        &&& forall|j: int| 0 <= j < q.len() - 1 ==> q[j] != '\n'
        &&& (q.last() == '\n') == (ps[i].last() == '\n')
        &&& rewrite_piece(q, lookup, titles) == q
    }) by {
        assert(ps[i].len() > 0);
        assert forall|j: int| 0 <= j < ps[i].len() - 1 implies ps[i][j] != '\n' by {}
        lemma_rewrite_piece_stable(ps[i], lookup, titles);
    }
    assert(line_pieces(qs)) by {
        assert forall|i: int, j: int| 0 <= i < qs.len() && 0 <= j < qs[i].len() - 1 implies #[trigger] qs[i][j]
            != '\n' by {}
        assert forall|i: int| 0 <= i < qs.len() - 1 implies #[trigger] qs[i].last() == '\n' by {
            assert(ps[i].last() == '\n');
        }
    }
    lemma_split_flatten(qs);
    let out = rewritten(s, lookup, titles);
    assert(split_lines(out) == qs);
    assert(rewritten_pieces(out, lookup, titles) =~= qs);
}

// ---------------------------------------------------------------------------
// Titles read from task files
// ---------------------------------------------------------------------------

/// No line of a text holds a `'\n'`.
proof fn lemma_lines_one_line(s: Seq<char>)
    ensures
        forall|i: int, j: int|
            0 <= i < lines(s).len() && 0 <= j < lines(s)[i].len() ==> #[trigger] lines(s)[i][j]
                != '\n',
{
    crate::text::lemma_split_lines_pieces(s);
    let ps = split_lines(s);
    assert forall|i: int, j: int|
        0 <= i < lines(s).len() && 0 <= j < lines(s)[i].len() implies #[trigger] lines(s)[i][j]
        != '\n' by {
        let p = ps[i];
        assert(lines(s)[i] == line_content(p));
        if p.len() > 0 && p.last() == '\n' {
            assert(line_content(p)[j] == p[j]);
            assert(j < p.len() - 1);
        } else {
            assert(line_content(p) == p);
            if j < p.len() - 1 {
                assert(p[j] != '\n');
            }
        }
    }
}

/// The first `# ` title among lines that hold no `'\n'` holds none either,
/// and does not end with a carriage return.
proof fn lemma_first_h1_one_line(ls: Seq<Seq<char>>)
    requires
        forall|i: int, j: int| 0 <= i < ls.len() && 0 <= j < ls[i].len() ==> #[trigger] ls[i][j] != '\n',
    ensures
        first_h1(ls) matches Some(t) ==> (forall|j: int| 0 <= j < t.len() ==> t[j] != '\n') && (
        t.len() == 0 || t.last() != '\r'),
    decreases ls.len(),
{
    if ls.len() > 0 {
        match heading_text(ls[0], "# "@) {
            Some(t) => {
                reveal_strlit("# ");
                let x = ls[0].skip(2);
                let ts = trim_start(x);
                crate::text::lemma_trim_start_suffix(x);
                crate::text::lemma_trim_end_prefix(ts);
                assert(t == trim_end(ts));
                assert forall|j: int| 0 <= j < t.len() implies t[j] != '\n' by {
                    let off = x.len() - ts.len();
                    assert(t[j] == ts[j]);
                    assert(ts[j] == x[off + j]);
                    assert(x[off + j] == ls[0][2 + off + j]);
                }
            },
            None => {
                let rest = ls.drop_first();
                assert forall|i: int, j: int| 0 <= i < rest.len() && 0 <= j < rest[i].len() implies #[trigger] rest[i][j]
                    != '\n' by {
                    assert(rest[i] == ls[i + 1]);
                }
                lemma_first_h1_one_line(rest);
            },
        }
    }
}

/// A title read from a task file (its first `# ` heading) fits on one line
/// and does not end with a carriage return, as [`lemma_rewrite_idempotent`]
/// asks of the titles.
pub proof fn lemma_read_title_one_line(text: Seq<char>)
    ensures
        first_h1(lines(text)) matches Some(t) ==> (forall|j: int| 0 <= j < t.len() ==> t[j]
            != '\n') && (t.len() == 0 || t.last() != '\r'),
{
    lemma_lines_one_line(text);
    lemma_first_h1_one_line(lines(text));
}

/// Records the title of task `slug`, read from its file's text (its first
/// `# ` heading, if any), unless a title is already recorded for it. Titles
/// recorded this way always satisfy [`one_line_titles`], so rewriting with
/// them is idempotent.
pub fn add_title(titles: &mut SlugMap<Option<String>>, slug: String, task_text: &str)
    ensures
        old(titles)@.contains_key(slug@) ==> final(titles)@ == old(titles)@,
        !old(titles)@.contains_key(slug@) ==> final(titles)@ == old(titles)@.insert(
            slug@,
            final(titles)@[slug@],
        ) && opt_view(final(titles)@[slug@]) == first_h1(lines(task_text@)),
        one_line_titles(old(titles)@) ==> one_line_titles(final(titles)@),
{
    let title = extract_roadmap_title(task_text);
    let ghost before = titles@;
    let ghost key = slug@;
    titles.insert_if_absent(slug, title);
    proof {
        lemma_read_title_one_line(task_text@);
        if !before.contains_key(key) {
            assert(titles@[key] == title);
            if one_line_titles(before) {
                assert forall|k: Seq<char>| #[trigger] titles@.contains_key(k) implies match titles@[k] {
                    Some(t) => (forall|j: int| 0 <= j < t@.len() ==> t@[j] != '\n') && (t@.len() == 0
                        || t@.last() != '\r'),
                    None => true,
                } by {
                    if k != key {
                        assert(before.contains_key(k));
                    }
                }
            }
        }
    }
}

} // verus!
