//! `cubil roadmap add`: append a `- [ ] <slug>` line to a roadmap, at the end
//! of a milestone section or of the file.
use vstd::prelude::*;

use crate::error::{texts, CubilError};
use crate::roadmap::{
    heading_span, heading_text, is_slug_char, slug_shaped, task_line, task_line_span, task_slug_in,
    MILESTONE_PREFIX,
};
use crate::slug::{with_slug, TaskEntry};
use crate::text::{
    chars_of, is_ws, line_content, line_content_end, line_spans, lines, push_span, push_str,
    span_eq, span_pieces, span_start, spans_of_lines, split_lines, string_of, strip_eol,
    strip_eol_end, trim, trim_span,
};

verus! {

// ---------------------------------------------------------------------------
// The model: a roadmap as the pieces of `split_inclusive('\n')`
// ---------------------------------------------------------------------------

/// The milestone name on a line, if it is a `## Milestone: <name>` heading.
pub open spec fn milestone_of(p: Seq<char>) -> Option<Seq<char>> {
    heading_text(strip_eol(p), "## Milestone: "@)
}

/// Whether a line is a `## ` heading, which ends a section.
pub open spec fn is_h2(p: Seq<char>) -> bool {
    heading_text(strip_eol(p), "## "@) is Some
}

/// Whether a line holds nothing but whitespace.
pub open spec fn is_blank(p: Seq<char>) -> bool {
    trim(strip_eol(p)).len() == 0
}

/// The first `## ` heading at or after line `i`, or the number of lines.
pub open spec fn next_h2(ps: Seq<Seq<char>>, i: int) -> int
    decreases ps.len() - i,
{
    if i >= ps.len() {
        ps.len() as int
    } else if is_h2(ps[i]) {
        i
    } else {
        next_h2(ps, i + 1)
    }
}

/// A section runs from its heading (inclusive) to the next `## ` heading
/// (exclusive), or to the end of the file.
pub open spec fn section_end(ps: Seq<Seq<char>>, start: int) -> int {
    next_h2(ps, start + 1)
}

/// One past the last non-blank line among lines `start + 1 .. i`, or
/// `start + 1` if they are all blank.
pub open spec fn insert_after(ps: Seq<Seq<char>>, start: int, i: int) -> int
    decreases i - start,
{
    if i <= start + 1 {
        start + 1
    } else if !is_blank(ps[i - 1]) {
        i
    } else {
        insert_after(ps, start, i - 1)
    }
}

/// Where a line goes in the section headed by line `start`: just after its
/// last non-blank line, or right after the heading.
pub open spec fn section_insert(ps: Seq<Seq<char>>, start: int) -> int {
    insert_after(ps, start, section_end(ps, start))
}

/// The indices of the milestone headings named `target`, in order.
pub open spec fn milestone_hits(ps: Seq<Seq<char>>, target: Seq<char>) -> Seq<int>
    decreases ps.len(),
{
    if ps.len() == 0 {
        Seq::empty()
    } else if milestone_of(ps.last()) == Some(target) {
        milestone_hits(ps.drop_last(), target).push(ps.len() - 1)
    } else {
        milestone_hits(ps.drop_last(), target)
    }
}

/// The names of all milestones, in order.
pub open spec fn milestone_names(ps: Seq<Seq<char>>) -> Seq<Seq<char>>
    decreases ps.len(),
{
    if ps.len() == 0 {
        Seq::empty()
    } else {
        match milestone_of(ps.last()) {
            Some(n) => milestone_names(ps.drop_last()).push(n),
            None => milestone_names(ps.drop_last()),
        }
    }
}

/// The index of the last milestone heading.
pub open spec fn last_milestone(ps: Seq<Seq<char>>) -> Option<int>
    decreases ps.len(),
{
    if ps.len() == 0 {
        None
    } else if milestone_of(ps.last()) is Some {
        Some(ps.len() - 1)
    } else {
        last_milestone(ps.drop_last())
    }
}

/// Where a line goes when no milestone is named: in the last milestone's
/// section, or at the end of a file that has none.
pub open spec fn default_insert(ps: Seq<Seq<char>>) -> int {
    match last_milestone(ps) {
        Some(h) => section_insert(ps, h),
        None => ps.len() as int,
    }
}

/// `s` with the line `- [ ] <task>` inserted before its line `idx`; a
/// newline is added first where the text before it does not end one.
pub open spec fn with_task_line(s: Seq<char>, idx: int, task: Seq<char>) -> Seq<char> {
    let ps = split_lines(s);
    let pre = ps.take(idx).flatten();
    let sep = if pre.len() > 0 && pre.last() != '\n' {
        "\n"@
    } else {
        Seq::empty()
    };
    pre + sep + "- [ ] "@ + task + "\n"@ + ps.skip(idx).flatten()
}

/// Whether some line of `s` is a task reference to `slug`.
pub open spec fn lists_task(s: Seq<char>, slug: Seq<char>) -> bool {
    exists|i: int| 0 <= i < lines(s).len() && task_slug_in(#[trigger] lines(s)[i]) == Some(slug)
}

// ---------------------------------------------------------------------------
// Reading the lines
// ---------------------------------------------------------------------------

/// Line `k` of `v` without its end-of-line characters, as bounds into `v`.
fn piece_line(v: &Vec<char>, spans: &Vec<(usize, usize)>, k: usize) -> (r: (usize, usize))
    requires
        spans_of_lines(v@, spans@),
        k < spans@.len(),
    ensures
        r.0 <= r.1 <= v@.len(),
        v@.subrange(r.0 as int, r.1 as int) == strip_eol(split_lines(v@)[k as int]),
{
    let (a, b) = spans[k];
    proof {
        assert(span_pieces(v@, spans@)[k as int] == v@.subrange(a as int, b as int));
    }
    let e = strip_eol_end(v, a, b);
    (a, e)
}

/// The milestone name on line `k`, as bounds into `v`.
fn milestone_at(v: &Vec<char>, spans: &Vec<(usize, usize)>, k: usize) -> (r: Option<(usize, usize)>)
    requires
        spans_of_lines(v@, spans@),
        k < spans@.len(),
    ensures
        match milestone_of(split_lines(v@)[k as int]) {
            Some(t) => r matches Some((x, y)) && x <= y <= v@.len() && v@.subrange(x as int, y as int)
                == t,
            None => r is None,
        },
{
    let (a, e) = piece_line(v, spans, k);
    heading_span(v, a, e, MILESTONE_PREFIX)
}

/// Whether line `k` is a `## ` heading.
fn h2_at(v: &Vec<char>, spans: &Vec<(usize, usize)>, k: usize) -> (r: bool)
    requires
        spans_of_lines(v@, spans@),
        k < spans@.len(),
    ensures
        r == is_h2(split_lines(v@)[k as int]),
{
    let (a, e) = piece_line(v, spans, k);
    heading_span(v, a, e, "## ").is_some()
}

/// Whether line `k` is blank.
fn blank_at(v: &Vec<char>, spans: &Vec<(usize, usize)>, k: usize) -> (r: bool)
    requires
        spans_of_lines(v@, spans@),
        k < spans@.len(),
    ensures
        r == is_blank(split_lines(v@)[k as int]),
{
    let (a, e) = piece_line(v, spans, k);
    let (x, y) = trim_span(v, a, e);
    x == y
}

/// The end of the section headed by line `start`.
fn find_section_end(v: &Vec<char>, spans: &Vec<(usize, usize)>, start: usize) -> (r: usize)
    requires
        spans_of_lines(v@, spans@),
        start < spans@.len(),
    ensures
        r == section_end(split_lines(v@), start as int),
        start < r <= spans@.len(),
{
    let ghost ps = split_lines(v@);
    let n = spans.len();
    let mut i = start + 1;
    while i < n
        invariant
            spans_of_lines(v@, spans@),
            ps == split_lines(v@),
            n == spans@.len(),
            start < i <= spans@.len(),
            next_h2(ps, start + 1) == next_h2(ps, i as int),
        decreases spans@.len() - i,
    {
        if h2_at(v, spans, i) {
            return i;
        }
        i = i + 1;
    }
    i
}

/// The insertion line in the section `start .. end`.
fn insert_position_in_section(v: &Vec<char>, spans: &Vec<(usize, usize)>, start: usize, end: usize) -> (r: usize)
    requires
        spans_of_lines(v@, spans@),
        start < end <= spans@.len(),
    ensures
        r == insert_after(split_lines(v@), start as int, end as int),
        r <= end,
{
    let ghost ps = split_lines(v@);
    let mut last_non_blank = start;
    let mut i = start + 1;
    while i < end
        invariant
            spans_of_lines(v@, spans@),
            ps == split_lines(v@),
            start < i <= end <= spans@.len(),
            start <= last_non_blank < i,
            insert_after(ps, start as int, i as int) == last_non_blank + 1,
        decreases end - i,
    {
        if !blank_at(v, spans, i) {
            last_non_blank = i;
        }
        i = i + 1;
    }
    last_non_blank + 1
}

/// The names of all milestones, in order.
fn collect_milestone_names(v: &Vec<char>, spans: &Vec<(usize, usize)>) -> (r: Vec<String>)
    requires
        spans_of_lines(v@, spans@),
    ensures
        texts(r@) == milestone_names(split_lines(v@)),
{
    let ghost ps = split_lines(v@);
    let mut names: Vec<String> = Vec::new();
    let mut k: usize = 0;
    while k < spans.len()
        invariant
            spans_of_lines(v@, spans@),
            ps == split_lines(v@),
            k <= spans@.len(),
            texts(names@) == milestone_names(ps.take(k as int)),
        decreases spans@.len() - k,
    {
        proof {
            assert(ps.take(k + 1).drop_last() =~= ps.take(k as int));
            assert(ps.take(k + 1).last() == ps[k as int]);
        }
        match milestone_at(v, spans, k) {
            Some((x, y)) => {
                let mut name: Vec<char> = Vec::new();
                push_span(&mut name, v, x, y);
                let s = string_of(&name);
                let ghost before = names@;
                names.push(s);
                proof {
                    assert(texts(names@) =~= texts(before).push(s@));
                }
            },
            None => {},
        }
        k = k + 1;
    }
    proof {
        assert(ps.take(spans@.len() as int) =~= ps);
    }
    names
}

/// The section headed by the one milestone named `target`.
fn find_named_milestone(
    v: &Vec<char>,
    spans: &Vec<(usize, usize)>,
    target: &str,
    roadmap_slug: &str,
) -> (r: Result<(usize, usize), CubilError>)
    requires
        spans_of_lines(v@, spans@),
    ensures
        ({
            let ps = split_lines(v@);
            let hits = milestone_hits(ps, target@);
            &&& hits.len() == 1 ==> (r matches Ok((start, end)) && start == hits[0] && end
                == section_end(ps, start as int) && start < end <= ps.len())
            &&& hits.len() == 0 ==> (r matches Err(
                CubilError::MilestoneNotFound { roadmap, milestone, available },
            ) && roadmap@ == roadmap_slug@ && milestone@ == target@ && texts(available@)
                == milestone_names(ps))
            &&& hits.len() > 1 ==> (r matches Err(CubilError::MilestoneAmbiguous { roadmap, milestone })
                && roadmap@ == roadmap_slug@ && milestone@ == target@)
        }),
{
    let ghost ps = split_lines(v@);
    let mut n_hits: usize = 0;
    let mut first: usize = 0;
    let mut k: usize = 0;
    while k < spans.len()
        invariant
            spans_of_lines(v@, spans@),
            ps == split_lines(v@),
            k <= spans@.len(),
            n_hits <= k,
            n_hits == milestone_hits(ps.take(k as int), target@).len(),
            n_hits > 0 ==> first == milestone_hits(ps.take(k as int), target@)[0] && first < k,
        decreases spans@.len() - k,
    {
        proof {
            assert(ps.take(k + 1).drop_last() =~= ps.take(k as int));
            assert(ps.take(k + 1).last() == ps[k as int]);
        }
        match milestone_at(v, spans, k) {
            Some((x, y)) => {
                if span_eq(v, x, y, target) {
                    if n_hits == 0 {
                        first = k;
                    }
                    n_hits = n_hits + 1;
                }
            },
            None => {},
        }
        k = k + 1;
    }
    proof {
        assert(ps.take(spans@.len() as int) =~= ps);
    }
    if n_hits == 0 {
        return Err(
            CubilError::MilestoneNotFound {
                roadmap: roadmap_slug.to_owned(),
                milestone: target.to_owned(),
                available: collect_milestone_names(v, spans),
            },
        );
    }
    if n_hits > 1 {
        return Err(
            CubilError::MilestoneAmbiguous {
                roadmap: roadmap_slug.to_owned(),
                milestone: target.to_owned(),
            },
        );
    }
    Ok((first, find_section_end(v, spans, first)))
}

/// The section headed by the last milestone, if there is one.
fn find_last_milestone(v: &Vec<char>, spans: &Vec<(usize, usize)>) -> (r: Option<(usize, usize)>)
    requires
        spans_of_lines(v@, spans@),
    ensures
        match last_milestone(split_lines(v@)) {
            Some(h) => r matches Some((start, end)) && start == h && end == section_end(
                split_lines(v@),
                h,
            ) && start < end <= spans@.len(),
            None => r is None,
        },
{
    let ghost ps = split_lines(v@);
    let mut last: Option<usize> = None;
    let mut k: usize = 0;
    while k < spans.len()
        invariant
            spans_of_lines(v@, spans@),
            ps == split_lines(v@),
            k <= spans@.len(),
            match last_milestone(ps.take(k as int)) {
                Some(h) => last matches Some(l) && l == h && l < k,
                None => last is None,
            },
        decreases spans@.len() - k,
    {
        proof {
            assert(ps.take(k + 1).drop_last() =~= ps.take(k as int));
            assert(ps.take(k + 1).last() == ps[k as int]);
        }
        if milestone_at(v, spans, k).is_some() {
            last = Some(k);
        }
        k = k + 1;
    }
    proof {
        assert(ps.take(spans@.len() as int) =~= ps);
    }
    match last {
        Some(start) => Some((start, find_section_end(v, spans, start))),
        None => None,
    }
}

// ---------------------------------------------------------------------------
// Inserting
// ---------------------------------------------------------------------------

/// `v` with `- [ ] <task_slug>` inserted before line `idx`.
fn insert_at(v: &Vec<char>, spans: &Vec<(usize, usize)>, idx: usize, task_slug: &str) -> (r: String)
    requires
        spans_of_lines(v@, spans@),
        idx <= spans@.len(),
    ensures
        r@ == with_task_line(v@, idx as int, task_slug@),
{
    let ghost ps = split_lines(v@);
    let off = if idx < spans.len() {
        spans[idx].0
    } else {
        v.len()
    };
    assert(off == span_start(v@, spans@, idx as int));
    assert(ps.take(idx as int).flatten() == v@.take(off as int));
    assert(ps.skip(idx as int).flatten() == v@.skip(off as int));
    let mut out: Vec<char> = Vec::new();
    push_span(&mut out, v, 0, off);
    assert(out@ =~= v@.take(off as int));
    if off > 0 && v[off - 1] != '\n' {
        push_str(&mut out, "\n");
    }
    push_str(&mut out, "- [ ] ");
    push_str(&mut out, task_slug);
    push_str(&mut out, "\n");
    let ghost mid = out@;
    push_span(&mut out, v, off, v.len());
    assert(v@.subrange(off as int, v@.len() as int) =~= v@.skip(off as int));
    string_of(&out)
}

/// Inserts `- [ ] <task_slug>` at the end of the named milestone's section,
/// or, with no milestone named, of the last milestone's section (of the
/// file, if it has no milestones). The line goes just after the section's
/// last non-blank line.
///
/// Errors with [`CubilError::MilestoneNotFound`] (listing the milestones
/// there are) when no milestone has that name, and with
/// [`CubilError::MilestoneAmbiguous`] when several do. Names match exactly,
/// case included.
pub fn insert_task_line(
    src: &str,
    milestone: Option<&str>,
    roadmap_slug: &str,
    task_slug: &str,
) -> (r: Result<String, CubilError>)
    ensures
        ({
            let ps = split_lines(src@);
            match milestone {
                None => r matches Ok(out) && out@ == with_task_line(
                    src@,
                    default_insert(ps),
                    task_slug@,
                ),
                Some(name) => {
                    let hits = milestone_hits(ps, name@);
                    &&& hits.len() == 1 ==> (r matches Ok(out) && out@ == with_task_line(
                        src@,
                        section_insert(ps, hits[0]),
                        task_slug@,
                    ))
                    &&& hits.len() == 0 ==> (r matches Err(
                        CubilError::MilestoneNotFound { roadmap, milestone, available },
                    ) && roadmap@ == roadmap_slug@ && milestone@ == name@ && texts(available@)
                        == milestone_names(ps))
                    &&& hits.len() > 1 ==> (r matches Err(
                        CubilError::MilestoneAmbiguous { roadmap, milestone },
                    ) && roadmap@ == roadmap_slug@ && milestone@ == name@)
                },
            }
        }),
        slug_shaped(task_slug@) && r is Ok ==> lists_task(r->Ok_0@, task_slug@),
{
    proof {
        if slug_shaped(task_slug@) {
            lemma_insert_lists_task(
                src@,
                match milestone {
                    Some(name) => name@,
                    None => Seq::empty(),
                },
                task_slug@,
            );
        }
    }
    let v = chars_of(src);
    let spans = line_spans(&v);
    let section = match milestone {
        Some(name) => match find_named_milestone(&v, &spans, name, roadmap_slug) {
            Ok(sec) => Some(sec),
            Err(e) => {
                return Err(e);
            },
        },
        None => find_last_milestone(&v, &spans),
    };
    let idx = match section {
        Some((start, end)) => insert_position_in_section(&v, &spans, start, end),
        None => spans.len(),
    };
    Ok(insert_at(&v, &spans, idx, task_slug))
}

/// Whether some line of `src` is a task reference to `task_slug`.
pub fn find_existing_task(src: &str, task_slug: &str) -> (r: bool)
    ensures
        r == lists_task(src@, task_slug@),
        r == exists|i: int|
            0 <= i < lines(src@).len() && (#[trigger] task_line(lines(src@)[i]) matches Some((_, t))
                && t == task_slug@),
{
    proof {
        lemma_lists_task_exact(src@, task_slug@);
    }
    let v = chars_of(src);
    let spans = line_spans(&v);
    let ghost ls = lines(v@);
    let mut k: usize = 0;
    while k < spans.len()
        invariant
            v@ == src@,
            spans_of_lines(v@, spans@),
            ls == lines(v@),
            k <= spans@.len(),
            forall|i: int| 0 <= i < k ==> task_slug_in(#[trigger] ls[i]) != Some(task_slug@),
        decreases spans@.len() - k,
    {
        let (a, b) = spans[k];
        let e = line_content_end(&v, a, b);
        proof {
            assert(span_pieces(v@, spans@)[k as int] == v@.subrange(a as int, b as int));
            assert(ls[k as int] == line_content(split_lines(v@)[k as int]));
        }
        match task_line_span(&v, a, e) {
            Some((_ie, ss, se)) => {
                if span_eq(&v, ss, se, task_slug) {
                    assert(task_slug_in(ls[k as int]) == Some(task_slug@));
                    return true;
                }
            },
            None => {},
        }
        k = k + 1;
    }
    false
}

/// Adds `task_slug` to the roadmap whose text is `src`, as `cubil roadmap
/// add` does once it has read the file: the task must exist in some status
/// folder ([`CubilError::SlugNotFound`] otherwise) and must not be listed
/// in the roadmap yet ([`CubilError::TaskAlreadyInRoadmap`] otherwise).
/// Returns the new text.
pub fn add_task(
    entries: &Vec<TaskEntry>,
    src: &str,
    roadmap_slug: &str,
    task_slug: &str,
    milestone: Option<&str>,
) -> (r: Result<String, CubilError>)
    ensures
        with_slug(entries@, task_slug@).len() == 0 ==> (r matches Err(CubilError::SlugNotFound(s))
            && s@ == task_slug@),
        with_slug(entries@, task_slug@).len() > 0 && lists_task(src@, task_slug@) ==> (r matches Err(
            CubilError::TaskAlreadyInRoadmap { roadmap, task },
        ) && roadmap@ == roadmap_slug@ && task@ == task_slug@),
        with_slug(entries@, task_slug@).len() > 0 && !lists_task(src@, task_slug@) ==> ({
            let ps = split_lines(src@);
            match milestone {
                None => r matches Ok(out) && out@ == with_task_line(
                    src@,
                    default_insert(ps),
                    task_slug@,
                ),
                Some(name) => {
                    let hits = milestone_hits(ps, name@);
                    &&& hits.len() == 1 ==> (r matches Ok(out) && out@ == with_task_line(
                        src@,
                        section_insert(ps, hits[0]),
                        task_slug@,
                    ))
                    &&& hits.len() == 0 ==> (r matches Err(
                        CubilError::MilestoneNotFound { roadmap, milestone, available },
                    ) && roadmap@ == roadmap_slug@ && milestone@ == name@ && texts(available@)
                        == milestone_names(ps))
                    &&& hits.len() > 1 ==> (r matches Err(
                        CubilError::MilestoneAmbiguous { roadmap, milestone },
                    ) && roadmap@ == roadmap_slug@ && milestone@ == name@)
                },
            }
        }),
        slug_shaped(task_slug@) && r is Ok ==> lists_task(r->Ok_0@, task_slug@),
{
    if !task_exists(entries, task_slug) {
        return Err(CubilError::SlugNotFound(task_slug.to_owned()));
    }
    if find_existing_task(src, task_slug) {
        return Err(
            CubilError::TaskAlreadyInRoadmap {
                roadmap: roadmap_slug.to_owned(),
                task: task_slug.to_owned(),
            },
        );
    }
    insert_task_line(src, milestone, roadmap_slug, task_slug)
}

/// Whether some entry has the slug `slug`.
pub fn task_exists(entries: &Vec<TaskEntry>, slug: &str) -> (r: bool)
    ensures
        r == (with_slug(entries@, slug@).len() > 0),
{
    let mut i: usize = 0;
    while i < entries.len()
        invariant
            i <= entries@.len(),
            with_slug(entries@.take(i as int), slug@).len() == 0,
        decreases entries@.len() - i,
    {
        proof {
            assert(entries@.take(i + 1).drop_last() =~= entries@.take(i as int));
            assert(entries@.take(i + 1).last() == entries@[i as int]);
        }
        if entries[i].slug == slug.to_owned() {
            proof {
                lemma_with_slug_prefix(entries@, i as int + 1, slug@);
            }
            return true;
        }
        i = i + 1;
    }
    proof {
        assert(entries@.take(entries@.len() as int) =~= entries@);
    }
    false
}

/// Entries named `slug` among a prefix are among the whole.
proof fn lemma_with_slug_prefix(es: Seq<TaskEntry>, k: int, slug: Seq<char>)
    requires
        0 <= k <= es.len(),
    ensures
        with_slug(es.take(k), slug).len() <= with_slug(es, slug).len(),
    decreases es.len() - k,
{
    if k < es.len() {
        lemma_with_slug_prefix(es, k + 1, slug);
        assert(es.take(k + 1).drop_last() =~= es.take(k));
    } else {
        assert(es.take(k) =~= es);
    }
}

// ---------------------------------------------------------------------------
// Laws
// ---------------------------------------------------------------------------

/// A task added to a roadmap is listed in it afterwards: wherever the
/// line `- [ ] <task>` goes, reading the new text finds it as a task
/// reference.
pub proof fn lemma_added_task_is_listed(s: Seq<char>, idx: int, task: Seq<char>)
    requires
        0 <= idx <= split_lines(s).len(),
        slug_shaped(task),
    ensures
        lists_task(with_task_line(s, idx, task), task),
{
    let ps = split_lines(s);
    let pre = ps.take(idx).flatten();
    let post = ps.skip(idx).flatten();
    let sep: Seq<char> = if pre.len() > 0 && pre.last() != '\n' {
        "\n"@
    } else {
        Seq::empty()
    };
    reveal_strlit("\n");
    reveal_strlit("- [ ] ");
    let head = pre + sep;
    let l = "- [ ] "@ + task;
    let line = l.push('\n');
    assert(line =~= "- [ ] "@ + task + "\n"@);
    let out = with_task_line(s, idx, task);
    assert(out =~= head + (line + post));
    assert(head.len() == 0 || head.last() == '\n');
    assert forall|i: int| 0 <= i < l.len() implies l[i] != '\n' by {
        if i >= 6 {
            assert(l[i] == task[i - 6]);
            assert(is_slug_char(task[i - 6]) || task[i - 6] == '-');
        }
    }
    crate::text::lemma_split_one_line(l);
    crate::text::lemma_split_lines_append(line, post);
    crate::text::lemma_split_lines_append(head, line + post);
    let n = split_lines(head).len();
    assert(split_lines(out) == split_lines(head) + (seq![line] + split_lines(post)));
    assert(split_lines(out)[n as int] == line);
    assert(lines(out)[n as int] == line_content(line));
    assert(line.drop_last() =~= l);
    assert(line_content(line) == l) by {
        assert(l.last() == task[task.len() - 1]);
        assert(is_slug_char(task[task.len() - 1]) || task[task.len() - 1] == '-');
    }
    lemma_task_line_of_added(task);
    assert(task_slug_in(lines(out)[n as int]) == Some(task));
}

/// `- [ ] <task>` is a task reference to `task`.
proof fn lemma_task_line_of_added(task: Seq<char>)
    requires
        slug_shaped(task),
    ensures
        task_line("- [ ] "@ + task) == Some((Seq::<char>::empty(), task)),
{
    reveal_strlit("- [ ] ");
    reveal_strlit("- [");
    reveal_strlit("] ");
    let l = "- [ ] "@ + task;
    assert(l[0] == '-');
    crate::roadmap::lemma_indent_len(l, 0);
    let rest = l.skip(0);
    assert(rest =~= l);
    assert(rest.take(3) =~= "- ["@);
    assert(rest.subrange(4, 6) =~= "] "@);
    let after = rest.skip(6);
    assert(after =~= task);
    assert forall|j: int| 0 <= j < task.len() implies !is_ws(#[trigger] task[j]) by {
        assert(is_slug_char(task[j]) || task[j] == '-');
    }
    crate::roadmap::lemma_ws_index(task, task.len() as int);
    assert(task.take(task.len() as int) =~= task);
    assert(task.skip(task.len() as int) =~= Seq::<char>::empty());
    assert(l.take(0) =~= Seq::<char>::empty());
}

/// What `insert_task_line` returns, with no milestone named or with a
/// milestone name that matches exactly one heading, lists the added task.
pub proof fn lemma_insert_lists_task(src: Seq<char>, name: Seq<char>, task: Seq<char>)
    requires
        slug_shaped(task),
    ensures
        lists_task(with_task_line(src, default_insert(split_lines(src)), task), task),
        milestone_hits(split_lines(src), name).len() == 1 ==> lists_task(
            with_task_line(
                src,
                section_insert(split_lines(src), milestone_hits(split_lines(src), name)[0]),
                task,
            ),
            task,
        ),
{
    let ps = split_lines(src);
    lemma_default_insert_bounds(ps);
    lemma_added_task_is_listed(src, default_insert(ps), task);
    let hits = milestone_hits(ps, name);
    if hits.len() == 1 {
        lemma_hits_bounds(ps, name);
        lemma_section_insert_bounds(ps, hits[0]);
        lemma_added_task_is_listed(src, section_insert(ps, hits[0]), task);
    }
}

proof fn lemma_next_h2_bounds(ps: Seq<Seq<char>>, i: int)
    requires
        0 <= i,
    ensures
        i <= next_h2(ps, i) || next_h2(ps, i) == ps.len(),
        next_h2(ps, i) <= ps.len() || i > ps.len(),
        i <= ps.len() ==> i <= next_h2(ps, i) <= ps.len(),
    decreases ps.len() - i,
{
    if i < ps.len() && !is_h2(ps[i]) {
        lemma_next_h2_bounds(ps, i + 1);
    }
}

proof fn lemma_insert_after_bounds(ps: Seq<Seq<char>>, start: int, i: int)
    requires
        start < i,
    ensures
        start + 1 <= insert_after(ps, start, i) <= i,
    decreases i - start,
{
    if i > start + 1 && is_blank(ps[i - 1]) {
        lemma_insert_after_bounds(ps, start, i - 1);
    }
}

proof fn lemma_section_insert_bounds(ps: Seq<Seq<char>>, start: int)
    requires
        0 <= start < ps.len(),
    ensures
        0 <= section_insert(ps, start) <= ps.len(),
{
    lemma_next_h2_bounds(ps, start + 1);
    lemma_insert_after_bounds(ps, start, section_end(ps, start));
}

proof fn lemma_last_milestone_bounds(ps: Seq<Seq<char>>)
    ensures
        last_milestone(ps) matches Some(h) ==> 0 <= h < ps.len(),
    decreases ps.len(),
{
    if ps.len() > 0 && milestone_of(ps.last()) is None {
        lemma_last_milestone_bounds(ps.drop_last());
    }
}

proof fn lemma_default_insert_bounds(ps: Seq<Seq<char>>)
    ensures
        0 <= default_insert(ps) <= ps.len(),
{
    lemma_last_milestone_bounds(ps);
    if let Some(h) = last_milestone(ps) {
        lemma_section_insert_bounds(ps, h);
    }
}

proof fn lemma_hits_bounds(ps: Seq<Seq<char>>, target: Seq<char>)
    ensures
        forall|i: int|
            0 <= i < milestone_hits(ps, target).len() ==> 0 <= #[trigger] milestone_hits(
                ps,
                target,
            )[i] < ps.len(),
    decreases ps.len(),
{
    if ps.len() > 0 {
        lemma_hits_bounds(ps.drop_last(), target);
        let h = milestone_hits(ps, target);
        let g = milestone_hits(ps.drop_last(), target);
        assert forall|i: int| 0 <= i < h.len() implies 0 <= #[trigger] h[i] < ps.len() by {
            if i < g.len() {
                assert(h[i] == g[i]);
            }
        }
    }
}

/// A roadmap lists a task exactly when one of its lines reads as a task
/// reference whose slug is that task's slug, character for character (a
/// longer slug that begins with it does not count).
pub proof fn lemma_lists_task_exact(s: Seq<char>, slug: Seq<char>)
    ensures
        lists_task(s, slug) == exists|i: int|
            0 <= i < lines(s).len() && (#[trigger] task_line(lines(s)[i]) matches Some((_, t)) && t
                == slug),
{
    if lists_task(s, slug) {
        let i = choose|i: int| 0 <= i < lines(s).len() && task_slug_in(#[trigger] lines(s)[i]) == Some(slug);
        assert(task_line(lines(s)[i]) matches Some((_, t)) && t == slug);
    }
    if exists|i: int|
        0 <= i < lines(s).len() && (#[trigger] task_line(lines(s)[i]) matches Some((_, t)) && t == slug) {
        let i = choose|i: int|
            0 <= i < lines(s).len() && (#[trigger] task_line(lines(s)[i]) matches Some((_, t)) && t
                == slug);
        assert(task_slug_in(lines(s)[i]) == Some(slug));
    }
}

/// A roadmap whose one line is `- [ ] <x>` lists `x` and no other task:
/// in particular not a task whose slug is a prefix of `x`.
pub proof fn lemma_single_line_lists_only_it(x: Seq<char>, other: Seq<char>)
    requires
        slug_shaped(x),
    ensures
        lists_task("- [ ] "@ + x + "\n"@, other) == (other == x),
{
    reveal_strlit("- [ ] ");
    reveal_strlit("\n");
    let l = "- [ ] "@ + x;
    let s = l.push('\n');
    assert(s =~= "- [ ] "@ + x + "\n"@);
    assert forall|i: int| 0 <= i < l.len() implies l[i] != '\n' by {
        if i >= 6 {
            assert(l[i] == x[i - 6]);
            assert(is_slug_char(x[i - 6]) || x[i - 6] == '-');
        }
    }
    crate::text::lemma_split_one_line(l);
    assert(s.drop_last() =~= l);
    assert(l.last() == x[x.len() - 1]);
    assert(is_slug_char(x[x.len() - 1]) || x[x.len() - 1] == '-');
    assert(line_content(s) == l);
    assert(lines(s) =~= seq![l]);
    lemma_task_line_of_added(x);
    assert(task_slug_in(lines(s)[0]) == Some(x));
    if other == x {
        assert(task_slug_in(lines(s)[0]) == Some(other));
    }
}

} // verus!
