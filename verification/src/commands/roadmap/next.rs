//! `cubil roadmap next`: the first task of a roadmap that is not done yet.
use vstd::prelude::*;

use crate::roadmap::{status_of_name, task_line_span, task_slug_in, TaskStatus};
use crate::slug::{with_slug, TaskEntry};
use crate::slug_map::SlugMap;
use crate::text::{
    chars_of, line_content, line_content_end, line_spans, lines, push_span, span_pieces,
    spans_of_lines, split_lines, string_of,
};

verus! {

/// For each slug, the status folder of its first entry.
pub open spec fn status_map(es: Seq<TaskEntry>) -> Map<Seq<char>, String>
    decreases es.len(),
{
    if es.len() == 0 {
        Map::empty()
    } else {
        let m = status_map(es.drop_last());
        if m.contains_key(es.last().slug@) {
            m
        } else {
            m.insert(es.last().slug@, es.last().status)
        }
    }
}

/// Maps each slug to the status folder it lives in. When a slug is in
/// several folders, the first entry wins.
pub fn build_status_lookup(entries: &Vec<TaskEntry>) -> (r: SlugMap<String>)
    ensures
        r@ == status_map(entries@),
{
    let mut map: SlugMap<String> = SlugMap::new();
    let mut i: usize = 0;
    while i < entries.len()
        invariant
            i <= entries@.len(),
            map@ == status_map(entries@.take(i as int)),
        decreases entries@.len() - i,
    {
        proof {
            assert(entries@.take(i + 1).drop_last() =~= entries@.take(i as int));
            assert(entries@.take(i + 1).last() == entries@[i as int]);
        }
        map.insert_if_absent(entries[i].slug.clone(), entries[i].status.clone());
        i = i + 1;
    }
    proof {
        assert(entries@.take(entries@.len() as int) =~= entries@);
    }
    map
}

/// The lookup keeps the first entry of each slug: a slug is in it exactly
/// when some entry has it, and then with the status of the first such
/// entry.
pub proof fn lemma_status_map_first_wins(es: Seq<TaskEntry>, slug: Seq<char>)
    ensures
        status_map(es).contains_key(slug) == (with_slug(es, slug).len() > 0),
        with_slug(es, slug).len() > 0 ==> status_map(es)[slug] == with_slug(es, slug)[0].status,
    decreases es.len(),
{
    if es.len() > 0 {
        lemma_status_map_first_wins(es.drop_last(), slug);
    }
}

/// The slug of the first task line whose task exists and is not done.
pub open spec fn next_candidate(ls: Seq<Seq<char>>, m: Map<Seq<char>, String>) -> Option<Seq<char>>
    decreases ls.len(),
{
    if ls.len() == 0 {
        None
    } else {
        match task_slug_in(ls[0]) {
            Some(slug) => if m.contains_key(slug) && status_of_name(m[slug]@) != TaskStatus::Done {
                Some(slug)
            } else {
                next_candidate(ls.drop_first(), m)
            },
            None => next_candidate(ls.drop_first(), m),
        }
    }
}

/// A task that has a status folder and is not done.
pub open spec fn open_task(m: Map<Seq<char>, String>, t: Seq<char>) -> bool {
    m.contains_key(t) && status_of_name(m[t]@) != TaskStatus::Done
}

/// Line `i` is a task line that names an open task.
pub open spec fn opens_at(ls: Seq<Seq<char>>, m: Map<Seq<char>, String>, i: int) -> bool {
    task_slug_in(ls[i]) matches Some(t) && open_task(m, t)
}

/// The earliest line naming an open task decides: what `roadmap next` finds
/// is the slug of a line naming an open task, and no line before it names
/// one.
pub proof fn lemma_next_candidate_first(ls: Seq<Seq<char>>, m: Map<Seq<char>, String>)
    ensures
        next_candidate(ls, m) matches Some(s) ==> exists|i: int|
            0 <= i < ls.len() && #[trigger] task_slug_in(ls[i]) == Some(s) && open_task(m, s)
                && forall|j: int| 0 <= j < i ==> !opens_at(ls, m, j),
        next_candidate(ls, m) is None <==> forall|j: int| 0 <= j < ls.len() ==> !opens_at(ls, m, j),
    decreases ls.len(),
{
    if ls.len() > 0 {
        let rest = ls.drop_first();
        lemma_next_candidate_first(rest, m);
        assert forall|j: int| 1 <= j < ls.len() implies opens_at(ls, m, j) == opens_at(rest, m, j - 1)
            by {
            assert(ls[j] == rest[j - 1]);
        }
        if opens_at(ls, m, 0) {
            assert(task_slug_in(ls[0]) is Some);
        } else {
            if let Some(s) = next_candidate(rest, m) {
                let i = choose|i: int|
                    0 <= i < rest.len() && #[trigger] task_slug_in(rest[i]) == Some(s) && open_task(m, s)
                        && forall|j: int| 0 <= j < i ==> !opens_at(rest, m, j);
                assert(ls[i + 1] == rest[i]);
                assert(task_slug_in(ls[i + 1]) == Some(s));
                assert forall|j: int| 0 <= j < i + 1 implies !opens_at(ls, m, j) by {
                    if j > 0 {
                        assert(opens_at(ls, m, j) == opens_at(rest, m, j - 1));
                    }
                }
            } else {
                assert forall|j: int| 0 <= j < ls.len() implies !opens_at(ls, m, j) by {
                    if j > 0 {
                        assert(opens_at(ls, m, j) == opens_at(rest, m, j - 1));
                    }
                }
            }
        }
        if let Some(s) = next_candidate(ls, m) {
            let i = choose|i: int|
                0 <= i < ls.len() && #[trigger] task_slug_in(ls[i]) == Some(s) && open_task(m, s)
                    && forall|j: int| 0 <= j < i ==> !opens_at(ls, m, j);
            assert(opens_at(ls, m, i));
        }
    }
}

/// Walks the task lines in file order and returns the first slug whose
/// status is not `done`. Slugs with no task file are skipped.
pub fn first_not_done(src: &str, lookup: &SlugMap<String>) -> (r: Option<String>)
    ensures
        match next_candidate(lines(src@), lookup@) {
            Some(s) => r matches Some(x) && x@ == s,
            None => r is None,
        },
        r matches Some(x) ==> exists|i: int|
            0 <= i < lines(src@).len() && #[trigger] task_slug_in(lines(src@)[i]) == Some(x@)
                && open_task(lookup@, x@) && forall|j: int|
                0 <= j < i ==> !opens_at(lines(src@), lookup@, j),
        r is None <==> forall|j: int| 0 <= j < lines(src@).len() ==> !opens_at(lines(src@), lookup@, j),
{
    let v = chars_of(src);
    let spans = line_spans(&v);
    let ghost ls = lines(v@);
    let mut k: usize = 0;
    assert(ls.skip(0) =~= ls);
    while k < spans.len()
        invariant
            v@ == src@,
            spans_of_lines(v@, spans@),
            ls == lines(v@),
            k <= spans@.len(),
            next_candidate(ls, lookup@) == next_candidate(ls.skip(k as int), lookup@),
        decreases spans@.len() - k,
    {
        let (a, b) = spans[k];
        let e = line_content_end(&v, a, b);
        proof {
            assert(span_pieces(v@, spans@)[k as int] == v@.subrange(a as int, b as int));
            assert(ls[k as int] == line_content(split_lines(v@)[k as int]));
            assert(ls.skip(k as int)[0] == ls[k as int]);
            assert(ls.skip(k as int).drop_first() =~= ls.skip(k + 1));
        }
        match task_line_span(&v, a, e) {
            Some((_ie, ss, se)) => {
                let mut chars: Vec<char> = Vec::new();
                push_span(&mut chars, &v, ss, se);
                let slug = string_of(&chars);
                match lookup.get(slug.as_str()) {
                    Some(status) => {
                        if !TaskStatus::from_status_name(status.as_str()).is_done() {
                            proof {
                                lemma_next_candidate_first(lines(src@), lookup@);
                            }
                            return Some(slug);
                        }
                    },
                    None => {},
                }
            },
            None => {},
        }
        k = k + 1;
    }
    proof {
        assert(ls.skip(k as int).len() == 0);
        lemma_next_candidate_first(lines(src@), lookup@);
    }
    None
}

/// `roadmap next` prints nothing exactly when every task line whose task
/// exists names a task that is done; what it prints is such a line's slug,
/// for a task that exists and is not done.
pub proof fn lemma_next_candidate_open(ls: Seq<Seq<char>>, m: Map<Seq<char>, String>)
    ensures
        next_candidate(ls, m) is None <==> (forall|i: int|
            0 <= i < ls.len() && #[trigger] task_slug_in(ls[i]) is Some && m.contains_key(
                task_slug_in(ls[i])->0,
            ) ==> status_of_name(m[task_slug_in(ls[i])->0]@) == TaskStatus::Done),
        next_candidate(ls, m) matches Some(s) ==> m.contains_key(s) && status_of_name(m[s]@)
            != TaskStatus::Done && exists|i: int| 0 <= i < ls.len() && #[trigger] task_slug_in(ls[i])
            == Some(s),
    decreases ls.len(),
{
    if ls.len() > 0 {
        let rest = ls.drop_first();
        lemma_next_candidate_open(rest, m);
        assert forall|i: int| 1 <= i < ls.len() implies #[trigger] task_slug_in(ls[i])
            == task_slug_in(rest[i - 1]) by {}
        if let Some(s) = next_candidate(rest, m) {
            if next_candidate(ls, m) == next_candidate(rest, m) {
                let j = choose|j: int| 0 <= j < rest.len() && #[trigger] task_slug_in(rest[j]) == Some(s);
                assert(task_slug_in(ls[j + 1]) == Some(s));
            }
        }
        if next_candidate(ls, m) is None {
            assert forall|i: int|
                0 <= i < ls.len() && #[trigger] task_slug_in(ls[i]) is Some && m.contains_key(
                    task_slug_in(ls[i])->0,
                ) implies status_of_name(m[task_slug_in(ls[i])->0]@) == TaskStatus::Done by {
                if i > 0 {
                    assert(task_slug_in(rest[i - 1]) == task_slug_in(ls[i]));
                }
            }
        }
        if let Some(s) = next_candidate(ls, m) {
            if task_slug_in(ls[0]) == Some(s) {
                assert(task_slug_in(ls[0]) == Some(s));
            }
        }
    }
}

} // verus!
