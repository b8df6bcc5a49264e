//! Slugs: deriving them from titles, and finding a task by its slug.
use std::path::PathBuf;
use vstd::prelude::*;

use crate::error::{texts, CubilError};
use crate::roadmap::{is_slug_char, slug_shaped};
use crate::text::{chars_of, push_span, span_eq, string_of, trim_end_char};

verus! {

/// A task file found under `.cubil/`: its status folder, its slug (the file
/// name without `.md`) and its path.
#[derive(Debug)]
pub struct TaskEntry {
    pub status: String,
    pub slug: String,
    pub path: PathBuf,
}

/// `char::to_ascii_lowercase`.
pub open spec fn ascii_lower(c: char) -> char {
    if 'A' <= c && c <= 'Z' {
        ((c as u32) + 32) as char
    } else {
        c
    }
}

fn to_ascii_lower(c: char) -> (r: char)
    ensures
        r == ascii_lower(c),
{
    if 'A' <= c && c <= 'Z' {
        ((c as u8) + 32) as char
    } else {
        c
    }
}

/// Each run of characters that are not ASCII letters or digits becomes one
/// `-` (none at the start when `after_dash`); letters are lowercased.
pub open spec fn kebab(s: Seq<char>, after_dash: bool) -> Seq<char>
    decreases s.len(),
{
    if s.len() == 0 {
        Seq::empty()
    } else {
        let c = ascii_lower(s[0]);
        if is_slug_char(c) {
            seq![c] + kebab(s.drop_first(), false)
        } else if !after_dash {
            seq!['-'] + kebab(s.drop_first(), true)
        } else {
            kebab(s.drop_first(), true)
        }
    }
}

/// The slug of a title: kebab-case, lowercase, ASCII only, with no `-` at
/// either end.
pub open spec fn slug_of(title: Seq<char>) -> Seq<char> {
    trim_end_char(kebab(title, true), '-')
}

/// Convert a human title into a kebab-case, lowercase, ASCII-only slug.
///
/// Non-alphanumeric ASCII characters (including any non-ASCII) are treated
/// as separators, collapsed into single `-`. Leading and trailing `-` are
/// trimmed. Returns [`CubilError::InvalidSlug`] if the result is empty.
pub fn slugify(title: &str) -> (r: Result<String, CubilError>)
    ensures
        slug_of(title@).len() == 0 ==> r matches Err(CubilError::InvalidSlug),
        slug_of(title@).len() > 0 ==> (r matches Ok(s) && s@ == slug_of(title@)),
{
    let v = chars_of(title);
    let mut out: Vec<char> = Vec::new();
    let mut prev_dash = true;
    let mut i: usize = 0;
    assert(v@.skip(0) =~= v@);
    while i < v.len()
        invariant
            i <= v@.len(),
            v@ == title@,
            out@ + kebab(v@.skip(i as int), prev_dash) == kebab(title@, true),
        decreases v@.len() - i,
    {
        let ghost rest = v@.skip(i as int);
        assert(rest[0] == v@[i as int]);
        assert(rest.drop_first() =~= v@.skip(i + 1));
        let c = to_ascii_lower(v[i]);
        if ('a' <= c && c <= 'z') || ('0' <= c && c <= '9') {
            out.push(c);
            prev_dash = false;
            assert(out@ + kebab(v@.skip(i + 1), prev_dash) =~= kebab(title@, true));
        } else if !prev_dash {
            out.push('-');
            prev_dash = true;
            assert(out@ + kebab(v@.skip(i + 1), prev_dash) =~= kebab(title@, true));
        }
        i = i + 1;
    }
    proof {
        assert(v@.skip(i as int).len() == 0);
        assert(out@ =~= kebab(title@, true));
    }
    while out.len() > 0 && out[out.len() - 1] == '-'
        invariant
            trim_end_char(out@, '-') == slug_of(title@),
        decreases out@.len(),
    {
        let ghost before = out@;
        out.pop();
        assert(out@ =~= before.drop_last());
    }
    if out.len() == 0 {
        return Err(CubilError::InvalidSlug);
    }
    Ok(string_of(&out))
}

/// Properties of the text that `kebab` produces.
pub open spec fn kebab_shaped(s: Seq<char>) -> bool {
    &&& forall|i: int| 0 <= i < s.len() ==> (#[trigger] is_slug_char(s[i]) || s[i] == '-')
    &&& forall|i: int| 0 <= i < s.len() - 1 ==> !(#[trigger] s[i] == '-' && s[i + 1] == '-')
}

proof fn lemma_kebab_shape(s: Seq<char>, after_dash: bool)
    ensures
        kebab_shaped(kebab(s, after_dash)),
        after_dash && kebab(s, after_dash).len() > 0 ==> kebab(s, after_dash)[0] != '-',
        kebab(s, after_dash).len() > 0 && kebab(s, after_dash)[0] == '-' ==> (kebab(
            s,
            after_dash,
        ).len() == 1 || kebab(s, after_dash)[1] != '-'),
    decreases s.len(),
{
    if s.len() > 0 {
        let c = ascii_lower(s[0]);
        let r = kebab(s, after_dash);
        if is_slug_char(c) {
            lemma_kebab_shape(s.drop_first(), false);
            let t = kebab(s.drop_first(), false);
            assert(r =~= seq![c] + t);
            assert forall|i: int| 0 <= i < r.len() - 1 implies !(#[trigger] r[i] == '-' && r[i + 1]
                == '-') by {
                if i > 0 {
                    assert(r[i] == t[i - 1] && r[i + 1] == t[i]);
                }
            }
            assert forall|i: int| 0 <= i < r.len() implies (#[trigger] is_slug_char(r[i]) || r[i]
                == '-') by {
                if i > 0 {
                    assert(r[i] == t[i - 1]);
                }
            }
        } else if !after_dash {
            lemma_kebab_shape(s.drop_first(), true);
            let t = kebab(s.drop_first(), true);
            assert(r =~= seq!['-'] + t);
            assert forall|i: int| 0 <= i < r.len() - 1 implies !(#[trigger] r[i] == '-' && r[i + 1]
                == '-') by {
                if i > 0 {
                    assert(r[i] == t[i - 1] && r[i + 1] == t[i]);
                } else {
                    assert(r[1] == t[0]);
                }
            }
            assert forall|i: int| 0 <= i < r.len() implies (#[trigger] is_slug_char(r[i]) || r[i]
                == '-') by {
                if i > 0 {
                    assert(r[i] == t[i - 1]);
                }
            }
        } else {
            lemma_kebab_shape(s.drop_first(), true);
        }
    }
}

proof fn lemma_trim_end_char_prefix(s: Seq<char>, c: char)
    ensures
        trim_end_char(s, c) == s.take(trim_end_char(s, c).len() as int),
        trim_end_char(s, c).len() <= s.len(),
        trim_end_char(s, c).len() > 0 ==> trim_end_char(s, c).last() != c,
    decreases s.len(),
{
    if s.len() > 0 && s.last() == c {
        lemma_trim_end_char_prefix(s.drop_last(), c);
        assert(s.drop_last().take(trim_end_char(s, c).len() as int) =~= s.take(
            trim_end_char(s, c).len() as int,
        ));
    } else {
        assert(s.take(s.len() as int) =~= s);
    }
}

/// A slug-shaped text is its own kebab form.
proof fn lemma_kebab_of_slug(s: Seq<char>, after_dash: bool)
    requires
        kebab_shaped(s),
        after_dash && s.len() > 0 ==> s[0] != '-',
        forall|i: int| 0 <= i < s.len() ==> !('A' <= #[trigger] s[i] && s[i] <= 'Z'),
    ensures
        kebab(s, after_dash) == s,
    decreases s.len(),
{
    if s.len() > 0 {
        let t = s.drop_first();
        assert forall|i: int| 0 <= i < t.len() implies (#[trigger] is_slug_char(t[i]) || t[i]
            == '-') by {
            assert(t[i] == s[i + 1]);
        }
        assert forall|i: int| 0 <= i < t.len() - 1 implies !(#[trigger] t[i] == '-' && t[i + 1]
            == '-') by {
            assert(t[i] == s[i + 1] && t[i + 1] == s[i + 2]);
        }
        assert forall|i: int| 0 <= i < t.len() implies !('A' <= #[trigger] t[i] && t[i] <= 'Z') by {
            assert(t[i] == s[i + 1]);
        }
        assert(is_slug_char(s[0]) || s[0] == '-');
        assert(!('A' <= s[0] && s[0] <= 'Z'));
        if is_slug_char(s[0]) {
            lemma_kebab_of_slug(t, false);
        } else {
            if t.len() > 0 {
                assert(!(s[0] == '-' && s[1] == '-'));
                assert(t[0] == s[1]);
            }
            lemma_kebab_of_slug(t, true);
        }
        assert(s =~= seq![s[0]] + t);
    }
}

/// What `slugify` returns is slug-shaped (so a roadmap line written with it
/// parses back as a task reference), and `slugify` leaves a slug unchanged.
pub proof fn lemma_slug_of_is_slug(title: Seq<char>)
    requires
        slug_of(title).len() > 0,
    ensures
        slug_shaped(slug_of(title)),
        slug_of(slug_of(title)) == slug_of(title),
{
    let k = kebab(title, true);
    let s = slug_of(title);
    lemma_kebab_shape(title, true);
    lemma_trim_end_char_prefix(k, '-');
    assert(s[0] == k[0]);
    assert forall|i: int| 0 <= i < s.len() implies (#[trigger] is_slug_char(s[i]) || s[i] == '-') by {
        assert(s[i] == k[i]);
    }
    assert forall|i: int| 0 <= i < s.len() - 1 implies !(#[trigger] s[i] == '-' && s[i + 1] == '-') by {
        assert(s[i] == k[i] && s[i + 1] == k[i + 1]);
    }
    lemma_slug_is_fixed_point(s);
}

/// `slugify` maps every slug-shaped text to itself.
pub proof fn lemma_slug_is_fixed_point(s: Seq<char>)
    requires
        slug_shaped(s),
    ensures
        slug_of(s) == s,
{
    assert forall|i: int| 0 <= i < s.len() implies !('A' <= #[trigger] s[i] && s[i] <= 'Z') by {
        assert(is_slug_char(s[i]) || s[i] == '-');
    }
    lemma_kebab_of_slug(s, true);
}

// ---------------------------------------------------------------------------
// Finding a task by slug
// ---------------------------------------------------------------------------

/// The entries whose slug is `slug`, in order.
pub open spec fn with_slug(es: Seq<TaskEntry>, slug: Seq<char>) -> Seq<TaskEntry>
    decreases es.len(),
{
    if es.len() == 0 {
        Seq::empty()
    } else if es.last().slug@ == slug {
        with_slug(es.drop_last(), slug).push(es.last())
    } else {
        with_slug(es.drop_last(), slug)
    }
}

/// The status folders of some entries.
pub open spec fn statuses_of(es: Seq<TaskEntry>) -> Seq<Seq<char>> {
    es.map_values(|e: TaskEntry| e.status@)
}

/// Walks the entries once: the statuses of those named `slug`, in order, and
/// the position of the first of them.
fn scan_for_slug(entries: &Vec<TaskEntry>, slug: &str) -> (r: (Vec<String>, usize))
    ensures
        texts(r.0@) == statuses_of(with_slug(entries@, slug@)),
        r.0@.len() > 0 ==> r.1 < entries@.len() && entries@[r.1 as int] == with_slug(
            entries@,
            slug@,
        )[0],
{
    let mut statuses: Vec<String> = Vec::new();
    let mut first: usize = 0;
    let mut i: usize = 0;
    while i < entries.len()
        invariant
            i <= entries@.len(),
            texts(statuses@) == statuses_of(with_slug(entries@.take(i as int), slug@)),
            statuses@.len() > 0 ==> first < i && entries@[first as int] == with_slug(
                entries@.take(i as int),
                slug@,
            )[0],
        decreases entries@.len() - i,
    {
        let ghost pre = entries@.take(i as int);
        let ghost pre1 = entries@.take(i + 1);
        assert(pre1.drop_last() =~= pre);
        assert(pre1.last() == entries@[i as int]);
        if entries[i].slug == slug.to_owned() {
            if statuses.len() == 0 {
                first = i;
            }
            let ghost old_statuses = statuses@;
            let st = entries[i].status.clone();
            statuses.push(st);
            proof {
                assert(with_slug(pre1, slug@) == with_slug(pre, slug@).push(entries@[i as int]));
                assert(statuses@ == old_statuses.push(st));
                assert(texts(statuses@) =~= texts(old_statuses).push(st@));
                assert(statuses_of(with_slug(pre1, slug@)) =~= statuses_of(with_slug(pre, slug@)).push(
                    entries@[i as int].status@,
                ));
                assert(texts(statuses@) =~= statuses_of(with_slug(pre1, slug@)));
                if with_slug(pre, slug@).len() > 0 {
                    assert(with_slug(pre1, slug@)[0] == with_slug(pre, slug@)[0]);
                }
            }
        }
        i = i + 1;
    }
    proof {
        assert(entries@.take(entries@.len() as int) =~= entries@);
    }
    (statuses, first)
}

/// Locate a task by exact slug among the entries of every status folder.
/// Returns `(status_name, path)`. Errors with [`CubilError::SlugNotFound`]
/// if no entry has that slug, or [`CubilError::SlugAmbiguous`] (with the
/// statuses in scan order) if several do.
pub fn resolve_slug(entries: Vec<TaskEntry>, slug: &str) -> (r: Result<(String, PathBuf), CubilError>)
    ensures
        ({
            let hits = with_slug(entries@, slug@);
            &&& hits.len() == 0 ==> (r matches Err(CubilError::SlugNotFound(s)) && s@ == slug@)
            &&& hits.len() == 1 ==> (r matches Ok((st, p)) && st == hits[0].status && p == hits[0].path)
            &&& hits.len() > 1 ==> (r matches Err(CubilError::SlugAmbiguous { slug: s, statuses })
                && s@ == slug@ && texts(statuses@) == statuses_of(hits))
        }),
{
    let (statuses, first) = scan_for_slug(&entries, slug);
    let ghost hits = with_slug(entries@, slug@);
    assert(texts(statuses@).len() == statuses@.len());
    assert(statuses_of(hits).len() == hits.len());
    if statuses.len() == 0 {
        return Err(CubilError::SlugNotFound(slug.to_owned()));
    }
    if statuses.len() == 1 {
        let mut entries = entries;
        let e = entries.swap_remove(first);
        return Ok((e.status, e.path));
    }
    Err(CubilError::SlugAmbiguous { slug: slug.to_owned(), statuses })
}

// ---------------------------------------------------------------------------
// Scanning `.cubil/`
// ---------------------------------------------------------------------------

/// Whether a folder directly under `.cubil/` is a status folder: every one
/// is, except `roadmaps/`, so roadmaps never show up as tasks and their
/// slugs never collide with task slugs.
pub fn is_status_folder(name: &str) -> (r: bool)
    ensures
        r == (name@ != "roadmaps"@),
{
    let v = chars_of(name);
    proof {
        assert(v@.subrange(0, v@.len() as int) =~= name@);
    }
    !span_eq(&v, 0, v.len(), "roadmaps")
}

/// The slug a file name stands for: the name without its `.md` suffix;
/// files without that suffix are not tasks (nor roadmaps).
pub fn slug_of_file_name(name: &str) -> (r: Option<String>)
    ensures
        name@.len() >= 3 && name@.skip(name@.len() - 3) == ".md"@ ==> (r matches Some(s) && s@
            == name@.take(name@.len() - 3)),
        !(name@.len() >= 3 && name@.skip(name@.len() - 3) == ".md"@) ==> r is None,
{
    let v = chars_of(name);
    let n = v.len();
    if n < 3 {
        return None;
    }
    proof {
        assert(v@.subrange(n - 3, n as int) =~= name@.skip(name@.len() - 3));
    }
    if !span_eq(&v, n - 3, n, ".md") {
        return None;
    }
    let mut out: Vec<char> = Vec::new();
    push_span(&mut out, &v, 0, n - 3);
    proof {
        assert(out@ =~= name@.take(name@.len() - 3));
    }
    Some(string_of(&out))
}

} // verus!
