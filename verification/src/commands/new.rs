//! `cubil new`: the slug and contents of a new task file, and today's date.
use vstd::prelude::*;

use crate::error::CubilError;
use crate::frontmatter::{meta_well_formed, parse_spec, render_frontmatter, render_spec, MetaView, TaskMeta};
use crate::slug::{slug_of, slugify, with_slug, TaskEntry};
use crate::text::{dec, push_decimal, push_str, string_of};

verus! {

#[verifier::external_type_specification]
#[verifier::external_body]
pub struct ExOffsetDateTime(time::OffsetDateTime);

/// The status folder that new tasks go to.
pub const BACKLOG: &'static str = "backlog";

// ---------------------------------------------------------------------------
// The file
// ---------------------------------------------------------------------------

/// The body as a task file ends with it: nothing for an empty body, else a
/// blank line, the body, and a final newline if the body lacks one.
pub open spec fn body_block(body: Seq<char>) -> Seq<char> {
    if body.len() == 0 {
        Seq::empty()
    } else if body.last() == '\n' {
        "\n"@ + body
    } else {
        "\n"@ + body + "\n"@
    }
}

/// Appends `body_block(body)` to `out`.
pub fn push_body_block(out: &mut Vec<char>, body: &str)
    ensures
        final(out)@ == old(out)@ + body_block(body@),
{
    let n = body.unicode_len();
    if n > 0 {
        push_str(out, "\n");
        push_str(out, body);
        if body.get_char(n - 1) != '\n' {
            push_str(out, "\n");
        }
    }
}

/// The contents of a new task file: the frontmatter, a blank line, the
/// `# <title>` heading and the body.
pub fn assemble(meta: &TaskMeta, title: &str, body: &str) -> (r: String)
    ensures
        r@ == render_spec(meta@) + "\n# "@ + title@ + "\n"@ + body_block(body@),
{
    let front = render_frontmatter(meta);
    let mut out: Vec<char> = Vec::new();
    push_str(&mut out, front.as_str());
    push_str(&mut out, "\n# ");
    push_str(&mut out, title);
    push_str(&mut out, "\n");
    push_body_block(&mut out, body);
    string_of(&out)
}

/// Reading a new task file back gives the meta it was written with, and the
/// heading and body after it.
pub proof fn lemma_new_task_reads_back(m: MetaView, title: Seq<char>, body: Seq<char>)
    requires
        meta_well_formed(m),
        m.created is Some,
    ensures
        parse_spec(render_spec(m) + "\n# "@ + title + "\n"@ + body_block(body)) == (
            m,
            "\n# "@ + title + "\n"@ + body_block(body),
        ),
{
    let rest = "\n# "@ + title + "\n"@ + body_block(body);
    crate::frontmatter::lemma_render_parse_round_trip(m, rest);
    assert(render_spec(m) + "\n# "@ + title + "\n"@ + body_block(body) =~= render_spec(m) + rest);
}

/// The slug for a new task titled `title`: [`CubilError::InvalidSlug`] when
/// the title has no letters or digits, [`CubilError::SlugCollision`] (with
/// the first such task's status) when a task already has that slug.
pub fn new_slug(entries: &Vec<TaskEntry>, title: &str) -> (r: Result<String, CubilError>)
    ensures
        slug_of(title@).len() == 0 ==> r matches Err(CubilError::InvalidSlug),
        slug_of(title@).len() > 0 && with_slug(entries@, slug_of(title@)).len() == 0 ==> (r matches Ok(
            s,
        ) && s@ == slug_of(title@)),
        slug_of(title@).len() > 0 && with_slug(entries@, slug_of(title@)).len() > 0 ==> (r matches Err(
            CubilError::SlugCollision { slug, status },
        ) && slug@ == slug_of(title@) && status@ == with_slug(entries@, slug_of(title@))[0].status@),
{
    let slug = match slugify(title) {
        Ok(s) => s,
        Err(e) => {
            return Err(e);
        },
    };
    let mut i: usize = 0;
    while i < entries.len()
        invariant
            i <= entries@.len(),
            slug@ == slug_of(title@),
            slug@.len() > 0,
            with_slug(entries@.take(i as int), slug@).len() == 0,
        decreases entries@.len() - i,
    {
        proof {
            assert(entries@.take(i + 1).drop_last() =~= entries@.take(i as int));
            assert(entries@.take(i + 1).last() == entries@[i as int]);
        }
        if entries[i].slug == slug {
            proof {
                lemma_with_slug_first(entries@, i as int, slug@);
            }
            return Err(CubilError::SlugCollision { slug, status: entries[i].status.clone() });
        }
        i = i + 1;
    }
    proof {
        assert(entries@.take(entries@.len() as int) =~= entries@);
    }
    Ok(slug)
}

/// When none of the first `i` entries has `slug` and entry `i` does, entry
/// `i` is the first with it.
proof fn lemma_with_slug_first(es: Seq<TaskEntry>, i: int, slug: Seq<char>)
    requires
        0 <= i < es.len(),
        with_slug(es.take(i), slug).len() == 0,
        es[i].slug@ == slug,
    ensures
        with_slug(es, slug).len() > 0,
        with_slug(es, slug)[0] == es[i],
    decreases es.len(),
{
    if es.len() - 1 > i {
        assert(es.drop_last().take(i) =~= es.take(i));
        lemma_with_slug_first(es.drop_last(), i, slug);
    } else {
        assert(es.drop_last() =~= es.take(i));
    }
}

// ---------------------------------------------------------------------------
// Dates
// ---------------------------------------------------------------------------

/// `'0'` repeated `n` times.
pub open spec fn zeros(n: nat) -> Seq<char> {
    Seq::new(n, |_i: int| '0')
}

/// `s` padded on the left with `'0'` to at least `w` characters.
pub open spec fn zero_pad(s: Seq<char>, w: nat) -> Seq<char> {
    if s.len() < w {
        zeros((w - s.len()) as nat) + s
    } else {
        s
    }
}

/// A year as `{:04}` writes it: at least four characters, the sign
/// included.
pub open spec fn year_text(y: int) -> Seq<char> {
    if y >= 0 {
        zero_pad(dec(y as nat), 4)
    } else {
        "-"@ + zero_pad(dec((-y) as nat), 3)
    }
}

/// `YYYY-MM-DD`.
pub open spec fn iso_date_text(year: int, month: nat, day: nat) -> Seq<char> {
    year_text(year) + "-"@ + zero_pad(dec(month), 2) + "-"@ + zero_pad(dec(day), 2)
}

/// Appends `n` padded with zeros to `w` digits.
fn push_padded_decimal(out: &mut Vec<char>, n: u64, w: usize)
    requires
        w <= 4,
    ensures
        final(out)@ == old(out)@ + zero_pad(dec(n as nat), w as nat),
{
    let mut digits: Vec<char> = Vec::new();
    push_decimal(&mut digits, n);
    let len = digits.len();
    if len < w {
        let mut k: usize = 0;
        while k < w - len
            invariant
                len < w <= 4,
                k <= w - len,
                out@ == old(out)@ + zeros(k as nat),
            decreases w - len - k,
        {
            out.push('0');
            proof {
                assert(zeros((k + 1) as nat) =~= zeros(k as nat).push('0'));
            }
            k = k + 1;
        }
    }
    let ghost before = out@;
    let mut j: usize = 0;
    while j < len
        invariant
            len == digits@.len(),
            j <= len,
            out@ == before + digits@.take(j as int),
        decreases len - j,
    {
        out.push(digits[j]);
        proof {
            assert(digits@.take(j + 1) =~= digits@.take(j as int).push(digits@[j as int]));
        }
        j = j + 1;
    }
    proof {
        assert(digits@.take(len as int) =~= digits@);
        assert(digits@ == dec(n as nat));
    }
}

/// A date as `YYYY-MM-DD` (`format!("{:04}-{:02}-{:02}", ..)`).
pub fn iso_date(year: i32, month: u8, day: u8) -> (r: String)
    ensures
        r@ == iso_date_text(year as int, month as nat, day as nat),
{
    let mut out: Vec<char> = Vec::new();
    if year >= 0 {
        push_padded_decimal(&mut out, year as u64, 4);
    } else {
        push_str(&mut out, "-");
        let magnitude: u64 = (0i64 - (year as i64)) as u64;
        push_padded_decimal(&mut out, magnitude, 3);
    }
    push_str(&mut out, "-");
    push_padded_decimal(&mut out, month as u64, 2);
    push_str(&mut out, "-");
    push_padded_decimal(&mut out, day as u64, 2);
    string_of(&out)
}

/// The current date and time in the local offset
/// (`OffsetDateTime::now_local`), or `None` when the local offset cannot be
/// determined. What it returns depends on the clock and the system's time
/// zone, so nothing more is stated.
#[verifier::external_body]
fn now_local() -> (r: Option<time::OffsetDateTime>) {
    time::OffsetDateTime::now_local().ok()
}

/// The current date and time in UTC (`OffsetDateTime::now_utc`). It depends
/// on the clock, so nothing is stated of it.
#[verifier::external_body]
fn now_utc() -> (r: time::OffsetDateTime) {
    time::OffsetDateTime::now_utc()
}

/// The calendar date of `dt` (`OffsetDateTime::to_calendar_date`), with the
/// month as its number (`u8::from(Month)`). The `time` crate keeps months
/// in `1..=12`, days in `1..=31` and years within six digits.
#[verifier::external_body]
fn calendar_date(dt: &time::OffsetDateTime) -> (r: (i32, u8, u8))
    ensures
        -999_999 <= r.0 <= 999_999,
        1 <= r.1 <= 12,
        1 <= r.2 <= 31,
{
    let (year, month, day) = dt.to_calendar_date();
    (year, u8::from(month), day)
}

/// Today's date as `YYYY-MM-DD`, in the user's local time zone, falling back
/// to UTC when the local offset cannot be determined.
pub fn today_iso() -> (r: String)
    ensures
        exists|y: int, m: nat, d: nat|
            -999_999 <= y <= 999_999 && 1 <= m <= 12 && 1 <= d <= 31 && r@ == iso_date_text(y, m, d),
{
    let dt = match now_local() {
        Some(dt) => dt,
        None => now_utc(),
    };
    let (year, month, day) = calendar_date(&dt);
    let r = iso_date(year, month, day);
    assert(r@ == iso_date_text(year as int, month as nat, day as nat));
    r
}

} // verus!
