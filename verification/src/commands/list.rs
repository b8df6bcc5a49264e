//! `cubil list`: which tasks are shown, in what order, and how they are
//! printed as a table or as JSON.
use std::cmp::Ordering;
use vstd::prelude::*;

use crate::error::{join, CubilError};
use crate::frontmatter::TaskMeta;
use crate::slug::TaskEntry;

use crate::text::{
    chars_of, dec, lemma_text_lt_irreflexive, lemma_text_lt_total, lemma_text_lt_transitive, pad,
    push_char, push_decimal, push_padded, span_eq, str_lt, string_of, text_lt,
};

verus! {

/// One task as `cubil list` shows it.
#[derive(Debug, Clone, PartialEq, Eq)]
pub struct Row {
    pub slug: String,
    pub status: String,
    pub priority: Option<u32>,
    pub created: Option<String>,
}

/// Which tasks are listed: those in the given status folder; otherwise all
/// of them with `all`, or all but those in `done/`.
pub open spec fn keeps(entry_status: Seq<char>, all: bool, status: Option<Seq<char>>) -> bool {
    match status {
        Some(name) => entry_status == name,
        None => all || entry_status != "done"@,
    }
}

/// Whether a task in folder `entry_status` is listed.
pub fn keep_status(entry_status: &str, all: bool, status: Option<&str>) -> (r: bool)
    ensures
        r == keeps(
            entry_status@,
            all,
            match status {
                Some(s) => Some(s@),
                None => None,
            },
        ),
{
    let v = chars_of(entry_status);
    assert(v@.subrange(0, v@.len() as int) =~= entry_status@);
    match status {
        Some(name) => span_eq(&v, 0, v.len(), name),
        None => all || !span_eq(&v, 0, v.len(), "done"),
    }
}

/// Priorities in increasing order, with a missing priority after every
/// present one.
pub open spec fn priority_order(a: Option<u32>, b: Option<u32>) -> Ordering {
    match (a, b) {
        (Some(x), Some(y)) => if x < y {
            Ordering::Less
        } else if x == y {
            Ordering::Equal
        } else {
            Ordering::Greater
        },
        (Some(_), None) => Ordering::Less,
        (None, Some(_)) => Ordering::Greater,
        (None, None) => Ordering::Equal,
    }
}

pub fn cmp_priority(a: Option<u32>, b: Option<u32>) -> (r: Ordering)
    ensures
        r == priority_order(a, b),
{
    match (a, b) {
        (Some(x), Some(y)) => if x < y {
            Ordering::Less
        } else if x == y {
            Ordering::Equal
        } else {
            Ordering::Greater
        },
        (Some(_), None) => Ordering::Less,
        (None, Some(_)) => Ordering::Greater,
        (None, None) => Ordering::Equal,
    }
}

/// The status filter as text.
pub open spec fn filter_view(status: Option<&str>) -> Option<Seq<char>> {
    match status {
        Some(s) => Some(s@),
        None => None,
    }
}

/// A status named with `--status` must be a folder under `.cubil/`.
pub fn check_status_filter(status: Option<&str>, folder_exists: bool) -> (r: Result<(), CubilError>)
    ensures
        match status {
            Some(name) => if folder_exists {
                r is Ok
            } else {
                r matches Err(CubilError::StatusMissing(s)) && s@ == name@
            },
            None => r is Ok,
        },
{
    match status {
        Some(name) => if !folder_exists {
            return Err(CubilError::StatusMissing(name.to_owned()));
        },
        None => {},
    }
    Ok(())
}

/// The entries that are listed, in scan order.
pub open spec fn kept_entries(es: Seq<TaskEntry>, all: bool, status: Option<Seq<char>>) -> Seq<TaskEntry>
    decreases es.len(),
{
    if es.len() == 0 {
        Seq::empty()
    } else if keeps(es.last().status@, all, status) {
        kept_entries(es.drop_last(), all, status).push(es.last())
    } else {
        kept_entries(es.drop_last(), all, status)
    }
}

/// The entries that `cubil list` shows (see [`keeps`]), in scan order.
pub fn filter_entries(entries: Vec<TaskEntry>, all: bool, status: Option<&str>) -> (r: Vec<TaskEntry>)
    ensures
        r@ == kept_entries(entries@, all, filter_view(status)),
{
    let ghost es = entries@;
    let mut entries = entries;
    let mut out: Vec<TaskEntry> = Vec::new();
    let n = entries.len();
    let mut i: usize = 0;
    proof {
        assert(es.take(0) =~= Seq::<TaskEntry>::empty());
        assert(es.skip(0) =~= es);
    }
    while i < n
        invariant
            n == es.len(),
            i <= n,
            entries@ == es.skip(i as int),
            out@ == kept_entries(es.take(i as int), all, filter_view(status)),
        decreases n - i,
    {
        let e = entries.remove(0);
        proof {
            assert(e == es[i as int]);
            assert(entries@ =~= es.skip(i + 1));
            assert(es.take(i + 1).drop_last() =~= es.take(i as int));
            assert(es.take(i + 1).last() == es[i as int]);
        }
        if keep_status(e.status.as_str(), all, status) {
            out.push(e);
        }
        i = i + 1;
    }
    proof {
        assert(es.take(n as int) =~= es);
    }
    out
}

/// The row shown for a task and the frontmatter read from its file.
pub open spec fn row_of(e: TaskEntry, m: TaskMeta) -> Row {
    Row { slug: e.slug, status: e.status, priority: m.priority, created: m.created }
}

/// The rows for the listed tasks and their frontmatter, in listing order.
pub fn collect_rows(listed: Vec<(TaskEntry, TaskMeta)>) -> (r: Vec<Row>)
    ensures
        rows_sorted(r@),
        r@.to_multiset() == listed@.map_values(|p: (TaskEntry, TaskMeta)| row_of(p.0, p.1)).to_multiset(),
{
    let ghost ls = listed@;
    let ghost want = ls.map_values(|p: (TaskEntry, TaskMeta)| row_of(p.0, p.1));
    let mut listed = listed;
    let mut rows: Vec<Row> = Vec::new();
    let n = listed.len();
    let mut i: usize = 0;
    proof {
        assert(ls.skip(0) =~= ls);
        assert(rows@ =~= want.take(0));
    }
    while i < n
        invariant
            n == ls.len(),
            want.len() == n,
            want == ls.map_values(|p: (TaskEntry, TaskMeta)| row_of(p.0, p.1)),
            i <= n,
            listed@ == ls.skip(i as int),
            rows@ == want.take(i as int),
        decreases n - i,
    {
        let (e, m) = listed.remove(0);
        proof {
            assert((e, m) == ls[i as int]);
            assert(listed@ =~= ls.skip(i + 1));
        }
        let row = Row { slug: e.slug, status: e.status, priority: m.priority, created: m.created };
        rows.push(row);
        proof {
            assert(want[i as int] == row);
            assert(rows@ =~= want.take(i + 1));
        }
        i = i + 1;
    }
    proof {
        assert(want.take(n as int) =~= want);
    }
    sort_rows(rows)
}

// ---------------------------------------------------------------------------
// Order
// ---------------------------------------------------------------------------

/// Priority `a` comes strictly before priority `b`: smaller first, a
/// missing priority after every present one.
pub open spec fn priority_before(a: Option<u32>, b: Option<u32>) -> bool {
    match (a, b) {
        (Some(x), Some(y)) => x < y,
        (Some(_), None) => true,
        _ => false,
    }
}

/// `cmp_priority` orders priorities as `priority_before` does.
pub proof fn lemma_priority_order(a: Option<u32>, b: Option<u32>)
    ensures
        (priority_order(a, b) == Ordering::Less) == priority_before(a, b),
        (priority_order(a, b) == Ordering::Equal) == (a == b),
        (priority_order(a, b) == Ordering::Greater) == priority_before(b, a),
{
}

/// Row `a` is listed strictly before row `b`: by status folder name, then
/// by priority, then by slug.
pub open spec fn row_before(a: Row, b: Row) -> bool {
    ||| text_lt(a.status@, b.status@)
    ||| (a.status@ == b.status@ && priority_before(a.priority, b.priority))
    ||| (a.status@ == b.status@ && a.priority == b.priority && text_lt(a.slug@, b.slug@))
}

/// The rows are in listing order.
pub open spec fn rows_sorted(rs: Seq<Row>) -> bool {
    forall|i: int, j: int| 0 <= i < j < rs.len() ==> !row_before(#[trigger] rs[j], #[trigger] rs[i])
}

/// Two rows that neither comes before the other have the same sort key.
pub open spec fn same_key(a: Row, b: Row) -> bool {
    a.status@ == b.status@ && a.priority == b.priority && a.slug@ == b.slug@
}

/// No row comes before itself.
pub proof fn lemma_row_before_irreflexive(a: Row)
    ensures
        !row_before(a, a),
{
    lemma_text_lt_irreflexive(a.status@);
    lemma_text_lt_irreflexive(a.slug@);
}

/// The listing order is transitive.
pub proof fn lemma_row_before_transitive(a: Row, b: Row, c: Row)
    requires
        row_before(a, b),
        row_before(b, c),
    ensures
        row_before(a, c),
{
    if text_lt(a.status@, b.status@) && text_lt(b.status@, c.status@) {
        lemma_text_lt_transitive(a.status@, b.status@, c.status@);
    }
    if a.status@ == b.status@ && b.status@ == c.status@ && a.priority == b.priority && b.priority
        == c.priority && text_lt(a.slug@, b.slug@) && text_lt(b.slug@, c.slug@) {
        lemma_text_lt_transitive(a.slug@, b.slug@, c.slug@);
    }
}

/// Any two rows are ordered one way or the other, unless their keys agree.
pub proof fn lemma_row_before_total(a: Row, b: Row)
    ensures
        row_before(a, b) || row_before(b, a) || same_key(a, b),
{
    lemma_text_lt_total(a.status@, b.status@);
    lemma_text_lt_total(a.slug@, b.slug@);
}

/// No two rows come before each other.
pub proof fn lemma_row_before_asymmetric(a: Row, b: Row)
    requires
        row_before(a, b),
    ensures
        !row_before(b, a),
{
    if row_before(b, a) {
        lemma_row_before_transitive(a, b, a);
        lemma_row_before_irreflexive(a);
    }
}

/// If `x` comes before `a` and `b` does not, `x` comes before `b`.
proof fn lemma_row_before_negative_transitive(x: Row, a: Row, b: Row)
    requires
        row_before(x, a),
        !row_before(b, a),
    ensures
        row_before(x, b),
{
    lemma_row_before_total(x, b);
    if row_before(b, x) {
        lemma_row_before_transitive(b, x, a);
    }
}

/// Whether row `a` is listed before row `b`.
pub fn row_lt(a: &Row, b: &Row) -> (r: bool)
    ensures
        r == row_before(*a, *b),
{
    if str_lt(a.status.as_str(), b.status.as_str()) {
        return true;
    }
    if a.status != b.status {
        return false;
    }
    match (a.priority, b.priority) {
        (Some(x), Some(y)) => {
            if x < y {
                return true;
            }
            if x > y {
                return false;
            }
        },
        (Some(_), None) => {
            return true;
        },
        (None, Some(_)) => {
            return false;
        },
        (None, None) => {},
    }
    str_lt(a.slug.as_str(), b.slug.as_str())
}

/// The rows in listing order: by status folder name, then by priority
/// (missing last), then by slug. The result holds the same rows.
pub fn sort_rows(rows: Vec<Row>) -> (r: Vec<Row>)
    ensures
        rows_sorted(r@),
        r@.to_multiset() == rows@.to_multiset(),
{
    let ghost input = rows@;
    let mut rows = rows;
    let mut out: Vec<Row> = Vec::new();
    let n = rows.len();
    let mut i: usize = 0;
    proof {
        assert(input.take(0) =~= Seq::<Row>::empty());
        assert(out@ =~= Seq::<Row>::empty());
        assert(input.skip(0) =~= input);
    }
    while i < n
        invariant
            n == input.len(),
            i <= n,
            rows@ == input.skip(i as int),
            rows_sorted(out@),
            out@.to_multiset() == input.take(i as int).to_multiset(),
        decreases n - i,
    {
        let x = rows.remove(0);
        proof {
            assert(x == input[i as int]);
            assert(rows@ =~= input.skip(i + 1));
        }
        let mut p: usize = 0;
        while p < out.len() && !row_lt(&x, &out[p])
            invariant
                p <= out@.len(),
                forall|q: int| 0 <= q < p ==> !row_before(x, #[trigger] out@[q]),
            decreases out@.len() - p,
        {
            p = p + 1;
        }
        let ghost before = out@;
        proof {
            assert forall|q: int| p <= q < before.len() implies row_before(x, #[trigger] before[q]) by {
                if q > p {
                    lemma_row_before_negative_transitive(x, before[p as int], before[q]);
                }
            }
        }
        out.insert(p, x);
        proof {
            let now = out@;
            assert(now == before.insert(p as int, x));
            assert forall|a: int, b: int| 0 <= a < b < now.len() implies !row_before(
                #[trigger] now[b],
                #[trigger] now[a],
            ) by {
                if b < p {
                    assert(now[a] == before[a] && now[b] == before[b]);
                } else if b == p {
                    assert(now[a] == before[a]);
                } else if a < p {
                    assert(now[a] == before[a] && now[b] == before[b - 1]);
                } else if a == p {
                    assert(now[b] == before[b - 1]);
                    lemma_row_before_asymmetric(x, before[b - 1]);
                } else {
                    assert(now[a] == before[a - 1] && now[b] == before[b - 1]);
                }
            }
            vstd::seq_lib::to_multiset_insert(before, p as int, x);
            assert(input.take(i + 1) =~= input.take(i as int).push(x));
            vstd::seq_lib::to_multiset_build(input.take(i as int), x);
        }
        i = i + 1;
    }
    proof {
        assert(input.take(n as int) =~= input);
    }
    out
}

// ---------------------------------------------------------------------------
// JSON
// ---------------------------------------------------------------------------

/// Lowercase hexadecimal digit.
pub open spec fn hex_digit(d: nat) -> char {
    if d < 10 {
        ((d + 48) as u32) as char
    } else {
        ((d + 87) as u32) as char
    }
}

/// How one character is written inside a JSON string.
pub open spec fn json_escape(c: char) -> Seq<char> {
    if c == '"' {
        seq!['\\', '"']
    } else if c == '\\' {
        seq!['\\', '\\']
    } else if c == '\n' {
        seq!['\\', 'n']
    } else if c == '\r' {
        seq!['\\', 'r']
    } else if c == '\t' {
        seq!['\\', 't']
    } else if c == '\u{08}' {
        seq!['\\', 'b']
    } else if c == '\u{0c}' {
        seq!['\\', 'f']
    } else if (c as u32) < 0x20 {
        seq!['\\', 'u', '0', '0', hex_digit((c as u32 / 16) as nat), hex_digit((c as u32 % 16) as nat)]
    } else {
        seq![c]
    }
}

/// The escaped characters of `s`.
pub open spec fn json_escaped(s: Seq<char>) -> Seq<char>
    decreases s.len(),
{
    if s.len() == 0 {
        Seq::empty()
    } else {
        json_escaped(s.drop_last()) + json_escape(s.last())
    }
}

/// `s` as a JSON string literal.
pub open spec fn json_string(s: Seq<char>) -> Seq<char> {
    seq!['"'] + json_escaped(s) + seq!['"']
}

fn hex_of(d: u32) -> (c: char)
    requires
        d < 16,
    ensures
        c == hex_digit(d as nat),
{
    if d < 10 {
        ((d as u8) + 48u8) as char
    } else {
        ((d as u8) + 87u8) as char
    }
}

fn push_escape(out: &mut String, c: char)
    ensures
        final(out)@ == old(out)@ + json_escape(c),
{
    let ghost e = json_escape(c);
    if c == '"' {
        push_char(out, '\\');
        push_char(out, '"');
    } else if c == '\\' {
        push_char(out, '\\');
        push_char(out, '\\');
    } else if c == '\n' {
        push_char(out, '\\');
        push_char(out, 'n');
    } else if c == '\r' {
        push_char(out, '\\');
        push_char(out, 'r');
    } else if c == '\t' {
        push_char(out, '\\');
        push_char(out, 't');
    } else if c == '\u{08}' {
        push_char(out, '\\');
        push_char(out, 'b');
    } else if c == '\u{0c}' {
        push_char(out, '\\');
        push_char(out, 'f');
    } else if (c as u32) < 0x20 {
        let n = c as u32;
        push_char(out, '\\');
        push_char(out, 'u');
        push_char(out, '0');
        push_char(out, '0');
        push_char(out, hex_of(n / 16));
        push_char(out, hex_of(n % 16));
    } else {
        push_char(out, c);
    }
    assert(out@ =~= old(out)@ + e);
}

/// Appends `s` as a JSON string literal.
pub fn push_json_string(out: &mut String, s: &str)
    ensures
        final(out)@ == old(out)@ + json_string(s@),
{
    let v = chars_of(s);
    push_char(out, '"');
    let ghost start = out@;
    let mut i: usize = 0;
    while i < v.len()
        invariant
            i <= v@.len(),
            v@ == s@,
            out@ == start + json_escaped(v@.take(i as int)),
        decreases v@.len() - i,
    {
        push_escape(out, v[i]);
        proof {
            assert(v@.take(i + 1).drop_last() =~= v@.take(i as int));
            assert(v@.take(i + 1).last() == v@[i as int]);
        }
        i = i + 1;
    }
    push_char(out, '"');
    proof {
        assert(v@.take(v@.len() as int) =~= v@);
        assert(out@ =~= old(out)@ + json_string(s@));
    }
}

/// A JSON value that may be `null`.
pub open spec fn json_or_null(o: Option<Seq<char>>) -> Seq<char> {
    match o {
        Some(s) => json_string(s),
        None => "null"@,
    }
}

pub open spec fn opt_view(o: Option<String>) -> Option<Seq<char>> {
    match o {
        Some(s) => Some(s@),
        None => None,
    }
}

/// One row as a JSON object.
pub open spec fn row_json(r: Row) -> Seq<char> {
    "{\"slug\":"@ + json_string(r.slug@) + ",\"status\":"@ + json_string(r.status@)
        + ",\"priority\":"@ + (match r.priority {
        Some(p) => dec(p as nat),
        None => "null"@,
    }) + ",\"created\":"@ + json_or_null(opt_view(r.created)) + "}"@
}

/// The objects of `rows`, separated by commas.
pub open spec fn rows_json(rows: Seq<Row>) -> Seq<char>
    decreases rows.len(),
{
    if rows.len() == 0 {
        Seq::empty()
    } else if rows.len() == 1 {
        row_json(rows[0])
    } else {
        rows_json(rows.drop_last()) + ","@ + row_json(rows.last())
    }
}

fn push_decimal_string(out: &mut String, n: u32)
    ensures
        final(out)@ == old(out)@ + dec(n as nat),
{
    let mut digits: Vec<char> = Vec::new();
    push_decimal(&mut digits, n as u64);
    let t = string_of(&digits);
    out.append(t.as_str());
}

fn push_row_json(out: &mut String, r: &Row)
    ensures
        final(out)@ == old(out)@ + row_json(*r),
{
    out.append("{\"slug\":");
    push_json_string(out, r.slug.as_str());
    out.append(",\"status\":");
    push_json_string(out, r.status.as_str());
    out.append(",\"priority\":");
    match r.priority {
        Some(p) => push_decimal_string(out, p),
        None => out.append("null"),
    }
    out.append(",\"created\":");
    match &r.created {
        Some(c) => push_json_string(out, c.as_str()),
        None => out.append("null"),
    }
    out.append("}");
    assert(out@ =~= old(out)@ + row_json(*r));
}

/// Each row as a JSON object, in order.
pub open spec fn row_objects(rows: Seq<Row>) -> Seq<Seq<char>> {
    rows.map_values(|r: Row| row_json(r))
}

/// The rows of a JSON listing are the row objects, one per row in order,
/// separated by commas: the text between the brackets is a JSON array's
/// elements.
pub proof fn lemma_rows_json_joined(rows: Seq<Row>)
    ensures
        rows_json(rows) == join(row_objects(rows), ","@),
    decreases rows.len(),
{
    if rows.len() > 1 {
        lemma_rows_json_joined(rows.drop_last());
        assert(row_objects(rows).drop_last() =~= row_objects(rows.drop_last()));
    }
}

/// The rows as a JSON array of objects.
pub fn render_json(rows: &[Row]) -> (r: String)
    ensures
        r@ == "["@ + rows_json(rows@) + "]"@,
        r@ == "["@ + join(row_objects(rows@), ","@) + "]"@,
{
    proof {
        lemma_rows_json_joined(rows@);
    }
    let mut out = String::new();
    out.append("[");
    let ghost start = out@;
    let mut i: usize = 0;
    while i < rows.len()
        invariant
            i <= rows@.len(),
            out@ == start + rows_json(rows@.take(i as int)),
        decreases rows@.len() - i,
    {
        if i > 0 {
            out.append(",");
        }
        push_row_json(&mut out, &rows[i]);
        proof {
            let t = rows@.take(i + 1);
            assert(t.drop_last() =~= rows@.take(i as int));
            assert(t.last() == rows@[i as int]);
            if i == 0 {
                assert(rows_json(rows@.take(0)) =~= Seq::<char>::empty());
            }
            assert(out@ =~= start + rows_json(t));
        }
        i = i + 1;
    }
    out.append("]");
    proof {
        assert(rows@.take(rows@.len() as int) =~= rows@);
    }
    out
}

// ---------------------------------------------------------------------------
// Table
// ---------------------------------------------------------------------------

/// The cells of one line joined by two spaces; each cell but the last padded
/// to its column's width; then a newline.
pub open spec fn line_text(cells: Seq<Seq<char>>, widths: Seq<nat>) -> Seq<char> {
    cells_text(cells, widths, cells.len() as int) + "\n"@
}

/// The first `k` cells of a line, as `line_text` writes them.
pub open spec fn cells_text(cells: Seq<Seq<char>>, widths: Seq<nat>, k: int) -> Seq<char>
    decreases k,
{
    if k <= 0 {
        Seq::empty()
    } else {
        let cell = if k - 1 < cells.len() - 1 {
            pad(cells[k - 1], widths[k - 1])
        } else {
            cells[k - 1]
        };
        if k == 1 {
            cell
        } else {
            cells_text(cells, widths, k - 1) + "  "@ + cell
        }
    }
}

pub open spec fn str_views(cells: Seq<String>) -> Seq<Seq<char>> {
    cells.map_values(|s: String| s@)
}

pub open spec fn nat_widths(widths: Seq<usize>) -> Seq<nat> {
    widths.map_values(|w: usize| w as nat)
}

/// Appends one table line: the cells joined by two spaces, each padded to
/// its column's width but the last, then a newline.
pub fn write_row(out: &mut String, row: &[String; 4], widths: &[usize; 4])
    ensures
        final(out)@ == old(out)@ + line_text(str_views(row@), nat_widths(widths@)),
{
    let ghost cells = str_views(row@);
    let ghost ws = nat_widths(widths@);
    let mut i: usize = 0;
    while i < 4
        invariant
            i <= 4,
            row@.len() == 4,
            widths@.len() == 4,
            cells == str_views(row@),
            ws == nat_widths(widths@),
            out@ == old(out)@ + cells_text(cells, ws, i as int),
        decreases 4 - i,
    {
        if i > 0 {
            out.append("  ");
        }
        if i < 3 {
            push_padded(out, row[i].as_str(), widths[i]);
        } else {
            out.append(row[i].as_str());
        }
        i = i + 1;
    }
    out.append("\n");
}

/// The text of a cell of the table: the value, or `-` when it is missing.
pub open spec fn cell_or_dash(o: Option<Seq<char>>) -> Seq<char> {
    match o {
        Some(s) => s,
        None => "-"@,
    }
}

/// The four cells of a row.
pub open spec fn row_cells(r: Row) -> Seq<Seq<char>> {
    seq![
        r.slug@,
        r.status@,
        cell_or_dash(
            match r.priority {
                Some(p) => Some(dec(p as nat)),
                None => None,
            },
        ),
        cell_or_dash(opt_view(r.created)),
    ]
}

pub open spec fn list_headers() -> Seq<Seq<char>> {
    seq!["slug"@, "status"@, "priority"@, "created"@]
}

/// The width of column `i`: the longest of its header and its cells, in
/// characters.
pub open spec fn column_width(rows: Seq<Row>, i: int) -> nat
    decreases rows.len(),
{
    if rows.len() == 0 {
        list_headers()[i].len()
    } else {
        let w = column_width(rows.drop_last(), i);
        let c = row_cells(rows.last())[i].len();
        if c > w {
            c
        } else {
            w
        }
    }
}

pub open spec fn column_widths(rows: Seq<Row>) -> Seq<nat> {
    seq![column_width(rows, 0), column_width(rows, 1), column_width(rows, 2), column_width(rows, 3)]
}

/// The lines for `rows`.
pub open spec fn rows_text(rows: Seq<Row>, widths: Seq<nat>) -> Seq<char>
    decreases rows.len(),
{
    if rows.len() == 0 {
        Seq::empty()
    } else {
        rows_text(rows.drop_last(), widths) + line_text(row_cells(rows.last()), widths)
    }
}

/// The table `cubil list` prints: a header line and one line per row, with
/// the columns aligned.
pub open spec fn table_text(rows: Seq<Row>) -> Seq<char> {
    line_text(list_headers(), column_widths(rows)) + rows_text(rows, column_widths(rows))
}

fn cells_of(r: &Row) -> (c: [String; 4])
    ensures
        str_views(c@) == row_cells(*r),
{
    let p = match r.priority {
        Some(p) => {
            let mut digits: Vec<char> = Vec::new();
            push_decimal(&mut digits, p as u64);
            string_of(&digits)
        },
        None => "-".to_owned(),
    };
    let c = match &r.created {
        Some(c) => c.clone(),
        None => "-".to_owned(),
    };
    let cells = [r.slug.clone(), r.status.clone(), p, c];
    assert(str_views(cells@) =~= row_cells(*r));
    cells
}

/// The table of rows, with column widths counted in characters.
pub fn render_table(rows: &[Row]) -> (r: String)
    ensures
        r@ == table_text(rows@),
{
    let mut widths: [usize; 4] = [
        "slug".unicode_len(),
        "status".unicode_len(),
        "priority".unicode_len(),
        "created".unicode_len(),
    ];
    let mut cells: Vec<[String; 4]> = Vec::new();
    let mut i: usize = 0;
    while i < rows.len()
        invariant
            i <= rows@.len(),
            cells@.len() == i,
            forall|j: int| 0 <= j < i ==> str_views(#[trigger] cells@[j]@) == row_cells(rows@[j]),
            widths@.len() == 4,
            forall|k: int| 0 <= k < 4 ==> widths@[k] == column_width(rows@.take(i as int), k),
        decreases rows@.len() - i,
    {
        let c = cells_of(&rows[i]);
        let mut k: usize = 0;
        while k < 4
            invariant
                k <= 4,
                i < rows@.len(),
                widths@.len() == 4,
                c@.len() == 4,
                str_views(c@) == row_cells(rows@[i as int]),
                forall|m: int|
                    0 <= m < k ==> widths@[m] == column_width(rows@.take(i + 1), m),
                forall|m: int|
                    k <= m < 4 ==> widths@[m] == column_width(rows@.take(i as int), m),
            decreases 4 - k,
        {
            let n = c[k].unicode_len();
            proof {
                assert(rows@.take(i + 1).drop_last() =~= rows@.take(i as int));
                assert(rows@.take(i + 1).last() == rows@[i as int]);
                assert(str_views(c@)[k as int] == c@[k as int]@);
            }
            if n > widths[k] {
                widths[k] = n;
            }
            k = k + 1;
        }
        cells.push(c);
        i = i + 1;
    }
    proof {
        assert(rows@.take(rows@.len() as int) =~= rows@);
    }
    let mut out = String::new();
    let headers: [String; 4] = [
        "slug".to_owned(),
        "status".to_owned(),
        "priority".to_owned(),
        "created".to_owned(),
    ];
    proof {
        assert(str_views(headers@) =~= list_headers());
        assert(nat_widths(widths@) =~= column_widths(rows@));
    }
    write_row(&mut out, &headers, &widths);
    let ghost start = out@;
    let mut j: usize = 0;
    while j < cells.len()
        invariant
            j <= cells@.len(),
            cells@.len() == rows@.len(),
            forall|m: int| 0 <= m < cells@.len() ==> str_views(#[trigger] cells@[m]@) == row_cells(rows@[m]),
            nat_widths(widths@) == column_widths(rows@),
            out@ == start + rows_text(rows@.take(j as int), column_widths(rows@)),
        decreases cells@.len() - j,
    {
        write_row(&mut out, &cells[j], &widths);
        proof {
            assert(rows@.take(j + 1).drop_last() =~= rows@.take(j as int));
            assert(rows@.take(j + 1).last() == rows@[j as int]);
        }
        j = j + 1;
    }
    proof {
        assert(rows@.take(rows@.len() as int) =~= rows@);
    }
    out
}

} // verus!
