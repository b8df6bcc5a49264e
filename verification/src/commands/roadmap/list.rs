//! `cubil roadmap list`: roadmaps in slug order, as a table or as JSON.
use vstd::prelude::*;

use crate::error::join;

use crate::commands::list::{
    json_or_null, json_string, line_text, nat_widths, opt_view, push_json_string, str_views,
};
use crate::text::{
    lemma_text_lt_asymmetric, lemma_text_lt_total, lemma_text_lt_transitive, str_lt, text_lt,
};

verus! {

/// One roadmap as `cubil roadmap list` shows it.
#[derive(Debug, Clone, PartialEq, Eq)]
pub struct Row {
    pub slug: String,
    pub title: Option<String>,
}

/// One row as a JSON object.
pub open spec fn row_json(r: Row) -> Seq<char> {
    "{\"slug\":"@ + json_string(r.slug@) + ",\"title\":"@ + json_or_null(opt_view(r.title)) + "}"@
}

/// The objects of `rows`, separated by commas.
pub open spec fn rows_json(rows: Seq<Row>) -> Seq<char>
    decreases rows.len(),
{
    if rows.len() == 0 {
        Seq::empty()
    } else if rows.len() == 1 {
        row_json(rows[0])
    } else {
        rows_json(rows.drop_last()) + ","@ + row_json(rows.last())
    }
}

fn push_row_json(out: &mut String, r: &Row)
    ensures
        final(out)@ == old(out)@ + row_json(*r),
{
    out.append("{\"slug\":");
    push_json_string(out, r.slug.as_str());
    out.append(",\"title\":");
    match &r.title {
        Some(t) => push_json_string(out, t.as_str()),
        None => out.append("null"),
    }
    out.append("}");
    assert(out@ =~= old(out)@ + row_json(*r));
}

/// Each row as a JSON object, in order.
pub open spec fn row_objects(rows: Seq<Row>) -> Seq<Seq<char>> {
    rows.map_values(|r: Row| row_json(r))
}

/// The rows of a JSON listing are the row objects, one per row in order,
/// separated by commas: the text between the brackets is a JSON array's
/// elements.
pub proof fn lemma_rows_json_joined(rows: Seq<Row>)
    ensures
        rows_json(rows) == join(row_objects(rows), ","@),
    decreases rows.len(),
{
    if rows.len() > 1 {
        lemma_rows_json_joined(rows.drop_last());
        assert(row_objects(rows).drop_last() =~= row_objects(rows.drop_last()));
    }
}

/// The rows as a JSON array of objects.
pub fn render_json(rows: &[Row]) -> (r: String)
    ensures
        r@ == "["@ + rows_json(rows@) + "]"@,
        r@ == "["@ + join(row_objects(rows@), ","@) + "]"@,
{
    proof {
        lemma_rows_json_joined(rows@);
    }
    let mut out = String::new();
    out.append("[");
    let ghost start = out@;
    let mut i: usize = 0;
    while i < rows.len()
        invariant
            i <= rows@.len(),
            out@ == start + rows_json(rows@.take(i as int)),
        decreases rows@.len() - i,
    {
        if i > 0 {
            out.append(",");
        }
        push_row_json(&mut out, &rows[i]);
        proof {
            let t = rows@.take(i + 1);
            assert(t.drop_last() =~= rows@.take(i as int));
            assert(t.last() == rows@[i as int]);
            if i == 0 {
                assert(rows_json(rows@.take(0)) =~= Seq::<char>::empty());
            }
            assert(out@ =~= start + rows_json(t));
        }
        i = i + 1;
    }
    out.append("]");
    proof {
        assert(rows@.take(rows@.len() as int) =~= rows@);
    }
    out
}

/// Appends one table line: the slug padded to its column's width, two
/// spaces, the title, a newline.
pub fn write_row(out: &mut String, row: &[String; 2], widths: &[usize; 2])
    ensures
        final(out)@ == old(out)@ + line_text(str_views(row@), nat_widths(widths@)),
{
    crate::text::push_padded(out, row[0].as_str(), widths[0]);
    out.append("  ");
    out.append(row[1].as_str());
    out.append("\n");
    proof {
        reveal_with_fuel(crate::commands::list::cells_text, 3);
        assert(out@ =~= old(out)@ + line_text(str_views(row@), nat_widths(widths@)));
    }
}

/// The two cells of a row: the slug, and the title or `-`.
pub open spec fn row_cells(r: Row) -> Seq<Seq<char>> {
    seq![r.slug@, match r.title {
        Some(t) => t@,
        None => "-"@,
    }]
}

pub open spec fn headers() -> Seq<Seq<char>> {
    seq!["slug"@, "title"@]
}

/// The width of column `i`: the longest of its header and its cells.
pub open spec fn column_width(rows: Seq<Row>, i: int) -> nat
    decreases rows.len(),
{
    if rows.len() == 0 {
        headers()[i].len()
    } else {
        let w = column_width(rows.drop_last(), i);
        let c = row_cells(rows.last())[i].len();
        if c > w {
            c
        } else {
            w
        }
    }
}

pub open spec fn column_widths(rows: Seq<Row>) -> Seq<nat> {
    seq![column_width(rows, 0), column_width(rows, 1)]
}

pub open spec fn rows_text(rows: Seq<Row>, widths: Seq<nat>) -> Seq<char>
    decreases rows.len(),
{
    if rows.len() == 0 {
        Seq::empty()
    } else {
        rows_text(rows.drop_last(), widths) + line_text(row_cells(rows.last()), widths)
    }
}

/// The table: a header line and one line per row, slug column aligned.
pub open spec fn table_text(rows: Seq<Row>) -> Seq<char> {
    line_text(headers(), column_widths(rows)) + rows_text(rows, column_widths(rows))
}

fn cells_of(r: &Row) -> (c: [String; 2])
    ensures
        str_views(c@) == row_cells(*r),
{
    let t = match &r.title {
        Some(t) => t.clone(),
        None => "-".to_owned(),
    };
    let cells = [r.slug.clone(), t];
    assert(str_views(cells@) =~= row_cells(*r));
    cells
}

/// The table of roadmaps.
pub fn render_table(rows: &[Row]) -> (r: String)
    ensures
        r@ == table_text(rows@),
{
    let mut widths: [usize; 2] = ["slug".unicode_len(), "title".unicode_len()];
    let mut cells: Vec<[String; 2]> = Vec::new();
    let mut i: usize = 0;
    while i < rows.len()
        invariant
            i <= rows@.len(),
            cells@.len() == i,
            forall|j: int| 0 <= j < i ==> str_views(#[trigger] cells@[j]@) == row_cells(rows@[j]),
            widths@.len() == 2,
            forall|k: int| 0 <= k < 2 ==> widths@[k] == column_width(rows@.take(i as int), k),
        decreases rows@.len() - i,
    {
        let c = cells_of(&rows[i]);
        proof {
            assert(rows@.take(i + 1).drop_last() =~= rows@.take(i as int));
            assert(rows@.take(i + 1).last() == rows@[i as int]);
            assert(str_views(c@)[0] == c@[0]@);
            assert(str_views(c@)[1] == c@[1]@);
        }
        let n0 = c[0].unicode_len();
        if n0 > widths[0] {
            widths[0] = n0;
        }
        let n1 = c[1].unicode_len();
        if n1 > widths[1] {
            widths[1] = n1;
        }
        cells.push(c);
        i = i + 1;
    }
    proof {
        assert(rows@.take(rows@.len() as int) =~= rows@);
    }
    let mut out = String::new();
    let hs: [String; 2] = ["slug".to_owned(), "title".to_owned()];
    proof {
        assert(str_views(hs@) =~= headers());
        assert(nat_widths(widths@) =~= column_widths(rows@));
    }
    write_row(&mut out, &hs, &widths);
    let ghost start = out@;
    let mut j: usize = 0;
    while j < cells.len()
        invariant
            j <= cells@.len(),
            cells@.len() == rows@.len(),
            forall|m: int| 0 <= m < cells@.len() ==> str_views(#[trigger] cells@[m]@) == row_cells(rows@[m]),
            nat_widths(widths@) == column_widths(rows@),
            out@ == start + rows_text(rows@.take(j as int), column_widths(rows@)),
        decreases cells@.len() - j,
    {
        write_row(&mut out, &cells[j], &widths);
        proof {
            assert(rows@.take(j + 1).drop_last() =~= rows@.take(j as int));
            assert(rows@.take(j + 1).last() == rows@[j as int]);
        }
        j = j + 1;
    }
    proof {
        assert(rows@.take(rows@.len() as int) =~= rows@);
    }
    out
}

/// The texts are in increasing order.
pub open spec fn texts_sorted(ss: Seq<String>) -> bool {
    forall|i: int, j: int| 0 <= i < j < ss.len() ==> !text_lt(#[trigger] ss[j]@, #[trigger] ss[i]@)
}

/// The slugs in increasing order (`slice::sort` on `String`s). The result
/// holds the same slugs.
pub fn sort_slugs(slugs: Vec<String>) -> (r: Vec<String>)
    ensures
        texts_sorted(r@),
        r@.to_multiset() == slugs@.to_multiset(),
{
    let ghost input = slugs@;
    let mut slugs = slugs;
    let mut out: Vec<String> = Vec::new();
    let n = slugs.len();
    let mut i: usize = 0;
    proof {
        assert(input.take(0) =~= Seq::<String>::empty());
        assert(out@ =~= Seq::<String>::empty());
        assert(input.skip(0) =~= input);
    }
    while i < n
        invariant
            n == input.len(),
            i <= n,
            slugs@ == input.skip(i as int),
            texts_sorted(out@),
            out@.to_multiset() == input.take(i as int).to_multiset(),
        decreases n - i,
    {
        let x = slugs.remove(0);
        proof {
            assert(x == input[i as int]);
            assert(slugs@ =~= input.skip(i + 1));
        }
        let mut p: usize = 0;
        while p < out.len() && !str_lt(x.as_str(), out[p].as_str())
            invariant
                p <= out@.len(),
                forall|q: int| 0 <= q < p ==> !text_lt(x@, #[trigger] out@[q]@),
            decreases out@.len() - p,
        {
            p = p + 1;
        }
        let ghost before = out@;
        proof {
            assert forall|q: int| p <= q < before.len() implies text_lt(x@, #[trigger] before[q]@) by {
                if q > p {
                    lemma_text_lt_total(x@, before[q]@);
                    if text_lt(before[q]@, x@) {
                        lemma_text_lt_transitive(before[q]@, x@, before[p as int]@);
                    }
                }
            }
        }
        out.insert(p, x);
        proof {
            let now = out@;
            assert(now == before.insert(p as int, x));
            assert forall|a: int, b: int| 0 <= a < b < now.len() implies !text_lt(
                #[trigger] now[b]@,
                #[trigger] now[a]@,
            ) by {
                if b < p {
                    assert(now[a] == before[a] && now[b] == before[b]);
                } else if b == p {
                    assert(now[a] == before[a]);
                } else if a < p {
                    assert(now[a] == before[a] && now[b] == before[b - 1]);
                } else if a == p {
                    assert(now[b] == before[b - 1]);
                    lemma_text_lt_asymmetric(x@, before[b - 1]@);
                } else {
                    assert(now[a] == before[a - 1] && now[b] == before[b - 1]);
                }
            }
            vstd::seq_lib::to_multiset_insert(before, p as int, x);
            assert(input.take(i + 1) =~= input.take(i as int).push(x));
            vstd::seq_lib::to_multiset_build(input.take(i as int), x);
        }
        i = i + 1;
    }
    proof {
        assert(input.take(n as int) =~= input);
    }
    out
}

} // verus!
