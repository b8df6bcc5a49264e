//! The `---`-delimited frontmatter block at the top of a task file.
use vstd::prelude::*;

use crate::error::texts;
use crate::text::{
    all_digits, is_ws, lemma_dec_digits, lemma_parse_dec, lemma_split_lines_append,
    lemma_split_lines_flatten, lemma_split_one_line, lemma_trim_after_ws, lemma_trim_fixed,
    lemma_trim_nonblank, chars_of, dec, line_content, line_content_end, line_spans, lines, parse_u32, parse_u32_span,
    push_decimal, push_span, push_str, span_eq, span_pieces, span_starts_with, span_start,
    spans_of_lines, split_lines, string_of, trim, trim_end_crlf, trim_end_crlf_end, trim_span,
};

verus! {

#[derive(Debug, Clone, PartialEq, Eq)]
pub struct TaskMeta {
    /// Raw ISO date string.
    pub created: Option<String>,
    pub priority: Option<u32>,
    /// Unknown `key: value` lines, preserved verbatim for round-tripping.
    pub extra: Vec<String>,
}

/// What a [`TaskMeta`] holds, as text.
pub struct MetaView {
    pub created: Option<Seq<char>>,
    pub priority: Option<u32>,
    pub extra: Seq<Seq<char>>,
}

pub open spec fn opt_text(o: Option<String>) -> Option<Seq<char>> {
    match o {
        Some(s) => Some(s@),
        None => None,
    }
}

impl View for TaskMeta {
    type V = MetaView;

    open spec fn view(&self) -> MetaView {
        MetaView { created: opt_text(self.created), priority: self.priority, extra: texts(self.extra@) }
    }
}

/// The meta of a file with no frontmatter: nothing known, no extra lines.
pub open spec fn empty_meta() -> MetaView {
    MetaView { created: None, priority: None, extra: Seq::empty() }
}

impl Default for TaskMeta {
    fn default() -> (r: Self)
        ensures
            r@ == empty_meta(),
    {
        let r = TaskMeta { created: None, priority: None, extra: Vec::new() };
        assert(r@.extra =~= Seq::<Seq<char>>::empty());
        r
    }
}

// ---------------------------------------------------------------------------
// Parsing
// ---------------------------------------------------------------------------

/// Index of the first `c` in `s`.
pub open spec fn index_of(s: Seq<char>, c: char) -> Option<nat>
    decreases s.len(),
{
    if s.len() == 0 {
        None
    } else if s[0] == c {
        Some(0)
    } else {
        match index_of(s.drop_first(), c) {
            Some(i) => Some(i + 1),
            None => None,
        }
    }
}

/// What one header line adds to the meta read so far: blank lines add
/// nothing; `created: <v>` and a `priority: <n>` that parses as a `u32` set
/// their field (the key and value trimmed, split at the first `:`); every
/// other line is kept verbatim in `extra`.
pub open spec fn apply_line(m: MetaView, line: Seq<char>) -> MetaView {
    if trim(line).len() == 0 {
        m
    } else {
        match index_of(line, ':') {
            None => MetaView { extra: m.extra.push(line), ..m },
            Some(k) => {
                let key = trim(line.take(k as int));
                let value = trim(line.skip(k + 1 as int));
                if key == "created"@ {
                    MetaView { created: Some(value), ..m }
                } else if key == "priority"@ {
                    match parse_u32(value) {
                        Some(n) => MetaView { priority: Some(n), ..m },
                        None => MetaView { extra: m.extra.push(line), ..m },
                    }
                } else {
                    MetaView { extra: m.extra.push(line), ..m }
                }
            },
        }
    }
}

/// The meta read from header lines, first to last.
pub open spec fn meta_of(ls: Seq<Seq<char>>) -> MetaView
    decreases ls.len(),
{
    if ls.len() == 0 {
        empty_meta()
    } else {
        apply_line(meta_of(ls.drop_last()), ls.last())
    }
}

/// Length of the opening `---` line (`---\n` or `---\r\n`), or 0 if the
/// text does not start with one.
pub open spec fn opening_len(src: Seq<char>) -> nat {
    if src.len() >= 4 && src.take(4) == "---\n"@ {
        4
    } else if src.len() >= 5 && src.take(5) == "---\r\n"@ {
        5
    } else {
        0
    }
}

/// Index of the first piece that is a closing `---` line (ignoring its
/// trailing `\r`/`\n` characters).
pub open spec fn closing_index(pieces: Seq<Seq<char>>) -> Option<nat>
    decreases pieces.len(),
{
    if pieces.len() == 0 {
        None
    } else if trim_end_crlf(pieces[0]) == "---"@ {
        Some(0)
    } else {
        match closing_index(pieces.drop_first()) {
            Some(i) => Some(i + 1),
            None => None,
        }
    }
}

/// Whether `src` opens with a `---` line that a later `---` line closes.
pub open spec fn has_frontmatter(src: Seq<char>) -> bool {
    opening_len(src) > 0 && closing_index(split_lines(src.skip(opening_len(src) as int))) is Some
}

/// What `parse_frontmatter` returns: the meta read from the lines between
/// the delimiters, and the text after the closing one; or the empty meta
/// and the whole text when there is no complete frontmatter block.
pub open spec fn parse_spec(src: Seq<char>) -> (MetaView, Seq<char>) {
    if !has_frontmatter(src) {
        (empty_meta(), src)
    } else {
        let pieces = split_lines(src.skip(opening_len(src) as int));
        let i = closing_index(pieces)->0 as int;
        (meta_of(lines(pieces.take(i).flatten())), pieces.skip(i + 1).flatten())
    }
}

/// Index of the first `c` in `v[a..b]`.
pub fn find_char(v: &Vec<char>, a: usize, b: usize, c: char) -> (r: Option<usize>)
    requires
        a <= b <= v@.len(),
    ensures
        match index_of(v@.subrange(a as int, b as int), c) {
            Some(k) => r matches Some(i) && i == a + k,
            None => r is None,
        },
        r matches Some(i) ==> a <= i < b,
{
    let mut i = a;
    while i < b
        invariant
            a <= i <= b <= v@.len(),
            index_of(v@.subrange(a as int, b as int), c) == match index_of(
                v@.subrange(i as int, b as int),
                c,
            ) {
                Some(k) => Some((k + (i - a)) as nat),
                None => None,
            },
        decreases b - i,
    {
        let ghost s = v@.subrange(i as int, b as int);
        assert(s[0] == v@[i as int]);
        if v[i] == c {
            return Some(i);
        }
        assert(s.drop_first() =~= v@.subrange(i + 1, b as int));
        i = i + 1;
    }
    None
}

/// Applies one header line, `h[a..e]`, to `meta`.
fn apply_line_exec(meta: &mut TaskMeta, h: &Vec<char>, a: usize, e: usize)
    requires
        a <= e <= h@.len(),
    ensures
        final(meta)@ == apply_line(old(meta)@, h@.subrange(a as int, e as int)),
{
    let ghost line = h@.subrange(a as int, e as int);
    let (x, y) = trim_span(h, a, e);
    if x == y {
        return;
    }
    let mut whole: Vec<char> = Vec::new();
    push_span(&mut whole, h, a, e);
    let line_string = string_of(&whole);
    match find_char(h, a, e, ':') {
        None => {
            meta.extra.push(line_string);
            assert(meta@.extra =~= old(meta)@.extra.push(line));
        },
        Some(c) => {
            proof {
                let k = (c - a) as int;
                assert(line.take(k) =~= h@.subrange(a as int, c as int));
                assert(line.skip(k + 1) =~= h@.subrange(c + 1, e as int));
            }
            let (ka, kb) = trim_span(h, a, c);
            let (va, vb) = trim_span(h, c + 1, e);
            let ghost k = (c - a) as int;
            assert(index_of(line, ':') == Some(k as nat));
            assert(h@.subrange(ka as int, kb as int) == trim(line.take(k)));
            assert(h@.subrange(va as int, vb as int) == trim(line.skip(k + 1)));
            if span_eq(h, ka, kb, "created") {
                let mut value: Vec<char> = Vec::new();
                push_span(&mut value, h, va, vb);
                let vs = string_of(&value);
                assert(vs@ == trim(line.skip(k + 1)));
                meta.created = Some(vs);
                assert(meta@.created == Some(trim(line.skip(k + 1))));
                assert(meta@.priority == old(meta)@.priority);
                assert(meta@.extra == old(meta)@.extra);
            } else if span_eq(h, ka, kb, "priority") {
                match parse_u32_span(h, va, vb) {
                    Some(n) => {
                        meta.priority = Some(n);
                        assert(meta@.created == old(meta)@.created);
                    },
                    None => {
                        meta.extra.push(line_string);
                        assert(meta@.extra =~= old(meta)@.extra.push(line));
                    },
                }
            } else {
                meta.extra.push(line_string);
                assert(meta@.extra =~= old(meta)@.extra.push(line));
            }
        },
    }
}

/// Index of the closing `---` piece among the pieces of `v`.
fn find_closing(v: &Vec<char>, spans: &Vec<(usize, usize)>) -> (r: Option<usize>)
    requires
        spans_of_lines(v@, spans@),
    ensures
        match closing_index(split_lines(v@)) {
            Some(i) => r == Some(i as usize) && i < spans@.len(),
            None => r is None,
        },
{
    let ghost pieces = split_lines(v@);
    let mut k: usize = 0;
    assert(pieces.skip(0) =~= pieces);
    while k < spans.len()
        invariant
            spans_of_lines(v@, spans@),
            pieces == split_lines(v@),
            k <= spans@.len(),
            closing_index(pieces) == match closing_index(pieces.skip(k as int)) {
                Some(j) => Some((j + k) as nat),
                None => None,
            },
        decreases spans@.len() - k,
    {
        let (a, b) = spans[k];
        let e = trim_end_crlf_end(v, a, b);
        proof {
            assert(span_pieces(v@, spans@)[k as int] == v@.subrange(a as int, b as int));
            assert(pieces.skip(k as int)[0] == pieces[k as int]);
            assert(pieces.skip(k as int).drop_first() =~= pieces.skip(k + 1));
        }
        if span_eq(v, a, e, "---") {
            return Some(k);
        }
        k = k + 1;
    }
    proof {
        assert(pieces.skip(k as int).len() == 0);
    }
    None
}

/// `opening_len` of `v`.
fn opening(v: &Vec<char>) -> (o: usize)
    ensures
        o == opening_len(v@),
{
    let n = v.len();
    let o: usize = if span_starts_with(v, 0, n, "---\n") {
        4
    } else if span_starts_with(v, 0, n, "---\r\n") {
        5
    } else {
        0
    };
    proof {
        if n >= 4 {
            assert(v@.subrange(0, 4) =~= v@.take(4));
        }
        if n >= 5 {
            assert(v@.subrange(0, 5) =~= v@.take(5));
        }
        reveal_strlit("---\n");
        reveal_strlit("---\r\n");
    }
    o
}

/// The meta read from the lines of `header`.
fn meta_from_header(header: &Vec<char>) -> (meta: TaskMeta)
    ensures
        meta@ == meta_of(lines(header@)),
{
    let hs = line_spans(header);
    let ghost hl = lines(header@);
    let mut meta = TaskMeta::default();
    let mut j: usize = 0;
    assert(hl.take(0) =~= Seq::<Seq<char>>::empty());
    while j < hs.len()
        invariant
            spans_of_lines(header@, hs@),
            hl == lines(header@),
            j <= hs@.len(),
            meta@ == meta_of(hl.take(j as int)),
        decreases hs@.len() - j,
    {
        let (a, b) = hs[j];
        let e = line_content_end(header, a, b);
        proof {
            assert(span_pieces(header@, hs@)[j as int] == header@.subrange(a as int, b as int));
            assert(hl[j as int] == line_content(split_lines(header@)[j as int]));
            assert(hl.take(j + 1).drop_last() =~= hl.take(j as int));
            assert(hl.take(j + 1).last() == hl[j as int]);
        }
        apply_line_exec(&mut meta, header, a, e);
        j = j + 1;
    }
    proof {
        assert(hl.take(hl.len() as int) =~= hl);
    }
    meta
}

/// Parse a `---`-delimited YAML-ish frontmatter block from the start of a
/// markdown file. Only recognizes `key: value` lines; unknown keys go into
/// [`TaskMeta::extra`]. Returns `(TaskMeta, rest_of_file_starting_at_body)`.
/// If the file has no frontmatter (or the opening `---` has no matching
/// closing `---`), returns `(TaskMeta::default(), src)`.
pub fn parse_frontmatter(src: &str) -> (r: (TaskMeta, &str))
    ensures
        r.0@ == parse_spec(src@).0,
        r.1@ == parse_spec(src@).1,
{
    let v = chars_of(src);
    let n = v.len();
    let o = opening(&v);
    if o == 0 {
        return (TaskMeta::default(), src);
    }
    let mut rest: Vec<char> = Vec::new();
    push_span(&mut rest, &v, o, n);
    assert(rest@ =~= src@.skip(o as int));
    let spans = line_spans(&rest);
    let ghost pieces = split_lines(rest@);
    let k = match find_closing(&rest, &spans) {
        Some(k) => k,
        None => {
            return (TaskMeta::default(), src);
        },
    };
    let header_end = spans[k].0;
    let body_start = spans[k].1;
    proof {
        assert(span_start(rest@, spans@, k as int) == header_end);
        assert(span_start(rest@, spans@, k + 1) == body_start);
    }
    let mut header: Vec<char> = Vec::new();
    push_span(&mut header, &rest, 0, header_end);
    assert(header@ =~= rest@.take(header_end as int));
    assert(header@ == pieces.take(k as int).flatten());
    let meta = meta_from_header(&header);
    proof {
        assert(rest@.skip(body_start as int) =~= src@.subrange(o + body_start, n as int));
    }
    let body = src.substring_char(o + body_start, n);
    (meta, body)
}

// ---------------------------------------------------------------------------
// Rendering
// ---------------------------------------------------------------------------

/// Each line followed by `'\n'`.
pub open spec fn lines_text(ls: Seq<Seq<char>>) -> Seq<char>
    decreases ls.len(),
{
    if ls.len() == 0 {
        Seq::empty()
    } else {
        lines_text(ls.drop_last()) + ls.last().push('\n')
    }
}

/// The lines between the delimiters that `render_frontmatter` writes.
pub open spec fn header_text(m: MetaView) -> Seq<char> {
    (match m.created {
        Some(c) => "created: "@ + c + "\n"@,
        None => Seq::empty(),
    }) + (match m.priority {
        Some(p) => "priority: "@ + dec(p as nat) + "\n"@,
        None => Seq::empty(),
    }) + lines_text(m.extra)
}

/// What `render_frontmatter` returns.
pub open spec fn render_spec(m: MetaView) -> Seq<char> {
    if m.created is None && m.priority is None && m.extra.len() == 0 {
        Seq::empty()
    } else {
        "---\n"@ + header_text(m) + "---\n"@
    }
}

/// Render a [`TaskMeta`] back to a `---`-delimited block, including the
/// trailing newline after the closing `---`.
///
/// Returns an empty string when the meta has no known fields and no extras,
/// so a file parsed with no frontmatter round-trips to itself.
pub fn render_frontmatter(meta: &TaskMeta) -> (r: String)
    ensures
        r@ == render_spec(meta@),
{
    let mut out: Vec<char> = Vec::new();
    if meta.created.is_none() && meta.priority.is_none() && meta.extra.len() == 0 {
        return string_of(&out);
    }
    push_str(&mut out, "---\n");
    let ghost start = out@;
    match &meta.created {
        Some(c) => {
            push_str(&mut out, "created: ");
            push_str(&mut out, c.as_str());
            push_str(&mut out, "\n");
        },
        None => {},
    }
    match meta.priority {
        Some(p) => {
            push_str(&mut out, "priority: ");
            push_decimal(&mut out, p as u64);
            push_str(&mut out, "\n");
        },
        None => {},
    }
    let ghost before_extra = out@;
    let mut i: usize = 0;
    while i < meta.extra.len()
        invariant
            i <= meta.extra@.len(),
            out@ == before_extra + lines_text(texts(meta.extra@).take(i as int)),
        decreases meta.extra@.len() - i,
    {
        push_str(&mut out, meta.extra[i].as_str());
        out.push('\n');
        proof {
            let t = texts(meta.extra@);
            assert(t.take(i + 1).drop_last() =~= t.take(i as int));
            assert(t.take(i + 1).last() == meta.extra@[i as int]@);
        }
        i = i + 1;
    }
    push_str(&mut out, "---\n");
    proof {
        assert(texts(meta.extra@).take(meta.extra@.len() as int) =~= texts(meta.extra@));
        assert(out@ =~= render_spec(meta@));
    }
    string_of(&out)
}

// ---------------------------------------------------------------------------
// Laws
// ---------------------------------------------------------------------------

/// A file with no complete frontmatter block comes back unchanged from
/// parsing and rendering again.
pub proof fn lemma_no_frontmatter_round_trip(src: Seq<char>)
    requires
        !has_frontmatter(src),
    ensures
        parse_spec(src).0 == empty_meta(),
        render_spec(parse_spec(src).0) + parse_spec(src).1 == src,
{
    assert(Seq::<char>::empty() + src =~= src);
}

/// No `'\n'` in `s`.
pub open spec fn one_line(s: Seq<char>) -> bool {
    forall|i: int| 0 <= i < s.len() ==> s[i] != '\n'
}

/// A line that `parse_frontmatter` keeps verbatim in `extra`, and that
/// neither ends the block nor changes when written and read back.
pub open spec fn extra_line_ok(e: Seq<char>) -> bool {
    &&& one_line(e)
    &&& (e.len() == 0 || e.last() != '\r')
    &&& trim_end_crlf(e) != "---"@
    &&& trim(e).len() > 0
    &&& match index_of(e, ':') {
        None => true,
        Some(k) => trim(e.take(k as int)) != "created"@ && (trim(e.take(k as int)) == "priority"@
            ==> parse_u32(trim(e.skip(k + 1 as int))) is None),
    }
}

/// A meta that `render_frontmatter` writes in a form that
/// `parse_frontmatter` reads back as the same meta.
pub open spec fn meta_well_formed(m: MetaView) -> bool {
    &&& (m.created matches Some(c) ==> one_line(c) && trim(c) == c)
    &&& forall|i: int| 0 <= i < m.extra.len() ==> extra_line_ok(#[trigger] m.extra[i])
}

proof fn lemma_trim_end_crlf_first(s: Seq<char>)
    requires
        s.len() > 0,
        s[0] != '\r' && s[0] != '\n',
    ensures
        trim_end_crlf(s).len() > 0,
        trim_end_crlf(s)[0] == s[0],
    decreases s.len(),
{
    if s.len() > 1 && (s.last() == '\r' || s.last() == '\n') {
        lemma_trim_end_crlf_first(s.drop_last());
    }
}

proof fn lemma_trim_end_crlf_push_nl(e: Seq<char>)
    ensures
        trim_end_crlf(e.push('\n')) == trim_end_crlf(e),
{
    assert(e.push('\n').drop_last() =~= e);
}

/// The meta read from a list of lines grows one line at a time.
proof fn lemma_meta_of_push(ls: Seq<Seq<char>>, l: Seq<char>)
    ensures
        meta_of(ls.push(l)) == apply_line(meta_of(ls), l),
{
    assert(ls.push(l).drop_last() =~= ls);
}

proof fn lemma_closing_index_append(a: Seq<Seq<char>>, b: Seq<Seq<char>>)
    requires
        forall|i: int| 0 <= i < a.len() ==> trim_end_crlf(#[trigger] a[i]) != "---"@,
    ensures
        closing_index(a + b) == match closing_index(b) {
            Some(j) => Some(j + a.len()),
            None => None,
        },
    decreases a.len(),
{
    if a.len() == 0 {
        assert(a + b =~= b);
    } else {
        assert((a + b)[0] == a[0]);
        assert((a + b).drop_first() =~= a.drop_first() + b);
        assert forall|i: int| 0 <= i < a.drop_first().len() implies trim_end_crlf(
            #[trigger] a.drop_first()[i],
        ) != "---"@ by {
            assert(a.drop_first()[i] == a[i + 1]);
        }
        lemma_closing_index_append(a.drop_first(), b);
    }
}

/// The pieces of lines written one per `'\n'`.
proof fn lemma_lines_text_pieces(ls: Seq<Seq<char>>)
    requires
        forall|i: int| 0 <= i < ls.len() ==> one_line(#[trigger] ls[i]),
    ensures
        split_lines(lines_text(ls)) == ls.map_values(|l: Seq<char>| l.push('\n')),
        lines_text(ls).len() == 0 || lines_text(ls).last() == '\n',
    decreases ls.len(),
{
    if ls.len() == 0 {
        assert(split_lines(Seq::<char>::empty()) =~= Seq::<Seq<char>>::empty());
        assert(ls.map_values(|l: Seq<char>| l.push('\n')) =~= Seq::<Seq<char>>::empty());
    } else {
        let init = ls.drop_last();
        assert forall|i: int| 0 <= i < init.len() implies one_line(#[trigger] init[i]) by {
            assert(init[i] == ls[i]);
        }
        lemma_lines_text_pieces(init);
        let l = ls.last();
        assert(one_line(ls[ls.len() - 1]));
        lemma_split_one_line(l);
        lemma_split_lines_append(lines_text(init), l.push('\n'));
        assert(ls.map_values(|l: Seq<char>| l.push('\n')) =~= init.map_values(
            |l: Seq<char>| l.push('\n'),
        ).push(l.push('\n')));
    }
}

/// `"created: " + c` read as a header line sets `created` to `c`.
proof fn lemma_created_line(m: MetaView, c: Seq<char>)
    requires
        trim(c) == c,
    ensures
        apply_line(m, "created: "@ + c) == (MetaView { created: Some(c), ..m }),
{
    reveal_strlit("created: ");
    reveal_strlit("created");
    let line = "created: "@ + c;
    assert(line[0] == 'c');
    lemma_trim_nonblank(line);
    let key = line.take(7);
    assert(key =~= "created"@);
    assert(index_of(line, ':') == Some(7nat)) by {
        reveal_with_fuel(index_of, 9);
        assert(line.drop_first().drop_first().drop_first().drop_first().drop_first().drop_first().drop_first()[0] == ':');
    }
    lemma_trim_fixed(key);
    assert(line.skip(8) =~= seq![' '] + c);
    lemma_trim_after_ws(' ', c);
}

/// `"priority: " + dec(p)` read as a header line sets `priority` to `p`.
proof fn lemma_priority_line(m: MetaView, p: u32)
    ensures
        apply_line(m, "priority: "@ + dec(p as nat)) == (MetaView { priority: Some(p), ..m }),
{
    reveal_strlit("priority: ");
    reveal_strlit("priority");
    reveal_strlit("created");
    assert("priority"@ != "created"@) by {
        assert("priority"@.len() != "created"@.len());
    }
    let d = dec(p as nat);
    let line = "priority: "@ + d;
    assert(line[0] == 'p');
    lemma_trim_nonblank(line);
    let key = line.take(8);
    assert(key =~= "priority"@);
    assert(index_of(line, ':') == Some(8nat)) by {
        reveal_with_fuel(index_of, 10);
        assert(line.drop_first().drop_first().drop_first().drop_first().drop_first().drop_first().drop_first().drop_first()[0] == ':');
    }
    lemma_trim_fixed(key);
    assert(line.skip(9) =~= seq![' '] + d);
    lemma_trim_after_ws(' ', d);
    lemma_dec_digits(p as nat);
    assert(all_digits(d));
    assert(!is_ws(d[0]) && !is_ws(d.last())) by {
        assert('0' <= d[0] && d[0] <= '9');
        assert('0' <= d[d.len() - 1] && d[d.len() - 1] <= '9');
    }
    lemma_trim_fixed(d);
    lemma_parse_dec(p);
}

/// The lines of the header a meta is written as, first to last.
pub open spec fn header_lines(m: MetaView) -> Seq<Seq<char>> {
    (match m.created {
        Some(c) => seq!["created: "@ + c],
        None => Seq::empty(),
    }) + (match m.priority {
        Some(p) => seq!["priority: "@ + dec(p as nat)],
        None => Seq::empty(),
    }) + m.extra
}

proof fn lemma_header_lines_text(m: MetaView)
    ensures
        header_text(m) == lines_text(header_lines(m)),
{
    reveal_strlit("\n");
    let cl: Seq<Seq<char>> = match m.created {
        Some(c) => seq!["created: "@ + c],
        None => Seq::empty(),
    };
    let pl: Seq<Seq<char>> = match m.priority {
        Some(p) => seq!["priority: "@ + dec(p as nat)],
        None => Seq::empty(),
    };
    lemma_lines_text_concat(cl + pl, m.extra);
    lemma_lines_text_concat(cl, pl);
    reveal_with_fuel(lines_text, 2);
    assert(lines_text(Seq::<Seq<char>>::empty()) =~= Seq::<char>::empty());
    if let Some(c) = m.created {
        assert(seq!["created: "@ + c].drop_last() =~= Seq::<Seq<char>>::empty());
        assert(lines_text(cl) =~= "created: "@ + c + "\n"@);
    }
    if let Some(p) = m.priority {
        assert(seq!["priority: "@ + dec(p as nat)].drop_last() =~= Seq::<Seq<char>>::empty());
        assert(lines_text(pl) =~= "priority: "@ + dec(p as nat) + "\n"@);
    }
    assert(header_lines(m) =~= cl + pl + m.extra);
}

proof fn lemma_lines_text_concat(a: Seq<Seq<char>>, b: Seq<Seq<char>>)
    ensures
        lines_text(a + b) == lines_text(a) + lines_text(b),
    decreases b.len(),
{
    if b.len() == 0 {
        assert(a + b =~= a);
        assert(lines_text(a) + Seq::<char>::empty() =~= lines_text(a));
    } else {
        assert((a + b).drop_last() =~= a + b.drop_last());
        assert((a + b).last() == b.last());
        lemma_lines_text_concat(a, b.drop_last());
        assert(lines_text(a + b) =~= lines_text(a) + lines_text(b));
    }
}

/// Reading the header lines of a well-formed meta gives the meta back.
proof fn lemma_meta_of_header_lines(m: MetaView, k: int)
    requires
        meta_well_formed(m),
        0 <= k <= m.extra.len(),
    ensures
        meta_of(header_lines(m).take(header_lines(m).len() - m.extra.len() + k)) == (MetaView {
            extra: m.extra.take(k),
            ..m
        }),
    decreases k,
{
    let hl = header_lines(m);
    let base = hl.len() - m.extra.len();
    if k == 0 {
        let m0 = empty_meta();
        match m.created {
            Some(c) => {
                lemma_created_line(m0, c);
                lemma_meta_of_push(Seq::empty(), "created: "@ + c);
                assert(seq!["created: "@ + c] =~= Seq::<Seq<char>>::empty().push("created: "@ + c));
            },
            None => {},
        }
        let m1 = MetaView { created: m.created, ..m0 };
        let cl: Seq<Seq<char>> = match m.created {
            Some(c) => seq!["created: "@ + c],
            None => Seq::empty(),
        };
        assert(meta_of(cl) == m1);
        match m.priority {
            Some(p) => {
                lemma_priority_line(m1, p);
                lemma_meta_of_push(cl, "priority: "@ + dec(p as nat));
                assert(hl.take(base) =~= cl.push("priority: "@ + dec(p as nat)));
            },
            None => {
                assert(hl.take(base) =~= cl);
            },
        }
        assert(m.extra.take(0) =~= Seq::<Seq<char>>::empty());
    } else {
        lemma_meta_of_header_lines(m, k - 1);
        let e = m.extra[k - 1];
        assert(extra_line_ok(e));
        assert(hl.take(base + k) =~= hl.take(base + k - 1).push(e));
        lemma_meta_of_push(hl.take(base + k - 1), e);
        assert(m.extra.take(k) =~= m.extra.take(k - 1).push(e));
    }
}

/// Reading what `render_frontmatter` wrote, followed by any body, gives back
/// the meta and the body.
pub proof fn lemma_render_parse_round_trip(m: MetaView, body: Seq<char>)
    requires
        meta_well_formed(m),
        !(m.created is None && m.priority is None && m.extra.len() == 0),
    ensures
        parse_spec(render_spec(m) + body) == (m, body),
{
    reveal_strlit("---\n");
    reveal_strlit("---");
    let h = header_text(m);
    let src = render_spec(m) + body;
    let close = "---\n"@;
    assert(src =~= close + (h + close + body));
    assert(src.take(4) =~= close);
    assert(opening_len(src) == 4);
    let rest = src.skip(4);
    assert(rest =~= h + (close + body));
    let hl = header_lines(m);
    lemma_header_lines_text(m);
    assert forall|i: int| 0 <= i < hl.len() implies one_line(#[trigger] hl[i]) && (hl[i].len() == 0
        || hl[i].last() != '\r') && trim_end_crlf(hl[i].push('\n')) != "---"@ by {
        lemma_trim_end_crlf_push_nl(hl[i]);
        reveal_strlit("created: ");
        reveal_strlit("priority: ");
        let cn: int = if m.created is Some { 1 } else { 0 };
        let pn: int = if m.priority is Some { 1 } else { 0 };
        if i < cn {
            let c = m.created->0;
            let l = "created: "@ + c;
            assert(hl[i] == l);
            assert forall|j: int| 0 <= j < l.len() implies l[j] != '\n' by {
                if j >= 9 {
                    assert(l[j] == c[j - 9]);
                }
            }
            assert(l[0] == 'c');
            lemma_trim_end_crlf_first(l);
            if c.len() > 0 {
                assert(l.last() == c.last());
                lemma_trim_end_prefix_last(c);
            }
        } else if i < cn + pn {
            let d = dec(m.priority->0 as nat);
            let l = "priority: "@ + d;
            assert(hl[i] == l);
            lemma_dec_digits(m.priority->0 as nat);
            assert forall|j: int| 0 <= j < l.len() implies l[j] != '\n' by {
                if j >= 10 {
                    assert(l[j] == d[j - 10]);
                    assert(all_digits(d));
                    assert('0' <= d[j - 10] && d[j - 10] <= '9');
                }
            }
            assert(l[0] == 'p');
            lemma_trim_end_crlf_first(l);
            assert(l.last() == d[d.len() - 1]);
            assert('0' <= d[d.len() - 1] && d[d.len() - 1] <= '9');
        } else {
            assert(hl[i] == m.extra[i - cn - pn]);
            assert(extra_line_ok(m.extra[i - cn - pn]));
        }
    }
    lemma_lines_text_pieces(hl);
    let hp = hl.map_values(|l: Seq<char>| l.push('\n'));
    lemma_split_one_line("---"@);
    assert("---"@.push('\n') =~= close);
    lemma_split_lines_append(close, body);
    lemma_split_lines_append(h, close + body);
    let pieces = split_lines(rest);
    assert(pieces =~= hp + (seq![close] + split_lines(body)));
    assert forall|i: int| 0 <= i < hp.len() implies trim_end_crlf(#[trigger] hp[i]) != "---"@ by {
        assert(hp[i] == hl[i].push('\n'));
    }
    lemma_closing_index_append(hp, seq![close] + split_lines(body));
    assert(trim_end_crlf(close) == "---"@) by {
        assert(close.last() == '\n');
        assert(close.drop_last() =~= "---"@);
        assert("---"@.last() == '-');
        assert(trim_end_crlf("---"@) == "---"@);
    }
    assert(closing_index(seq![close] + split_lines(body)) == Some(0nat));
    let i = hp.len() as int;
    assert(closing_index(pieces) == Some(i as nat));
    assert(has_frontmatter(src));
    assert(pieces.take(i) =~= hp);
    assert(pieces.skip(i + 1) =~= split_lines(body));
    lemma_split_lines_flatten(body);
    lemma_split_lines_flatten(h);
    assert(hp.flatten() == h);
    assert(lines(h) =~= hl) by {
        assert forall|j: int| 0 <= j < hl.len() implies #[trigger] lines(h)[j] == hl[j] by {
            let l = hl[j];
            assert(split_lines(h)[j] == l.push('\n'));
            assert(l.push('\n').drop_last() =~= l);
        }
    }
    lemma_meta_of_header_lines(m, m.extra.len() as int);
    assert(hl.take(hl.len() as int) =~= hl);
    assert(m.extra.take(m.extra.len() as int) =~= m.extra);
}

proof fn lemma_trim_end_prefix_last(c: Seq<char>)
    requires
        c.len() > 0,
        trim(c) == c,
    ensures
        c.last() != '\r',
{
    crate::text::lemma_trim_end_prefix(crate::text::trim_start(c));
}

} // verus!
