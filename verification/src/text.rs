//! Character-level text model shared by the parsers and renderers.
//!
//! Text is modelled as `Seq<char>` (the view of `&str` and `String`). The
//! spec functions here describe what `str::trim`, `str::split_inclusive('\n')`
//! and `str::lines` return; the executable functions work on a `Vec<char>`
//! copy of the text and are proved against those descriptions.
use vstd::prelude::*;

verus! {

// ---------------------------------------------------------------------------
// Whitespace and trimming
// ---------------------------------------------------------------------------

/// The Unicode `White_Space` property, which `char::is_whitespace` and
/// `str::trim` use.
pub open spec fn is_ws(c: char) -> bool {
    ||| ('\u{9}' <= c && c <= '\u{D}')
    ||| c == ' '
    ||| c == '\u{85}'
    ||| c == '\u{A0}'
    ||| c == '\u{1680}'
    ||| ('\u{2000}' <= c && c <= '\u{200A}')
    ||| c == '\u{2028}'
    ||| c == '\u{2029}'
    ||| c == '\u{202F}'
    ||| c == '\u{205F}'
    ||| c == '\u{3000}'
}

/// `s` with its leading whitespace removed.
pub open spec fn trim_start(s: Seq<char>) -> Seq<char>
    decreases s.len(),
{
    if s.len() > 0 && is_ws(s[0]) {
        trim_start(s.drop_first())
    } else {
        s
    }
}

/// `s` with its trailing whitespace removed.
pub open spec fn trim_end(s: Seq<char>) -> Seq<char>
    decreases s.len(),
{
    if s.len() > 0 && is_ws(s.last()) {
        trim_end(s.drop_last())
    } else {
        s
    }
}

/// `s` with whitespace removed on both ends (`str::trim`).
pub open spec fn trim(s: Seq<char>) -> Seq<char> {
    trim_end(trim_start(s))
}

pub fn is_whitespace(c: char) -> (r: bool)
    ensures
        r == is_ws(c),
{
    ('\u{9}' <= c && c <= '\u{D}') || c == ' ' || c == '\u{85}' || c == '\u{A0}' || c
        == '\u{1680}' || ('\u{2000}' <= c && c <= '\u{200A}') || c == '\u{2028}' || c
        == '\u{2029}' || c == '\u{202F}' || c == '\u{205F}' || c == '\u{3000}'
}

pub proof fn lemma_trim_start_skip(s: Seq<char>, i: int)
    requires
        0 <= i <= s.len(),
        forall|j: int| 0 <= j < i ==> is_ws(#[trigger] s[j]),
    ensures
        trim_start(s) == trim_start(s.skip(i)),
    decreases i,
{
    if i > 0 {
        assert(is_ws(s[0]));
        lemma_trim_start_skip(s.drop_first(), i - 1);
        assert(s.drop_first().skip(i - 1) =~= s.skip(i));
    } else {
        assert(s.skip(0) =~= s);
    }
}

pub proof fn lemma_trim_end_take(s: Seq<char>, i: int)
    requires
        0 <= i <= s.len(),
        forall|j: int| i <= j < s.len() ==> is_ws(#[trigger] s[j]),
    ensures
        trim_end(s) == trim_end(s.take(i)),
    decreases s.len() - i,
{
    if i < s.len() {
        assert(is_ws(s.last()));
        lemma_trim_end_take(s.drop_last(), i);
        assert(s.drop_last().take(i) =~= s.take(i));
    } else {
        assert(s.take(i) =~= s);
    }
}

/// `trim_start(s)` is a suffix of `s`, and begins with a non-whitespace
/// character unless it is empty.
pub proof fn lemma_trim_start_suffix(s: Seq<char>)
    ensures
        trim_start(s).len() <= s.len(),
        trim_start(s) == s.skip(s.len() - trim_start(s).len()),
        trim_start(s).len() > 0 ==> !is_ws(trim_start(s)[0]),
    decreases s.len(),
{
    if s.len() > 0 && is_ws(s[0]) {
        lemma_trim_start_suffix(s.drop_first());
        assert(s.drop_first().skip(s.drop_first().len() - trim_start(s).len()) =~= s.skip(
            s.len() - trim_start(s).len(),
        ));
    } else {
        assert(s.skip(0) =~= s);
    }
}

/// `trim_end(s)` is a prefix of `s`.
pub proof fn lemma_trim_end_prefix(s: Seq<char>)
    ensures
        trim_end(s).len() <= s.len(),
        trim_end(s) == s.take(trim_end(s).len() as int),
        trim_end(s).len() > 0 ==> !is_ws(trim_end(s).last()),
    decreases s.len(),
{
    if s.len() > 0 && is_ws(s.last()) {
        lemma_trim_end_prefix(s.drop_last());
        assert(s.drop_last().take(trim_end(s).len() as int) =~= s.take(trim_end(s).len() as int));
    } else {
        assert(s.take(s.len() as int) =~= s);
    }
}

/// Trimming the end of a text that starts with a non-whitespace character
/// keeps that character.
pub proof fn lemma_trim_end_keeps_first(t: Seq<char>)
    requires
        t.len() > 0,
        !is_ws(t[0]),
    ensures
        trim_end(t).len() > 0,
        trim_end(t)[0] == t[0],
    decreases t.len(),
{
    if t.len() > 1 && is_ws(t.last()) {
        lemma_trim_end_keeps_first(t.drop_last());
    }
}

/// A text that begins and ends with non-whitespace characters is its own
/// trimmed form.
pub proof fn lemma_trim_fixed(s: Seq<char>)
    requires
        s.len() > 0,
        !is_ws(s[0]),
        !is_ws(s.last()),
    ensures
        trim(s) == s,
{
}

/// A leading whitespace character does not change the trimmed form.
pub proof fn lemma_trim_after_ws(c: char, s: Seq<char>)
    requires
        is_ws(c),
    ensures
        trim(seq![c] + s) == trim(s),
{
    assert((seq![c] + s).drop_first() =~= s);
}

/// A text that begins with a non-whitespace character is not blank.
pub proof fn lemma_trim_nonblank(s: Seq<char>)
    requires
        s.len() > 0,
        !is_ws(s[0]),
    ensures
        trim(s).len() > 0,
{
    lemma_trim_end_keeps_first(s);
}

/// Trims whitespace from both ends of `v[lo..hi]`; returns the bounds of
/// what is left.
pub fn trim_span(v: &Vec<char>, lo: usize, hi: usize) -> (r: (usize, usize))
    requires
        lo <= hi <= v@.len(),
    ensures
        lo <= r.0 <= r.1 <= hi,
        v@.subrange(r.0 as int, r.1 as int) == trim(v@.subrange(lo as int, hi as int)),
{
    let ghost s = v@.subrange(lo as int, hi as int);
    let mut a = lo;
    while a < hi && is_whitespace(v[a])
        invariant
            lo <= a <= hi <= v@.len(),
            s == v@.subrange(lo as int, hi as int),
            forall|j: int| lo <= j < a ==> is_ws(#[trigger] v@[j]),
        decreases hi - a,
    {
        a = a + 1;
    }
    proof {
        assert forall|j: int| 0 <= j < a - lo implies is_ws(#[trigger] s[j]) by {
            assert(s[j] == v@[lo + j]);
        }
        lemma_trim_start_skip(s, a - lo);
        let t = s.skip(a - lo);
        assert(t =~= v@.subrange(a as int, hi as int));
        if a < hi {
            assert(t[0] == v@[a as int]);
            assert(trim_start(t) == t);
        } else {
            assert(t.len() == 0);
        }
    }
    let mut b = hi;
    while b > a && is_whitespace(v[b - 1])
        invariant
            lo <= a <= b <= hi <= v@.len(),
            forall|j: int| b <= j < hi ==> is_ws(#[trigger] v@[j]),
        decreases b - a,
    {
        b = b - 1;
    }
    proof {
        let t = v@.subrange(a as int, hi as int);
        assert forall|j: int| b - a <= j < t.len() implies is_ws(#[trigger] t[j]) by {
            assert(t[j] == v@[a + j]);
        }
        lemma_trim_end_take(t, b - a);
        let u = t.take(b - a);
        assert(u =~= v@.subrange(a as int, b as int));
        if b > a {
            assert(u.last() == v@[b - 1]);
        }
    }
    (a, b)
}

// ---------------------------------------------------------------------------
// Lines
// ---------------------------------------------------------------------------

/// Length of the first piece of `str::split_inclusive('\n')`: up to and
/// including the first `'\n'`, or all of `s`.
pub open spec fn line_len(s: Seq<char>) -> nat
    decreases s.len(),
{
    if s.len() == 0 {
        0
    } else if s[0] == '\n' {
        1
    } else {
        1 + line_len(s.drop_first())
    }
}

pub proof fn lemma_line_len_bounds(s: Seq<char>)
    ensures
        line_len(s) <= s.len(),
        s.len() > 0 ==> line_len(s) >= 1,
    decreases s.len(),
{
    if s.len() > 0 && s[0] != '\n' {
        lemma_line_len_bounds(s.drop_first());
    }
}

/// The pieces of `str::split_inclusive('\n')`: each ends with its `'\n'`,
/// except possibly the last; an empty text has no pieces.
pub open spec fn split_lines(s: Seq<char>) -> Seq<Seq<char>>
    decreases s.len(),
{
    if s.len() == 0 {
        Seq::empty()
    } else {
        proof {
            lemma_line_len_bounds(s);
        }
        seq![s.take(line_len(s) as int)] + split_lines(s.skip(line_len(s) as int))
    }
}

/// What `str::lines` yields for one piece: the piece without its `'\n'`,
/// and without a `'\r'` just before that `'\n'`.
pub open spec fn line_content(p: Seq<char>) -> Seq<char> {
    if p.len() > 0 && p.last() == '\n' {
        let q = p.drop_last();
        if q.len() > 0 && q.last() == '\r' {
            q.drop_last()
        } else {
            q
        }
    } else {
        p
    }
}

/// `str::lines`.
pub open spec fn lines(s: Seq<char>) -> Seq<Seq<char>> {
    split_lines(s).map_values(|p: Seq<char>| line_content(p))
}

/// `s` without its trailing `'\n'` characters and then without its trailing
/// `'\r'` characters (`trim_end_matches('\n').trim_end_matches('\r')`).
pub open spec fn strip_eol(s: Seq<char>) -> Seq<char> {
    trim_end_char(trim_end_char(s, '\n'), '\r')
}

/// `s` without its trailing copies of `c`.
pub open spec fn trim_end_char(s: Seq<char>, c: char) -> Seq<char>
    decreases s.len(),
{
    if s.len() > 0 && s.last() == c {
        trim_end_char(s.drop_last(), c)
    } else {
        s
    }
}

/// `s` without its trailing `'\r'` and `'\n'` characters, in any mix
/// (`trim_end_matches(['\r', '\n'])`).
pub open spec fn trim_end_crlf(s: Seq<char>) -> Seq<char>
    decreases s.len(),
{
    if s.len() > 0 && (s.last() == '\r' || s.last() == '\n') {
        trim_end_crlf(s.drop_last())
    } else {
        s
    }
}

pub proof fn lemma_line_len_first_nl(s: Seq<char>, j: int)
    requires
        0 <= j < s.len(),
        s[j] == '\n',
        forall|m: int| 0 <= m < j ==> s[m] != '\n',
    ensures
        line_len(s) == j + 1,
    decreases j,
{
    if j > 0 {
        assert(s[0] != '\n');
        lemma_line_len_first_nl(s.drop_first(), j - 1);
    }
}

pub proof fn lemma_line_len_no_nl(s: Seq<char>)
    requires
        forall|m: int| 0 <= m < s.len() ==> s[m] != '\n',
    ensures
        line_len(s) == s.len(),
    decreases s.len(),
{
    if s.len() > 0 {
        lemma_line_len_no_nl(s.drop_first());
    }
}

/// The pieces of `v[start..]` in order, as bounds into `v`.
pub open spec fn span_pieces(v: Seq<char>, spans: Seq<(usize, usize)>) -> Seq<Seq<char>> {
    spans.map_values(|sp: (usize, usize)| v.subrange(sp.0 as int, sp.1 as int))
}

/// Where piece `k` starts, and `v.len()` past the last piece.
pub open spec fn span_start(v: Seq<char>, spans: Seq<(usize, usize)>, k: int) -> int {
    if k < spans.len() {
        spans[k].0 as int
    } else {
        v.len() as int
    }
}

/// `spans` cut `v` into the pieces of `split_lines(v)`, in order and with no
/// gap between them.
pub open spec fn spans_of_lines(v: Seq<char>, spans: Seq<(usize, usize)>) -> bool {
    &&& spans.len() == split_lines(v).len()
    &&& span_pieces(v, spans) == split_lines(v)
    &&& forall|i: int|
        0 <= i < spans.len() ==> #[trigger] spans[i].0 < spans[i].1 && spans[i].1 <= v.len()
    &&& forall|i: int| 0 <= i < spans.len() ==> span_start(v, spans, i + 1) == #[trigger] spans[i].1
    &&& span_start(v, spans, 0) == 0
    &&& forall|k: int|
        0 <= k <= spans.len() ==> #[trigger] split_lines(v).take(k).flatten() == v.take(
            span_start(v, spans, k),
        )
    &&& forall|k: int|
        0 <= k <= spans.len() ==> #[trigger] split_lines(v).skip(k).flatten() == v.skip(
            span_start(v, spans, k),
        )
}

pub proof fn lemma_split_lines_unfold(s: Seq<char>)
    requires
        s.len() > 0,
    ensures
        split_lines(s) == seq![s.take(line_len(s) as int)] + split_lines(s.skip(line_len(s) as int)),
        1 <= line_len(s) <= s.len(),
{
    lemma_line_len_bounds(s);
}

/// Joining the pieces gives back the text.
pub proof fn lemma_split_lines_flatten(s: Seq<char>)
    ensures
        split_lines(s).flatten() == s,
    decreases s.len(),
{
    if s.len() > 0 {
        lemma_split_lines_unfold(s);
        let k = line_len(s) as int;
        lemma_split_lines_flatten(s.skip(k));
        let p = split_lines(s);
        assert(p[0] == s.take(k));
        assert(p.drop_first() =~= split_lines(s.skip(k)));
        assert(s.take(k) + s.skip(k) =~= s);
    }
}

/// Every piece but the last ends with its `'\n'`, and no piece has a
/// `'\n'` before its end.
pub proof fn lemma_split_lines_pieces(s: Seq<char>)
    ensures
        forall|i: int| 0 <= i < split_lines(s).len() ==> #[trigger] split_lines(s)[i].len() > 0,
        forall|i: int, j: int|
            0 <= i < split_lines(s).len() && 0 <= j < split_lines(s)[i].len() - 1 ==> #[trigger] split_lines(s)[i][j] != '\n',
        forall|i: int|
            0 <= i < split_lines(s).len() - 1 ==> #[trigger] split_lines(s)[i].last() == '\n',
    decreases s.len(),
{
    if s.len() > 0 {
        lemma_split_lines_unfold(s);
        let k = line_len(s) as int;
        lemma_line_len_shape(s);
        lemma_split_lines_pieces(s.skip(k));
        let p = split_lines(s);
        let q = split_lines(s.skip(k));
        assert forall|i: int| 1 <= i < p.len() implies p[i] == q[i - 1] by {}
        if q.len() > 0 {
            lemma_split_lines_flatten(s.skip(k));
            assert(s.skip(k).len() > 0);
        }
    }
}

/// The first piece stops at the first `'\n'`, which ends it, or at the end.
pub proof fn lemma_line_len_shape(s: Seq<char>)
    ensures
        forall|j: int| 0 <= j < line_len(s) - 1 ==> s[j] != '\n',
        line_len(s) < s.len() ==> line_len(s) > 0 && s[line_len(s) - 1] == '\n',
        line_len(s) <= s.len(),
    decreases s.len(),
{
    lemma_line_len_bounds(s);
    if s.len() > 0 && s[0] != '\n' {
        lemma_line_len_shape(s.drop_first());
        assert forall|j: int| 0 <= j < line_len(s) - 1 implies s[j] != '\n' by {
            if j > 0 {
                assert(s[j] == s.drop_first()[j - 1]);
            }
        }
    }
}

/// Splitting a text that ends a line, followed by more text, splits the two
/// separately.
pub proof fn lemma_split_lines_append(a: Seq<char>, b: Seq<char>)
    requires
        a.len() == 0 || a.last() == '\n',
    ensures
        split_lines(a + b) == split_lines(a) + split_lines(b),
    decreases a.len(),
{
    if a.len() == 0 {
        assert(a + b =~= b);
        assert(split_lines(a) =~= Seq::<Seq<char>>::empty());
        assert(split_lines(a) + split_lines(b) =~= split_lines(b));
    } else {
        let ab = a + b;
        lemma_line_len_shape(a);
        let k = line_len(a) as int;
        let j = if k < a.len() { k - 1 } else { a.len() - 1 };
        assert(a[j] == '\n');
        assert forall|m: int| 0 <= m < j implies ab[m] != '\n' by {
            assert(ab[m] == a[m]);
        }
        assert(ab[j] == a[j]);
        lemma_line_len_first_nl(ab, j);
        lemma_line_len_first_nl(a, j);
        lemma_split_lines_unfold(ab);
        lemma_split_lines_unfold(a);
        assert(ab.take(j + 1) =~= a.take(j + 1));
        assert(ab.skip(j + 1) =~= a.skip(j + 1) + b);
        let a2 = a.skip(j + 1);
        if a2.len() > 0 {
            assert(a2.last() == a.last());
        }
        lemma_split_lines_append(a2, b);
        assert(split_lines(ab) =~= split_lines(a) + split_lines(b));
    }
}

/// A line with no `'\n'` in it, followed by `'\n'`, is one piece.
pub proof fn lemma_split_one_line(l: Seq<char>)
    requires
        forall|i: int| 0 <= i < l.len() ==> l[i] != '\n',
    ensures
        split_lines(l.push('\n')) == seq![l.push('\n')],
{
    let s = l.push('\n');
    assert(s[l.len() as int] == '\n');
    lemma_line_len_first_nl(s, l.len() as int);
    lemma_split_lines_unfold(s);
    assert(s.take(s.len() as int) =~= s);
    assert(s.skip(s.len() as int).len() == 0);
    assert(split_lines(s.skip(s.len() as int)) =~= Seq::<Seq<char>>::empty());
}

/// Spans that start at 0, follow one another with no gap, and stay in `v`.
pub open spec fn contiguous(v: Seq<char>, spans: Seq<(usize, usize)>) -> bool {
    &&& spans.len() > 0 ==> spans[0].0 == 0
    &&& forall|q: int| 0 <= q < spans.len() - 1 ==> #[trigger] spans[q + 1].0 == spans[q].1
    &&& forall|q: int| 0 <= q < spans.len() ==> #[trigger] spans[q].0 < spans[q].1 && spans[q].1 <= v.len()
}

/// Where the first `k` spans end.
pub open spec fn prefix_end(spans: Seq<(usize, usize)>, k: int) -> int {
    if k == 0 {
        0
    } else {
        spans[k - 1].1 as int
    }
}

pub proof fn lemma_contiguous_flatten(v: Seq<char>, spans: Seq<(usize, usize)>, k: int)
    requires
        contiguous(v, spans),
        0 <= k <= spans.len(),
    ensures
        span_pieces(v, spans).take(k).flatten() == v.take(prefix_end(spans, k)),
    decreases k,
{
    let p = span_pieces(v, spans);
    if k == 0 {
        assert(p.take(0) =~= Seq::<Seq<char>>::empty());
        assert(v.take(0) =~= Seq::<char>::empty());
    } else {
        lemma_contiguous_flatten(v, spans, k - 1);
        assert(p.take(k) =~= p.take(k - 1).push(p[k - 1]));
        p.take(k - 1).lemma_flatten_push(p[k - 1]);
        let a = prefix_end(spans, k - 1);
        assert(a == spans[k - 1].0) by {
            if k > 1 {
                assert(spans[(k - 2) + 1].0 == spans[k - 2].1);
            }
        }
        assert(v.take(a) + v.subrange(a, spans[k - 1].1 as int) =~= v.take(spans[k - 1].1 as int));
    }
}

/// One more piece `v[start..end]` of `split_lines`.
proof fn lemma_next_piece(v: Seq<char>, start: int, end: int)
    requires
        0 <= start < end <= v.len(),
        forall|m: int| start <= m < end - 1 ==> v[m] != '\n',
        v[end - 1] == '\n' || end == v.len(),
    ensures
        split_lines(v.skip(start)) == seq![v.subrange(start, end)] + split_lines(v.skip(end)),
{
    let rest = v.skip(start);
    assert forall|m: int| 0 <= m < end - 1 - start implies rest[m] != '\n' by {
        assert(rest[m] == v[start + m]);
    }
    if v[end - 1] == '\n' {
        assert(rest[end - 1 - start] == v[end - 1]);
        lemma_line_len_first_nl(rest, end - 1 - start);
    } else {
        assert forall|m: int| 0 <= m < rest.len() implies rest[m] != '\n' by {
            assert(rest[m] == v[start + m]);
        }
        lemma_line_len_no_nl(rest);
    }
    lemma_split_lines_unfold(rest);
    assert(rest.take(end - start) =~= v.subrange(start, end));
    assert(rest.skip(end - start) =~= v.skip(end));
}

/// Splits `v` like `str::split_inclusive('\n')`, returning each piece's
/// bounds.
pub fn line_spans(v: &Vec<char>) -> (spans: Vec<(usize, usize)>)
    ensures
        spans_of_lines(v@, spans@),
{
    let n = v.len();
    let mut spans: Vec<(usize, usize)> = Vec::new();
    let mut start: usize = 0;
    let mut i: usize = 0;
    assert(v@.skip(0) =~= v@);
    while i < n
        invariant
            n == v@.len(),
            start <= i <= n,
            split_lines(v@) == span_pieces(v@, spans@) + split_lines(v@.skip(start as int)),
            forall|m: int| start <= m < i ==> v@[m] != '\n',
            contiguous(v@, spans@),
            prefix_end(spans@, spans@.len() as int) == start,
        decreases n - i,
    {
        if v[i] == '\n' {
            let ghost old_spans = spans@;
            proof {
                lemma_next_piece(v@, start as int, i + 1);
            }
            spans.push((start, i + 1));
            proof {
                let piece = v@.subrange(start as int, i + 1);
                assert(span_pieces(v@, spans@) =~= span_pieces(v@, old_spans).push(piece));
                assert(split_lines(v@) =~= span_pieces(v@, spans@) + split_lines(v@.skip(i + 1)));
                assert(spans@[spans@.len() - 1] == (start, (i + 1) as usize));
            }
            start = i + 1;
        }
        i = i + 1;
    }
    if start < n {
        let ghost old_spans = spans@;
        proof {
            lemma_next_piece(v@, start as int, n as int);
            assert(v@.skip(n as int).len() == 0);
        }
        spans.push((start, n));
        proof {
            let piece = v@.subrange(start as int, n as int);
            assert(span_pieces(v@, spans@) =~= span_pieces(v@, old_spans).push(piece));
            assert(split_lines(v@) =~= span_pieces(v@, spans@));
            assert(spans@[spans@.len() - 1] == (start, n));
        }
        start = n;
    } else {
        proof {
            assert(v@.skip(start as int).len() == 0);
            assert(split_lines(v@) =~= span_pieces(v@, spans@));
        }
    }
    proof {
        let p = split_lines(v@);
        let len = spans@.len() as int;
        assert(v@.take(n as int) =~= v@);
        assert forall|k: int| 0 <= k <= len implies span_start(v@, spans@, k) == prefix_end(spans@, k) by {
            if 0 < k < len {
                assert(spans@[(k - 1) + 1].0 == spans@[k - 1].1);
            }
        }
        assert forall|k: int| 0 <= k <= len implies #[trigger] p.take(k).flatten()
            == v@.take(span_start(v@, spans@, k)) by {
            lemma_contiguous_flatten(v@, spans@, k);
        }
        assert forall|k: int| 0 <= k <= len implies #[trigger] p.skip(k).flatten()
            == v@.skip(span_start(v@, spans@, k)) by {
            vstd::seq_lib::lemma_flatten_concat(p.take(k), p.skip(k));
            assert(p.take(k) + p.skip(k) =~= p);
            assert(p.take(k).flatten() == v@.take(span_start(v@, spans@, k)));
            lemma_contiguous_flatten(v@, spans@, len);
            assert(p.take(len) =~= p);
            let a = span_start(v@, spans@, k);
            assert(v@ =~= v@.take(a) + v@.skip(a));
            assert(p.skip(k).flatten() =~= v@.skip(a));
        }
        assert forall|i: int| 0 <= i < len implies span_start(v@, spans@, i + 1)
            == #[trigger] spans@[i].1 by {
            if i + 1 < len {
                assert(spans@[i + 1].0 == spans@[i].1);
            }
        }
    }
    spans
}

// ---------------------------------------------------------------------------
// Moving between `&str`, `String` and `Vec<char>`
// ---------------------------------------------------------------------------

/// The characters of `s`, in order.
pub fn chars_of(s: &str) -> (v: Vec<char>)
    ensures
        v@ == s@,
{
    let mut v: Vec<char> = Vec::new();
    for c in it: s.chars()
        invariant
            v@ == it.seq().take(it.index() as int),
            it.seq() == s@,
    {
        v.push(c);
    }
    v
}

/// Collects characters into a `String` (`FromIterator<char>` for `String`).
#[verifier::external_body]
pub(crate) fn string_of(v: &Vec<char>) -> (s: String)
    ensures
        s@ == v@,
{
    v.iter().collect::<String>()
}

/// Appends the characters of `t` to `out`.
pub fn push_str(out: &mut Vec<char>, t: &str)
    ensures
        final(out)@ == old(out)@ + t@,
{
    let n = t.unicode_len();
    let mut i: usize = 0;
    while i < n
        invariant
            n == t@.len(),
            i <= n,
            out@ == old(out)@ + t@.take(i as int),
        decreases n - i,
    {
        let c = t.get_char(i);
        out.push(c);
        proof {
            assert(t@.take(i + 1) =~= t@.take(i as int).push(c));
        }
        i = i + 1;
    }
    proof {
        assert(t@.take(n as int) =~= t@);
    }
}

/// Appends `v[a..b]` to `out`.
pub fn push_span(out: &mut Vec<char>, v: &Vec<char>, a: usize, b: usize)
    requires
        a <= b <= v@.len(),
    ensures
        final(out)@ == old(out)@ + v@.subrange(a as int, b as int),
{
    let mut i: usize = a;
    while i < b
        invariant
            a <= i <= b <= v@.len(),
            out@ == old(out)@ + v@.subrange(a as int, i as int),
        decreases b - i,
    {
        out.push(v[i]);
        proof {
            assert(v@.subrange(a as int, i + 1) =~= v@.subrange(a as int, i as int).push(v@[i as int]));
        }
        i = i + 1;
    }
}

/// Whether `v[a..b]` equals `t`.
pub fn span_eq(v: &Vec<char>, a: usize, b: usize, t: &str) -> (r: bool)
    requires
        a <= b <= v@.len(),
    ensures
        r == (v@.subrange(a as int, b as int) == t@),
{
    let n = t.unicode_len();
    if b - a != n {
        return false;
    }
    let mut i: usize = 0;
    while i < n
        invariant
            n == t@.len(),
            b - a == n,
            a <= b <= v@.len(),
            i <= n,
            forall|j: int| 0 <= j < i ==> v@[a + j] == t@[j],
        decreases n - i,
    {
        if v[a + i] != t.get_char(i) {
            proof {
                let s = v@.subrange(a as int, b as int);
                assert(s[i as int] != t@[i as int]);
            }
            return false;
        }
        i = i + 1;
    }
    proof {
        assert(v@.subrange(a as int, b as int) =~= t@);
    }
    true
}

/// Whether `v[a..b]` begins with `t`.
pub fn span_starts_with(v: &Vec<char>, a: usize, b: usize, t: &str) -> (r: bool)
    requires
        a <= b <= v@.len(),
    ensures
        r == (t@.len() <= b - a && v@.subrange(a as int, a + t@.len()) == t@),
{
    let n = t.unicode_len();
    if n > b - a {
        return false;
    }
    span_eq(v, a, a + n, t)
}

/// End of `line_content(v[a..b])`: drops a final `'\n'` and a `'\r'` before it.
pub fn line_content_end(v: &Vec<char>, a: usize, b: usize) -> (e: usize)
    requires
        a <= b <= v@.len(),
    ensures
        a <= e <= b,
        v@.subrange(a as int, e as int) == line_content(v@.subrange(a as int, b as int)),
{
    let ghost p = v@.subrange(a as int, b as int);
    if b > a && v[b - 1] == '\n' {
        assert(p.drop_last() =~= v@.subrange(a as int, b - 1));
        if b - 1 > a && v[b - 2] == '\r' {
            assert(p.drop_last().drop_last() =~= v@.subrange(a as int, b - 2));
            b - 2
        } else {
            b - 1
        }
    } else {
        b
    }
}

/// End of `trim_end_char(v[a..b], c)`.
pub fn trim_end_char_end(v: &Vec<char>, a: usize, b: usize, c: char) -> (e: usize)
    requires
        a <= b <= v@.len(),
    ensures
        a <= e <= b,
        v@.subrange(a as int, e as int) == trim_end_char(v@.subrange(a as int, b as int), c),
{
    let mut e = b;
    while e > a && v[e - 1] == c
        invariant
            a <= e <= b <= v@.len(),
            trim_end_char(v@.subrange(a as int, b as int), c) == trim_end_char(
                v@.subrange(a as int, e as int),
                c,
            ),
        decreases e - a,
    {
        proof {
            assert(v@.subrange(a as int, e as int).drop_last() =~= v@.subrange(a as int, e - 1));
        }
        e = e - 1;
    }
    e
}

/// End of `strip_eol(v[a..b])`.
pub fn strip_eol_end(v: &Vec<char>, a: usize, b: usize) -> (e: usize)
    requires
        a <= b <= v@.len(),
    ensures
        a <= e <= b,
        v@.subrange(a as int, e as int) == strip_eol(v@.subrange(a as int, b as int)),
{
    let m = trim_end_char_end(v, a, b, '\n');
    trim_end_char_end(v, a, m, '\r')
}

/// End of `trim_end_crlf(v[a..b])`.
pub fn trim_end_crlf_end(v: &Vec<char>, a: usize, b: usize) -> (e: usize)
    requires
        a <= b <= v@.len(),
    ensures
        a <= e <= b,
        v@.subrange(a as int, e as int) == trim_end_crlf(v@.subrange(a as int, b as int)),
{
    let mut e = b;
    while e > a && (v[e - 1] == '\r' || v[e - 1] == '\n')
        invariant
            a <= e <= b <= v@.len(),
            trim_end_crlf(v@.subrange(a as int, b as int)) == trim_end_crlf(
                v@.subrange(a as int, e as int),
            ),
        decreases e - a,
    {
        proof {
            assert(v@.subrange(a as int, e as int).drop_last() =~= v@.subrange(a as int, e - 1));
        }
        e = e - 1;
    }
    e
}

// ---------------------------------------------------------------------------
// Decimal numbers
// ---------------------------------------------------------------------------

pub open spec fn digit_char(d: nat) -> char {
    ((d + 48) as u32) as char
}

pub open spec fn is_digit(c: char) -> bool {
    '0' <= c && c <= '9'
}

pub open spec fn digit_value(c: char) -> nat {
    ((c as u32) - 48) as nat
}

/// The decimal digits of `n`, most significant first, with no leading zero
/// (`"0"` for zero), as `Display` writes an unsigned integer.
pub open spec fn dec(n: nat) -> Seq<char>
    decreases n,
{
    if n < 10 {
        seq![digit_char(n)]
    } else {
        dec(n / 10).push(digit_char(n % 10))
    }
}

/// The value of a run of decimal digits.
pub open spec fn digits_value(s: Seq<char>) -> nat
    decreases s.len(),
{
    if s.len() == 0 {
        0
    } else {
        digits_value(s.drop_last()) * 10 + digit_value(s.last())
    }
}

pub open spec fn all_digits(s: Seq<char>) -> bool {
    forall|i: int| 0 <= i < s.len() ==> is_digit(#[trigger] s[i])
}

/// What `str::parse::<u32>` gives: an optional `'+'`, then one or more
/// ASCII digits whose value fits in a `u32`.
pub open spec fn parse_u32(s: Seq<char>) -> Option<u32> {
    let d = if s.len() > 0 && s[0] == '+' {
        s.drop_first()
    } else {
        s
    };
    if d.len() > 0 && all_digits(d) && digits_value(d) <= u32::MAX {
        Some(digits_value(d) as u32)
    } else {
        None
    }
}

fn digit_of(d: u64) -> (c: char)
    requires
        d < 10,
    ensures
        c == digit_char(d as nat),
        is_digit(c),
        digit_value(c) == d,
{
    ((d as u8) + 48u8) as char
}

/// Appends the decimal digits of `n` to `out`.
pub fn push_decimal(out: &mut Vec<char>, n: u64)
    ensures
        final(out)@ == old(out)@ + dec(n as nat),
    decreases n,
{
    if n >= 10 {
        push_decimal(out, n / 10);
    }
    let c = digit_of(n % 10);
    out.push(c);
    proof {
        if n >= 10 {
            assert(old(out)@ + dec(n as nat) =~= old(out)@ + dec((n / 10) as nat) + seq![c]);
        } else {
            assert(n % 10 == n);
        }
    }
}

pub proof fn lemma_dec_digits(n: nat)
    ensures
        dec(n).len() > 0,
        all_digits(dec(n)),
        digits_value(dec(n)) == n,
        dec(n)[0] != '+',
    decreases n,
{
    if n >= 10 {
        lemma_dec_digits(n / 10);
        let d = dec(n);
        assert(d.drop_last() =~= dec(n / 10));
        assert(d[0] == dec(n / 10)[0]);
        assert forall|i: int| 0 <= i < d.len() implies is_digit(#[trigger] d[i]) by {
            if i < d.len() - 1 {
                assert(d[i] == dec(n / 10)[i]);
            }
        }
        lemma_digit_char(n % 10);
        assert(d.last() == digit_char(n % 10));
        assert(digits_value(d) == digits_value(dec(n / 10)) * 10 + n % 10);
        assert(n == (n / 10) * 10 + n % 10) by (nonlinear_arith);
    } else {
        lemma_digit_char(n);
        let d = dec(n);
        assert(d.drop_last().len() == 0);
        assert(digits_value(d) == digits_value(d.drop_last()) * 10 + digit_value(d.last()));
    }
}

pub proof fn lemma_digit_char(d: nat)
    requires
        d < 10,
    ensures
        is_digit(digit_char(d)),
        digit_value(digit_char(d)) == d,
        digit_char(d) != '+',
{
    assert(((d + 48) as u32) as char as u32 == d + 48);
}

/// `parse_u32` reads back what `dec` writes.
pub proof fn lemma_parse_dec(n: u32)
    ensures
        parse_u32(dec(n as nat)) == Some(n),
{
    lemma_dec_digits(n as nat);
}

pub proof fn lemma_digits_value_prefix(s: Seq<char>, k: int)
    requires
        0 <= k <= s.len(),
    ensures
        digits_value(s.take(k)) <= digits_value(s),
    decreases s.len() - k,
{
    if k < s.len() {
        lemma_digits_value_prefix(s.drop_last(), k);
        assert(s.drop_last().take(k) =~= s.take(k));
        let x = digits_value(s.drop_last());
        assert(x <= x * 10 + digit_value(s.last())) by (nonlinear_arith);
    } else {
        assert(s.take(k) =~= s);
    }
}

/// `parse_u32(v[a..b])`.
pub fn parse_u32_span(v: &Vec<char>, a: usize, b: usize) -> (r: Option<u32>)
    requires
        a <= b <= v@.len(),
    ensures
        r == parse_u32(v@.subrange(a as int, b as int)),
{
    let ghost s = v@.subrange(a as int, b as int);
    let mut i = a;
    if i < b && v[i] == '+' {
        i = i + 1;
    }
    let ghost d = v@.subrange(i as int, b as int);
    proof {
        if s.len() > 0 && s[0] == '+' {
            assert(d =~= s.drop_first());
        } else {
            assert(d =~= s);
        }
    }
    if i == b {
        return None;
    }
    let start = i;
    let mut acc: u64 = 0;
    while i < b
        invariant
            a <= start <= i <= b <= v@.len(),
            d == v@.subrange(start as int, b as int),
            s == v@.subrange(a as int, b as int),
            d == (if s.len() > 0 && s[0] == '+' {
                s.drop_first()
            } else {
                s
            }),
            d.len() > 0,
            acc <= u32::MAX,
            acc == digits_value(v@.subrange(start as int, i as int)),
            all_digits(v@.subrange(start as int, i as int)),
        decreases b - i,
    {
        let c = v[i];
        if !('0' <= c && c <= '9') {
            proof {
                assert(d[i - start] == v@[i as int]);
                assert(!is_digit(d[i - start]));
                assert(!all_digits(d));
            }
            return None;
        }
        let ghost pre = v@.subrange(start as int, i as int);
        let ghost pre1 = v@.subrange(start as int, i + 1);
        proof {
            assert(pre1.drop_last() =~= pre);
            assert(pre1.last() == c);
        }
        let dv = (c as u64) - 48;
        acc = acc * 10 + dv;
        assert(acc == digits_value(pre1));
        if acc > 0xffff_ffffu64 {
            proof {
                lemma_digits_value_prefix(d, i + 1 - start);
                assert(d.take(i + 1 - start) =~= pre1);
                assert(digits_value(d) > u32::MAX);
            }
            return None;
        }
        proof {
            assert forall|j: int| 0 <= j < pre1.len() implies is_digit(#[trigger] pre1[j]) by {
                if j < pre.len() {
                    assert(pre1[j] == pre[j]);
                }
            }
        }
        i = i + 1;
    }
    Some(acc as u32)
}

// ---------------------------------------------------------------------------
// Ordering of texts
// ---------------------------------------------------------------------------

/// Lexicographic order on characters by code point. For UTF-8 text this is
/// the order that `Ord for str` (bytewise) gives.
pub open spec fn text_lt(a: Seq<char>, b: Seq<char>) -> bool
    decreases a.len(),
{
    if b.len() == 0 {
        false
    } else if a.len() == 0 {
        true
    } else if a[0] != b[0] {
        a[0] < b[0]
    } else {
        text_lt(a.drop_first(), b.drop_first())
    }
}

/// Whether `a` sorts strictly before `b`.
pub fn str_lt(a: &str, b: &str) -> (r: bool)
    ensures
        r == text_lt(a@, b@),
{
    let va = chars_of(a);
    let vb = chars_of(b);
    let mut i: usize = 0;
    let n = if va.len() < vb.len() { va.len() } else { vb.len() };
    assert(va@.skip(0) =~= va@);
    assert(vb@.skip(0) =~= vb@);
    while i < n
        invariant
            i <= n,
            n <= va@.len(),
            n <= vb@.len(),
            n == va@.len() || n == vb@.len(),
            text_lt(a@, b@) == text_lt(va@.skip(i as int), vb@.skip(i as int)),
            va@ == a@,
            vb@ == b@,
        decreases n - i,
    {
        let ghost sa = va@.skip(i as int);
        let ghost sb = vb@.skip(i as int);
        assert(sa[0] == va@[i as int]);
        assert(sb[0] == vb@[i as int]);
        if va[i] != vb[i] {
            return va[i] < vb[i];
        }
        assert(sa.drop_first() =~= va@.skip(i + 1));
        assert(sb.drop_first() =~= vb@.skip(i + 1));
        i = i + 1;
    }
    vb.len() > i
}

pub proof fn lemma_text_lt_irreflexive(a: Seq<char>)
    ensures
        !text_lt(a, a),
    decreases a.len(),
{
    if a.len() > 0 {
        lemma_text_lt_irreflexive(a.drop_first());
    }
}

pub proof fn lemma_text_lt_total(a: Seq<char>, b: Seq<char>)
    ensures
        text_lt(a, b) || text_lt(b, a) || a == b,
    decreases a.len(),
{
    if a.len() > 0 && b.len() > 0 {
        if a[0] == b[0] {
            lemma_text_lt_total(a.drop_first(), b.drop_first());
            if a.drop_first() == b.drop_first() {
                assert(a =~= seq![a[0]] + a.drop_first());
                assert(b =~= seq![b[0]] + b.drop_first());
            }
        }
    } else if a.len() == 0 && b.len() == 0 {
        assert(a =~= b);
    }
}

pub proof fn lemma_text_lt_transitive(a: Seq<char>, b: Seq<char>, c: Seq<char>)
    requires
        text_lt(a, b),
        text_lt(b, c),
    ensures
        text_lt(a, c),
    decreases a.len(),
{
    if a.len() > 0 && a[0] == b[0] && b[0] == c[0] {
        lemma_text_lt_transitive(a.drop_first(), b.drop_first(), c.drop_first());
    }
}

pub proof fn lemma_text_lt_asymmetric(a: Seq<char>, b: Seq<char>)
    requires
        text_lt(a, b),
    ensures
        !text_lt(b, a),
    decreases a.len(),
{
    if a.len() > 0 && a[0] == b[0] {
        lemma_text_lt_asymmetric(a.drop_first(), b.drop_first());
    }
}

// ---------------------------------------------------------------------------
// Building `String`s
// ---------------------------------------------------------------------------

/// Appends one character to `out` (`String::push`).
#[verifier::external_body]
pub(crate) fn push_char(out: &mut String, c: char)
    ensures
        final(out)@ == old(out)@.push(c),
{
    out.push(c);
}

/// `n` spaces.
pub open spec fn spaces(n: nat) -> Seq<char> {
    Seq::new(n, |i: int| ' ')
}

/// `s` followed by spaces up to `width` characters, as `{:<width$}` writes
/// it (the width counts characters).
pub open spec fn pad(s: Seq<char>, width: nat) -> Seq<char> {
    if s.len() < width {
        s + spaces((width - s.len()) as nat)
    } else {
        s
    }
}

/// Appends `s` padded to `width` characters.
pub fn push_padded(out: &mut String, s: &str, width: usize)
    ensures
        final(out)@ == old(out)@ + pad(s@, width as nat),
{
    out.append(s);
    let n = s.unicode_len();
    if n < width {
        let mut k: usize = n;
        while k < width
            invariant
                n <= k <= width,
                n == s@.len(),
                out@ == old(out)@ + s@ + spaces((k - n) as nat),
            decreases width - k,
        {
            out.append(" ");
            proof {
                reveal_strlit(" ");
                assert(spaces((k + 1 - n) as nat) =~= spaces((k - n) as nat) + " "@);
            }
            k = k + 1;
        }
    } else {
        assert(pad(s@, width as nat) == s@);
    }
}

} // verus!
