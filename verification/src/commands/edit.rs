//! `cubil edit`: which program `$EDITOR` names, and with which arguments.
use vstd::prelude::*;

use crate::error::texts;
use crate::text::{chars_of, push_span, string_of};

verus! {

/// ASCII whitespace as `str::split_ascii_whitespace` knows it: space, tab,
/// line feed, form feed and carriage return.
pub open spec fn is_ascii_ws(c: char) -> bool {
    c == ' ' || c == '\t' || c == '\n' || c == '\u{C}' || c == '\r'
}

/// The length of the run of non-whitespace characters that `s` begins with.
pub open spec fn word_len(s: Seq<char>) -> nat
    decreases s.len(),
{
    if s.len() == 0 || is_ascii_ws(s[0]) {
        0
    } else {
        1 + word_len(s.drop_first())
    }
}

pub proof fn lemma_word_len(s: Seq<char>)
    ensures
        word_len(s) <= s.len(),
        s.len() > 0 && !is_ascii_ws(s[0]) ==> word_len(s) >= 1,
    decreases s.len(),
{
    if s.len() > 0 && !is_ascii_ws(s[0]) {
        lemma_word_len(s.drop_first());
    }
}

/// The words of `s`, separated by ASCII whitespace
/// (`str::split_ascii_whitespace`).
pub open spec fn words(s: Seq<char>) -> Seq<Seq<char>>
    decreases s.len(),
{
    if s.len() == 0 {
        Seq::empty()
    } else if is_ascii_ws(s[0]) {
        words(s.drop_first())
    } else {
        proof {
            lemma_word_len(s);
        }
        seq![s.take(word_len(s) as int)] + words(s.skip(word_len(s) as int))
    }
}

proof fn lemma_word_len_at(s: Seq<char>, i: int)
    requires
        0 <= i <= s.len(),
        forall|j: int| 0 <= j < i ==> !is_ascii_ws(#[trigger] s[j]),
        i == s.len() || is_ascii_ws(s[i]),
    ensures
        word_len(s) == i,
    decreases i,
{
    if i > 0 {
        lemma_word_len_at(s.drop_first(), i - 1);
    }
}

/// The words of `editor`, split on ASCII whitespace.
pub fn split_words(editor: &str) -> (r: Vec<String>)
    ensures
        texts(r@) == words(editor@),
{
    let v = chars_of(editor);
    let n = v.len();
    let mut out: Vec<String> = Vec::new();
    let mut i: usize = 0;
    assert(v@.skip(0) =~= v@);
    while i < n
        invariant
            n == v@.len(),
            v@ == editor@,
            i <= n,
            words(v@) == texts(out@) + words(v@.skip(i as int)),
        decreases n - i,
    {
        let c = v[i];
        if c == ' ' || c == '\t' || c == '\n' || c == '\u{C}' || c == '\r' {
            proof {
                assert(v@.skip(i as int)[0] == c);
                assert(v@.skip(i as int).drop_first() =~= v@.skip(i + 1));
            }
            i = i + 1;
        } else {
            let mut j = i;
            while j < n && !(v[j] == ' ' || v[j] == '\t' || v[j] == '\n' || v[j] == '\u{C}' || v[j]
                == '\r')
                invariant
                    n == v@.len(),
                    i <= j <= n,
                    forall|m: int| i <= m < j ==> !is_ascii_ws(#[trigger] v@[m]),
                decreases n - j,
            {
                j = j + 1;
            }
            let ghost rest = v@.skip(i as int);
            proof {
                assert forall|m: int| 0 <= m < j - i implies !is_ascii_ws(#[trigger] rest[m]) by {
                    assert(rest[m] == v@[i + m]);
                }
                if j < n {
                    assert(rest[j - i] == v@[j as int]);
                }
                lemma_word_len_at(rest, j - i);
                assert(rest[0] == c);
                assert(rest.take(j - i) =~= v@.subrange(i as int, j as int));
                assert(rest.skip(j - i) =~= v@.skip(j as int));
            }
            let mut w: Vec<char> = Vec::new();
            push_span(&mut w, &v, i, j);
            let s = string_of(&w);
            let ghost before = out@;
            out.push(s);
            proof {
                assert(texts(out@) =~= texts(before).push(s@));
                assert(texts(out@) + words(v@.skip(j as int)) =~= texts(before) + (seq![s@] + words(
                    v@.skip(j as int),
                )));
            }
            i = j;
        }
    }
    proof {
        assert(v@.skip(n as int) =~= Seq::<char>::empty());
        assert(texts(out@) + Seq::<Seq<char>>::empty() =~= texts(out@));
    }
    out
}

/// The program that `$EDITOR` names and the arguments that go before the
/// file: `$EDITOR` is split on ASCII whitespace, the first word is the
/// program and the rest are leading arguments; with no word at all the
/// program is `vi`. No shell is involved, so quoting is not interpreted.
pub fn split_editor(editor: &str) -> (r: (String, Vec<String>))
    ensures
        words(editor@).len() == 0 ==> r.0@ == "vi"@ && r.1@.len() == 0,
        words(editor@).len() > 0 ==> r.0@ == words(editor@)[0] && texts(r.1@) == words(
            editor@,
        ).drop_first(),
{
    let mut ws = split_words(editor);
    if ws.len() == 0 {
        return ("vi".to_owned(), ws);
    }
    let ghost all = ws@;
    let program = ws.remove(0);
    proof {
        assert(texts(ws@) =~= texts(all).drop_first());
    }
    (program, ws)
}

} // verus!
