//! Building SQLite search arguments from user text: `LIKE` patterns with
//! escaped wildcards, and FTS5 expressions of quoted prefix terms.
use vstd::prelude::*;
use crate::text::{ascii_lower, char_vec_views, chars_of, join, lemma_join_push, push_char, push_chars, split_words, words};

verus! {

/// How one character is written inside a `LIKE` pattern with `ESCAPE '\'`.
pub open spec fn like_escape_char(c: char) -> Seq<char> {
    if c == '\\' {
        seq!['\\', '\\']
    } else if c == '%' {
        seq!['\\', '%']
    } else if c == '_' {
        seq!['\\', '_']
    } else {
        seq![c]
    }
}

/// The text with `\`, `%` and `_` escaped by a backslash, so that a `LIKE`
/// pattern matches them literally.
pub open spec fn like_escaped(s: Seq<char>) -> Seq<char>
    decreases s.len(),
{
    if s.len() == 0 {
        Seq::empty()
    } else {
        like_escaped(s.drop_last()) + like_escape_char(s.last())
    }
}

/// The text with every `"` doubled, as an FTS5 string requires.
pub open spec fn quotes_doubled(s: Seq<char>) -> Seq<char>
    decreases s.len(),
{
    if s.len() == 0 {
        Seq::empty()
    } else {
        quotes_doubled(s.drop_last()) + if s.last() == '"' {
            seq!['"', '"']
        } else {
            seq![s.last()]
        }
    }
}

/// An FTS5 prefix query for one term: `"term"*`.
pub open spec fn fts_term(t: Seq<char>) -> Seq<char> {
    seq!['"'] + quotes_doubled(t) + seq!['"', '*']
}

/// The FTS5 prefix queries of a list of terms.
pub open spec fn fts_terms(ts: Seq<Seq<char>>) -> Seq<Seq<char>> {
    ts.map_values(|t: Seq<char>| fts_term(t))
}

/// ASCII punctuation, as `char::is_ascii_punctuation` tests it.
pub open spec fn is_ascii_punct(c: char) -> bool {
    let u = c as u32;
    (0x21 <= u <= 0x2f) || (0x3a <= u <= 0x40) || (0x5b <= u <= 0x60) || (0x7b <= u <= 0x7e)
}

pub open spec fn trim_punct_start(s: Seq<char>) -> Seq<char>
    decreases s.len(),
{
    if s.len() > 0 && is_ascii_punct(s[0]) {
        trim_punct_start(s.drop_first())
    } else {
        s
    }
}

pub open spec fn trim_punct_end(s: Seq<char>) -> Seq<char>
    decreases s.len(),
{
    if s.len() > 0 && is_ascii_punct(s.last()) {
        trim_punct_end(s.drop_last())
    } else {
        s
    }
}

/// The text without ASCII punctuation at its ends.
pub open spec fn trim_punct(s: Seq<char>) -> Seq<char> {
    trim_punct_end(trim_punct_start(s))
}

/// Lexicographic order of texts by code point, the order of `str`'s `<=`.
pub open spec fn text_le(a: Seq<char>, b: Seq<char>) -> bool
    decreases a.len(),
{
    if a.len() == 0 {
        true
    } else if b.len() == 0 {
        false
    } else if a[0] < b[0] {
        true
    } else if a[0] > b[0] {
        false
    } else {
        text_le(a.drop_first(), b.drop_first())
    }
}

/// The order of texts is total.
pub proof fn lemma_text_le_total(a: Seq<char>, b: Seq<char>)
    ensures
        text_le(a, b) || text_le(b, a),
    decreases a.len(),
{
    if a.len() > 0 && b.len() > 0 && a[0] == b[0] {
        lemma_text_le_total(a.drop_first(), b.drop_first());
    }
}

/// The order of texts is antisymmetric.
pub proof fn lemma_text_le_antisymmetric(a: Seq<char>, b: Seq<char>)
    requires
        text_le(a, b),
        text_le(b, a),
    ensures
        a == b,
    decreases a.len(),
{
    if a.len() > 0 && b.len() > 0 {
        lemma_text_le_antisymmetric(a.drop_first(), b.drop_first());
        assert(a =~= seq![a[0]] + a.drop_first());
        assert(b =~= seq![b[0]] + b.drop_first());
    }
}

/// The order of texts is transitive.
pub proof fn lemma_text_le_transitive(a: Seq<char>, b: Seq<char>, c: Seq<char>)
    requires
        text_le(a, b),
        text_le(b, c),
    ensures
        text_le(a, c),
    decreases a.len(),
{
    if a.len() > 0 && b.len() > 0 && c.len() > 0 && a[0] == b[0] && b[0] == c[0] {
        lemma_text_le_transitive(a.drop_first(), b.drop_first(), c.drop_first());
    }
}

// ---------------------------------------------------------------------------
// Executable helpers
// ---------------------------------------------------------------------------

/// `\`, `%` and `_` escaped for a `LIKE ... ESCAPE '\'` pattern.
pub fn like_escape(value: &str) -> (r: String)
    ensures
        r@ == like_escaped(value@),
{
    let v = chars_of(value);
    let mut r = String::new();
    let n = v.len();
    let mut i: usize = 0;
    while i < n
        invariant
            n == v@.len(),
            i <= n,
            r@ == like_escaped(v@.take(i as int)),
        decreases n - i,
    {
        let c = v[i];
        proof {
            let post = v@.take(i + 1);
            assert(post.drop_last() =~= v@.take(i as int));
            assert(post.last() == c);
        }
        if c == '\\' || c == '%' || c == '_' {
            push_char(&mut r, '\\');
        }
        push_char(&mut r, c);
        assert(r@ =~= like_escaped(v@.take(i + 1)));
        i = i + 1;
    }
    assert(v@.take(n as int) =~= v@);
    r
}

/// Appends `"term"*` to `out`.
pub fn push_fts_term(out: &mut String, term: &[char])
    ensures
        final(out)@ == old(out)@ + fts_term(term@),
{
    push_char(out, '"');
    let n = term.len();
    let mut i: usize = 0;
    while i < n
        invariant
            n == term@.len(),
            i <= n,
            out@ == old(out)@ + seq!['"'] + quotes_doubled(term@.take(i as int)),
        decreases n - i,
    {
        let c = term[i];
        proof {
            let post = term@.take(i + 1);
            assert(post.drop_last() =~= term@.take(i as int));
            assert(post.last() == c);
        }
        if c == '"' {
            push_char(out, '"');
        }
        push_char(out, c);
        assert(out@ =~= old(out)@ + seq!['"'] + quotes_doubled(term@.take(i + 1)));
        i = i + 1;
    }
    assert(term@.take(n as int) =~= term@);
    push_char(out, '"');
    push_char(out, '*');
    assert(out@ =~= old(out)@ + fts_term(term@));
}

/// `"term"*` for each term, joined by `sep`.
pub fn join_fts_terms(terms: &Vec<Vec<char>>, sep: &str) -> (r: String)
    ensures
        r@ == join(fts_terms(char_vec_views(terms@)), sep@),
{
    let sepv = chars_of(sep);
    let ghost ts = fts_terms(char_vec_views(terms@));
    let mut r = String::new();
    let n = terms.len();
    let mut i: usize = 0;
    while i < n
        invariant
            n == terms@.len(),
            ts == fts_terms(char_vec_views(terms@)),
            sepv@ == sep@,
            i <= n,
            r@ == join(ts.take(i as int), sep@),
        decreases n - i,
    {
        proof {
            assert(ts.take(i + 1) =~= ts.take(i as int).push(ts[i as int]));
            assert(ts[i as int] == fts_term(terms@[i as int]@));
            lemma_join_push(ts.take(i as int), sep@, ts[i as int]);
        }
        if i > 0 {
            push_chars(&mut r, sepv.as_slice());
        }
        push_fts_term(&mut r, terms[i].as_slice());
        i = i + 1;
    }
    assert(ts.take(n as int) =~= ts);
    r
}

/// Whether a character is ASCII punctuation.
pub fn is_ascii_punctuation(c: char) -> (r: bool)
    ensures
        r == is_ascii_punct(c),
{
    let u = c as u32;
    (0x21 <= u && u <= 0x2f) || (0x3a <= u && u <= 0x40) || (0x5b <= u && u <= 0x60) || (0x7b
        <= u && u <= 0x7e)
}

/// The characters without ASCII punctuation at their ends.
pub fn trim_punctuation(v: &[char]) -> (r: Vec<char>)
    ensures
        r@ == trim_punct(v@),
{
    let n = v.len();
    let mut lo: usize = 0;
    assert(v@.subrange(0, n as int) =~= v@);
    while lo < n && is_ascii_punctuation(v[lo])
        invariant
            n == v@.len(),
            lo <= n,
            trim_punct_start(v@) == trim_punct_start(v@.subrange(lo as int, n as int)),
        decreases n - lo,
    {
        proof {
            let t = v@.subrange(lo as int, n as int);
            assert(t.drop_first() =~= v@.subrange(lo + 1, n as int));
        }
        lo = lo + 1;
    }
    let ghost ts = v@.subrange(lo as int, n as int);
    assert(trim_punct_start(ts) == ts);
    let mut hi: usize = n;
    while hi > lo && is_ascii_punctuation(v[hi - 1])
        invariant
            n == v@.len(),
            lo <= hi <= n,
            ts == v@.subrange(lo as int, n as int),
            trim_punct_end(ts) == trim_punct_end(v@.subrange(lo as int, hi as int)),
        decreases hi - lo,
    {
        proof {
            let t = v@.subrange(lo as int, hi as int);
            assert(t.drop_last() =~= v@.subrange(lo as int, hi - 1));
        }
        hi = hi - 1;
    }
    proof {
        let t = v@.subrange(lo as int, hi as int);
        if hi > lo {
            assert(t.last() == v@[hi - 1]);
        }
        assert(trim_punct_end(t) == t);
    }
    let mut r: Vec<char> = Vec::new();
    let mut i = lo;
    while i < hi
        invariant
            lo <= i <= hi <= v@.len(),
            r@ == v@.subrange(lo as int, i as int),
        decreases hi - i,
    {
        r.push(v[i]);
        assert(v@.subrange(lo as int, i as int).push(v@[i as int]) =~= v@.subrange(
            lo as int,
            i + 1,
        ));
        i = i + 1;
    }
    r
}

/// Equality of two character sequences ignoring ASCII case.
pub fn eq_ignore_ascii_case(a: &[char], b: &[char]) -> (r: bool)
    ensures
        r == (ascii_lower(a@) == ascii_lower(b@)),
{
    if a.len() != b.len() {
        assert(ascii_lower(a@).len() != ascii_lower(b@).len());
        return false;
    }
    let n = a.len();
    let mut i: usize = 0;
    while i < n
        invariant
            n == a@.len() == b@.len(),
            i <= n,
            forall|k: int| 0 <= k < i ==> ascii_lower(a@)[k] == ascii_lower(b@)[k],
        decreases n - i,
    {
        let x = a[i];
        let y = b[i];
        let lx = if 'A' <= x && x <= 'Z' {
            (x as u32) + 32
        } else {
            x as u32
        };
        let ly = if 'A' <= y && y <= 'Z' {
            (y as u32) + 32
        } else {
            y as u32
        };
        if lx != ly {
            assert(ascii_lower(a@)[i as int] != ascii_lower(b@)[i as int]);
            return false;
        }
        assert(ascii_lower(a@)[i as int] == ascii_lower(b@)[i as int]);
        i = i + 1;
    }
    assert(ascii_lower(a@) =~= ascii_lower(b@));
    true
}

/// Lexicographic comparison of two strings (`a <= b`).
pub fn str_le(a: &str, b: &str) -> (r: bool)
    ensures
        r == text_le(a@, b@),
{
    let x = chars_of(a);
    let y = chars_of(b);
    let xn = x.len();
    let yn = y.len();
    let mut i: usize = 0;
    assert(x@.skip(0) =~= x@);
    assert(y@.skip(0) =~= y@);
    while i < xn && i < yn
        invariant
            xn == x@.len(),
            yn == y@.len(),
            x@ == a@,
            y@ == b@,
            i <= xn,
            i <= yn,
            text_le(x@, y@) == text_le(x@.skip(i as int), y@.skip(i as int)),
        decreases xn - i,
    {
        assert(x@.skip(i as int)[0] == x@[i as int]);
        assert(y@.skip(i as int)[0] == y@[i as int]);
        if x[i] != y[i] {
            return x[i] < y[i];
        }
        proof {
            assert(x@.skip(i as int).drop_first() =~= x@.skip(i + 1));
            assert(y@.skip(i as int).drop_first() =~= y@.skip(i + 1));
        }
        i = i + 1;
    }
    if i == xn {
        assert(x@.skip(i as int).len() == 0);
        true
    } else {
        assert(y@.skip(i as int).len() == 0);
        false
    }
}

/// The words of the text, each written `"word"*`, joined by `sep`.
pub fn words_fts_expression(value: &str, sep: &str) -> (r: String)
    ensures
        r@ == join(fts_terms(words(value@)), sep@),
{
    let v = chars_of(value);
    let ws = split_words(v.as_slice());
    join_fts_terms(&ws, sep)
}

} // verus!
