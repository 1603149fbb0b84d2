//! Grounding of evidence quotes in the captured source text.
//!
//! A quote proposed for a piece of knowledge is accepted only when it can be
//! found in the source: verbatim, after removing a wrapping quotation mark or
//! a leading bullet, or after treating every run of whitespace as one space.
//! What is returned is always the source's own text.
use vstd::prelude::*;
use crate::text::{
    char_count, chars_of, contains_seq, contains_string, find_chars, is_first_occurrence,
    is_whitespace, is_ws, lemma_first_occurrence_exists, lemma_first_occurrence_unique, occurs_at, lemma_trim_start_skip, push_str,
    string_from_range, string_views, sub_chars, take_chars, take_str, trim, trim_bounds, trim_start,
    trim_str, lemma_trim_ends, lemma_trim_fixed,
};
use vstd::utf8::{encode_scalar, encode_utf8};

verus! {

/// The offset, in the UTF-8 encoding of `s`, at which its `i`th character
/// starts (for `i == s.len()`, the length of the encoding).
pub open spec fn byte_offset(s: Seq<char>, i: int) -> int {
    encode_utf8(s.take(i)).len() as int
}

/// The number of bytes of a character in UTF-8.
pub open spec fn utf8_width(c: char) -> int {
    encode_scalar(c as u32).len() as int
}

/// Whitespace normalization of a text, as (character, start, end) triples
/// over character positions: a run of whitespace becomes one `' '` that
/// spans the whole run.
pub open spec fn normalized(s: Seq<char>) -> Seq<(char, usize, usize)>
    decreases s.len(),
{
    if s.len() == 0 {
        Seq::empty()
    } else {
        let n = normalized(s.drop_last());
        let i = s.len() - 1;
        let c = s.last();
        if is_ws(c) {
            if i > 0 && is_ws(s[i - 1]) {
                n.update(n.len() - 1, (' ', n.last().1, (i + 1) as usize))
            } else {
                n.push((' ', i as usize, (i + 1) as usize))
            }
        } else {
            n.push((c, i as usize, (i + 1) as usize))
        }
    }
}

/// The whitespace normalization of a text with its positions given as
/// UTF-8 byte offsets, as `whitespace_normalized_chars` reports it.
pub open spec fn normalized_bytes(s: Seq<char>) -> Seq<(char, int, int)> {
    normalized(s).map_values(
        |e: (char, usize, usize)| (e.0, byte_offset(s, e.1 as int), byte_offset(s, e.2 as int)),
    )
}

/// Triples of machine integers read as mathematical integers.
pub open spec fn triples_as_int(v: Seq<(char, usize, usize)>) -> Seq<(char, int, int)> {
    v.map_values(|e: (char, usize, usize)| (e.0, e.1 as int, e.2 as int))
}

/// The characters of the whitespace-normalized text.
pub open spec fn normalized_values(s: Seq<char>) -> Seq<char> {
    normalized(s).map_values(|e: (char, usize, usize)| e.0)
}

/// The character positions of the source that a whitespace-normalized
/// match of the (trimmed) quote covers: the first window of the normalized
/// source whose characters equal the normalized quote.
pub open spec fn ws_match_range(source: Seq<char>, quote: Seq<char>) -> Option<(int, int)> {
    let q = trim(quote);
    let sv = normalized_values(source);
    let qv = normalized_values(q);
    if q.len() == 0 || qv.len() == 0 || !contains_seq(sv, qv) {
        None
    } else {
        let w = choose|w: int| is_first_occurrence(sv, qv, w);
        Some(
            (
                normalized(source)[w].1 as int,
                normalized(source)[w + qv.len() - 1].2 as int,
            ),
        )
    }
}

/// The UTF-8 byte range of the source that a whitespace-normalized match of
/// the quote covers, as `whitespace_normalized_byte_range` reports it.
pub open spec fn ws_match_bytes(source: Seq<char>, quote: Seq<char>) -> Option<(int, int)> {
    match ws_match_range(source, quote) {
        Some(r) => Some((byte_offset(source, r.0), byte_offset(source, r.1))),
        None => None,
    }
}

/// The UTF-8 byte range of the first verbatim occurrence of `quote` in
/// `source`, as `str::find` and the quote's byte length give it.
pub open spec fn exact_match_bytes(source: Seq<char>, quote: Seq<char>) -> Option<(int, int)> {
    if contains_seq(source, quote) {
        let i = choose|i: int| is_first_occurrence(source, quote, i);
        Some((byte_offset(source, i), byte_offset(source, i) + encode_utf8(quote).len()))
    } else {
        None
    }
}

/// The bullet characters that may prefix a quoted line.
pub open spec fn is_bullet(c: char) -> bool {
    c == '・' || c == '•' || c == '·' || c == '●' || c == '▪' || c == '-' || c == '*'
}

/// The quote without a leading bullet, when it has one and something is left.
pub open spec fn strip_bullet(value: Seq<char>) -> Option<Seq<char>> {
    let v = trim_start(value);
    if v.len() == 0 || !is_bullet(v[0]) {
        None
    } else {
        let rest = trim_start(v.drop_first());
        if rest.len() == 0 {
            None
        } else {
            Some(rest)
        }
    }
}

/// The closing mark that belongs to an opening quotation mark.
pub open spec fn closing_mark(open: char) -> Option<char> {
    if open == '"' {
        Some('"')
    } else if open == '\'' {
        Some('\'')
    } else if open == '“' {
        Some('”')
    } else if open == '‘' {
        Some('’')
    } else if open == '「' {
        Some('」')
    } else if open == '『' {
        Some('』')
    } else {
        None
    }
}

/// The quote without one pair of wrapping quotation marks, when it has them
/// and something is left inside.
pub open spec fn unwrap_quote(value: Seq<char>) -> Option<Seq<char>> {
    let v = trim(value);
    if v.len() >= 3 && closing_mark(v[0]) == Some(v.last()) {
        let inner = trim(v.subrange(1, v.len() - 1));
        if inner.len() > 0 {
            Some(inner)
        } else {
            None
        }
    } else {
        None
    }
}

/// Adds the trimmed value to the candidates when it is new and not empty.
pub open spec fn add_candidate(cs: Seq<Seq<char>>, value: Seq<char>) -> Seq<Seq<char>> {
    let t = trim(value);
    if t.len() > 0 && !cs.contains(t) {
        cs.push(t)
    } else {
        cs
    }
}

pub open spec fn add_optional(cs: Seq<Seq<char>>, value: Option<Seq<char>>) -> Seq<Seq<char>> {
    match value {
        Some(v) => add_candidate(cs, v),
        None => cs,
    }
}

/// The readings of a quote that are tried against the source, in order: the
/// quote, without wrapping marks, without a bullet, without a bullet and then
/// marks, without marks and then a bullet.
pub open spec fn candidate_list(quote: Seq<char>) -> Seq<Seq<char>> {
    let c1 = add_candidate(Seq::empty(), quote);
    let c2 = add_optional(c1, unwrap_quote(quote));
    let c3 = match strip_bullet(quote) {
        Some(u) => add_optional(add_candidate(c2, u), unwrap_quote(u)),
        None => c2,
    };
    match unwrap_quote(quote) {
        Some(w) => add_optional(c3, strip_bullet(w)),
        None => c3,
    }
}

/// The first candidate that occurs verbatim in the source.
pub open spec fn first_exact(source: Seq<char>, cs: Seq<Seq<char>>) -> Option<Seq<char>>
    decreases cs.len(),
{
    if cs.len() == 0 {
        None
    } else if contains_seq(source, cs[0]) {
        Some(cs[0])
    } else {
        first_exact(source, cs.drop_first())
    }
}

/// The source range of the first candidate that matches up to whitespace.
pub open spec fn first_ws_match(source: Seq<char>, cs: Seq<Seq<char>>) -> Option<(int, int)>
    decreases cs.len(),
{
    if cs.len() == 0 {
        None
    } else if ws_match_range(source, cs[0]) is Some {
        ws_match_range(source, cs[0])
    } else {
        first_ws_match(source, cs.drop_first())
    }
}

/// The source text that grounds a quote, if any.
pub open spec fn grounded_quote(source: Seq<char>, quote: Seq<char>) -> Option<Seq<char>> {
    let q = trim(quote);
    if q.len() == 0 {
        None
    } else {
        match first_exact(source, candidate_list(q)) {
            Some(c) => Some(c),
            None => match first_ws_match(source, candidate_list(q)) {
                Some(r) => Some(source.subrange(r.0, r.1)),
                None => None,
            },
        }
    }
}

// ---------------------------------------------------------------------------
// Lemmas
// ---------------------------------------------------------------------------

/// Shape of the normalization: ordered, non-overlapping, inside the text.
pub proof fn lemma_normalized_props(s: Seq<char>)
    requires
        s.len() <= usize::MAX,
    ensures
        normalized(s).len() <= s.len(),
        s.len() > 0 ==> normalized(s).len() > 0 && normalized(s).last().2 == s.len(),
        s.len() > 0 && is_ws(s.last()) ==> normalized(s).last().0 == ' ',
        forall|k: int|
            0 <= k < normalized(s).len() ==> #[trigger] normalized(s)[k].1 < normalized(s)[k].2
                <= s.len(),
        forall|k1: int, k2: int|
            0 <= k1 < k2 < normalized(s).len() ==> #[trigger] normalized(s)[k1].2
                <= #[trigger] normalized(s)[k2].1,
    decreases s.len(),
{
    if s.len() > 0 {
        let p = s.drop_last();
        lemma_normalized_props(p);
        let n = normalized(p);
        let i = s.len() - 1;
        let c = s.last();
        if is_ws(c) {
            if i > 0 && is_ws(s[i - 1]) {
                assert(p.last() == s[i - 1]);
                assert(n.len() > 0);
                let e = (' ', n.last().1, (i + 1) as usize);
                assert(normalized(s) == n.update(n.len() - 1, e));
                assert(normalized(s).len() == n.len());
            } else {
                let e = (' ', i as usize, (i + 1) as usize);
                assert(normalized(s) == n.push(e));
            }
        } else {
            let e = (c, i as usize, (i + 1) as usize);
            assert(!is_ws(s.last()));
            assert(s.len() != 0);
            reveal_with_fuel(normalized, 1);
            assert(normalized(s) == n.push(e));
        }
    }
}

/// UTF-8 encoding distributes over concatenation.
pub proof fn lemma_encode_concat(a: Seq<char>, b: Seq<char>)
    ensures
        encode_utf8(a + b) == encode_utf8(a) + encode_utf8(b),
    decreases a.len(),
{
    if a.len() == 0 {
        assert(a + b =~= b);
        assert(encode_utf8(a) + encode_utf8(b) =~= encode_utf8(b));
    } else {
        assert((a + b).drop_first() =~= a.drop_first() + b);
        assert((a + b)[0] == a[0]);
        lemma_encode_concat(a.drop_first(), b);
        assert(encode_utf8(a + b) =~= encode_utf8(a) + encode_utf8(b));
    }
}

/// The offset of the next character is this one's plus its width.
pub proof fn lemma_byte_offset_step(s: Seq<char>, i: int)
    requires
        0 <= i < s.len(),
    ensures
        byte_offset(s, i + 1) == byte_offset(s, i) + utf8_width(s[i]),
{
    let one = seq![s[i]];
    assert(s.take(i + 1) =~= s.take(i) + one);
    lemma_encode_concat(s.take(i), one);
    assert(one.drop_first() =~= Seq::<char>::empty());
    assert(encode_utf8(one.drop_first()) =~= Seq::<u8>::empty());
    assert(encode_utf8(one) =~= encode_scalar(one[0] as u32) + encode_utf8(one.drop_first()));
}

/// Offsets lie inside the encoding.
pub proof fn lemma_byte_offset_bound(s: Seq<char>, i: int)
    requires
        0 <= i <= s.len(),
    ensures
        0 <= byte_offset(s, i) <= encode_utf8(s).len(),
{
    assert(s =~= s.take(i) + s.skip(i));
    lemma_encode_concat(s.take(i), s.skip(i));
}

/// Where `q` occurs at `i`, it ends its own byte length further on.
pub proof fn lemma_byte_offset_occurrence(s: Seq<char>, q: Seq<char>, i: int)
    requires
        occurs_at(s, q, i),
    ensures
        byte_offset(s, i + q.len()) == byte_offset(s, i) + encode_utf8(q).len(),
{
    assert(s.take(i + q.len()) =~= s.take(i) + q);
    lemma_encode_concat(s.take(i), q);
}

/// Normalizing a non-empty text gives at least one character.
pub proof fn lemma_normalized_values_len(s: Seq<char>)
    requires
        s.len() <= usize::MAX,
    ensures
        normalized_values(s).len() == normalized(s).len(),
        s.len() > 0 ==> normalized_values(s).len() > 0,
{
    lemma_normalized_props(s);
}


/// The first verbatim candidate occurs in the source.
pub proof fn lemma_first_exact_in_source(source: Seq<char>, cs: Seq<Seq<char>>)
    ensures
        first_exact(source, cs) matches Some(c) ==> contains_seq(source, c),
    decreases cs.len(),
{
    if cs.len() > 0 && !contains_seq(source, cs[0]) {
        lemma_first_exact_in_source(source, cs.drop_first());
    }
}

/// A whitespace-normalized match covers a non-empty range of the source.
pub proof fn lemma_ws_match_bounds(source: Seq<char>, quote: Seq<char>)
    requires
        source.len() <= usize::MAX,
    ensures
        ws_match_range(source, quote) matches Some(r) ==> 0 <= r.0 < r.1 <= source.len(),
{
    if let Some(r) = ws_match_range(source, quote) {
        let q = trim(quote);
        let sv = normalized_values(source);
        let qv = normalized_values(q);
        let i = choose|i: int| occurs_at(sv, qv, i);
        lemma_first_occurrence_exists(sv, qv, i);
        let w = choose|w: int| is_first_occurrence(sv, qv, w);
        lemma_normalized_props(source);
        let n = normalized(source);
        assert(sv.len() == n.len());
        assert(n[w].1 < n[w].2);
        assert(n[w + qv.len() - 1].1 < n[w + qv.len() - 1].2 <= source.len());
        if qv.len() > 1 {
            assert(n[w].2 <= n[w + qv.len() - 1].1);
        }
    }
}

/// The first whitespace-normalized match covers a non-empty range of the
/// source.
pub proof fn lemma_first_ws_match_bounds(source: Seq<char>, cs: Seq<Seq<char>>)
    requires
        source.len() <= usize::MAX,
    ensures
        first_ws_match(source, cs) matches Some(r) ==> 0 <= r.0 < r.1 <= source.len(),
    decreases cs.len(),
{
    if cs.len() > 0 {
        lemma_ws_match_bounds(source, cs[0]);
        lemma_first_ws_match_bounds(source, cs.drop_first());
    }
}

/// Grounded evidence is always text of the source, never invented.
pub proof fn lemma_grounded_quote_in_source(source: Seq<char>, quote: Seq<char>)
    requires
        source.len() <= usize::MAX,
    ensures
        grounded_quote(source, quote) matches Some(t) ==> t.len() > 0 && contains_seq(source, t),
{
    let q = trim(quote);
    let cs = candidate_list(q);
    lemma_first_exact_in_source(source, cs);
    lemma_first_ws_match_bounds(source, cs);
    if q.len() > 0 {
        match first_exact(source, cs) {
            Some(c) => {
                lemma_candidates_nonempty(q);
                lemma_first_exact_member(source, cs);
            },
            None => {
                if let Some(r) = first_ws_match(source, cs) {
                    assert(occurs_at(source, source.subrange(r.0, r.1), r.0));
                }
            },
        }
    }
}

/// A verbatim match is one of the candidates.
pub proof fn lemma_first_exact_member(source: Seq<char>, cs: Seq<Seq<char>>)
    ensures
        first_exact(source, cs) matches Some(c) ==> cs.contains(c),
    decreases cs.len(),
{
    if cs.len() > 0 {
        if contains_seq(source, cs[0]) {
            assert(cs[0] == cs[0]);
        } else {
            lemma_first_exact_member(source, cs.drop_first());
            if let Some(c) = first_exact(source, cs) {
                let k = choose|k: int| 0 <= k < cs.drop_first().len() && cs.drop_first()[k] == c;
                assert(cs[k + 1] == c);
            }
        }
    }
}

/// Every candidate is non-empty text.
pub proof fn lemma_candidates_nonempty(q: Seq<char>)
    ensures
        forall|k: int| 0 <= k < candidate_list(q).len() ==> #[trigger] candidate_list(q)[k].len() > 0,
{
}

/// Each of the bullets `・`, `•`, `·`, `●`, `▪`, `-` and `*` is stripped from
/// the front of a quote, with the space after it: what is left is the text
/// after the bullet.
pub proof fn lemma_bullet_stripped(c: char, q: Seq<char>)
    requires
        c == '•' || c == '・' || c == '·' || c == '●' || c == '▪' || c == '-' || c == '*',
        q.len() > 0,
        trim(q) == q,
    ensures
        strip_bullet(seq![c, ' '] + q) == Some(q),
        strip_bullet(seq![c] + q) == Some(q),
{
    lemma_trim_ends(q);
    assert(!is_ws(q[0]));
    assert(trim_start(q) == q);
    let x = seq![c, ' '] + q;
    assert(!is_ws(c));
    assert(x[0] == c);
    assert(trim_start(x) == x);
    assert(x.drop_first() =~= seq![' '] + q);
    assert((seq![' '] + q)[0] == ' ');
    assert((seq![' '] + q).drop_first() =~= q);
    assert(trim_start(seq![' '] + q) == trim_start(q));
    let y = seq![c] + q;
    assert(y[0] == c);
    assert(trim_start(y) == y);
    assert(y.drop_first() =~= q);
}

/// A quote made of a bullet (`・`, `•`, `·`, `●`, `▪`, `-` or `*`), a space
/// and a text found in the source is grounded to that text, unless the
/// source holds the bulleted quote itself.
pub proof fn lemma_bulleted_quote_grounded(source: Seq<char>, c: char, q: Seq<char>)
    requires
        c == '•' || c == '・' || c == '·' || c == '●' || c == '▪' || c == '-' || c == '*',
        q.len() > 0,
        trim(q) == q,
        contains_seq(source, q),
        !contains_seq(source, seq![c, ' '] + q),
    ensures
        grounded_quote(source, seq![c, ' '] + q) == Some(q),
{
    let x = seq![c, ' '] + q;
    lemma_bullet_stripped(c, q);
    lemma_trim_ends(q);
    assert(x[0] == c && !is_ws(c));
    assert(x.last() == q.last());
    lemma_trim_fixed(x);
    assert(trim(x) == x);
    assert(closing_mark(c) is None);
    assert(unwrap_quote(x) is None);
    let c1 = add_candidate(Seq::empty(), x);
    assert(c1 == seq![x]);
    assert(x.len() != q.len());
    assert(!c1.contains(q)) by {
        if c1.contains(q) {
            let k = choose|k: int| 0 <= k < c1.len() && c1[k] == q;
            assert(c1[k] == x);
        }
    }
    let c3 = add_candidate(c1, q);
    assert(c3 == seq![x, q]);
    let cs = candidate_list(x);
    assert(cs == add_optional(c3, unwrap_quote(q)));
    assert(cs.len() >= 2 && cs[0] == x && cs[1] == q);
    assert(cs.drop_first()[0] == q);
    assert(first_exact(source, cs.drop_first()) == Some(q));
    assert(first_exact(source, cs) == Some(q));
}

// ---------------------------------------------------------------------------
// Executable functions
// ---------------------------------------------------------------------------

/// The quote without a leading bullet (`・`, `•`, `·`, `●`, `▪`, `-`, `*`),
/// when it has one and text remains after it.
pub fn strip_leading_bullet(value: &str) -> (r: Option<String>)
    ensures
        match r {
            Some(t) => strip_bullet(value@) == Some(t@),
            None => strip_bullet(value@) is None,
        },
{
    let v = chars_of(value);
    let n = v.len();
    let mut lo: usize = 0;
    assert(v@.subrange(0, n as int) =~= v@);
    while lo < n && is_whitespace(v[lo])
        invariant
            n == v@.len(),
            lo <= n,
            trim_start(v@) == trim_start(v@.subrange(lo as int, n as int)),
        decreases n - lo,
    {
        proof {
            lemma_trim_start_skip(v@, lo as int);
        }
        lo = lo + 1;
    }
    let ghost ts = v@.subrange(lo as int, n as int);
    assert(trim_start(v@) == ts);
    if lo >= n {
        return None;
    }
    let first = v[lo];
    if !(first == '・' || first == '•' || first == '·' || first == '●' || first == '▪' || first
        == '-' || first == '*') {
        return None;
    }
    let mut k: usize = lo + 1;
    assert(ts.drop_first() =~= v@.subrange(lo + 1, n as int));
    while k < n && is_whitespace(v[k])
        invariant
            n == v@.len(),
            lo + 1 <= k <= n,
            trim_start(ts.drop_first()) == trim_start(v@.subrange(k as int, n as int)),
        decreases n - k,
    {
        proof {
            lemma_trim_start_skip(v@, k as int);
        }
        k = k + 1;
    }
    let ghost rest = v@.subrange(k as int, n as int);
    assert(trim_start(rest) == rest);
    if k >= n {
        None
    } else {
        Some(string_from_range(v.as_slice(), k, n))
    }
}

/// The quote without one pair of wrapping quotation marks (`"…"`, `'…'`,
/// `“…”`, `‘…’`, `「…」`, `『…』`), when text remains inside.
pub fn strip_wrapping_quote(value: &str) -> (r: Option<String>)
    ensures
        match r {
            Some(t) => unwrap_quote(value@) == Some(t@),
            None => unwrap_quote(value@) is None,
        },
{
    let v = chars_of(value);
    let (lo, hi) = trim_bounds(v.as_slice());
    let ghost t = v@.subrange(lo as int, hi as int);
    if hi - lo < 3 {
        return None;
    }
    let open = v[lo];
    let close = v[hi - 1];
    assert(t[0] == open && t.last() == close);
    let expected = if open == '"' {
        Some('"')
    } else if open == '\'' {
        Some('\'')
    } else if open == '“' {
        Some('”')
    } else if open == '‘' {
        Some('’')
    } else if open == '「' {
        Some('」')
    } else if open == '『' {
        Some('』')
    } else {
        None
    };
    assert(expected == closing_mark(open));
    match expected {
        None => None,
        Some(c) => {
            if c != close {
                return None;
            }
            let midv = sub_chars(v.as_slice(), lo + 1, hi - 1);
            let (a, b) = trim_bounds(midv.as_slice());
            let ghost mid = v@.subrange(lo + 1, hi - 1);
            assert(v@.subrange(lo + 1, hi - 1) =~= t.subrange(1, t.len() - 1));
            if a >= b {
                None
            } else {
                let inner = string_from_range(v.as_slice(), lo + 1 + a, lo + 1 + b);
                assert(mid.subrange(a as int, b as int) =~= v@.subrange(lo + 1 + a, lo + 1 + b));
                Some(inner)
            }
        },
    }
}

/// Adds the trimmed value to the candidates when it is not empty and not yet there.
pub fn push_evidence_candidate(candidates: &mut Vec<String>, value: &str)
    ensures
        string_views(final(candidates)@) == add_candidate(string_views(old(candidates)@), value@),
{
    let t = trim_str(value);
    if char_count(&t) > 0 && !contains_string(candidates, &t) {
        candidates.push(t);
        assert(string_views(candidates@) =~= string_views(old(candidates)@).push(t@));
    }
}

fn push_optional_candidate(candidates: &mut Vec<String>, value: &Option<String>)
    ensures
        string_views(final(candidates)@) == add_optional(
            string_views(old(candidates)@),
            match value {
                Some(v) => Some(v@),
                None => None,
            },
        ),
{
    if let Some(v) = value {
        push_evidence_candidate(candidates, v.as_str());
    }
}

/// The readings of a quote to try against the source (see `candidate_list`).
pub fn evidence_candidates(quote: &str) -> (r: Vec<String>)
    ensures
        string_views(r@) == candidate_list(quote@),
{
    let mut candidates: Vec<String> = Vec::new();
    assert(string_views(candidates@) =~= Seq::<Seq<char>>::empty());
    push_evidence_candidate(&mut candidates, quote);
    let unwrapped = strip_wrapping_quote(quote);
    push_optional_candidate(&mut candidates, &unwrapped);
    let unbulleted = strip_leading_bullet(quote);
    if let Some(u) = &unbulleted {
        push_evidence_candidate(&mut candidates, u.as_str());
        let inner = strip_wrapping_quote(u.as_str());
        push_optional_candidate(&mut candidates, &inner);
    }
    if let Some(w) = &unwrapped {
        let inner = strip_leading_bullet(w.as_str());
        push_optional_candidate(&mut candidates, &inner);
    }
    candidates
}

/// The number of bytes of a character in UTF-8.
fn utf8_width_of(c: char) -> (w: usize)
    ensures
        w == utf8_width(c),
{
    let u = c as u32;
    proof {
        vstd::utf8::char_is_scalar(c);
    }
    if u <= 0x7F {
        1
    } else if u <= 0x7FF {
        2
    } else if u <= 0xFFFF {
        3
    } else {
        4
    }
}

/// The UTF-8 byte offset of every character position of a text, the end
/// included.
fn byte_offsets_of(v: &[char]) -> (r: Vec<usize>)
    requires
        encode_utf8(v@).len() <= usize::MAX,
    ensures
        r@.len() == v@.len() + 1,
        forall|k: int| 0 <= k <= v@.len() ==> r@[k] == byte_offset(v@, k),
{
    let n = v.len();
    let mut r: Vec<usize> = Vec::new();
    assert(v@.take(0) =~= Seq::<char>::empty());
    let mut pos: usize = 0;
    r.push(pos);
    let mut i: usize = 0;
    while i < n
        invariant
            n == v@.len(),
            i <= n,
            encode_utf8(v@).len() <= usize::MAX,
            pos == byte_offset(v@, i as int),
            r@.len() == i + 1,
            forall|k: int| 0 <= k <= i ==> r@[k] == byte_offset(v@, k),
        decreases n - i,
    {
        let w = utf8_width_of(v[i]);
        proof {
            lemma_byte_offset_step(v@, i as int);
            lemma_byte_offset_bound(v@, i + 1);
        }
        pos = pos + w;
        r.push(pos);
        i = i + 1;
    }
    r
}

/// The UTF-8 byte range `(start, end)` of the first verbatim occurrence of
/// `quote` in `source`.
pub fn exact_byte_range(source: &str, quote: &str) -> (r: Option<(usize, usize)>)
    ensures
        match r {
            Some((a, b)) => exact_match_bytes(source@, quote@) == Some((a as int, b as int)),
            None => exact_match_bytes(source@, quote@) is None,
        },
{
    let s = chars_of(source);
    let q = chars_of(quote);
    let total = source.as_bytes().len();
    let quote_bytes = quote.as_bytes().len();
    match find_chars(s.as_slice(), q.as_slice()) {
        Some(start) => {
            let offsets = byte_offsets_of(s.as_slice());
            let a = offsets[start];
            proof {
                let i = choose|i: int| is_first_occurrence(source@, quote@, i);
                lemma_first_occurrence_unique(source@, quote@, i, start as int);
                lemma_byte_offset_occurrence(s@, q@, start as int);
                lemma_byte_offset_bound(s@, start + q@.len());
            }
            Some((a, a + quote_bytes))
        },
        None => None,
    }
}

fn normalized_of(v: &[char]) -> (r: Vec<(char, usize, usize)>)
    ensures
        r@ == normalized(v@),
{
    let n = v.len();
    let mut r: Vec<(char, usize, usize)> = Vec::new();
    let mut i: usize = 0;
    while i < n
        invariant
            n == v@.len(),
            i <= n,
            r@ == normalized(v@.take(i as int)),
        decreases n - i,
    {
        let c = v[i];
        let ghost pre = v@.take(i as int);
        proof {
            let post = v@.take(i + 1);
            assert(post.drop_last() =~= pre);
            if i > 0 {
                assert(post[i - 1] == v@[i - 1]);
            }
            lemma_normalized_props(pre);
        }
        if is_whitespace(c) {
            if i > 0 && is_whitespace(v[i - 1]) {
                let last = r.len() - 1;
                let e = r[last];
                r.set(last, (' ', e.1, i + 1));
            } else {
                r.push((' ', i, i + 1));
            }
        } else {
            r.push((c, i, i + 1));
        }
        i = i + 1;
    }
    assert(v@.take(n as int) =~= v@);
    r
}

fn byte_triples(norm: &Vec<(char, usize, usize)>, offsets: &Vec<usize>, Ghost(v): Ghost<
    Seq<char>,
>) -> (r: Vec<(char, usize, usize)>)
    requires
        v.len() <= usize::MAX,
        norm@ == normalized(v),
        offsets@.len() == v.len() + 1,
        forall|k: int| 0 <= k <= v.len() ==> offsets@[k] == byte_offset(v, k),
    ensures
        triples_as_int(r@) == normalized_bytes(v),
{
    proof {
        lemma_normalized_props(v);
    }
    let n = norm.len();
    let mut r: Vec<(char, usize, usize)> = Vec::new();
    let mut k: usize = 0;
    while k < n
        invariant
            n == norm@.len(),
            norm@ == normalized(v),
            k <= n,
            offsets@.len() == v.len() + 1,
            forall|j: int| 0 <= j <= v.len() ==> offsets@[j] == byte_offset(v, j),
            forall|j: int|
                0 <= j < normalized(v).len() ==> #[trigger] normalized(v)[j].1 < normalized(v)[j].2
                    <= v.len(),
            triples_as_int(r@) == normalized_bytes(v).take(k as int),
        decreases n - k,
    {
        let e = norm[k];
        assert(e == normalized(v)[k as int]);
        assert(e.1 < e.2 <= v.len());
        let t = (e.0, offsets[e.1], offsets[e.2]);
        let ghost prev = r@;
        r.push(t);
        proof {
            let nb = normalized_bytes(v);
            assert(offsets@[e.1 as int] == byte_offset(v, e.1 as int));
            assert(offsets@[e.2 as int] == byte_offset(v, e.2 as int));
            assert(nb[k as int] == (e.0, byte_offset(v, e.1 as int), byte_offset(v, e.2 as int)));
            assert(triples_as_int(r@) =~= triples_as_int(prev).push((t.0, t.1 as int, t.2 as int)));
            assert(nb.take(k + 1) =~= nb.take(k as int).push(nb[k as int]));
        }
        k = k + 1;
    }
    assert(normalized_bytes(v).take(n as int) =~= normalized_bytes(v));
    r
}

/// Whitespace normalization of a text: each non-whitespace character is kept
/// with its UTF-8 byte range, each run of whitespace becomes one space
/// spanning the bytes of the run. Entries are `(character, start, end)`.
pub fn whitespace_normalized_chars(value: &str) -> (r: Vec<(char, usize, usize)>)
    ensures
        triples_as_int(r@) == normalized_bytes(value@),
{
    let v = chars_of(value);
    let total = value.as_bytes().len();
    let offsets = byte_offsets_of(v.as_slice());
    let norm = normalized_of(v.as_slice());
    let length = v.len();
    byte_triples(&norm, &offsets, Ghost(v@))
}

fn values_of(v: &Vec<(char, usize, usize)>) -> (r: Vec<char>)
    ensures
        r@ == v@.map_values(|e: (char, usize, usize)| e.0),
{
    let n = v.len();
    let mut r: Vec<char> = Vec::new();
    let mut i: usize = 0;
    while i < n
        invariant
            n == v@.len(),
            i <= n,
            r@ == v@.take(i as int).map_values(|e: (char, usize, usize)| e.0),
        decreases n - i,
    {
        r.push(v[i].0);
        assert(v@.take(i + 1).map_values(|e: (char, usize, usize)| e.0) =~= v@.take(
            i as int,
        ).map_values(|e: (char, usize, usize)| e.0).push(v@[i as int].0));
        i = i + 1;
    }
    assert(v@.take(n as int) =~= v@);
    r
}

fn ws_match_chars(src: &[char], src_norm: &Vec<(char, usize, usize)>, quote: &str) -> (r: Option<
    (usize, usize),
>)
    requires
        src_norm@ == normalized(src@),
    ensures
        match r {
            Some((a, b)) => ws_match_range(src@, quote@) == Some((a as int, b as int)) && a < b
                <= src@.len(),
            None => ws_match_range(src@, quote@) is None,
        },
{
    let qv0 = chars_of(quote);
    let (lo, hi) = trim_bounds(qv0.as_slice());
    if lo >= hi {
        return None;
    }
    let q = sub_chars(qv0.as_slice(), lo, hi);
    let qn = normalized_of(q.as_slice());
    let sv = values_of(src_norm);
    let qv = values_of(&qn);
    let sl = src.len();
    proof {
        lemma_normalized_values_len(q@);
        lemma_normalized_props(src@);
    }
    if qv.len() == 0 {
        return None;
    }
    match find_chars(sv.as_slice(), qv.as_slice()) {
        None => None,
        Some(w) => {
            let m = qv.len();
            let a = src_norm[w].1;
            let b = src_norm[w + m - 1].2;
            proof {
                let wc = choose|x: int|
                    is_first_occurrence(normalized_values(src@), normalized_values(trim(quote@)), x);
                lemma_first_occurrence_unique(
                    normalized_values(src@),
                    normalized_values(trim(quote@)),
                    wc,
                    w as int,
                );
                assert(src_norm@[w as int].1 < src_norm@[w as int].2);
                if m > 1 {
                    assert(src_norm@[w as int].2 <= src_norm@[w + m - 1].1);
                }
            }
            Some((a, b))
        },
    }
}

/// The UTF-8 byte range of the source that matches the quote when every
/// run of whitespace in both counts as one space.
pub fn whitespace_normalized_byte_range(source: &str, quote: &str) -> (r: Option<(usize, usize)>)
    ensures
        match r {
            Some((a, b)) => ws_match_bytes(source@, quote@) == Some((a as int, b as int)) && a
                < b,
            None => ws_match_bytes(source@, quote@) is None,
        },
{
    let src = chars_of(source);
    let total = source.as_bytes().len();
    let sn = normalized_of(src.as_slice());
    match ws_match_chars(src.as_slice(), &sn, quote) {
        Some((a, b)) => {
            let offsets = byte_offsets_of(src.as_slice());
            proof {
                assert(a < src@.len());
                lemma_byte_offset_step(src@, a as int);
                assert(a + 1 <= b);
                if a + 1 < b {
                    assert(src@.take(b as int) =~= src@.take(a + 1) + src@.subrange(a + 1, b as int));
                    lemma_encode_concat(src@.take(a + 1), src@.subrange(a + 1, b as int));
                }
                vstd::utf8::char_is_scalar(src@[a as int]);
            }
            Some((offsets[a], offsets[b]))
        },
        None => None,
    }
}

/// The first 80 characters of a value, for error messages.
pub fn preview(value: &str) -> (r: String)
    ensures
        r@ == take_chars(value@, 80),
{
    take_str(value, 80)
}

/// The error for a quote that cannot be grounded in the source.
pub open spec fn ungrounded_message(quote: Seq<char>) -> Seq<char> {
    "evidence is not an exact source quote: "@ + take_chars(quote, 80)
}

/// The error for a quote that is blank or cannot be grounded.
pub open spec fn quote_error(quote: Seq<char>) -> Seq<char> {
    if trim(quote).len() == 0 {
        "evidence quote is empty"@
    } else {
        ungrounded_message(trim(quote))
    }
}

/// The source text that grounds an evidence quote (see `grounded_quote`), or
/// an error when the quote is empty or cannot be found in the source.
pub fn ground_evidence_quote(source: &str, quote: &str) -> (r: Result<String, String>)
    ensures
        match r {
            Ok(t) => grounded_quote(source@, quote@) == Some(t@) && t@.len() > 0 && contains_seq(
                source@,
                t@,
            ),
            Err(e) => grounded_quote(source@, quote@) is None && e@ == quote_error(quote@),
        },
{
    let q = trim_str(quote);
    if char_count(&q) == 0 {
        return Err("evidence quote is empty".to_string());
    }
    let src = chars_of(source);
    let sl = src.len();
    proof {
        lemma_grounded_quote_in_source(source@, quote@);
    }
    let candidates = evidence_candidates(q.as_str());
    let ghost cs = string_views(candidates@);
    let n = candidates.len();
    assert(cs.skip(0) =~= cs);
    let mut i: usize = 0;
    while i < n
        invariant
            n == candidates@.len(),
            cs == string_views(candidates@),
            cs == candidate_list(trim(quote@)),
            src@ == source@,
            i <= n,
            first_exact(src@, cs) == first_exact(src@, cs.skip(i as int)),
        decreases n - i,
    {
        let c = chars_of(candidates[i].as_str());
        proof {
            assert(cs.skip(i as int).drop_first() =~= cs.skip(i + 1));
            assert(cs.skip(i as int)[0] == candidates@[i as int]@);
        }
        if let Some(_start) = find_chars(src.as_slice(), c.as_slice()) {
            return Ok(candidates[i].clone());
        }
        i = i + 1;
    }
    assert(cs.skip(n as int).len() == 0);
    let sn = normalized_of(src.as_slice());
    let mut j: usize = 0;
    assert(cs.skip(0) =~= cs);
    while j < n
        invariant
            n == candidates@.len(),
            cs == string_views(candidates@),
            cs == candidate_list(trim(quote@)),
            src@ == source@,
            sn@ == normalized(src@),
            first_exact(src@, cs) is None,
            j <= n,
            first_ws_match(src@, cs) == first_ws_match(src@, cs.skip(j as int)),
        decreases n - j,
    {
        proof {
            assert(cs.skip(j as int).drop_first() =~= cs.skip(j + 1));
            assert(cs.skip(j as int)[0] == candidates@[j as int]@);
        }
        if let Some((a, b)) = ws_match_chars(src.as_slice(), &sn, candidates[j].as_str()) {
            assert(occurs_at(src@, src@.subrange(a as int, b as int), a as int));
            assert(first_ws_match(src@, cs.skip(j as int)) == Some((a as int, b as int)));
            return Ok(string_from_range(src.as_slice(), a, b));
        }
        j = j + 1;
    }
    assert(cs.skip(n as int).len() == 0);
    let mut message = "evidence is not an exact source quote: ".to_string();
    let p = preview(q.as_str());
    push_str(&mut message, p.as_str());
    Err(message)
}

/// Character offsets `(start, end)` of the first verbatim occurrence of the
/// trimmed quote in the source.
pub fn evidence_offsets(source: &str, quote: &str) -> (r: Result<(i64, i64), String>)
    requires
        source@.len() <= i64::MAX,
    ensures
        match r {
            Ok((a, b)) => trim(quote@).len() > 0 && is_first_occurrence(
                source@,
                trim(quote@),
                a as int,
            ) && b == a + trim(quote@).len(),
            Err(e) => if trim(quote@).len() == 0 {
                e@ == "evidence quote is empty"@
            } else {
                !contains_seq(source@, trim(quote@)) && e@
                    == "evidence was not normalized to an exact source quote: "@ + take_chars(
                    trim(quote@),
                    80,
                )
            },
        },
{
    let q = trim_str(quote);
    let qc = chars_of(q.as_str());
    if qc.len() == 0 {
        return Err("evidence quote is empty".to_string());
    }
    let src = chars_of(source);
    match find_chars(src.as_slice(), qc.as_slice()) {
        Some(start) => {
            let sl = src.len();
            assert(start + qc@.len() <= src@.len());
            let start64 = start as i64;
            let end64 = (start + qc.len()) as i64;
            Ok((start64, end64))
        },
        None => {
            let mut message = "evidence was not normalized to an exact source quote: ".to_string();
            let p = preview(q.as_str());
            push_str(&mut message, p.as_str());
            Err(message)
        },
    }
}

} // verus!
