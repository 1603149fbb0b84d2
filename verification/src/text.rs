//! Character-level text model shared by the knowledge library.
//!
//! Every string is modelled by its view, a `Seq<char>`. The spec functions
//! here state what trimming, whitespace splitting, joining, truncation and
//! searching mean on that model; the executable helpers are proved against
//! them.
use vstd::prelude::*;

verus! {

/// Unicode `White_Space`, the property that `char::is_whitespace` tests.
pub open spec fn is_ws(c: char) -> bool {
    let u = c as u32;
    ||| 0x9 <= u <= 0xd
    ||| u == 0x20
    ||| u == 0x85
    ||| u == 0xa0
    ||| u == 0x1680
    ||| 0x2000 <= u <= 0x200a
    ||| u == 0x2028
    ||| u == 0x2029
    ||| u == 0x202f
    ||| u == 0x205f
    ||| u == 0x3000
}

/// Drops leading whitespace.
pub open spec fn trim_start(s: Seq<char>) -> Seq<char>
    decreases s.len(),
{
    if s.len() > 0 && is_ws(s[0]) {
        trim_start(s.drop_first())
    } else {
        s
    }
}

/// Drops trailing whitespace.
pub open spec fn trim_end(s: Seq<char>) -> Seq<char>
    decreases s.len(),
{
    if s.len() > 0 && is_ws(s.last()) {
        trim_end(s.drop_last())
    } else {
        s
    }
}

/// Drops whitespace at both ends, as `str::trim` does.
pub open spec fn trim(s: Seq<char>) -> Seq<char> {
    trim_end(trim_start(s))
}

/// The first `n` characters, or all of them when there are fewer.
pub open spec fn take_chars(s: Seq<char>, n: int) -> Seq<char> {
    if n < s.len() {
        s.take(n)
    } else {
        s
    }
}

/// The maximal runs of non-whitespace characters, in order, as
/// `str::split_whitespace` yields them.
pub open spec fn words(s: Seq<char>) -> Seq<Seq<char>>
    decreases s.len(),
{
    if s.len() == 0 {
        Seq::empty()
    } else {
        let w = words(s.drop_last());
        let c = s.last();
        if is_ws(c) {
            w
        } else if s.len() >= 2 && !is_ws(s[s.len() - 2]) {
            w.update(w.len() - 1, w.last().push(c))
        } else {
            w.push(seq![c])
        }
    }
}

/// The elements of `list` with `sep` between each two neighbours.
pub open spec fn join(list: Seq<Seq<char>>, sep: Seq<char>) -> Seq<char>
    decreases list.len(),
{
    if list.len() == 0 {
        Seq::empty()
    } else if list.len() == 1 {
        list[0]
    } else {
        join(list.drop_last(), sep) + sep + list.last()
    }
}

/// `split_whitespace().join(" ")`: inner runs of whitespace become one space,
/// and whitespace at the ends is gone.
pub open spec fn collapse_ws(s: Seq<char>) -> Seq<char> {
    join(words(s), seq![' '])
}

/// The views of a sequence of strings.
pub open spec fn string_views(v: Seq<String>) -> Seq<Seq<char>> {
    v.map_values(|s: String| s@)
}

/// The views of a sequence of character vectors.
pub open spec fn char_vec_views(v: Seq<Vec<char>>) -> Seq<Seq<char>> {
    v.map_values(|s: Vec<char>| s@)
}

/// `q` occurs in `s` starting at `i`.
pub open spec fn occurs_at(s: Seq<char>, q: Seq<char>, i: int) -> bool {
    0 <= i && i + q.len() <= s.len() && s.subrange(i, i + q.len()) == q
}

/// `q` occurs somewhere in `s`.
pub open spec fn contains_seq(s: Seq<char>, q: Seq<char>) -> bool {
    exists|i: int| occurs_at(s, q, i)
}

/// `i` is the first position at which `q` occurs in `s`, as `str::find` reports it.
pub open spec fn is_first_occurrence(s: Seq<char>, q: Seq<char>, i: int) -> bool {
    occurs_at(s, q, i) && forall|j: int| 0 <= j < i ==> !occurs_at(s, q, j)
}

/// ASCII lowercase of one character.
pub open spec fn ascii_lower_char(c: char) -> char {
    if 'A' <= c <= 'Z' {
        ((c as u32) + 32) as char
    } else {
        c
    }
}

/// `str::to_ascii_lowercase`.
pub open spec fn ascii_lower(s: Seq<char>) -> Seq<char> {
    s.map_values(|c: char| ascii_lower_char(c))
}

/// What `str::to_lowercase` returns for a string: full Unicode lowercase
/// mapping, which depends on the string alone.
pub uninterp spec fn unicode_lowercase(s: Seq<char>) -> Seq<char>;

// ---------------------------------------------------------------------------
// Lemmas
// ---------------------------------------------------------------------------

/// Leading whitespace does not change what trimming the start keeps.
pub proof fn lemma_trim_start_skip(s: Seq<char>, i: int)
    requires
        0 <= i < s.len(),
        is_ws(s[i]),
    ensures
        trim_start(s.subrange(i, s.len() as int)) == trim_start(s.subrange(i + 1, s.len() as int)),
{
    let t = s.subrange(i, s.len() as int);
    assert(t.drop_first() =~= s.subrange(i + 1, s.len() as int));
}

/// Trailing whitespace does not change what trimming the end keeps.
pub proof fn lemma_trim_end_skip(s: Seq<char>, j: int)
    requires
        0 < j <= s.len(),
        is_ws(s[j - 1]),
    ensures
        trim_end(s.subrange(0, j)) == trim_end(s.subrange(0, j - 1)),
{
    let t = s.subrange(0, j);
    assert(t.drop_last() =~= s.subrange(0, j - 1));
}

/// Adding a character to the last word extends the joined text by it.
pub proof fn lemma_join_extend_last(list: Seq<Seq<char>>, sep: Seq<char>, c: char)
    requires
        list.len() >= 1,
    ensures
        join(list.update(list.len() - 1, list.last().push(c)), sep) == join(list, sep).push(c),
{
    let l2 = list.update(list.len() - 1, list.last().push(c));
    if list.len() == 1 {
    } else {
        assert(l2.drop_last() =~= list.drop_last());
        assert(join(l2, sep) == join(list.drop_last(), sep) + sep + list.last().push(c));
        assert((join(list.drop_last(), sep) + sep + list.last()).push(c) =~= join(list.drop_last(), sep)
            + sep + list.last().push(c));
    }
}

/// Appending an element to a non-empty list appends the separator and it.
pub proof fn lemma_join_push(list: Seq<Seq<char>>, sep: Seq<char>, x: Seq<char>)
    ensures
        list.len() == 0 ==> join(list.push(x), sep) == x,
        list.len() > 0 ==> join(list.push(x), sep) == join(list, sep) + sep + x,
{
    let l2 = list.push(x);
    assert(l2.drop_last() =~= list);
    if list.len() == 0 {
        assert(l2.len() == 1);
    }
}

/// Every word is non-empty.
pub proof fn lemma_words_nonempty(s: Seq<char>)
    ensures
        forall|k: int| 0 <= k < words(s).len() ==> #[trigger] words(s)[k].len() > 0,
    decreases s.len(),
{
    if s.len() > 0 {
        lemma_words_nonempty(s.drop_last());
        lemma_words_shape(s.drop_last());
    }
}

/// Ending in non-whitespace means at least one word.
pub proof fn lemma_words_shape(s: Seq<char>)
    ensures
        s.len() > 0 && !is_ws(s.last()) ==> words(s).len() > 0,
        words(s).len() <= s.len(),
    decreases s.len(),
{
    if s.len() > 0 {
        lemma_words_shape(s.drop_last());
    }
}


/// Words hold no whitespace.
pub proof fn lemma_words_no_ws(s: Seq<char>)
    ensures
        forall|k: int, j: int|
            0 <= k < words(s).len() && 0 <= j < words(s)[k].len() ==> !is_ws(
                #[trigger] words(s)[k][j],
            ),
    decreases s.len(),
{
    if s.len() > 0 {
        let p = s.drop_last();
        lemma_words_no_ws(p);
        lemma_words_shape(p);
        let w = words(p);
        let c = s.last();
        let r = words(s);
        if !is_ws(c) {
            if s.len() >= 2 && !is_ws(s[s.len() - 2]) {
                assert(p.last() == s[s.len() - 2]);
                assert(w.len() > 0);
                assert forall|k: int, j: int| 0 <= k < r.len() && 0 <= j < r[k].len() implies !is_ws(
                    #[trigger] r[k][j],
                ) by {
                    if k < w.len() - 1 {
                        assert(r[k] == w[k]);
                    } else {
                        assert(r[k] == w[w.len() - 1].push(c));
                        if j < w[w.len() - 1].len() {
                            assert(r[k][j] == w[w.len() - 1][j]);
                        }
                    }
                }
            } else {
                assert forall|k: int, j: int| 0 <= k < r.len() && 0 <= j < r[k].len() implies !is_ws(
                    #[trigger] r[k][j],
                ) by {
                    if k < w.len() {
                        assert(r[k] == w[k]);
                    } else {
                        assert(r[k] == seq![c]);
                    }
                }
            }
        }
    }
}

/// Joining non-empty texts starts with the first one's first character and
/// ends with the last one's last character.
pub proof fn lemma_join_ends(list: Seq<Seq<char>>, sep: Seq<char>)
    requires
        list.len() > 0,
        forall|k: int| 0 <= k < list.len() ==> #[trigger] list[k].len() > 0,
    ensures
        join(list, sep).len() > 0,
        join(list, sep)[0] == list[0][0],
        join(list, sep).last() == list.last().last(),
    decreases list.len(),
{
    if list.len() > 1 {
        let p = list.drop_last();
        assert(p[0] == list[0]);
        lemma_join_ends(p, sep);
        let j = join(list, sep);
        assert(j == join(p, sep) + sep + list.last());
        assert(list.last() == list[list.len() - 1]);
    }
}

/// Collapsing whitespace leaves none at the ends, and leaves something of
/// a text that ends in a non-whitespace character.
pub proof fn lemma_collapse_ws_ends(s: Seq<char>)
    ensures
        collapse_ws(s).len() > 0 ==> !is_ws(collapse_ws(s)[0]) && !is_ws(collapse_ws(s).last()),
        s.len() > 0 && !is_ws(s.last()) ==> collapse_ws(s).len() > 0,
{
    let w = words(s);
    lemma_words_shape(s);
    lemma_words_nonempty(s);
    lemma_words_no_ws(s);
    if w.len() > 0 {
        lemma_join_ends(w, seq![' ']);
        assert(w[0].len() > 0);
        assert(!is_ws(w[0][0]));
        let l = w[w.len() - 1];
        assert(l.len() > 0);
        assert(!is_ws(l[l.len() - 1]));
    }
}

/// A text that starts with a non-whitespace character trims to something.
pub proof fn lemma_trim_keeps_first(s: Seq<char>)
    requires
        s.len() > 0,
        !is_ws(s[0]),
    ensures
        trim(s).len() > 0,
        trim(s)[0] == s[0],
    decreases s.len(),
{
    assert(trim_start(s) == s);
    if is_ws(s.last()) {
        assert(s.len() > 1);
        assert(s.drop_last()[0] == s[0]);
        lemma_trim_keeps_first(s.drop_last());
        assert(trim_start(s.drop_last()) == s.drop_last());
    }
}

/// Leading whitespace is all that `trim_start` removes.
pub proof fn lemma_trim_start_props(s: Seq<char>)
    ensures
        trim_start(s).len() <= s.len(),
        trim_start(s) == s.subrange(s.len() - trim_start(s).len(), s.len() as int),
        trim_start(s).len() > 0 ==> !is_ws(trim_start(s)[0]),
    decreases s.len(),
{
    if s.len() > 0 && is_ws(s[0]) {
        lemma_trim_start_props(s.drop_first());
        let t = trim_start(s.drop_first());
        assert(s.drop_first().subrange(s.drop_first().len() - t.len(), s.drop_first().len() as int)
            =~= s.subrange(s.len() - t.len(), s.len() as int));
    } else {
        assert(s.subrange(0, s.len() as int) =~= s);
    }
}

/// Trailing whitespace is all that `trim_end` removes.
pub proof fn lemma_trim_end_props(s: Seq<char>)
    ensures
        trim_end(s).len() <= s.len(),
        trim_end(s) == s.subrange(0, trim_end(s).len() as int),
        trim_end(s).len() > 0 ==> !is_ws(trim_end(s).last()),
    decreases s.len(),
{
    if s.len() > 0 && is_ws(s.last()) {
        lemma_trim_end_props(s.drop_last());
        let t = trim_end(s.drop_last());
        assert(s.drop_last().subrange(0, t.len() as int) =~= s.subrange(0, t.len() as int));
    } else {
        assert(s.subrange(0, s.len() as int) =~= s);
    }
}

/// A trimmed text starts and ends with non-whitespace.
pub proof fn lemma_trim_ends(s: Seq<char>)
    ensures
        trim(s).len() <= s.len(),
        trim(s).len() > 0 ==> !is_ws(trim(s)[0]) && !is_ws(trim(s).last()),
{
    lemma_trim_start_props(s);
    lemma_trim_end_props(trim_start(s));
    let ts = trim_start(s);
    let te = trim_end(ts);
    if te.len() > 0 {
        assert(te[0] == ts[0]);
    }
}

/// Text without whitespace at its ends is its own trim.
pub proof fn lemma_trim_fixed(t: Seq<char>)
    requires
        t.len() == 0 || (!is_ws(t[0]) && !is_ws(t.last())),
    ensures
        trim(t) == t,
{
}

/// Trimming twice is trimming once.
pub proof fn lemma_trim_idempotent(s: Seq<char>)
    ensures
        trim(trim(s)) == trim(s),
{
    lemma_trim_ends(s);
    lemma_trim_fixed(trim(s));
}

/// Whenever `q` occurs in `s`, it has a first occurrence.
pub proof fn lemma_first_occurrence_exists(s: Seq<char>, q: Seq<char>, i: int)
    requires
        occurs_at(s, q, i),
    ensures
        exists|w: int| is_first_occurrence(s, q, w),
    decreases i,
{
    if exists|j: int| 0 <= j < i && occurs_at(s, q, j) {
        let j = choose|j: int| 0 <= j < i && occurs_at(s, q, j);
        lemma_first_occurrence_exists(s, q, j);
    } else {
        assert(is_first_occurrence(s, q, i));
    }
}

/// The trimmed text is a contiguous part of the text.
pub proof fn lemma_trim_subrange(s: Seq<char>) -> (a: int)
    ensures
        0 <= a <= a + trim(s).len() <= s.len(),
        trim(s) == s.subrange(a, a + trim(s).len()),
{
    lemma_trim_start_props(s);
    let ts = trim_start(s);
    lemma_trim_end_props(ts);
    let a = s.len() - ts.len();
    assert(trim(s) =~= s.subrange(a, a + trim(s).len()));
    a
}

/// What occurs in a part of a text occurs in the text.
pub proof fn lemma_contains_in_subrange(s: Seq<char>, a: int, b: int, q: Seq<char>)
    requires
        0 <= a <= b <= s.len(),
        contains_seq(s.subrange(a, b), q),
    ensures
        contains_seq(s, q),
{
    let i = choose|i: int| occurs_at(s.subrange(a, b), q, i);
    assert(s.subrange(a + i, a + i + q.len()) =~= s.subrange(a, b).subrange(i, i + q.len()));
    assert(occurs_at(s, q, a + i));
}

/// What occurs in the trimmed text occurs in the text.
pub proof fn lemma_contains_in_trim(s: Seq<char>, q: Seq<char>)
    requires
        contains_seq(trim(s), q),
    ensures
        contains_seq(s, q),
{
    let a = lemma_trim_subrange(s);
    lemma_contains_in_subrange(s, a, a + trim(s).len(), q);
}

/// A first occurrence is unique.
pub proof fn lemma_first_occurrence_unique(s: Seq<char>, q: Seq<char>, a: int, b: int)
    requires
        is_first_occurrence(s, q, a),
        is_first_occurrence(s, q, b),
    ensures
        a == b,
{
}

// ---------------------------------------------------------------------------
// Executable helpers
// ---------------------------------------------------------------------------

/// The character of a decimal digit.
pub open spec fn digit_char(d: nat) -> char {
    if d == 0 {
        '0'
    } else if d == 1 {
        '1'
    } else if d == 2 {
        '2'
    } else if d == 3 {
        '3'
    } else if d == 4 {
        '4'
    } else if d == 5 {
        '5'
    } else if d == 6 {
        '6'
    } else if d == 7 {
        '7'
    } else if d == 8 {
        '8'
    } else {
        '9'
    }
}

/// A number written in decimal, as `format!("{}")` writes it.
pub open spec fn decimal(n: nat) -> Seq<char>
    decreases n,
{
    if n < 10 {
        seq![digit_char(n)]
    } else {
        decimal(n / 10).push(digit_char(n % 10))
    }
}

/// `String::push` appends one character.
#[verifier::external_body]
pub(crate) fn push_char(s: &mut String, c: char)
    ensures
        final(s)@ == old(s)@.push(c),
{
    s.push(c);
}

/// `str::to_lowercase`: full Unicode lowercase of the whole string.
#[verifier::external_body]
pub(crate) fn to_lowercase(s: &str) -> (r: String)
    ensures
        r@ == unicode_lowercase(s@),
{
    s.to_lowercase()
}

/// A decimal digit as a character.
fn digit(d: usize) -> (c: char)
    requires
        d < 10,
    ensures
        c == digit_char(d as nat),
{
    if d == 0 {
        '0'
    } else if d == 1 {
        '1'
    } else if d == 2 {
        '2'
    } else if d == 3 {
        '3'
    } else if d == 4 {
        '4'
    } else if d == 5 {
        '5'
    } else if d == 6 {
        '6'
    } else if d == 7 {
        '7'
    } else if d == 8 {
        '8'
    } else {
        '9'
    }
}

/// A number written in decimal.
pub fn decimal_string(n: usize) -> (s: String)
    ensures
        s@ == decimal(n as nat),
    decreases n,
{
    if n < 10 {
        let mut s = String::new();
        push_char(&mut s, digit(n));
        s
    } else {
        let mut s = decimal_string(n / 10);
        push_char(&mut s, digit(n % 10));
        s
    }
}

/// The characters of a string, in order.
pub fn chars_of(s: &str) -> (v: Vec<char>)
    ensures
        v@ == s@,
{
    let mut v: Vec<char> = Vec::new();
    for c in it: s.chars()
        invariant
            v@ == it.seq().take(it.index() as int),
    {
        v.push(c);
    }
    v
}

/// The string made of the given characters.
pub fn string_from(v: &[char]) -> (s: String)
    ensures
        s@ == v@,
{
    let mut s = String::new();
    let n = v.len();
    let mut i: usize = 0;
    while i < n
        invariant
            n == v@.len(),
            i <= n,
            s@ == v@.take(i as int),
        decreases n - i,
    {
        push_char(&mut s, v[i]);
        assert(v@.take(i as int).push(v@[i as int]) =~= v@.take(i + 1));
        i = i + 1;
    }
    assert(v@.take(n as int) =~= v@);
    s
}

/// The characters `v[from..to]`.
pub fn sub_chars(v: &[char], from: usize, to: usize) -> (r: Vec<char>)
    requires
        from <= to <= v@.len(),
    ensures
        r@ == v@.subrange(from as int, to as int),
{
    let mut r: Vec<char> = Vec::new();
    let mut i: usize = from;
    while i < to
        invariant
            from <= i <= to <= v@.len(),
            r@ == v@.subrange(from as int, i as int),
        decreases to - i,
    {
        r.push(v[i]);
        assert(v@.subrange(from as int, i as int).push(v@[i as int]) =~= v@.subrange(
            from as int,
            i + 1,
        ));
        i = i + 1;
    }
    r
}

/// The string made of `v[from..to]`.
pub fn string_from_range(v: &[char], from: usize, to: usize) -> (s: String)
    requires
        from <= to <= v@.len(),
    ensures
        s@ == v@.subrange(from as int, to as int),
{
    let mut s = String::new();
    let mut i: usize = from;
    while i < to
        invariant
            from <= i <= to <= v@.len(),
            s@ == v@.subrange(from as int, i as int),
        decreases to - i,
    {
        push_char(&mut s, v[i]);
        assert(v@.subrange(from as int, i as int).push(v@[i as int]) =~= v@.subrange(
            from as int,
            i + 1,
        ));
        i = i + 1;
    }
    s
}

/// Appends all characters of `v` to `s`.
pub fn push_chars(s: &mut String, v: &[char])
    ensures
        final(s)@ == old(s)@ + v@,
{
    let n = v.len();
    let mut i: usize = 0;
    while i < n
        invariant
            n == v@.len(),
            i <= n,
            s@ == old(s)@ + v@.take(i as int),
        decreases n - i,
    {
        push_char(s, v[i]);
        assert(old(s)@ + v@.take(i as int).push(v@[i as int]) =~= old(s)@ + v@.take(i + 1));
        assert((old(s)@ + v@.take(i as int)).push(v@[i as int]) =~= old(s)@ + v@.take(i as int).push(
            v@[i as int],
        ));
        i = i + 1;
    }
    assert(v@.take(n as int) =~= v@);
}

/// Appends a string to `s`.
pub fn push_str(s: &mut String, t: &str)
    ensures
        final(s)@ == old(s)@ + t@,
{
    let v = chars_of(t);
    push_chars(s, v.as_slice());
}

/// A copy of a list of strings.
pub fn clone_strings(v: &Vec<String>) -> (r: Vec<String>)
    ensures
        string_views(r@) == string_views(v@),
        r@.len() == v@.len(),
{
    let mut r: Vec<String> = Vec::new();
    let n = v.len();
    let mut i: usize = 0;
    while i < n
        invariant
            n == v@.len(),
            i <= n,
            r@.len() == i,
            string_views(r@) == string_views(v@).take(i as int),
        decreases n - i,
    {
        r.push(v[i].clone());
        assert(string_views(r@) =~= string_views(v@).take(i + 1));
        i = i + 1;
    }
    assert(string_views(v@).take(n as int) =~= string_views(v@));
    r
}

/// The first `n` strings of `v`, or all of them when there are fewer.
pub fn take_strings(v: &Vec<String>, n: usize) -> (r: Vec<String>)
    ensures
        string_views(r@) == (if n < v@.len() {
            string_views(v@).take(n as int)
        } else {
            string_views(v@)
        }),
{
    let m = if n < v.len() {
        n
    } else {
        v.len()
    };
    let mut r: Vec<String> = Vec::new();
    let mut i: usize = 0;
    while i < m
        invariant
            m <= v@.len(),
            m == (if n < v@.len() { n as int } else { v@.len() as int }),
            i <= m,
            r@.len() == i,
            string_views(r@) == string_views(v@).take(i as int),
        decreases m - i,
    {
        r.push(v[i].clone());
        assert(string_views(r@) =~= string_views(v@).take(i + 1));
        i = i + 1;
    }
    assert(string_views(v@).take(v@.len() as int) =~= string_views(v@));
    r
}

/// Whether `s` is one of the strings in `v`.
pub fn contains_string(v: &Vec<String>, s: &String) -> (r: bool)
    ensures
        r == string_views(v@).contains(s@),
{
    let n = v.len();
    let mut i: usize = 0;
    while i < n
        invariant
            n == v@.len(),
            i <= n,
            forall|k: int| 0 <= k < i ==> v@[k]@ != s@,
        decreases n - i,
    {
        if v[i] == *s {
            assert(string_views(v@)[i as int] == s@);
            return true;
        }
        i = i + 1;
    }
    assert forall|k: int| 0 <= k < string_views(v@).len() implies string_views(v@)[k] != s@ by {
        assert(string_views(v@)[k] == v@[k]@);
    }
    false
}

/// The strings joined with `sep` between each two.
pub fn join_strings(v: &Vec<String>, sep: &str) -> (r: String)
    ensures
        r@ == join(string_views(v@), sep@),
{
    let ghost sv = string_views(v@);
    let mut r = String::new();
    let n = v.len();
    let mut i: usize = 0;
    assert(sv.take(0) =~= Seq::<Seq<char>>::empty());
    while i < n
        invariant
            n == v@.len(),
            sv == string_views(v@),
            i <= n,
            r@ == join(sv.take(i as int), sep@),
        decreases n - i,
    {
        assert(sv.take(i + 1).drop_last() =~= sv.take(i as int));
        assert(sv.take(i + 1).last() == v@[i as int]@);
        if i > 0 {
            push_str(&mut r, sep);
        } else {
            assert(r@ =~= Seq::<char>::empty());
        }
        push_str(&mut r, v[i].as_str());
        if i == 0 {
            assert(r@ =~= sv.take(1)[0]);
        }
        i = i + 1;
    }
    assert(sv.take(n as int) =~= sv);
    r
}

/// Whether `s` begins with `prefix`.
pub fn starts_with(s: &str, prefix: &str) -> (r: bool)
    ensures
        r == occurs_at(s@, prefix@, 0),
{
    let v = chars_of(s);
    let p = chars_of(prefix);
    if p.len() > v.len() {
        return false;
    }
    let n = p.len();
    let mut i: usize = 0;
    while i < n
        invariant
            n == p@.len(),
            n <= v@.len(),
            v@ == s@,
            p@ == prefix@,
            i <= n,
            forall|k: int| 0 <= k < i ==> v@[k] == p@[k],
        decreases n - i,
    {
        if v[i] != p[i] {
            assert(v@.subrange(0, n as int)[i as int] != p@[i as int]);
            return false;
        }
        i = i + 1;
    }
    assert(v@.subrange(0, n as int) =~= p@);
    true
}

/// Equality of two strings by their characters.
pub fn str_eq(a: &str, b: &str) -> (r: bool)
    ensures
        r == (a@ == b@),
{
    let x = chars_of(a);
    let y = chars_of(b);
    chars_eq(x.as_slice(), y.as_slice())
}

/// Equality of two character slices.
pub fn chars_eq(x: &[char], y: &[char]) -> (r: bool)
    ensures
        r == (x@ == y@),
{
    if x.len() != y.len() {
        return false;
    }
    let n = x.len();
    let mut i: usize = 0;
    while i < n
        invariant
            n == x@.len() == y@.len(),
            i <= n,
            forall|k: int| 0 <= k < i ==> x@[k] == y@[k],
        decreases n - i,
    {
        if x[i] != y[i] {
            return false;
        }
        i = i + 1;
    }
    assert(x@ =~= y@);
    true
}

/// `char::is_whitespace`.
pub fn is_whitespace(c: char) -> (r: bool)
    ensures
        r == is_ws(c),
{
    let u = c as u32;
    (0x9 <= u && u <= 0xd) || u == 0x20 || u == 0x85 || u == 0xa0 || u == 0x1680 || (0x2000 <= u
        && u <= 0x200a) || u == 0x2028 || u == 0x2029 || u == 0x202f || u == 0x205f || u == 0x3000
}

/// Positions `(lo, hi)` such that `v[lo..hi]` is `v` trimmed.
pub fn trim_bounds(v: &[char]) -> (r: (usize, usize))
    ensures
        r.0 <= r.1 <= v@.len(),
        v@.subrange(r.0 as int, r.1 as int) == trim(v@),
        forall|k: int| 0 <= k < r.0 ==> is_ws(#[trigger] v@[k]),
        forall|k: int| r.1 <= k < v@.len() ==> is_ws(#[trigger] v@[k]),
        r.0 < r.1 ==> !is_ws(v@[r.0 as int]) && !is_ws(v@[r.1 - 1]),
{
    let n = v.len();
    let mut lo: usize = 0;
    assert(v@.subrange(0, n as int) =~= v@);
    while lo < n && is_whitespace(v[lo])
        invariant
            n == v@.len(),
            lo <= n,
            trim_start(v@) == trim_start(v@.subrange(lo as int, n as int)),
            forall|k: int| 0 <= k < lo ==> is_ws(#[trigger] v@[k]),
        decreases n - lo,
    {
        proof {
            lemma_trim_start_skip(v@, lo as int);
        }
        lo = lo + 1;
    }
    assert(v@.subrange(0, n as int) =~= v@);
    let ghost ts = v@.subrange(lo as int, n as int);
    assert(trim_start(ts) == ts);
    let mut hi: usize = n;
    while hi > lo && is_whitespace(v[hi - 1])
        invariant
            n == v@.len(),
            lo <= hi <= n,
            ts == v@.subrange(lo as int, n as int),
            trim_end(ts) == trim_end(v@.subrange(lo as int, hi as int)),
            forall|k: int| hi <= k < n ==> is_ws(#[trigger] v@[k]),
        decreases hi - lo,
    {
        proof {
            let t = v@.subrange(lo as int, hi as int);
            assert(t.drop_last() =~= v@.subrange(lo as int, hi - 1));
        }
        hi = hi - 1;
    }
    proof {
        let t = v@.subrange(lo as int, hi as int);
        if hi > lo {
            assert(t.last() == v@[hi - 1]);
        }
        assert(trim_end(t) == t);
        assert(ts.subrange(0, (hi - lo) as int) =~= t);
    }
    (lo, hi)
}

/// `str::trim` on characters.
pub fn trim_chars(v: &[char]) -> (r: Vec<char>)
    ensures
        r@ == trim(v@),
{
    let (lo, hi) = trim_bounds(v);
    let mut r: Vec<char> = Vec::new();
    let mut i = lo;
    while i < hi
        invariant
            lo <= i <= hi <= v@.len(),
            r@ == v@.subrange(lo as int, i as int),
        decreases hi - i,
    {
        r.push(v[i]);
        assert(v@.subrange(lo as int, i as int).push(v@[i as int]) =~= v@.subrange(
            lo as int,
            i + 1,
        ));
        i = i + 1;
    }
    r
}

/// `str::trim`, as an owned string.
pub fn trim_str(s: &str) -> (r: String)
    ensures
        r@ == trim(s@),
{
    let v = chars_of(s);
    let (lo, hi) = trim_bounds(v.as_slice());
    string_from_range(v.as_slice(), lo, hi)
}

/// The number of characters of a string, as `chars().count()` gives it.
pub fn char_count(s: &str) -> (n: usize)
    ensures
        n == s@.len(),
{
    let v = chars_of(s);
    v.len()
}

/// `chars().take(n).collect()`.
pub fn take_str(s: &str, n: usize) -> (r: String)
    ensures
        r@ == take_chars(s@, n as int),
{
    let v = chars_of(s);
    if n < v.len() {
        string_from_range(v.as_slice(), 0, n)
    } else {
        string_from(v.as_slice())
    }
}

/// `trim()` followed by `chars().take(n).collect()`.
pub fn trim_take_str(s: &str, n: usize) -> (r: String)
    ensures
        r@ == take_chars(trim(s@), n as int),
{
    let v = chars_of(s);
    let (lo, hi) = trim_bounds(v.as_slice());
    proof {
        assert(v@.subrange(lo as int, hi as int).len() == hi - lo);
    }
    if hi - lo > n {
        proof {
            assert(v@.subrange(lo as int, hi as int).take(n as int) =~= v@.subrange(
                lo as int,
                lo + n,
            ));
        }
        string_from_range(v.as_slice(), lo, lo + n)
    } else {
        string_from_range(v.as_slice(), lo, hi)
    }
}

/// `split_whitespace`, each word as characters.
pub fn split_words(v: &[char]) -> (r: Vec<Vec<char>>)
    ensures
        char_vec_views(r@) == words(v@),
{
    let n = v.len();
    let mut r: Vec<Vec<char>> = Vec::new();
    let mut cur: Vec<char> = Vec::new();
    let mut in_word = false;
    let mut i: usize = 0;
    while i < n
        invariant
            n == v@.len(),
            i <= n,
            in_word == (i > 0 && !is_ws(v@[i - 1])),
            !in_word ==> char_vec_views(r@) == words(v@.take(i as int)),
            in_word ==> words(v@.take(i as int)).len() > 0 && char_vec_views(r@).push(cur@) == words(
                v@.take(i as int),
            ),
        decreases n - i,
    {
        let c = v[i];
        let ghost pre = v@.take(i as int);
        let ghost post = v@.take(i + 1);
        proof {
            assert(post.drop_last() =~= pre);
            assert(post.last() == c);
            if i >= 1 {
                assert(post[post.len() - 2] == v@[i - 1]);
            }
        }
        if is_whitespace(c) {
            if in_word {
                r.push(cur);
                cur = Vec::new();
                proof {
                    assert(char_vec_views(r@) =~= char_vec_views(r@.drop_last()).push(r@.last()@));
                }
            }
            in_word = false;
        } else {
            if in_word {
                let ghost old_cur = cur@;
                cur.push(c);
                proof {
                    let w = words(pre);
                    assert(w.last() == old_cur);
                    assert(char_vec_views(r@).push(cur@) =~= w.update(w.len() - 1, w.last().push(c)));
                }
            } else {
                cur = Vec::new();
                cur.push(c);
                proof {
                    assert(cur@ =~= seq![c]);
                    if i >= 1 {
                        assert(is_ws(post[post.len() - 2]));
                    }
                }
            }
            in_word = true;
        }
        i = i + 1;
    }
    assert(v@.take(n as int) =~= v@);
    if in_word {
        r.push(cur);
        proof {
            assert(char_vec_views(r@) =~= char_vec_views(r@.drop_last()).push(r@.last()@));
        }
    }
    r
}

/// `split_whitespace().collect::<Vec<_>>().join(" ")`.
pub fn collapse_whitespace(s: &str) -> (r: String)
    ensures
        r@ == collapse_ws(s@),
{
    let v = chars_of(s);
    let ws = split_words(v.as_slice());
    let mut r = String::new();
    let n = ws.len();
    let mut i: usize = 0;
    while i < n
        invariant
            n == ws@.len(),
            i <= n,
            char_vec_views(ws@) == words(v@),
            r@ == join(char_vec_views(ws@).take(i as int), seq![' ']),
        decreases n - i,
    {
        let ghost before = char_vec_views(ws@).take(i as int);
        proof {
            assert(char_vec_views(ws@).take(i + 1) =~= before.push(ws@[i as int]@));
            lemma_join_push(before, seq![' '], ws@[i as int]@);
        }
        if i > 0 {
            push_char(&mut r, ' ');
            assert(r@ =~= join(before, seq![' ']) + seq![' ']);
        }
        push_chars(&mut r, ws[i].as_slice());
        i = i + 1;
    }
    assert(char_vec_views(ws@).take(n as int) =~= char_vec_views(ws@));
    r
}

/// First position at which `q` occurs in `s`, if any (`str::find`).
pub fn find_chars(s: &[char], q: &[char]) -> (r: Option<usize>)
    ensures
        match r {
            Some(i) => is_first_occurrence(s@, q@, i as int),
            None => !contains_seq(s@, q@),
        },
{
    if q.len() > s.len() {
        assert forall|j: int| !occurs_at(s@, q@, j) by {}
        return None;
    }
    let n = s.len();
    let mut i: usize = 0;
    while q.len() <= n - i
        invariant
            n == s@.len(),
            q@.len() <= s@.len(),
            i <= n,
            forall|j: int| 0 <= j < i ==> !occurs_at(s@, q@, j),
        decreases n - i,
    {
        let mut k: usize = 0;
        let mut ok = true;
        while ok && k < q.len()
            invariant
                n == s@.len(),
                i + q@.len() <= n,
                k <= q@.len(),
                ok ==> forall|m: int| 0 <= m < k ==> s@[i + m] == q@[m],
                !ok ==> !occurs_at(s@, q@, i as int) && k < q@.len(),
            decreases q@.len() - k + (if ok { 1int } else { 0int }),
        {
            if s[i + k] != q[k] {
                ok = false;
                proof {
                    if occurs_at(s@, q@, i as int) {
                        assert(s@.subrange(i as int, i + q@.len())[k as int] == s@[i + k]);
                    }
                }
            } else {
                k = k + 1;
            }
        }
        if ok {
            assert(s@.subrange(i as int, i + q@.len()) =~= q@);
            return Some(i);
        }
        assert(i < n);
        i = i + 1;
    }
    assert forall|j: int| !occurs_at(s@, q@, j) by {}
    None
}

/// ASCII lowercase of a string (`str::to_ascii_lowercase`).
pub fn ascii_lowercase(s: &str) -> (r: String)
    ensures
        r@ == ascii_lower(s@),
{
    let v = chars_of(s);
    let mut r = String::new();
    let n = v.len();
    let mut i: usize = 0;
    while i < n
        invariant
            n == v@.len(),
            i <= n,
            r@ == ascii_lower(v@.take(i as int)),
        decreases n - i,
    {
        let c = v[i];
        let lc = if 'A' <= c && c <= 'Z' {
            ((c as u32) + 32) as u8 as char
        } else {
            c
        };
        assert(lc == ascii_lower_char(c)) by {
            if 'A' <= c && c <= 'Z' {
                assert(((c as u32) + 32) as u8 as char == ((c as u32) + 32) as char);
            }
        }
        push_char(&mut r, lc);
        assert(ascii_lower(v@.take(i as int)).push(lc) =~= ascii_lower(v@.take(i + 1)));
        i = i + 1;
    }
    assert(v@.take(n as int) =~= v@);
    r
}

} // verus!
