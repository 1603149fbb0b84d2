//! Semantic search: query normalization, candidate merging, the compact form
//! handed to the reranker and the validation of expanded search terms.
use vstd::prelude::*;
use crate::search::{fts_terms, like_escape, like_escaped, words_fts_expression};
use crate::text::{
    char_count, collapse_whitespace, collapse_ws, contains_string, join, str_eq, string_views,
    take_chars, take_str, take_strings, trim, trim_str, trim_take_str, unicode_lowercase,
    to_lowercase, words,
};

verus! {

/// The knowledge statuses a search may filter by.
pub const STATUS_VALUES: [&'static str; 6] = [
    "captured",
    "processed",
    "weak",
    "learning",
    "reviewing",
    "mastered",
];

/// The quality statuses a search may filter by.
pub const QUALITY_VALUES: [&'static str; 5] = [
    "unverified",
    "verified",
    "conflicted",
    "stale",
    "needs_expansion",
];

/// A piece of knowledge retrieved as a search candidate.
#[derive(Clone, Debug)]
pub struct SemanticCandidate {
    pub id: String,
    pub core_claim: String,
    pub selected_text: String,
    pub user_note: Option<String>,
    pub status: String,
    pub quality_status: String,
    pub platform: String,
    pub title: Option<String>,
    pub author: Option<String>,
    pub mastery_score: i64,
    pub review_count: i64,
    pub concepts: Vec<String>,
    pub topic_names: Vec<String>,
    pub tag_names: Vec<String>,
    pub local_match: bool,
}

/// A candidate as the reranker sees it, its texts cut short.
#[derive(Clone, Debug)]
pub struct RerankCandidate {
    pub knowledge_id: String,
    pub claim: String,
    pub excerpt: String,
    pub note: String,
    pub concepts: Vec<String>,
    pub topics: Vec<String>,
    pub tags: Vec<String>,
    pub status: String,
    pub quality: String,
    pub mastery: i64,
}

/// Alternative search terms proposed for a query.
#[derive(Clone, Debug)]
pub struct ExpansionOutput {
    pub terms: Vec<String>,
}

/// The ids of a list of candidates.
pub open spec fn candidate_ids(v: Seq<SemanticCandidate>) -> Seq<Seq<char>> {
    v.map_values(|c: SemanticCandidate| c.id@)
}

/// `target` extended by the candidates of `incoming` whose id it does not
/// hold yet, taken in order.
pub open spec fn merged(target: Seq<SemanticCandidate>, incoming: Seq<SemanticCandidate>) -> Seq<
    SemanticCandidate,
>
    decreases incoming.len(),
{
    if incoming.len() == 0 {
        target
    } else {
        let next = if candidate_ids(target).contains(incoming[0].id@) {
            target
        } else {
            target.push(incoming[0])
        };
        merged(next, incoming.drop_first())
    }
}

/// The first `n` elements of `s`, or all of them when there are fewer.
pub open spec fn take_at_most<A>(s: Seq<A>, n: int) -> Seq<A> {
    if n < s.len() {
        s.take(n)
    } else {
        s
    }
}

/// The text of an optional note, empty when there is none.
pub open spec fn note_text(note: Option<String>) -> Seq<char> {
    match note {
        Some(n) => n@,
        None => Seq::empty(),
    }
}

/// The expanded terms kept: whitespace collapsed, 1 to 80 characters,
/// different from the query and from each other after lowercasing, at most
/// six, in order.
pub open spec fn expansion_terms(terms: Seq<Seq<char>>, key: Seq<char>) -> Seq<Seq<char>>
    decreases terms.len(),
{
    if terms.len() == 0 {
        Seq::empty()
    } else {
        let r = expansion_terms(terms.drop_last(), key);
        let t = collapse_ws(terms.last());
        if r.len() < 6 && 0 < t.len() <= 80 && unicode_lowercase(t) != key && !(exists|k: int|
            0 <= k < r.len() && unicode_lowercase(#[trigger] r[k]) == unicode_lowercase(t)) {
            r.push(t)
        } else {
            r
        }
    }
}

/// A search query with whitespace collapsed, valid with 1 to 500 characters.
pub open spec fn valid_query(value: Seq<char>) -> bool {
    0 < collapse_ws(value).len() <= 500
}

/// The texts of a list of string slices.
pub open spec fn str_views(v: Seq<&str>) -> Seq<Seq<char>> {
    v.map_values(|s: &str| s@)
}

/// Expansion keeps at most six terms, and no more than it was given.
pub proof fn lemma_expansion_terms_len(terms: Seq<Seq<char>>, key: Seq<char>)
    ensures
        expansion_terms(terms, key).len() <= 6,
        expansion_terms(terms, key).len() <= terms.len(),
    decreases terms.len(),
{
    if terms.len() > 0 {
        lemma_expansion_terms_len(terms.drop_last(), key);
    }
}

/// Whether a candidate with this id is in the list.
fn has_candidate(v: &Vec<SemanticCandidate>, id: &String) -> (r: bool)
    ensures
        r == candidate_ids(v@).contains(id@),
{
    let n = v.len();
    let mut i: usize = 0;
    while i < n
        invariant
            n == v@.len(),
            i <= n,
            forall|k: int| 0 <= k < i ==> v@[k].id@ != id@,
        decreases n - i,
    {
        if str_eq(v[i].id.as_str(), id.as_str()) {
            assert(candidate_ids(v@)[i as int] == id@);
            return true;
        }
        i = i + 1;
    }
    proof {
        if candidate_ids(v@).contains(id@) {
            let k = choose|k: int| 0 <= k < candidate_ids(v@).len() && candidate_ids(v@)[k] == id@;
            assert(v@[k].id@ == id@);
        }
    }
    false
}

/// Appends the incoming candidates whose id is not in `target` yet, in
/// order; the first of two with one id wins.
pub fn merge_candidates(target: &mut Vec<SemanticCandidate>, incoming: Vec<SemanticCandidate>)
    ensures
        final(target)@ == merged(old(target)@, incoming@),
{
    let mut rest = incoming;
    let ghost goal = merged(old(target)@, incoming@);
    while rest.len() > 0
        invariant
            merged(target@, rest@) == goal,
        decreases rest@.len(),
    {
        let ghost before = target@;
        let ghost r0 = rest@;
        let candidate = rest.remove(0);
        assert(rest@ =~= r0.drop_first());
        if !has_candidate(target, &candidate.id) {
            target.push(candidate);
        }
        assert(target@ == (if candidate_ids(before).contains(r0[0].id@) {
            before
        } else {
            before.push(r0[0])
        }));
    }
    assert(merged(target@, rest@) == target@);
}

/// The candidate in the compact form handed to the reranker: claim cut to
/// 300, excerpt to 180 and note to 120 characters, at most 12 concepts,
/// 8 topics and 10 tags.
pub fn compact_candidate(candidate: &SemanticCandidate) -> (r: RerankCandidate)
    ensures
        r.knowledge_id@ == candidate.id@,
        r.claim@ == take_chars(candidate.core_claim@, 300),
        r.excerpt@ == take_chars(candidate.selected_text@, 180),
        r.note@ == take_chars(note_text(candidate.user_note), 120),
        string_views(r.concepts@) == take_at_most(string_views(candidate.concepts@), 12),
        string_views(r.topics@) == take_at_most(string_views(candidate.topic_names@), 8),
        string_views(r.tags@) == take_at_most(string_views(candidate.tag_names@), 10),
        r.status@ == candidate.status@,
        r.quality@ == candidate.quality_status@,
        r.mastery == candidate.mastery_score,
{
    let note = match &candidate.user_note {
        Some(n) => bounded(n.as_str(), 120),
        None => bounded("", 120),
    };
    proof {
        reveal_strlit("");
    }
    RerankCandidate {
        knowledge_id: candidate.id.clone(),
        claim: bounded(candidate.core_claim.as_str(), 300),
        excerpt: bounded(candidate.selected_text.as_str(), 180),
        note,
        concepts: take_strings(&candidate.concepts, 12),
        topics: take_strings(&candidate.topic_names, 8),
        tags: take_strings(&candidate.tag_names, 10),
        status: candidate.status.clone(),
        quality: candidate.quality_status.clone(),
        mastery: candidate.mastery_score,
    }
}

/// `expansion_terms` with the key of each proposed term given by position
/// and the query's key given: each kept term with its key.
pub open spec fn expansion_keyed(
    terms: Seq<Seq<char>>,
    keys: Seq<Seq<char>>,
    original_key: Seq<char>,
) -> Seq<(Seq<char>, Seq<char>)>
    decreases terms.len(),
{
    if terms.len() == 0 {
        Seq::empty()
    } else {
        let r = expansion_keyed(terms.drop_last(), keys, original_key);
        let i = terms.len() - 1;
        let t = collapse_ws(terms[i]);
        if r.len() < 6 && 0 < t.len() <= 80 && keys[i] != original_key && !(exists|k: int|
            0 <= k < r.len() && #[trigger] r[k].1 == keys[i]) {
            r.push((t, keys[i]))
        } else {
            r
        }
    }
}

/// The key of each proposed term: the term with whitespace collapsed,
/// lowercased.
pub open spec fn term_keys(terms: Seq<Seq<char>>) -> Seq<Seq<char>> {
    terms.map_values(|t: Seq<char>| unicode_lowercase(collapse_ws(t)))
}

/// The terms of keyed pairs.
pub open spec fn pair_firsts(ps: Seq<(Seq<char>, Seq<char>)>) -> Seq<Seq<char>> {
    ps.map_values(|p: (Seq<char>, Seq<char>)| p.0)
}

/// With the keys of the terms lowercased, keyed selection is
/// `expansion_terms`.
pub proof fn lemma_expansion_keyed_is_expansion(
    terms: Seq<Seq<char>>,
    keys: Seq<Seq<char>>,
    original_key: Seq<char>,
)
    requires
        keys.len() >= terms.len(),
        forall|k: int| 0 <= k < terms.len() ==> #[trigger] keys[k] == term_keys(terms)[k],
    ensures
        pair_firsts(expansion_keyed(terms, keys, original_key)) == expansion_terms(terms, original_key),
        forall|k: int|
            0 <= k < expansion_keyed(terms, keys, original_key).len() ==> (#[trigger] expansion_keyed(
                terms,
                keys,
                original_key,
            )[k]).1 == unicode_lowercase(expansion_keyed(terms, keys, original_key)[k].0),
    decreases terms.len(),
{
    if terms.len() > 0 {
        let p = terms.drop_last();
        assert forall|k: int| 0 <= k < p.len() implies #[trigger] keys[k] == term_keys(p)[k] by {
            assert(term_keys(terms)[k] == term_keys(p)[k]);
        }
        lemma_expansion_keyed_is_expansion(p, keys, original_key);
        let i = terms.len() - 1;
        let r = expansion_keyed(p, keys, original_key);
        let e = expansion_terms(p, original_key);
        let t = collapse_ws(terms[i]);
        assert(terms.last() == terms[i]);
        assert(keys[i] == unicode_lowercase(t));
        assert(e.len() == r.len());
        let keyed_dup = exists|k: int| 0 <= k < r.len() && #[trigger] r[k].1 == keys[i];
        let dup = exists|k: int|
            0 <= k < e.len() && unicode_lowercase(#[trigger] e[k]) == unicode_lowercase(t);
        if keyed_dup {
            let k = choose|k: int| 0 <= k < r.len() && #[trigger] r[k].1 == keys[i];
            assert(e[k] == pair_firsts(r)[k]);
            assert(unicode_lowercase(e[k]) == unicode_lowercase(t));
        }
        if dup {
            let k = choose|k: int|
                0 <= k < e.len() && unicode_lowercase(#[trigger] e[k]) == unicode_lowercase(t);
            assert(e[k] == pair_firsts(r)[k]);
            assert(r[k].1 == keys[i]);
        }
        let all = expansion_keyed(terms, keys, original_key);
        if all.len() > r.len() {
            assert(all == r.push((t, keys[i])));
            assert(pair_firsts(all) =~= pair_firsts(r).push(t));
            assert forall|k: int| 0 <= k < all.len() implies (#[trigger] all[k]).1 == unicode_lowercase(
                all[k].0,
            ) by {
                if k < r.len() {
                    assert(all[k] == r[k]);
                }
            }
        }
    }
}

/// Selects expanded search terms (see `expansion_keyed`), the key of each
/// proposed term given by position and the query's key given.
pub fn select_expansion_terms(terms: &Vec<String>, keys: &Vec<String>, original_key: &String) -> (r:
    Vec<String>)
    requires
        keys@.len() == terms@.len(),
    ensures
        string_views(r@) == pair_firsts(
            expansion_keyed(string_views(terms@), string_views(keys@), original_key@),
        ),
{
    let ghost tv = string_views(terms@);
    let ghost kv = string_views(keys@);
    let mut kept: Vec<String> = Vec::new();
    let mut seen: Vec<String> = Vec::new();
    let n = terms.len();
    let mut i: usize = 0;
    assert(tv.take(0) =~= Seq::<Seq<char>>::empty());
    assert(string_views(kept@) =~= Seq::<Seq<char>>::empty());
    while i < n
        invariant
            n == terms@.len(),
            n == keys@.len(),
            tv == string_views(terms@),
            kv == string_views(keys@),
            i <= n,
            string_views(kept@) == pair_firsts(expansion_keyed(tv.take(i as int), kv, original_key@)),
            string_views(seen@) == expansion_keyed(tv.take(i as int), kv, original_key@).map_values(
                |p: (Seq<char>, Seq<char>)| p.1,
            ),
        decreases n - i,
    {
        let ghost done = expansion_keyed(tv.take(i as int), kv, original_key@);
        proof {
            let post = tv.take(i + 1);
            assert(post.drop_last() =~= tv.take(i as int));
            assert(post.len() - 1 == i);
            assert(post[i as int] == terms@[i as int]@);
            assert(kv[i as int] == keys@[i as int]@);
        }
        let term = collapse_whitespace(terms[i].as_str());
        let len = char_count(term.as_str());
        if kept.len() < 6 && len > 0 && len <= 80 && !str_eq(keys[i].as_str(), original_key.as_str()) {
            let dup = contains_string(&seen, &keys[i]);
            proof {
                let ks = done.map_values(|p: (Seq<char>, Seq<char>)| p.1);
                if dup {
                    let k = choose|k: int| 0 <= k < ks.len() && ks[k] == kv[i as int];
                    assert(done[k].1 == kv[i as int]);
                } else {
                    assert forall|k: int| 0 <= k < done.len() implies (#[trigger] done[k]).1
                        != kv[i as int] by {
                        assert(ks[k] == done[k].1);
                    }
                }
            }
            if !dup {
                let ghost before_kept = string_views(kept@);
                let ghost before_seen = string_views(seen@);
                let ghost tt = term@;
                assert(kept@.len() == string_views(kept@).len());
                assert(done.len() == pair_firsts(done).len());
                kept.push(term);
                seen.push(keys[i].clone());
                proof {
                    let after = expansion_keyed(tv.take(i + 1), kv, original_key@);
                    assert(after == done.push((tt, kv[i as int])));
                    assert(string_views(kept@) =~= before_kept.push(tt));
                    assert(pair_firsts(after) =~= pair_firsts(done).push(tt));
                    assert(string_views(seen@) =~= before_seen.push(kv[i as int]));
                    assert(after.map_values(|p: (Seq<char>, Seq<char>)| p.1) =~= done.map_values(
                        |p: (Seq<char>, Seq<char>)| p.1,
                    ).push(kv[i as int]));
                }
            }
        }
        i = i + 1;
    }
    assert(tv.take(n as int) =~= tv);
    kept
}

/// Validates expanded search terms (see `expansion_terms`); more than twelve
/// proposed terms is an error. Each term is keyed by its collapsed form,
/// lowercased, and selected by `select_expansion_terms`.
pub fn validate_expansion(output: ExpansionOutput, original: &str) -> (r: Result<
    ExpansionOutput,
    String,
>)
    ensures
        match r {
            Ok(o) => output.terms@.len() <= 12 && string_views(o.terms@) == expansion_terms(
                string_views(output.terms@),
                unicode_lowercase(trim(original@)),
            ),
            Err(e) => output.terms@.len() > 12 && e@ == "semantic expansion returned too many terms"@,
        },
{
    if output.terms.len() > 12 {
        return Err("semantic expansion returned too many terms".to_string());
    }
    let trimmed = trim_str(original);
    let original_key = to_lowercase(trimmed.as_str());
    let ghost tv = string_views(output.terms@);
    let n = output.terms.len();
    let mut keys: Vec<String> = Vec::new();
    let mut i: usize = 0;
    while i < n
        invariant
            n == output.terms@.len(),
            tv == string_views(output.terms@),
            i <= n,
            keys@.len() == i,
            forall|k: int| 0 <= k < i ==> (#[trigger] keys@[k])@ == term_keys(tv)[k],
        decreases n - i,
    {
        let term = collapse_whitespace(output.terms[i].as_str());
        assert(tv[i as int] == output.terms@[i as int]@);
        keys.push(to_lowercase(term.as_str()));
        i = i + 1;
    }
    proof {
        assert forall|k: int| 0 <= k < tv.len() implies #[trigger] string_views(keys@)[k]
            == term_keys(tv)[k] by {
            assert(string_views(keys@)[k] == keys@[k]@);
        }
        lemma_expansion_keyed_is_expansion(tv, string_views(keys@), original_key@);
    }
    let kept = select_expansion_terms(&output.terms, &keys, &original_key);
    Ok(ExpansionOutput { terms: kept })
}

/// A search query with whitespace collapsed; an error when it is empty or
/// longer than 500 characters.
pub fn normalize_query(value: &str) -> (r: Result<String, String>)
    ensures
        match r {
            Ok(q) => valid_query(value@) && q@ == collapse_ws(value@),
            Err(e) => !valid_query(value@) && (if collapse_ws(value@).len() == 0 {
                e@ == "semantic search query is empty"@
            } else {
                e@ == "semantic search query is too long"@
            }),
        },
{
    let query = collapse_whitespace(value);
    let n = char_count(query.as_str());
    if n == 0 {
        return Err("semantic search query is empty".to_string());
    }
    if n > 500 {
        return Err("semantic search query is too long".to_string());
    }
    Ok(query)
}

/// An optional filter, trimmed and blank made absent, that must be one of
/// `allowed`; an error naming the filter otherwise.
pub fn validate_optional(value: Option<String>, allowed: &[&str], label: &str) -> (r: Result<
    Option<String>,
    String,
>)
    ensures
        match value {
            Some(v) => if trim(v@).len() == 0 {
                r == Ok::<Option<String>, String>(None)
            } else if str_views(allowed@).contains(trim(v@)) {
                r matches Ok(Some(t)) && t@ == trim(v@)
            } else {
                r matches Err(e) && e@ == "unsupported "@ + label@
            },
            None => r == Ok::<Option<String>, String>(None),
        },
{
    let cleaned = clean_optional(value);
    match cleaned {
        Some(v) => {
            let n = allowed.len();
            let mut i: usize = 0;
            while i < n
                invariant
                    n == allowed@.len(),
                    i <= n,
                    value matches Some(ov) && trim(ov@).len() > 0 && v@ == trim(ov@),
                    forall|k: int| 0 <= k < i ==> allowed@[k]@ != v@,
                decreases n - i,
            {
                if str_eq(allowed[i], v.as_str()) {
                    assert(str_views(allowed@)[i as int] == v@);
                    return Ok(Some(v));
                }
                i = i + 1;
            }
            proof {
                if str_views(allowed@).contains(v@) {
                    let k = choose|k: int|
                        0 <= k < str_views(allowed@).len() && str_views(allowed@)[k] == v@;
                    assert(allowed@[k]@ == v@);
                }
            }
            let mut message = "unsupported ".to_string();
            crate::text::push_str(&mut message, label);
            Err(message)
        },
        None => Ok(None),
    }
}

/// An optional filter, trimmed; blank values become absent.
pub fn clean_optional(value: Option<String>) -> (r: Option<String>)
    ensures
        match value {
            Some(v) => if trim(v@).len() > 0 {
                r matches Some(t) && t@ == trim(v@)
            } else {
                r is None
            },
            None => r is None,
        },
{
    match value {
        Some(v) => {
            let t = trim_str(v.as_str());
            if char_count(t.as_str()) > 0 {
                Some(t)
            } else {
                None
            }
        },
        None => None,
    }
}

/// The text with `\`, `%` and `_` escaped for a `LIKE` pattern.
pub fn escape_like(value: &str) -> (r: String)
    ensures
        r@ == like_escaped(value@),
{
    like_escape(value)
}

/// Each word of the query as an FTS5 prefix term, joined by `AND`.
pub fn fts_expression(value: &str) -> (r: String)
    ensures
        r@ == join(fts_terms(words(value@)), " AND "@),
{
    words_fts_expression(value, " AND ")
}

/// The first `max_chars` characters of the text.
pub fn bounded(value: &str, max_chars: usize) -> (r: String)
    ensures
        r@ == take_chars(value@, max_chars as int),
{
    take_str(value, max_chars)
}

/// The number of hits asked for: 12 when unset, else kept within 1..=20.
pub fn result_limit(limit: Option<u32>) -> (r: usize)
    ensures
        r == match limit {
            None => 12,
            Some(l) => if l < 1 {
                1
            } else if l > 20 {
                20
            } else {
                l as int
            },
        },
{
    match limit {
        None => 12,
        Some(l) => if l < 1 {
            1
        } else if l > 20 {
            20
        } else {
            l as usize
        },
    }
}


/// One result of the semantic reranker, its score checked by the caller.
#[derive(Clone, Debug)]
pub struct RerankDecisionInput {
    pub knowledge_id: String,
    pub reason: String,
    pub score_in_range: bool,
}

/// The reason given when the reranker gives none.
pub open spec fn default_reason() -> Seq<char> {
    "与查询语义相关"@
}

/// The ids of the candidates handed to the reranker.
pub open spec fn rerank_ids(cs: Seq<RerankCandidate>) -> Seq<Seq<char>> {
    cs.map_values(|c: RerankCandidate| c.knowledge_id@)
}

/// The reranker's results checked in turn: each names a supplied candidate
/// by its trimmed id, at most once, with a score in range; its reason is
/// trimmed, cut to 180 characters, and defaulted when empty.
pub open spec fn checked_rerank(ds: Seq<RerankDecisionInput>, allowed: Seq<Seq<char>>) -> Result<
    Seq<(Seq<char>, Seq<char>)>,
    Seq<char>,
>
    decreases ds.len(),
{
    if ds.len() == 0 {
        Ok(Seq::empty())
    } else {
        match checked_rerank(ds.drop_last(), allowed) {
            Err(e) => Err(e),
            Ok(acc) => {
                let d = ds.last();
                let id = trim(d.knowledge_id@);
                let reason = take_chars(trim(d.reason@), 180);
                if !allowed.contains(id) {
                    Err("semantic rerank referenced an unknown knowledge id"@)
                } else if exists|k: int| 0 <= k < acc.len() && (#[trigger] acc[k]).0 == id {
                    Err("semantic rerank repeated a knowledge id"@)
                } else if !d.score_in_range {
                    Err("semantic rerank score must be between 0 and 1"@)
                } else {
                    Ok(
                        acc.push(
                            (
                                id,
                                if reason.len() == 0 {
                                    default_reason()
                                } else {
                                    reason
                                },
                            ),
                        ),
                    )
                }
            },
        }
    }
}

/// The reranker's results validated: no more than `result_limit`, each
/// checked in turn (see `checked_rerank`).
pub open spec fn validated_rerank(
    ds: Seq<RerankDecisionInput>,
    result_limit: int,
    candidates: Seq<RerankCandidate>,
) -> Result<Seq<(Seq<char>, Seq<char>)>, Seq<char>> {
    if ds.len() > result_limit {
        Err("semantic rerank returned too many results"@)
    } else {
        checked_rerank(ds, rerank_ids(candidates))
    }
}

pub open spec fn pair_string_views(v: Seq<(String, String)>) -> Seq<(Seq<char>, Seq<char>)> {
    v.map_values(|p: (String, String)| (p.0@, p.1@))
}

/// A rejected rerank result rejects every longer list that starts with it.
pub proof fn lemma_checked_rerank_err_prefix(
    ds: Seq<RerankDecisionInput>,
    allowed: Seq<Seq<char>>,
    i: int,
)
    requires
        0 <= i <= ds.len(),
        checked_rerank(ds.take(i), allowed) is Err,
    ensures
        checked_rerank(ds, allowed) == checked_rerank(ds.take(i), allowed),
    decreases ds.len() - i,
{
    if i < ds.len() {
        assert(ds.take(i + 1).drop_last() =~= ds.take(i));
        lemma_checked_rerank_err_prefix(ds, allowed, i + 1);
    } else {
        assert(ds.take(i) =~= ds);
    }
}

proof fn lemma_rerank_repeat_step(
    ds: Seq<RerankDecisionInput>,
    av: Seq<Seq<char>>,
    i: int,
    done: Seq<(Seq<char>, Seq<char>)>,
    id: Seq<char>,
    k: int,
)
    requires
        0 <= i < ds.len(),
        checked_rerank(ds.take(i), av) == Ok::<Seq<(Seq<char>, Seq<char>)>, Seq<char>>(done),
        id == trim(ds[i].knowledge_id@),
        av.contains(id),
        0 <= k < done.len(),
        done[k].0 == id,
    ensures
        checked_rerank(ds.take(i + 1), av) == Err::<Seq<(Seq<char>, Seq<char>)>, Seq<char>>(
            "semantic rerank repeated a knowledge id"@,
        ),
{
    let post = ds.take(i + 1);
    assert(post.drop_last() =~= ds.take(i));
    assert(post.last() == ds[i]);
    let acc = checked_rerank(post.drop_last(), av)->Ok_0;
    assert(acc == done);
    assert(acc[k].0 == id);
}

/// Validates the reranker's results against the supplied candidates (see
/// `validated_rerank`); the result is each result's id and reason, in
/// order. Ordering by score is left to the caller.
pub fn validate_rerank_decisions(
    decisions: &Vec<RerankDecisionInput>,
    result_limit: usize,
    candidates: &Vec<RerankCandidate>,
) -> (r: Result<Vec<(String, String)>, String>)
    ensures
        match r {
            Ok(v) => validated_rerank(decisions@, result_limit as int, candidates@) == Ok::<
                Seq<(Seq<char>, Seq<char>)>,
                Seq<char>,
            >(pair_string_views(v@)),
            Err(e) => validated_rerank(decisions@, result_limit as int, candidates@) == Err::<
                Seq<(Seq<char>, Seq<char>)>,
                Seq<char>,
            >(e@),
        },
{
    if decisions.len() > result_limit {
        return Err("semantic rerank returned too many results".to_string());
    }
    let mut allowed: Vec<String> = Vec::new();
    let cn = candidates.len();
    let mut c: usize = 0;
    while c < cn
        invariant
            cn == candidates@.len(),
            c <= cn,
            allowed@.len() == c,
            string_views(allowed@) == rerank_ids(candidates@).take(c as int),
        decreases cn - c,
    {
        allowed.push(candidates[c].knowledge_id.clone());
        assert(string_views(allowed@) =~= rerank_ids(candidates@).take(c + 1));
        c = c + 1;
    }
    assert(rerank_ids(candidates@).take(cn as int) =~= rerank_ids(candidates@));
    let ghost av = string_views(allowed@);
    let ghost ds = decisions@;
    let mut kept: Vec<(String, String)> = Vec::new();
    let mut ids: Vec<String> = Vec::new();
    let n = decisions.len();
    let mut i: usize = 0;
    assert(ds.take(0) =~= Seq::<RerankDecisionInput>::empty());
    assert(pair_string_views(kept@) =~= Seq::<(Seq<char>, Seq<char>)>::empty());
    while i < n
        invariant
            n == ds.len(),
            ds == decisions@,
            n <= result_limit,
            av == string_views(allowed@),
            av == rerank_ids(candidates@),
            i <= n,
            checked_rerank(ds.take(i as int), av) == Ok::<
                Seq<(Seq<char>, Seq<char>)>,
                Seq<char>,
            >(pair_string_views(kept@)),
            ids@.len() == kept@.len(),
            forall|k: int| 0 <= k < kept@.len() ==> (#[trigger] ids@[k])@ == kept@[k].0@,
        decreases n - i,
    {
        proof {
            let post = ds.take(i + 1);
            assert(post.drop_last() =~= ds.take(i as int));
            assert(post.last() == ds[i as int]);
        }
        let ghost done = pair_string_views(kept@);
        let d = &decisions[i];
        let id = trim_str(d.knowledge_id.as_str());
        let reason = trim_take_str(d.reason.as_str(), 180);
        if !contains_string(&allowed, &id) {
            proof {
                lemma_checked_rerank_err_prefix(ds, av, i + 1);
            }
            return Err("semantic rerank referenced an unknown knowledge id".to_string());
        }
        if contains_string(&ids, &id) {
            proof {
                let k = choose|k: int|
                    0 <= k < string_views(ids@).len() && string_views(ids@)[k] == id@;
                assert(ids@[k]@ == id@);
                assert(done[k].0 == id@);
                lemma_rerank_repeat_step(ds, av, i as int, done, id@, k);
                lemma_checked_rerank_err_prefix(ds, av, i + 1);
            }
            return Err("semantic rerank repeated a knowledge id".to_string());
        }
        proof {
            assert forall|k: int| 0 <= k < done.len() implies (#[trigger] done[k]).0 != id@ by {
                assert(string_views(ids@)[k] == ids@[k]@);
            }
        }
        if !d.score_in_range {
            proof {
                lemma_checked_rerank_err_prefix(ds, av, i + 1);
            }
            return Err("semantic rerank score must be between 0 and 1".to_string());
        }
        let reason = if char_count(reason.as_str()) == 0 {
            "与查询语义相关".to_string()
        } else {
            reason
        };
        ids.push(id.clone());
        kept.push((id, reason));
        assert(pair_string_views(kept@) =~= done.push((kept@.last().0@, kept@.last().1@)));
        i = i + 1;
    }
    assert(ds.take(n as int) =~= ds);
    Ok(kept)
}


/// Each result the reranker keeps names a supplied candidate, none twice,
/// with a reason.
pub proof fn lemma_checked_rerank_sound(ds: Seq<RerankDecisionInput>, allowed: Seq<Seq<char>>)
    ensures
        checked_rerank(ds, allowed) matches Ok(acc) ==> acc.len() == ds.len() && (forall|k: int|
            0 <= k < acc.len() ==> allowed.contains((#[trigger] acc[k]).0) && acc[k].1.len() > 0)
            && (forall|a: int, b: int|
            0 <= a < b < acc.len() ==> (#[trigger] acc[a]).0 != (#[trigger] acc[b]).0),
    decreases ds.len(),
{
    reveal_strlit("与查询语义相关");
    if ds.len() > 0 {
        lemma_checked_rerank_sound(ds.drop_last(), allowed);
        if let Ok(acc) = checked_rerank(ds, allowed) {
            let prev = checked_rerank(ds.drop_last(), allowed)->Ok_0;
            assert(acc == prev.push(acc.last()));
            assert forall|k: int| 0 <= k < acc.len() implies allowed.contains(
                (#[trigger] acc[k]).0,
            ) && acc[k].1.len() > 0 by {
                if k < prev.len() {
                    assert(acc[k] == prev[k]);
                }
            }
            assert forall|a: int, b: int| 0 <= a < b < acc.len() implies (#[trigger] acc[a]).0
                != (#[trigger] acc[b]).0 by {
                assert(acc[a] == prev[a]);
                if b < prev.len() {
                    assert(acc[b] == prev[b]);
                }
            }
        }
    }
}

/// Merging candidates never repeats an id that was distinct before, and
/// every incoming id ends up in the result.
pub proof fn lemma_merged_distinct(target: Seq<SemanticCandidate>, incoming: Seq<SemanticCandidate>)
    requires
        candidate_ids(target).no_duplicates(),
    ensures
        candidate_ids(merged(target, incoming)).no_duplicates(),
        forall|k: int| 0 <= k < target.len() ==> merged(target, incoming)[k] == target[k],
        target.len() <= merged(target, incoming).len(),
        forall|k: int|
            0 <= k < incoming.len() ==> candidate_ids(merged(target, incoming)).contains(
                (#[trigger] incoming[k]).id@,
            ),
    decreases incoming.len(),
{
    if incoming.len() > 0 {
        let c = incoming[0];
        let next = if candidate_ids(target).contains(c.id@) {
            target
        } else {
            target.push(c)
        };
        if !candidate_ids(target).contains(c.id@) {
            let ids = candidate_ids(next);
            assert(ids == candidate_ids(target).push(c.id@));
            assert forall|a: int, b: int| 0 <= a < b < ids.len() implies ids[a] != ids[b] by {
                if b == ids.len() - 1 {
                    assert(ids[a] == candidate_ids(target)[a]);
                }
            }
        }
        assert(candidate_ids(next).contains(c.id@)) by {
            if candidate_ids(target).contains(c.id@) {
            } else {
                assert(candidate_ids(next)[next.len() - 1] == c.id@);
            }
        }
        lemma_merged_distinct(next, incoming.drop_first());
        let m = merged(next, incoming.drop_first());
        assert(m == merged(target, incoming));
        let j = choose|j: int| 0 <= j < candidate_ids(next).len() && candidate_ids(next)[j] == c.id@;
        assert(m[j] == next[j]);
        assert(candidate_ids(m)[j] == c.id@);
        assert forall|k: int| 0 <= k < incoming.len() implies candidate_ids(m).contains(
            (#[trigger] incoming[k]).id@,
        ) by {
            if k > 0 {
                assert(incoming[k] == incoming.drop_first()[k - 1]);
            }
        }
        assert forall|k: int| 0 <= k < target.len() implies m[k] == target[k] by {
            assert(next[k] == target[k]);
        }
    }
}

/// Expanded terms are distinct after lowercasing, never the query itself,
/// and each has 1 to 80 characters.
pub proof fn lemma_expansion_terms_distinct(terms: Seq<Seq<char>>, key: Seq<char>)
    ensures
        forall|k: int|
            0 <= k < expansion_terms(terms, key).len() ==> 0 < (#[trigger] expansion_terms(
                terms,
                key,
            )[k]).len() <= 80 && unicode_lowercase(expansion_terms(terms, key)[k]) != key,
        forall|a: int, b: int|
            0 <= a < b < expansion_terms(terms, key).len() ==> unicode_lowercase(
                #[trigger] expansion_terms(terms, key)[a],
            ) != unicode_lowercase(#[trigger] expansion_terms(terms, key)[b]),
    decreases terms.len(),
{
    if terms.len() > 0 {
        lemma_expansion_terms_distinct(terms.drop_last(), key);
        let r = expansion_terms(terms.drop_last(), key);
        let e = expansion_terms(terms, key);
        if e.len() > r.len() {
            assert(e == r.push(e.last()));
            assert forall|k: int| 0 <= k < e.len() implies 0 < (#[trigger] e[k]).len() <= 80
                && unicode_lowercase(e[k]) != key by {
                if k < r.len() {
                    assert(e[k] == r[k]);
                }
            }
            assert forall|a: int, b: int| 0 <= a < b < e.len() implies unicode_lowercase(
                #[trigger] e[a],
            ) != unicode_lowercase(#[trigger] e[b]) by {
                assert(e[a] == r[a]);
                if b < r.len() {
                    assert(e[b] == r[b]);
                }
            }
        } else {
            assert(e == r);
        }
    }
}

// ---------------------------------------------------------------------------
// The course of a search
// ---------------------------------------------------------------------------
//
// A search alternates database reads and model calls with decisions. The
// decisions are `search_step`: from the state of a search and what the last
// action brought back, the next state and the next action. The caller runs
// the actions and hands their outcome back as the next event.

/// At most this many candidates are handed to the reranker.
pub const MAX_CANDIDATES: usize = 40;

/// With fewer direct matches than this, the query is expanded.
pub const EXPAND_BELOW: usize = 12;

/// Where a search stands: what its last action was waiting for.
#[derive(Clone, Copy, Debug, PartialEq, Eq)]
pub enum SearchStage {
    /// Waiting for the candidates that match the query.
    Matching,
    /// Waiting for the expanded terms.
    Expanding,
    /// Waiting for the candidates that match the current expanded term.
    Widening,
    /// Waiting for the most recent knowledge.
    Filling,
    /// Waiting for the reranker.
    Ranking,
    /// The hits are known.
    Finished,
}

/// The state of a search.
#[derive(Clone, Debug)]
pub struct SearchState {
    pub query: String,
    pub limit: usize,
    pub stage: SearchStage,
    pub candidates: Vec<SemanticCandidate>,
    pub expanded_terms: Vec<String>,
    pub next_term: usize,
}

pub struct SearchStateView {
    pub query: Seq<char>,
    pub limit: int,
    pub stage: SearchStage,
    pub candidates: Seq<SemanticCandidate>,
    pub expanded_terms: Seq<Seq<char>>,
    pub next_term: int,
}

impl View for SearchState {
    type V = SearchStateView;

    open spec fn view(&self) -> SearchStateView {
        SearchStateView {
            query: self.query@,
            limit: self.limit as int,
            stage: self.stage,
            candidates: self.candidates@,
            expanded_terms: string_views(self.expanded_terms@),
            next_term: self.next_term as int,
        }
    }
}

/// What the last action of a search brought back.
pub enum SearchEvent {
    /// The candidates that a load returned.
    Loaded(Vec<SemanticCandidate>),
    /// The expanded terms, or `None` when the expansion failed.
    Expanded(Option<Vec<String>>),
    /// The ids of the reranker's results, best first, or `None` when the
    /// reranking failed.
    Ranked(Option<Vec<String>>),
}

pub enum SearchEventView {
    Loaded(Seq<SemanticCandidate>),
    Expanded(Option<Seq<Seq<char>>>),
    Ranked(Option<Seq<Seq<char>>>),
}

impl View for SearchEvent {
    type V = SearchEventView;

    open spec fn view(&self) -> SearchEventView {
        match self {
            SearchEvent::Loaded(c) => SearchEventView::Loaded(c@),
            SearchEvent::Expanded(t) => SearchEventView::Expanded(
                match t {
                    Some(v) => Some(string_views(v@)),
                    None => None,
                },
            ),
            SearchEvent::Ranked(t) => SearchEventView::Ranked(
                match t {
                    Some(v) => Some(string_views(v@)),
                    None => None,
                },
            ),
        }
    }
}

/// Why a candidate is a hit: it is the only candidate; the reranker put it
/// at this rank; or, the reranker having failed, it matched the query
/// directly and is the given one of those.
#[derive(Clone, Copy, Debug, PartialEq, Eq)]
pub enum HitBasis {
    Sole,
    Ranked(usize),
    Local(usize),
}

/// A hit: the position of its candidate and why it is one.
#[derive(Clone, Copy, Debug, PartialEq, Eq)]
pub struct PlannedHit {
    pub candidate: usize,
    pub basis: HitBasis,
}

/// What a search does next.
#[derive(Clone, Debug, PartialEq, Eq)]
pub enum SearchAction {
    /// Load at most `limit` candidates that match `term`.
    LoadMatching { term: String, limit: usize },
    /// Ask the model for other terms of the query.
    ExpandQuery,
    /// Load at most `limit` of the most recent knowledge.
    LoadRecent { limit: usize },
    /// Ask the reranker for at most `result_limit` results.
    Rerank { result_limit: usize },
    /// The search is over with these hits.
    Finish { hits: Vec<PlannedHit> },
    /// The event does not answer what the search waits for.
    Idle,
}

pub enum SearchActionView {
    LoadMatching { term: Seq<char>, limit: int },
    ExpandQuery,
    LoadRecent { limit: int },
    Rerank { result_limit: int },
    Finish { hits: Seq<PlannedHit> },
    Idle,
}

impl View for SearchAction {
    type V = SearchActionView;

    open spec fn view(&self) -> SearchActionView {
        match self {
            SearchAction::LoadMatching { term, limit } => SearchActionView::LoadMatching {
                term: term@,
                limit: *limit as int,
            },
            SearchAction::ExpandQuery => SearchActionView::ExpandQuery,
            SearchAction::LoadRecent { limit } => SearchActionView::LoadRecent {
                limit: *limit as int,
            },
            SearchAction::Rerank { result_limit } => SearchActionView::Rerank {
                result_limit: *result_limit as int,
            },
            SearchAction::Finish { hits } => SearchActionView::Finish { hits: hits@ },
            SearchAction::Idle => SearchActionView::Idle,
        }
    }
}

/// The state with another stage.
pub open spec fn at_stage(s: SearchStateView, stage: SearchStage) -> SearchStateView {
    SearchStateView { stage, ..s }
}

/// The position of the first candidate with this id.
pub open spec fn first_with_id(cands: Seq<SemanticCandidate>, id: Seq<char>) -> Option<int>
    decreases cands.len(),
{
    if cands.len() == 0 {
        None
    } else {
        match first_with_id(cands.drop_last(), id) {
            Some(i) => Some(i),
            None => if cands.last().id@ == id {
                Some(cands.len() - 1)
            } else {
                None
            },
        }
    }
}

/// The reranker's results that name a candidate, in rank order.
pub open spec fn ranked_all(ids: Seq<Seq<char>>, cands: Seq<SemanticCandidate>) -> Seq<PlannedHit>
    decreases ids.len(),
{
    if ids.len() == 0 {
        Seq::empty()
    } else {
        let r = ranked_all(ids.drop_last(), cands);
        match first_with_id(cands, ids.last()) {
            Some(i) => r.push(
                PlannedHit {
                    candidate: i as usize,
                    basis: HitBasis::Ranked((ids.len() - 1) as usize),
                },
            ),
            None => r,
        }
    }
}

/// The candidates that matched the query directly, in order, numbered.
pub open spec fn local_all(cands: Seq<SemanticCandidate>) -> Seq<PlannedHit>
    decreases cands.len(),
{
    if cands.len() == 0 {
        Seq::empty()
    } else {
        let r = local_all(cands.drop_last());
        if cands.last().local_match {
            r.push(
                PlannedHit {
                    candidate: (cands.len() - 1) as usize,
                    basis: HitBasis::Local(r.len() as usize),
                },
            )
        } else {
            r
        }
    }
}

/// With the candidates settled: no hits when there are none, the sole
/// candidate when there is one, else a rerank.
pub open spec fn settle(s: SearchStateView) -> (SearchStateView, SearchActionView) {
    if s.candidates.len() == 0 {
        (at_stage(s, SearchStage::Finished), SearchActionView::Finish { hits: Seq::empty() })
    } else if s.candidates.len() == 1 {
        (
            at_stage(s, SearchStage::Finished),
            SearchActionView::Finish {
                hits: seq![PlannedHit { candidate: 0, basis: HitBasis::Sole }],
            },
        )
    } else {
        (at_stage(s, SearchStage::Ranking), SearchActionView::Rerank { result_limit: s.limit })
    }
}

/// With fewer than `MAX_CANDIDATES` candidates, the most recent knowledge
/// fills up; else the candidates are settled.
pub open spec fn fill(s: SearchStateView) -> (SearchStateView, SearchActionView) {
    if s.candidates.len() < MAX_CANDIDATES {
        (
            at_stage(s, SearchStage::Filling),
            SearchActionView::LoadRecent { limit: MAX_CANDIDATES as int },
        )
    } else {
        settle(s)
    }
}

/// The next expanded term is searched for what room is left; when no term
/// or no room is left, the candidates are filled up.
pub open spec fn widen(s: SearchStateView) -> (SearchStateView, SearchActionView) {
    if 0 <= s.next_term < s.expanded_terms.len() && s.candidates.len() < MAX_CANDIDATES {
        (
            at_stage(s, SearchStage::Widening),
            SearchActionView::LoadMatching {
                term: s.expanded_terms[s.next_term],
                limit: MAX_CANDIDATES - s.candidates.len(),
            },
        )
    } else {
        fill(s)
    }
}

/// The first state and action of a search for a (normalized) query.
pub open spec fn search_begin(query: Seq<char>, limit: int) -> (SearchStateView, SearchActionView) {
    (
        SearchStateView {
            query,
            limit,
            stage: SearchStage::Matching,
            candidates: Seq::empty(),
            expanded_terms: Seq::empty(),
            next_term: 0,
        },
        SearchActionView::LoadMatching { term: query, limit: MAX_CANDIDATES as int },
    )
}

/// Candidates loaded: the direct matches are expanded when fewer than
/// `EXPAND_BELOW`; an expanded term's new matches are added, and the next
/// term searched; the recent knowledge fills up to `MAX_CANDIDATES`.
pub open spec fn on_loaded(s: SearchStateView, c: Seq<SemanticCandidate>) -> (
    SearchStateView,
    SearchActionView,
) {
    if s.stage == SearchStage::Matching {
        let t = SearchStateView { candidates: c, ..s };
        if c.len() < EXPAND_BELOW {
            (at_stage(t, SearchStage::Expanding), SearchActionView::ExpandQuery)
        } else {
            fill(t)
        }
    } else if s.stage == SearchStage::Widening {
        widen(SearchStateView { candidates: merged(s.candidates, c), next_term: s.next_term + 1, ..s })
    } else if s.stage == SearchStage::Filling {
        settle(
            SearchStateView {
                candidates: take_at_most(merged(s.candidates, c), MAX_CANDIDATES as int),
                ..s
            },
        )
    } else {
        (s, SearchActionView::Idle)
    }
}

/// Expansion answered: its terms, none when it failed, are searched in turn.
pub open spec fn on_expanded(s: SearchStateView, t: Option<Seq<Seq<char>>>) -> (
    SearchStateView,
    SearchActionView,
) {
    if s.stage == SearchStage::Expanding {
        widen(
            SearchStateView {
                expanded_terms: match t {
                    Some(v) => v,
                    None => Seq::empty(),
                },
                next_term: 0,
                ..s
            },
        )
    } else {
        (s, SearchActionView::Idle)
    }
}

/// The reranker answered: its results that name candidates are the hits,
/// at most `limit`; when it failed, the direct matches in order, at most
/// `limit`.
pub open spec fn on_ranked(s: SearchStateView, r: Option<Seq<Seq<char>>>) -> (
    SearchStateView,
    SearchActionView,
) {
    if s.stage == SearchStage::Ranking {
        (
            at_stage(s, SearchStage::Finished),
            SearchActionView::Finish {
                hits: match r {
                    Some(ids) => take_at_most(ranked_all(ids, s.candidates), s.limit),
                    None => take_at_most(local_all(s.candidates), s.limit),
                },
            },
        )
    } else {
        (s, SearchActionView::Idle)
    }
}

/// The decisions of a search: the direct matches are expanded when fewer
/// than `EXPAND_BELOW`; each expanded term adds its new matches while fewer
/// than `MAX_CANDIDATES` are held; recent knowledge fills up to
/// `MAX_CANDIDATES`; no candidate gives no hit, one gives that one, more
/// are reranked. The reranker's results name candidates, at most `limit`;
/// when it fails, the direct matches are kept in order, at most `limit`.
/// An event that does not answer what the search waits for changes nothing.
pub open spec fn search_next(s: SearchStateView, e: SearchEventView) -> (
    SearchStateView,
    SearchActionView,
) {
    match e {
        SearchEventView::Loaded(c) => on_loaded(s, c),
        SearchEventView::Expanded(t) => on_expanded(s, t),
        SearchEventView::Ranked(r) => on_ranked(s, r),
    }
}

/// A search state as `search_step` keeps it: while an expanded term is
/// searched, it is one of the terms.
pub open spec fn search_wf(s: SearchStateView) -> bool {
    s.stage == SearchStage::Widening ==> 0 <= s.next_term < s.expanded_terms.len()
}

/// Whether a search state is well-formed (see `search_wf`).
pub fn search_wf_holds(state: &SearchState) -> (r: bool)
    ensures
        r == search_wf(state@),
{
    match state.stage {
        SearchStage::Widening => state.next_term < state.expanded_terms.len(),
        _ => true,
    }
}

/// The position of the first candidate with this id.
fn find_candidate(cands: &Vec<SemanticCandidate>, id: &String) -> (r: Option<usize>)
    ensures
        match r {
            Some(i) => first_with_id(cands@, id@) == Some(i as int),
            None => first_with_id(cands@, id@) is None,
        },
{
    let n = cands.len();
    let mut found: Option<usize> = None;
    let mut i: usize = 0;
    assert(cands@.take(0) =~= Seq::<SemanticCandidate>::empty());
    while i < n
        invariant
            n == cands@.len(),
            i <= n,
            match found {
                Some(k) => first_with_id(cands@.take(i as int), id@) == Some(k as int),
                None => first_with_id(cands@.take(i as int), id@) is None,
            },
        decreases n - i,
    {
        assert(cands@.take(i + 1).drop_last() =~= cands@.take(i as int));
        if found.is_none() && str_eq(cands[i].id.as_str(), id.as_str()) {
            found = Some(i);
        }
        i = i + 1;
    }
    assert(cands@.take(n as int) =~= cands@);
    found
}

/// The hits of a rerank: its results that name a candidate, at most `limit`.
fn ranked_hits(ids: &Vec<String>, cands: &Vec<SemanticCandidate>, limit: usize) -> (r: Vec<
    PlannedHit,
>)
    ensures
        r@ == take_at_most(ranked_all(string_views(ids@), cands@), limit as int),
{
    let n = ids.len();
    let ghost iv = string_views(ids@);
    let mut hits: Vec<PlannedHit> = Vec::new();
    let mut i: usize = 0;
    assert(iv.take(0) =~= Seq::<Seq<char>>::empty());
    while i < n
        invariant
            n == ids@.len(),
            iv == string_views(ids@),
            i <= n,
            hits@ == ranked_all(iv.take(i as int), cands@),
        decreases n - i,
    {
        proof {
            assert(iv.take(i + 1).drop_last() =~= iv.take(i as int));
            assert(iv.take(i + 1).last() == ids@[i as int]@);
        }
        match find_candidate(cands, &ids[i]) {
            Some(k) => {
                hits.push(PlannedHit { candidate: k, basis: HitBasis::Ranked(i) });
            },
            None => {},
        }
        i = i + 1;
    }
    assert(iv.take(n as int) =~= iv);
    hits.truncate(limit);
    hits
}

/// The hits when reranking failed: the direct matches, numbered, at most
/// `limit`.
fn local_hits(cands: &Vec<SemanticCandidate>, limit: usize) -> (r: Vec<PlannedHit>)
    ensures
        r@ == take_at_most(local_all(cands@), limit as int),
{
    let n = cands.len();
    let mut hits: Vec<PlannedHit> = Vec::new();
    let mut i: usize = 0;
    assert(cands@.take(0) =~= Seq::<SemanticCandidate>::empty());
    while i < n
        invariant
            n == cands@.len(),
            i <= n,
            hits@ == local_all(cands@.take(i as int)),
            hits@.len() <= i,
        decreases n - i,
    {
        proof {
            assert(cands@.take(i + 1).drop_last() =~= cands@.take(i as int));
        }
        if cands[i].local_match {
            let rank = hits.len();
            hits.push(PlannedHit { candidate: i, basis: HitBasis::Local(rank) });
        }
        i = i + 1;
    }
    assert(cands@.take(n as int) =~= cands@);
    hits.truncate(limit);
    hits
}

fn settle_state(s: SearchState) -> (r: (SearchState, SearchAction))
    ensures
        (r.0@, r.1@) == settle(s@),
{
    let mut s = s;
    if s.candidates.len() == 0 {
        s.stage = SearchStage::Finished;
        (s, SearchAction::Finish { hits: Vec::new() })
    } else if s.candidates.len() == 1 {
        s.stage = SearchStage::Finished;
        let mut hits: Vec<PlannedHit> = Vec::new();
        hits.push(PlannedHit { candidate: 0, basis: HitBasis::Sole });
        (s, SearchAction::Finish { hits })
    } else {
        s.stage = SearchStage::Ranking;
        let result_limit = s.limit;
        (s, SearchAction::Rerank { result_limit })
    }
}

fn fill_state(s: SearchState) -> (r: (SearchState, SearchAction))
    ensures
        (r.0@, r.1@) == fill(s@),
{
    let mut s = s;
    if s.candidates.len() < MAX_CANDIDATES {
        s.stage = SearchStage::Filling;
        (s, SearchAction::LoadRecent { limit: MAX_CANDIDATES })
    } else {
        settle_state(s)
    }
}

fn widen_state(s: SearchState) -> (r: (SearchState, SearchAction))
    ensures
        (r.0@, r.1@) == widen(s@),
{
    let mut s = s;
    if s.next_term < s.expanded_terms.len() && s.candidates.len() < MAX_CANDIDATES {
        let term = s.expanded_terms[s.next_term].clone();
        let limit = MAX_CANDIDATES - s.candidates.len();
        s.stage = SearchStage::Widening;
        (s, SearchAction::LoadMatching { term, limit })
    } else {
        fill_state(s)
    }
}

/// The first state and action of a search for a normalized query, which
/// returns at most `limit` hits.
pub fn begin_search(query: String, limit: usize) -> (r: (SearchState, SearchAction))
    ensures
        (r.0@, r.1@) == search_begin(query@, limit as int),
        search_wf(r.0@),
{
    let term = query.clone();
    let state = SearchState {
        query,
        limit,
        stage: SearchStage::Matching,
        candidates: Vec::new(),
        expanded_terms: Vec::new(),
        next_term: 0,
    };
    assert(string_views(state.expanded_terms@) =~= Seq::<Seq<char>>::empty());
    (state, SearchAction::LoadMatching { term, limit: MAX_CANDIDATES })
}

fn loaded_step(state: SearchState, c: Vec<SemanticCandidate>) -> (r: (SearchState, SearchAction))
    requires
        search_wf(state@),
    ensures
        (r.0@, r.1@) == on_loaded(state@, c@),
{
    let mut s = state;
    match s.stage {
        SearchStage::Matching => {
            let few = c.len() < EXPAND_BELOW;
            s.candidates = c;
            proof {
                assert(s@ == SearchStateView { candidates: c@, ..state@ });
            }
            if few {
                s.stage = SearchStage::Expanding;
                (s, SearchAction::ExpandQuery)
            } else {
                fill_state(s)
            }
        },
        SearchStage::Widening => {
            let term_count = s.expanded_terms.len();
            let mut cands = s.candidates;
            merge_candidates(&mut cands, c);
            s.candidates = cands;
            s.next_term = s.next_term + 1;
            proof {
                assert(s@ == SearchStateView {
                    candidates: merged(state@.candidates, c@),
                    next_term: state@.next_term + 1,
                    ..state@
                });
            }
            widen_state(s)
        },
        SearchStage::Filling => {
            let mut cands = s.candidates;
            let ghost held = cands@;
            merge_candidates(&mut cands, c);
            cands.truncate(MAX_CANDIDATES);
            assert(cands@ =~= take_at_most(merged(held, c@), MAX_CANDIDATES as int));
            s.candidates = cands;
            proof {
                assert(s@ == SearchStateView {
                    candidates: take_at_most(merged(state@.candidates, c@), MAX_CANDIDATES as int),
                    ..state@
                });
            }
            settle_state(s)
        },
        _ => (s, SearchAction::Idle),
    }
}

fn expanded_step(state: SearchState, t: Option<Vec<String>>) -> (r: (SearchState, SearchAction))
    ensures
        (r.0@, r.1@) == on_expanded(
            state@,
            match t {
                Some(v) => Some(string_views(v@)),
                None => None,
            },
        ),
{
    let mut s = state;
    match s.stage {
        SearchStage::Expanding => {
            s.expanded_terms = match t {
                Some(v) => v,
                None => Vec::new(),
            };
            s.next_term = 0;
            proof {
                if t is None {
                    assert(string_views(s.expanded_terms@) =~= Seq::<Seq<char>>::empty());
                }
            }
            widen_state(s)
        },
        _ => (s, SearchAction::Idle),
    }
}

fn ranked_step(state: SearchState, r: Option<Vec<String>>) -> (out: (SearchState, SearchAction))
    ensures
        (out.0@, out.1@) == on_ranked(
            state@,
            match r {
                Some(v) => Some(string_views(v@)),
                None => None,
            },
        ),
{
    let mut s = state;
    match s.stage {
        SearchStage::Ranking => {
            let hits = match r {
                Some(ids) => ranked_hits(&ids, &s.candidates, s.limit),
                None => local_hits(&s.candidates, s.limit),
            };
            s.stage = SearchStage::Finished;
            (s, SearchAction::Finish { hits })
        },
        _ => (s, SearchAction::Idle),
    }
}

/// The next state and action of a search, given what its last action
/// brought back (see `search_next`).
pub fn search_step(state: SearchState, event: SearchEvent) -> (r: (SearchState, SearchAction))
    requires
        search_wf(state@),
    ensures
        (r.0@, r.1@) == search_next(state@, event@),
        search_wf(r.0@),
{
    match event {
        SearchEvent::Loaded(c) => loaded_step(state, c),
        SearchEvent::Expanded(t) => expanded_step(state, t),
        SearchEvent::Ranked(r) => ranked_step(state, r),
    }
}

/// The first candidate with an id is one of the candidates and has that id.
pub proof fn lemma_first_with_id(cands: Seq<SemanticCandidate>, id: Seq<char>)
    ensures
        first_with_id(cands, id) matches Some(i) ==> 0 <= i < cands.len() && cands[i].id@ == id,
    decreases cands.len(),
{
    if cands.len() > 0 {
        lemma_first_with_id(cands.drop_last(), id);
    }
}

/// Every ranked hit names a candidate; there are no more than results.
pub proof fn lemma_ranked_all(ids: Seq<Seq<char>>, cands: Seq<SemanticCandidate>)
    requires
        cands.len() <= usize::MAX,
    ensures
        ranked_all(ids, cands).len() <= ids.len(),
        forall|k: int|
            0 <= k < ranked_all(ids, cands).len() ==> (#[trigger] ranked_all(ids, cands)[k]).candidate
                < cands.len(),
    decreases ids.len(),
{
    if ids.len() > 0 {
        lemma_ranked_all(ids.drop_last(), cands);
        lemma_first_with_id(cands, ids.last());
    }
}

/// Every fallback hit names a candidate that matched the query directly.
pub proof fn lemma_local_all(cands: Seq<SemanticCandidate>)
    requires
        cands.len() <= usize::MAX,
    ensures
        local_all(cands).len() <= cands.len(),
        forall|k: int|
            0 <= k < local_all(cands).len() ==> (#[trigger] local_all(cands)[k]).candidate
                < cands.len() && cands[local_all(cands)[k].candidate as int].local_match,
    decreases cands.len(),
{
    if cands.len() > 0 {
        lemma_local_all(cands.drop_last());
        let r = local_all(cands.drop_last());
        assert forall|k: int| 0 <= k < r.len() implies cands[(#[trigger] r[k]).candidate as int]
            == cands.drop_last()[r[k].candidate as int] by {}
    }
}

/// Every step keeps a search well-formed; filling leaves at most
/// `MAX_CANDIDATES` candidates; and the hits a search finishes with are at
/// most `limit` and each names one of its candidates.
pub proof fn lemma_search_next_hits(s: SearchStateView, e: SearchEventView)
    requires
        search_wf(s),
        s.limit >= 1,
        s.candidates.len() <= usize::MAX,
    ensures
        search_wf(search_next(s, e).0),
        s.stage == SearchStage::Filling && e is Loaded ==> search_next(s, e).0.candidates.len()
            <= MAX_CANDIDATES,
        search_next(s, e).1 matches SearchActionView::Finish { hits } ==> hits.len() <= s.limit
            && forall|k: int|
            0 <= k < hits.len() ==> (#[trigger] hits[k]).candidate < search_next(
                s,
                e,
            ).0.candidates.len(),
{
    lemma_ranked_all(
        match e {
            SearchEventView::Ranked(Some(ids)) => ids,
            _ => Seq::empty(),
        },
        s.candidates,
    );
    lemma_local_all(s.candidates);
}

} // verus!
