//! Research plans: gaps in the library that are worth researching next.
use vstd::prelude::*;
use crate::search::{
    fts_terms, join_fts_terms, like_escape, like_escaped, trim_punct, trim_punctuation,
};
use crate::text::{
    ascii_lower, ascii_lowercase, char_count, char_vec_views, chars_of, clone_strings,
    collapse_whitespace, collapse_ws, contains_string, join, push_str, split_words, str_eq,
    string_views, sub_chars, take_chars, to_lowercase, trim, trim_str, trim_take_str,
    unicode_lowercase, words,
};

verus! {

/// Existing knowledge retrieved for a research topic.
#[derive(Clone, Debug)]
pub struct ResearchKnowledgeRecord {
    pub id: String,
    pub core_claim: String,
    pub title: Option<String>,
    pub author: Option<String>,
    pub mastery_score: i64,
    pub quality_status: String,
}

/// One gap of a research plan.
#[derive(Clone, Debug)]
pub struct ResearchGapRecord {
    pub id: String,
    pub plan_id: String,
    pub position: i64,
    pub title: String,
    pub rationale: String,
    pub priority: String,
    pub search_query: String,
    pub status: String,
    pub related_knowledge_ids: Vec<String>,
    pub source_ids: Vec<String>,
    pub created_at: i64,
    pub updated_at: i64,
}

/// A research plan with its gaps and the knowledge it was based on.
#[derive(Clone, Debug)]
pub struct ResearchPlanDetail {
    pub id: String,
    pub topic: String,
    pub summary: String,
    pub coverage_score: i64,
    pub status: String,
    pub source_knowledge_ids: Vec<String>,
    pub knowledge: Vec<ResearchKnowledgeRecord>,
    pub gaps: Vec<ResearchGapRecord>,
    pub created_at: i64,
    pub updated_at: i64,
}

/// A research plan in a list, with the progress of its gaps.
#[derive(Clone, Debug)]
pub struct ResearchPlanSummary {
    pub id: String,
    pub topic: String,
    pub summary: String,
    pub coverage_score: i64,
    pub status: String,
    pub open_count: i64,
    pub collecting_count: i64,
    pub covered_count: i64,
    pub dismissed_count: i64,
    pub created_at: i64,
    pub updated_at: i64,
}

/// What the planner is given: a topic and the knowledge found for it.
#[derive(Clone, Debug)]
pub struct ResearchInput<'a> {
    pub topic: &'a str,
    pub existing_knowledge: &'a [ResearchKnowledgeInput],
}

/// A piece of existing knowledge as the planner sees it.
#[derive(Clone, Debug)]
pub struct ResearchKnowledgeInput {
    pub id: String,
    pub claim: String,
    pub concepts: Vec<String>,
    pub mastery_score: i64,
    pub quality_status: String,
}

/// A research plan as the planner proposes it.
#[derive(Clone, Debug)]
pub struct ResearchOutput {
    pub summary: String,
    pub coverage_score: i64,
    pub gaps: Vec<ResearchGapOutput>,
}

/// A gap as the planner proposes it.
#[derive(Clone, Debug)]
pub struct ResearchGapOutput {
    pub title: String,
    pub rationale: String,
    pub priority: String,
    pub search_query: String,
    pub related_knowledge_ids: Vec<String>,
}

pub struct GapView {
    pub title: Seq<char>,
    pub rationale: Seq<char>,
    pub priority: Seq<char>,
    pub search_query: Seq<char>,
    pub related_knowledge_ids: Seq<Seq<char>>,
}

impl View for ResearchGapOutput {
    type V = GapView;

    open spec fn view(&self) -> GapView {
        GapView {
            title: self.title@,
            rationale: self.rationale@,
            priority: self.priority@,
            search_query: self.search_query@,
            related_knowledge_ids: string_views(self.related_knowledge_ids@),
        }
    }
}

pub open spec fn gap_views(v: Seq<ResearchGapOutput>) -> Seq<GapView> {
    v.map_values(|g: ResearchGapOutput| g@)
}

pub open spec fn input_ids(v: Seq<ResearchKnowledgeInput>) -> Seq<Seq<char>> {
    v.map_values(|k: ResearchKnowledgeInput| k.id@)
}

/// The trimmed text cut to `max` characters.
pub open spec fn bounded_spec(v: Seq<char>, max: int) -> Seq<char> {
    take_chars(trim(v), max)
}

/// A research topic with whitespace collapsed, valid with 2 to 120 characters.
pub open spec fn valid_topic(v: Seq<char>) -> bool {
    2 <= collapse_ws(v).len() <= 120
}

/// The first five words of a topic, without ASCII punctuation at their ends,
/// that keep at least two characters.
pub open spec fn topic_terms(ws: Seq<Seq<char>>) -> Seq<Seq<char>>
    decreases ws.len(),
{
    if ws.len() == 0 {
        Seq::empty()
    } else {
        let t = topic_terms(ws.drop_last());
        let v = trim_punct(ws.last());
        if t.len() < 5 && v.len() >= 2 {
            t.push(v)
        } else {
            t
        }
    }
}

/// The FTS5 expression for a research topic: its terms, or else its first 32
/// characters, as prefix terms joined by `OR`.
pub open spec fn research_expression(topic: Seq<char>) -> Seq<char> {
    let t = topic_terms(words(topic));
    let terms = if t.len() > 0 {
        t
    } else {
        seq![take_chars(topic, 32)]
    };
    join(fts_terms(terms), " OR "@)
}

/// The related ids kept for a gap: trimmed, known, distinct, at most eight.
pub open spec fn related_ids(ids: Seq<Seq<char>>, allowed: Seq<Seq<char>>) -> Seq<Seq<char>>
    decreases ids.len(),
{
    if ids.len() == 0 {
        Seq::empty()
    } else {
        let r = related_ids(ids.drop_last(), allowed);
        let t = trim(ids.last());
        if r.len() < 8 && t.len() > 0 && allowed.contains(t) && !r.contains(t) {
            r.push(t)
        } else {
            r
        }
    }
}

pub open spec fn is_priority(p: Seq<char>) -> bool {
    p == "high"@ || p == "medium"@ || p == "low"@
}

/// A validated gap: its texts trimmed and cut (title 140, rationale 700,
/// query 100 characters), each at least two characters, a priority of high,
/// medium or low after trimming and lowercasing, and its related ids.
pub open spec fn validated_gap(g: GapView, allowed: Seq<Seq<char>>) -> Result<GapView, Seq<char>> {
    let title = bounded_spec(g.title, 140);
    let rationale = bounded_spec(g.rationale, 700);
    let query = bounded_spec(g.search_query, 100);
    let priority = ascii_lower(trim(g.priority));
    if title.len() < 2 || rationale.len() < 2 || query.len() < 2 {
        Err("research gap fields are too short"@)
    } else if !is_priority(priority) {
        Err("research gap priority is unsupported"@)
    } else {
        Ok(
            GapView {
                title,
                rationale,
                priority,
                search_query: query,
                related_knowledge_ids: related_ids(g.related_knowledge_ids, allowed),
            },
        )
    }
}

/// Each gap validated in turn; titles and queries must differ from those of
/// earlier gaps after Unicode lowercasing.
pub open spec fn validated_gaps(gaps: Seq<GapView>, allowed: Seq<Seq<char>>) -> Result<
    Seq<GapView>,
    Seq<char>,
>
    decreases gaps.len(),
{
    if gaps.len() == 0 {
        Ok(Seq::empty())
    } else {
        match validated_gaps(gaps.drop_last(), allowed) {
            Err(e) => Err(e),
            Ok(done) => match validated_gap(gaps.last(), allowed) {
                Err(e) => Err(e),
                Ok(g) => if exists|k: int|
                    0 <= k < done.len() && (unicode_lowercase(#[trigger] done[k].title)
                        == unicode_lowercase(g.title) || unicode_lowercase(done[k].search_query)
                        == unicode_lowercase(g.search_query)) {
                    Err("research gaps must not duplicate titles or search queries"@)
                } else {
                    Ok(done.push(g))
                },
            },
        }
    }
}

/// The gaps of one priority, in order.
pub open spec fn with_priority(gaps: Seq<GapView>, p: Seq<char>) -> Seq<GapView>
    decreases gaps.len(),
{
    if gaps.len() == 0 {
        Seq::empty()
    } else {
        let r = with_priority(gaps.drop_last(), p);
        if gaps.last().priority == p {
            r.push(gaps.last())
        } else {
            r
        }
    }
}

/// The gaps ordered high, medium, low, keeping their order within a priority.
pub open spec fn by_priority(gaps: Seq<GapView>) -> Seq<GapView> {
    with_priority(gaps, "high"@) + with_priority(gaps, "medium"@) + with_priority(gaps, "low"@)
}

/// A validated research plan: summary trimmed and cut to 900 characters and
/// not empty, coverage 0..=100, 3 to 6 validated gaps, ordered by priority.
pub open spec fn validated_plan(
    summary: Seq<char>,
    coverage: int,
    gaps: Seq<GapView>,
    allowed: Seq<Seq<char>>,
) -> Result<(Seq<char>, Seq<GapView>), Seq<char>> {
    let s = bounded_spec(summary, 900);
    if s.len() == 0 {
        Err("research plan summary is empty"@)
    } else if !(0 <= coverage <= 100) {
        Err("research coverage score must be between 0 and 100"@)
    } else if gaps.len() < 3 || gaps.len() > 6 {
        Err("research plan must contain 3 to 6 gaps"@)
    } else {
        match validated_gaps(gaps, allowed) {
            Err(e) => Err(e),
            Ok(vs) => Ok((s, by_priority(vs))),
        }
    }
}

/// An invalid gap invalidates every longer list that starts with it.
pub proof fn lemma_validated_gaps_err_prefix(gaps: Seq<GapView>, allowed: Seq<Seq<char>>, i: int)
    requires
        0 <= i <= gaps.len(),
        validated_gaps(gaps.take(i), allowed) is Err,
    ensures
        validated_gaps(gaps, allowed) == validated_gaps(gaps.take(i), allowed),
    decreases gaps.len() - i,
{
    if i < gaps.len() {
        assert(gaps.take(i + 1).drop_last() =~= gaps.take(i));
        lemma_validated_gaps_err_prefix(gaps, allowed, i + 1);
    } else {
        assert(gaps.take(i) =~= gaps);
    }
}

/// `validated_gaps` with the keys of each gap's title and query given by
/// position: a gap repeats an earlier one when its title key or its query
/// key is an earlier gap's.
pub open spec fn validated_gaps_keyed(
    gaps: Seq<GapView>,
    allowed: Seq<Seq<char>>,
    title_keys: Seq<Seq<char>>,
    query_keys: Seq<Seq<char>>,
) -> Result<Seq<GapView>, Seq<char>>
    decreases gaps.len(),
{
    if gaps.len() == 0 {
        Ok(Seq::empty())
    } else {
        match validated_gaps_keyed(gaps.drop_last(), allowed, title_keys, query_keys) {
            Err(e) => Err(e),
            Ok(done) => match validated_gap(gaps.last(), allowed) {
                Err(e) => Err(e),
                Ok(g) => {
                    let n = gaps.len() - 1;
                    if title_keys.take(n).contains(title_keys[n]) || query_keys.take(n).contains(
                        query_keys[n],
                    ) {
                        Err("research gaps must not duplicate titles or search queries"@)
                    } else {
                        Ok(done.push(g))
                    }
                },
            },
        }
    }
}

/// The key of each gap's title: the cut title, lowercased.
pub open spec fn gap_title_keys(gaps: Seq<GapView>) -> Seq<Seq<char>> {
    gaps.map_values(|g: GapView| unicode_lowercase(bounded_spec(g.title, 140)))
}

/// The key of each gap's search query: the cut query, lowercased.
pub open spec fn gap_query_keys(gaps: Seq<GapView>) -> Seq<Seq<char>> {
    gaps.map_values(|g: GapView| unicode_lowercase(bounded_spec(g.search_query, 100)))
}

/// An invalid or repeated gap decides every longer list that starts with it.
pub proof fn lemma_validated_gaps_keyed_err_prefix(
    gaps: Seq<GapView>,
    allowed: Seq<Seq<char>>,
    title_keys: Seq<Seq<char>>,
    query_keys: Seq<Seq<char>>,
    i: int,
)
    requires
        0 <= i <= gaps.len(),
        validated_gaps_keyed(gaps.take(i), allowed, title_keys, query_keys) is Err,
    ensures
        validated_gaps_keyed(gaps, allowed, title_keys, query_keys) == validated_gaps_keyed(
            gaps.take(i),
            allowed,
            title_keys,
            query_keys,
        ),
    decreases gaps.len() - i,
{
    if i < gaps.len() {
        assert(gaps.take(i + 1).drop_last() =~= gaps.take(i));
        lemma_validated_gaps_keyed_err_prefix(gaps, allowed, title_keys, query_keys, i + 1);
    } else {
        assert(gaps.take(i) =~= gaps);
    }
}

/// Validation keeps every gap, its title and query cut, its priority one of
/// the three.
pub proof fn lemma_validated_gaps_fields(gaps: Seq<GapView>, allowed: Seq<Seq<char>>)
    ensures
        validated_gaps(gaps, allowed) matches Ok(vs) ==> vs.len() == gaps.len() && forall|k: int|
            0 <= k < gaps.len() ==> (#[trigger] vs[k]).title == bounded_spec(gaps[k].title, 140)
                && vs[k].search_query == bounded_spec(gaps[k].search_query, 100) && is_priority(
                vs[k].priority,
            ),
    decreases gaps.len(),
{
    if gaps.len() > 0 {
        lemma_validated_gaps_fields(gaps.drop_last(), allowed);
        if let Ok(vs) = validated_gaps(gaps, allowed) {
            let done = validated_gaps(gaps.drop_last(), allowed)->Ok_0;
            assert forall|k: int| 0 <= k < gaps.len() implies (#[trigger] vs[k]).title == bounded_spec(
                gaps[k].title,
                140,
            ) && vs[k].search_query == bounded_spec(gaps[k].search_query, 100) && is_priority(
                vs[k].priority,
            ) by {
                if k < gaps.len() - 1 {
                    assert(vs[k] == done[k]);
                    assert(gaps.drop_last()[k] == gaps[k]);
                }
            }
        }
    }
}

/// With the keys of the gaps' lowercased titles and queries, keyed
/// validation is validation.
pub proof fn lemma_validated_gaps_keyed_is_validated(
    gaps: Seq<GapView>,
    allowed: Seq<Seq<char>>,
    title_keys: Seq<Seq<char>>,
    query_keys: Seq<Seq<char>>,
)
    requires
        title_keys.len() >= gaps.len(),
        query_keys.len() >= gaps.len(),
        forall|k: int| 0 <= k < gaps.len() ==> #[trigger] title_keys[k] == gap_title_keys(gaps)[k],
        forall|k: int| 0 <= k < gaps.len() ==> #[trigger] query_keys[k] == gap_query_keys(gaps)[k],
    ensures
        validated_gaps_keyed(gaps, allowed, title_keys, query_keys) == validated_gaps(gaps, allowed),
    decreases gaps.len(),
{
    if gaps.len() > 0 {
        let p = gaps.drop_last();
        assert forall|k: int| 0 <= k < p.len() implies #[trigger] title_keys[k] == gap_title_keys(p)[k] by {
            assert(gap_title_keys(gaps)[k] == gap_title_keys(p)[k]);
        }
        assert forall|k: int| 0 <= k < p.len() implies #[trigger] query_keys[k] == gap_query_keys(p)[k] by {
            assert(gap_query_keys(gaps)[k] == gap_query_keys(p)[k]);
        }
        lemma_validated_gaps_keyed_is_validated(p, allowed, title_keys, query_keys);
        lemma_validated_gaps_fields(p, allowed);
        let n = gaps.len() - 1;
        if let Ok(done) = validated_gaps(p, allowed) {
            if let Ok(g) = validated_gap(gaps.last(), allowed) {
                assert(gaps.last() == gaps[n]);
                assert(title_keys[n] == unicode_lowercase(g.title));
                assert(query_keys[n] == unicode_lowercase(g.search_query));
                let keyed_dup = title_keys.take(n).contains(title_keys[n]) || query_keys.take(
                    n,
                ).contains(query_keys[n]);
                let dup = exists|k: int|
                    0 <= k < done.len() && (unicode_lowercase(#[trigger] done[k].title)
                        == unicode_lowercase(g.title) || unicode_lowercase(done[k].search_query)
                        == unicode_lowercase(g.search_query));
                if title_keys.take(n).contains(title_keys[n]) {
                    let k = choose|k: int|
                        0 <= k < title_keys.take(n).len() && title_keys.take(n)[k] == title_keys[n];
                    assert(title_keys[k] == gap_title_keys(gaps)[k]);
                    assert(p[k] == gaps[k]);
                    assert(unicode_lowercase(done[k].title) == unicode_lowercase(g.title));
                }
                if query_keys.take(n).contains(query_keys[n]) {
                    let k = choose|k: int|
                        0 <= k < query_keys.take(n).len() && query_keys.take(n)[k] == query_keys[n];
                    assert(query_keys[k] == gap_query_keys(gaps)[k]);
                    assert(p[k] == gaps[k]);
                    assert(unicode_lowercase(done[k].search_query) == unicode_lowercase(
                        g.search_query,
                    ));
                }
                if dup {
                    let k = choose|k: int|
                        0 <= k < done.len() && (unicode_lowercase(#[trigger] done[k].title)
                            == unicode_lowercase(g.title) || unicode_lowercase(done[k].search_query)
                            == unicode_lowercase(g.search_query));
                    assert(p[k] == gaps[k]);
                    assert(title_keys[k] == gap_title_keys(gaps)[k]);
                    assert(query_keys[k] == gap_query_keys(gaps)[k]);
                    assert(title_keys.take(n)[k] == title_keys[k]);
                    assert(query_keys.take(n)[k] == query_keys[k]);
                }
                assert(keyed_dup == dup);
            }
        }
    }
}

/// Ordering by priority keeps every validated gap exactly once: the three
/// priority groups together are as many as the gaps.
pub proof fn lemma_by_priority_len(gaps: Seq<GapView>)
    requires
        forall|k: int| 0 <= k < gaps.len() ==> is_priority(#[trigger] gaps[k].priority),
    ensures
        by_priority(gaps).len() == gaps.len(),
    decreases gaps.len(),
{
    reveal_strlit("high");
    reveal_strlit("medium");
    reveal_strlit("low");
    if gaps.len() > 0 {
        let p = gaps.drop_last();
        assert forall|k: int| 0 <= k < p.len() implies is_priority(#[trigger] p[k].priority) by {
            assert(p[k] == gaps[k]);
        }
        lemma_by_priority_len(p);
        assert(is_priority(gaps.last().priority));
        assert("high"@.len() != "medium"@.len());
        assert("low"@.len() != "medium"@.len());
        assert("high"@[0] != "low"@[0]);
    }
}

/// A copy of a gap.
pub fn clone_gap(g: &ResearchGapOutput) -> (r: ResearchGapOutput)
    ensures
        r@ == g@,
{
    ResearchGapOutput {
        title: g.title.clone(),
        rationale: g.rationale.clone(),
        priority: g.priority.clone(),
        search_query: g.search_query.clone(),
        related_knowledge_ids: clone_strings(&g.related_knowledge_ids),
    }
}

/// A research topic with whitespace collapsed; an error when shorter than 2
/// or longer than 120 characters.
pub fn normalize_topic(value: &str) -> (r: Result<String, String>)
    ensures
        match r {
            Ok(t) => valid_topic(value@) && t@ == collapse_ws(value@),
            Err(e) => !valid_topic(value@) && e@ == (if collapse_ws(value@).len() < 2 {
                "research topic is too short"@
            } else {
                "research topic is too long"@
            }),
        },
{
    let topic = collapse_whitespace(value);
    let n = char_count(topic.as_str());
    if n < 2 {
        return Err("research topic is too short".to_string());
    }
    if n > 120 {
        return Err("research topic is too long".to_string());
    }
    Ok(topic)
}

/// An id, trimmed; an error when it is blank or longer than 160 characters.
pub fn required_id(value: &str, label: &str) -> (r: Result<String, String>)
    ensures
        match r {
            Ok(t) => 0 < trim(value@).len() <= 160 && t@ == trim(value@),
            Err(e) => (trim(value@).len() == 0 || trim(value@).len() > 160) && e@ == label@
                + " id is invalid"@,
        },
{
    let t = trim_str(value);
    let n = char_count(t.as_str());
    if n == 0 || n > 160 {
        let mut message = label.to_owned();
        push_str(&mut message, " id is invalid");
        return Err(message);
    }
    Ok(t)
}

/// The FTS5 expression for a research topic (see `research_expression`).
pub fn research_fts_expression(topic: &str) -> (r: String)
    ensures
        r@ == research_expression(topic@),
{
    let chars = chars_of(topic);
    let ws = split_words(chars.as_slice());
    let ghost wv = char_vec_views(ws@);
    let mut terms: Vec<Vec<char>> = Vec::new();
    let m = ws.len();
    let mut j: usize = 0;
    assert(wv.take(0) =~= Seq::<Seq<char>>::empty());
    assert(char_vec_views(terms@) =~= Seq::<Seq<char>>::empty());
    while j < m
        invariant
            m == ws@.len(),
            wv == char_vec_views(ws@),
            wv == words(topic@),
            j <= m,
            char_vec_views(terms@) == topic_terms(wv.take(j as int)),
        decreases m - j,
    {
        proof {
            let post = wv.take(j + 1);
            assert(post.drop_last() =~= wv.take(j as int));
            assert(post.last() == ws@[j as int]@);
        }
        if terms.len() < 5 {
            let t = trim_punctuation(ws[j].as_slice());
            if t.len() >= 2 {
                terms.push(t);
                assert(char_vec_views(terms@) =~= char_vec_views(terms@.drop_last()).push(
                    terms@.last()@,
                ));
            }
        }
        j = j + 1;
    }
    assert(wv.take(m as int) =~= wv);
    if terms.len() == 0 {
        let first = if chars.len() > 32 {
            sub_chars(chars.as_slice(), 0, 32)
        } else {
            sub_chars(chars.as_slice(), 0, chars.len())
        };
        assert(chars@.subrange(0, chars@.len() as int) =~= chars@);
        terms.push(first);
        assert(char_vec_views(terms@) =~= seq![take_chars(topic@, 32)]);
    }
    join_fts_terms(&terms, " OR ")
}

/// The text with `\`, `%` and `_` escaped for a `LIKE` pattern.
pub fn escape_like(value: &str) -> (r: String)
    ensures
        r@ == like_escaped(value@),
{
    like_escape(value)
}

/// The trimmed text, cut to `max_chars` characters.
pub fn bounded(value: &str, max_chars: usize) -> (r: String)
    ensures
        r@ == bounded_spec(value@, max_chars as int),
{
    trim_take_str(value, max_chars)
}

fn related_knowledge_ids(ids: &Vec<String>, allowed: &Vec<String>) -> (r: Vec<String>)
    ensures
        string_views(r@) == related_ids(string_views(ids@), string_views(allowed@)),
{
    let ghost iv = string_views(ids@);
    let mut r: Vec<String> = Vec::new();
    let n = ids.len();
    let mut i: usize = 0;
    assert(iv.take(0) =~= Seq::<Seq<char>>::empty());
    assert(string_views(r@) =~= Seq::<Seq<char>>::empty());
    while i < n
        invariant
            n == ids@.len(),
            iv == string_views(ids@),
            i <= n,
            string_views(r@) == related_ids(iv.take(i as int), string_views(allowed@)),
        decreases n - i,
    {
        proof {
            let post = iv.take(i + 1);
            assert(post.drop_last() =~= iv.take(i as int));
            assert(post.last() == ids@[i as int]@);
        }
        let t = trim_str(ids[i].as_str());
        if r.len() < 8 && char_count(t.as_str()) > 0 && contains_string(allowed, &t)
            && !contains_string(&r, &t) {
            r.push(t);
            assert(string_views(r@) =~= string_views(r@.drop_last()).push(r@.last()@));
        }
        i = i + 1;
    }
    assert(iv.take(n as int) =~= iv);
    r
}

fn validate_gap(g: &ResearchGapOutput, allowed: &Vec<String>) -> (r: Result<
    ResearchGapOutput,
    String,
>)
    ensures
        match r {
            Ok(v) => validated_gap(g@, string_views(allowed@)) == Ok::<GapView, Seq<char>>(v@),
            Err(e) => validated_gap(g@, string_views(allowed@)) == Err::<GapView, Seq<char>>(e@),
        },
{
    let title = trim_take_str(g.title.as_str(), 140);
    let rationale = trim_take_str(g.rationale.as_str(), 700);
    let search_query = trim_take_str(g.search_query.as_str(), 100);
    let p = trim_str(g.priority.as_str());
    let priority = ascii_lowercase(p.as_str());
    if char_count(title.as_str()) < 2 || char_count(rationale.as_str()) < 2 || char_count(
        search_query.as_str(),
    ) < 2 {
        return Err("research gap fields are too short".to_string());
    }
    if !(str_eq(priority.as_str(), "high") || str_eq(priority.as_str(), "medium") || str_eq(
        priority.as_str(),
        "low",
    )) {
        return Err("research gap priority is unsupported".to_string());
    }
    let related_knowledge_ids = related_knowledge_ids(&g.related_knowledge_ids, allowed);
    Ok(ResearchGapOutput { title, rationale, priority, search_query, related_knowledge_ids })
}

fn push_with_priority(out: &mut Vec<ResearchGapOutput>, gaps: &Vec<ResearchGapOutput>, p: &str)
    ensures
        gap_views(final(out)@) == gap_views(old(out)@) + with_priority(gap_views(gaps@), p@),
{
    let ghost gv = gap_views(gaps@);
    let n = gaps.len();
    let mut i: usize = 0;
    assert(gv.take(0) =~= Seq::<GapView>::empty());
    assert(gap_views(out@) =~= gap_views(old(out)@) + with_priority(gv.take(0), p@));
    while i < n
        invariant
            n == gaps@.len(),
            gv == gap_views(gaps@),
            i <= n,
            gap_views(out@) == gap_views(old(out)@) + with_priority(gv.take(i as int), p@),
        decreases n - i,
    {
        proof {
            let post = gv.take(i + 1);
            assert(post.drop_last() =~= gv.take(i as int));
            assert(post.last() == gaps@[i as int]@);
        }
        if str_eq(gaps[i].priority.as_str(), p) {
            let ghost before = gap_views(out@);
            out.push(clone_gap(&gaps[i]));
            assert(gap_views(out@) =~= before.push(gaps@[i as int]@));
        }
        i = i + 1;
    }
    assert(gv.take(n as int) =~= gv);
}

/// Validates gaps in turn (see `validated_gaps_keyed`), the keys of each
/// gap's title and query given by position; the first invalid or repeated
/// gap is the error.
pub fn validate_gaps_keyed(
    gaps: &Vec<ResearchGapOutput>,
    allowed: &Vec<String>,
    title_keys: &Vec<String>,
    query_keys: &Vec<String>,
) -> (r: Result<Vec<ResearchGapOutput>, String>)
    requires
        title_keys@.len() == gaps@.len(),
        query_keys@.len() == gaps@.len(),
    ensures
        match r {
            Ok(v) => validated_gaps_keyed(
                gap_views(gaps@),
                string_views(allowed@),
                string_views(title_keys@),
                string_views(query_keys@),
            ) == Ok::<Seq<GapView>, Seq<char>>(gap_views(v@)),
            Err(e) => validated_gaps_keyed(
                gap_views(gaps@),
                string_views(allowed@),
                string_views(title_keys@),
                string_views(query_keys@),
            ) == Err::<Seq<GapView>, Seq<char>>(e@),
        },
{
    let ghost gv = gap_views(gaps@);
    let ghost al = string_views(allowed@);
    let ghost tk = string_views(title_keys@);
    let ghost qk = string_views(query_keys@);
    let n = gaps.len();
    let mut validated: Vec<ResearchGapOutput> = Vec::new();
    let mut seen_titles: Vec<String> = Vec::new();
    let mut seen_queries: Vec<String> = Vec::new();
    let mut i: usize = 0;
    assert(gv.take(0) =~= Seq::<GapView>::empty());
    assert(gap_views(validated@) =~= Seq::<GapView>::empty());
    assert(string_views(seen_titles@) =~= tk.take(0));
    assert(string_views(seen_queries@) =~= qk.take(0));
    while i < n
        invariant
            n == gaps@.len(),
            n == title_keys@.len(),
            n == query_keys@.len(),
            gv == gap_views(gaps@),
            al == string_views(allowed@),
            tk == string_views(title_keys@),
            qk == string_views(query_keys@),
            i <= n,
            validated_gaps_keyed(gv.take(i as int), al, tk, qk) == Ok::<Seq<GapView>, Seq<char>>(
                gap_views(validated@),
            ),
            string_views(seen_titles@) == tk.take(i as int),
            string_views(seen_queries@) == qk.take(i as int),
        decreases n - i,
    {
        proof {
            let post = gv.take(i + 1);
            assert(post.drop_last() =~= gv.take(i as int));
            assert(post.last() == gaps@[i as int]@);
            assert(post.len() - 1 == i);
        }
        let g = match validate_gap(&gaps[i], allowed) {
            Ok(g) => g,
            Err(e) => {
                proof {
                    lemma_validated_gaps_keyed_err_prefix(gv, al, tk, qk, i + 1);
                }
                return Err(e);
            },
        };
        assert(tk[i as int] == title_keys@[i as int]@);
        assert(qk[i as int] == query_keys@[i as int]@);
        let dup_title = contains_string(&seen_titles, &title_keys[i]);
        let dup_query = contains_string(&seen_queries, &query_keys[i]);
        if dup_title || dup_query {
            proof {
                lemma_validated_gaps_keyed_err_prefix(gv, al, tk, qk, i + 1);
            }
            return Err("research gaps must not duplicate titles or search queries".to_string());
        }
        let ghost done = gap_views(validated@);
        validated.push(g);
        seen_titles.push(title_keys[i].clone());
        seen_queries.push(query_keys[i].clone());
        assert(gap_views(validated@) =~= done.push(validated@.last()@));
        assert(tk.take(i + 1) =~= tk.take(i as int).push(tk[i as int]));
        assert(qk.take(i + 1) =~= qk.take(i as int).push(qk[i as int]));
        assert(string_views(seen_titles@) =~= tk.take(i + 1));
        assert(string_views(seen_queries@) =~= qk.take(i + 1));
        i = i + 1;
    }
    assert(gv.take(n as int) =~= gv);
    Ok(validated)
}

/// Validates a research plan (see `validated_plan`): gaps that name unknown
/// knowledge keep only the known ids, gaps are ordered high, medium, low.
pub fn validate_research_output(output: ResearchOutput, input: &ResearchInput<'_>) -> (r: Result<
    ResearchOutput,
    String,
>)
    ensures
        match r {
            Ok(o) => validated_plan(
                output.summary@,
                output.coverage_score as int,
                gap_views(output.gaps@),
                input_ids(input.existing_knowledge@),
            ) == Ok::<(Seq<char>, Seq<GapView>), Seq<char>>((o.summary@, gap_views(o.gaps@)))
                && o.coverage_score == output.coverage_score,
            Err(e) => validated_plan(
                output.summary@,
                output.coverage_score as int,
                gap_views(output.gaps@),
                input_ids(input.existing_knowledge@),
            ) == Err::<(Seq<char>, Seq<GapView>), Seq<char>>(e@),
        },
{
    let summary = trim_take_str(output.summary.as_str(), 900);
    if char_count(summary.as_str()) == 0 {
        return Err("research plan summary is empty".to_string());
    }
    if !(0 <= output.coverage_score && output.coverage_score <= 100) {
        return Err("research coverage score must be between 0 and 100".to_string());
    }
    let n = output.gaps.len();
    if n < 3 || n > 6 {
        return Err("research plan must contain 3 to 6 gaps".to_string());
    }
    let mut allowed: Vec<String> = Vec::new();
    let ghost kv = input.existing_knowledge@;
    let kn = input.existing_knowledge.len();
    let mut a: usize = 0;
    while a < kn
        invariant
            kn == kv.len(),
            kv == input.existing_knowledge@,
            a <= kn,
            string_views(allowed@) == input_ids(kv.take(a as int)),
        decreases kn - a,
    {
        let ghost before = string_views(allowed@);
        let id = input.existing_knowledge[a].id.clone();
        assert(id@ == kv[a as int].id@);
        allowed.push(id);
        assert(string_views(allowed@) =~= before.push(id@));
        assert(input_ids(kv.take(a + 1)) =~= input_ids(kv.take(a as int)).push(kv[a as int].id@));
        a = a + 1;
    }
    assert(kv.take(kn as int) =~= kv);
    let ghost gv = gap_views(output.gaps@);
    let mut title_keys: Vec<String> = Vec::new();
    let mut query_keys: Vec<String> = Vec::new();
    let mut j: usize = 0;
    while j < n
        invariant
            n == output.gaps@.len(),
            gv == gap_views(output.gaps@),
            j <= n,
            title_keys@.len() == j,
            query_keys@.len() == j,
            forall|k: int| 0 <= k < j ==> (#[trigger] title_keys@[k])@ == gap_title_keys(gv)[k],
            forall|k: int| 0 <= k < j ==> (#[trigger] query_keys@[k])@ == gap_query_keys(gv)[k],
        decreases n - j,
    {
        let title = bounded(output.gaps[j].title.as_str(), 140);
        let query = bounded(output.gaps[j].search_query.as_str(), 100);
        assert(gv[j as int] == output.gaps@[j as int]@);
        title_keys.push(to_lowercase(title.as_str()));
        query_keys.push(to_lowercase(query.as_str()));
        j = j + 1;
    }
    proof {
        assert forall|k: int| 0 <= k < gv.len() implies #[trigger] string_views(title_keys@)[k]
            == gap_title_keys(gv)[k] by {
            assert(string_views(title_keys@)[k] == title_keys@[k]@);
        }
        assert forall|k: int| 0 <= k < gv.len() implies #[trigger] string_views(query_keys@)[k]
            == gap_query_keys(gv)[k] by {
            assert(string_views(query_keys@)[k] == query_keys@[k]@);
        }
        lemma_validated_gaps_keyed_is_validated(
            gv,
            string_views(allowed@),
            string_views(title_keys@),
            string_views(query_keys@),
        );
        lemma_validated_gaps_fields(gv, string_views(allowed@));
    }
    let validated = match validate_gaps_keyed(&output.gaps, &allowed, &title_keys, &query_keys) {
        Ok(v) => v,
        Err(e) => return Err(e),
    };
    let mut ordered: Vec<ResearchGapOutput> = Vec::new();
    assert(gap_views(ordered@) =~= Seq::<GapView>::empty());
    push_with_priority(&mut ordered, &validated, "high");
    push_with_priority(&mut ordered, &validated, "medium");
    push_with_priority(&mut ordered, &validated, "low");
    assert(gap_views(ordered@) =~= by_priority(gap_views(validated@)));
    Ok(ResearchOutput { summary, coverage_score: output.coverage_score, gaps: ordered })
}


/// A gap keeps at most eight related ids, each one of the supplied
/// knowledge and none twice.
pub proof fn lemma_related_ids_known(ids: Seq<Seq<char>>, allowed: Seq<Seq<char>>)
    ensures
        related_ids(ids, allowed).len() <= 8,
        related_ids(ids, allowed).no_duplicates(),
        forall|k: int|
            0 <= k < related_ids(ids, allowed).len() ==> allowed.contains(
                #[trigger] related_ids(ids, allowed)[k],
            ),
    decreases ids.len(),
{
    if ids.len() > 0 {
        lemma_related_ids_known(ids.drop_last(), allowed);
        let r = related_ids(ids.drop_last(), allowed);
        let t = trim(ids.last());
        if r.len() < 8 && t.len() > 0 && allowed.contains(t) && !r.contains(t) {
            let r2 = r.push(t);
            assert forall|a: int, b: int| 0 <= a < b < r2.len() implies r2[a] != r2[b] by {
                if b == r2.len() - 1 {
                    assert(r2[a] == r[a]);
                }
            }
            assert forall|k: int| 0 <= k < r2.len() implies allowed.contains(#[trigger] r2[k]) by {
                if k < r.len() {
                    assert(r2[k] == r[k]);
                }
            }
        }
    }
}

/// Every validated gap has a priority of high, medium or low, and titles
/// and queries differ between gaps after lowercasing.
pub proof fn lemma_validated_gaps_distinct(gaps: Seq<GapView>, allowed: Seq<Seq<char>>)
    ensures
        validated_gaps(gaps, allowed) matches Ok(vs) ==> vs.len() == gaps.len() && (forall|k: int|
            0 <= k < vs.len() ==> is_priority(#[trigger] vs[k].priority)) && (forall|a: int, b: int|
            0 <= a < b < vs.len() ==> unicode_lowercase(#[trigger] vs[a].title) != unicode_lowercase(
                #[trigger] vs[b].title,
            ) && unicode_lowercase(vs[a].search_query) != unicode_lowercase(vs[b].search_query)),
    decreases gaps.len(),
{
    if gaps.len() > 0 {
        lemma_validated_gaps_distinct(gaps.drop_last(), allowed);
        if let Ok(vs) = validated_gaps(gaps, allowed) {
            let done = validated_gaps(gaps.drop_last(), allowed)->Ok_0;
            assert(vs == done.push(vs.last()));
            assert forall|a: int, b: int| 0 <= a < b < vs.len() implies unicode_lowercase(
                #[trigger] vs[a].title,
            ) != unicode_lowercase(#[trigger] vs[b].title) && unicode_lowercase(vs[a].search_query)
                != unicode_lowercase(vs[b].search_query) by {
                assert(vs[a] == done[a]);
                if b < done.len() {
                    assert(vs[b] == done[b]);
                }
            }
            assert forall|k: int| 0 <= k < vs.len() implies is_priority(#[trigger] vs[k].priority) by {
                if k < done.len() {
                    assert(vs[k] == done[k]);
                }
            }
        }
    }
}


/// A research gap status, trimmed and in ASCII lowercase: one of `open`,
/// `collecting`, `covered`, `dismissed`.
pub fn gap_status(status: &str) -> (r: Result<String, String>)
    ensures
        ({
            let s = ascii_lower(trim(status@));
            if s == "open"@ || s == "collecting"@ || s == "covered"@ || s == "dismissed"@ {
                r matches Ok(t) && t@ == s
            } else {
                r matches Err(e) && e@ == "unsupported research gap status"@
            }
        }),
{
    let t = trim_str(status);
    let s = ascii_lowercase(t.as_str());
    if str_eq(s.as_str(), "open") || str_eq(s.as_str(), "collecting") || str_eq(s.as_str(), "covered")
        || str_eq(s.as_str(), "dismissed") {
        Ok(s)
    } else {
        Err("unsupported research gap status".to_string())
    }
}

} // verus!
